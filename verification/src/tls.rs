//! The server side of the TLS connection, on `rustls`: loading the
//! certificate chain and private key, making the configuration and the
//! session, and moving bytes between the network buffers and the session.
use std::io::{Cursor, Read, Write};
use std::sync::Arc;

use rustls::Session;
use vstd::prelude::*;

use crate::text::contains;

verus! {

/// The largest payload of a TLS record.
pub const MAX_PAYLOAD: u16 = 16384 + 2048;

/// The size of a TLS record header: type, version and length.
pub const HEADER_SIZE: u16 = 1 + 2 + 2;

/// The size of the buffers that hold encrypted bytes: one whole record.
pub const MAX_WIRE_SIZE: usize = (MAX_PAYLOAD + HEADER_SIZE) as usize;

#[verifier::external_type_specification]
#[verifier::external_body]
pub struct ExServerSession(rustls::ServerSession);

#[verifier::external_type_specification]
#[verifier::external_body]
pub struct ExServerConfig(rustls::ServerConfig);

#[verifier::external_type_specification]
#[verifier::external_body]
pub struct ExTlsError(rustls::TLSError);

/// Why the TLS side failed.
#[derive(PartialEq, Eq, Structural, Clone, Copy, Debug)]
pub enum TlsError {
    /// The certificate file does not decode.
    InvalidCertificates,
    /// The key file holds an RSA private key section that does not decode.
    InvalidRsaKey,
    /// The key file holds a PKCS#8 private key section that does not decode.
    InvalidPkcs8Key,
    /// The key file holds no private key.
    NoPrivateKey,
    /// `rustls` refused the certificate chain and key.
    BadCertificatesOrKey,
    /// Moving bytes into or out of the session failed.
    Io,
    /// The peer's records broke the TLS protocol.
    Protocol,
    /// The session had more to send than the output buffer takes.
    OutputFull,
}

/// The DER certificates that `rustls::internal::pemfile::certs` decodes from
/// the PEM text `pem`, or `None` where it fails.
pub uninterp spec fn pem_certificates(pem: Seq<u8>) -> Option<Seq<Seq<u8>>>;

/// The DER keys that `rustls::internal::pemfile::rsa_private_keys` decodes
/// from the PEM text `pem`, or `None` where it fails.
pub uninterp spec fn pem_rsa_private_keys(pem: Seq<u8>) -> Option<Seq<Seq<u8>>>;

/// The DER keys that `rustls::internal::pemfile::pkcs8_private_keys` decodes
/// from the PEM text `pem`, or `None` where it fails.
pub uninterp spec fn pem_pkcs8_private_keys(pem: Seq<u8>) -> Option<Seq<Seq<u8>>>;

/// True when the DER bytes `key` decode as a private key of a kind that
/// `rustls` signs with: RSA, ECDSA or Ed25519.
pub uninterp spec fn private_key_usable(key: Seq<u8>) -> bool;

/// The DER certificates that `rustls_pemfile::certs` decodes from the PEM
/// text `pem`, or `None` where it fails.
pub uninterp spec fn pemfile_x509_certificates(pem: Seq<u8>) -> Option<Seq<Seq<u8>>>;

/// The DER encoding of the object identifier of elliptic-curve public keys
/// (1.2.840.10045.2.1), with which the algorithm of every PKCS#8 ECDSA key
/// begins.
pub open spec fn ec_public_key_oid() -> Seq<u8> {
    seq![0x06u8, 0x07u8, 0x2au8, 0x86u8, 0x48u8, 0xceu8, 0x3du8, 0x02u8, 0x01u8]
}

/// A server configuration of `rustls`, with the certificate chain and the
/// private key that it was given, as DER bytes.
pub struct TlsConfig {
    config: rustls::ServerConfig,
    certified: Ghost<Option<(Seq<Seq<u8>>, Seq<u8>)>>,
}

impl TlsConfig {
    /// The certificate chain and the private key that the configuration
    /// serves with, `None` while none was set.
    pub closed spec fn certified(&self) -> Option<(Seq<Seq<u8>>, Seq<u8>)> {
        self.certified@
    }
}

/// One exchange between the library and a `rustls` server session, as the
/// session's record keeps it.
pub enum TlsEvent {
    /// `read_tls` was offered the encrypted bytes `offered` and took `taken`
    /// of them, `None` where it failed.
    ReadTls { offered: Seq<u8>, taken: Option<nat> },
    /// `process_new_packets` ran; `ok` says whether it accepted the records.
    Processed { ok: bool },
    /// `read_to_end` handed out the plaintext `plain`; `ok` says whether it
    /// ended without an error.
    ReadPlain { plain: Seq<u8>, ok: bool },
    /// `write_all` was handed the plaintext `plain`; `ok` says whether it
    /// took it.
    WrotePlain { plain: Seq<u8>, ok: bool },
    /// `wants_write` answered `wants`.
    WantsWrite { wants: bool },
    /// `write_tls` put out the encrypted bytes `records`, `None` where it
    /// failed.
    WroteRecords { records: Option<Seq<u8>> },
}

/// A `rustls` server session, with the certificate chain and key of the
/// configuration it was made on and the record of every exchange with it.
pub struct TlsSession {
    session: rustls::ServerSession,
    certified: Ghost<Option<(Seq<Seq<u8>>, Seq<u8>)>>,
    trace: Ghost<Seq<TlsEvent>>,
}

impl TlsSession {
    /// The certificate chain and private key of the session's configuration.
    pub closed spec fn certified(&self) -> Option<(Seq<Seq<u8>>, Seq<u8>)> {
        self.certified@
    }

    /// Every exchange with the session so far, oldest first.
    pub closed spec fn trace(&self) -> Seq<TlsEvent> {
        self.trace@
    }
}

/// `rustls::internal::pemfile::certs` on the bytes `pem`: the trusted
/// contract says that the result is the DER certificates named by
/// `pem_certificates`, a function of `pem` alone.
#[verifier::external_body]
fn pemfile_certs(pem: &[u8]) -> (r: Result<Vec<Vec<u8>>, ()>)
    ensures
        r is Ok <==> pem_certificates(pem@) is Some,
        r matches Ok(v) ==> v.deep_view() == pem_certificates(pem@)->Some_0,
{
    let mut reader = Cursor::new(pem);
    rustls::internal::pemfile::certs(&mut reader).map(|v| v.into_iter().map(|c| c.0).collect())
}

/// `rustls::internal::pemfile::rsa_private_keys` on the bytes `pem`: the
/// trusted contract says that the result is the DER keys named by
/// `pem_rsa_private_keys`, a function of `pem` alone.
#[verifier::external_body]
fn pemfile_rsa_private_keys(pem: &[u8]) -> (r: Result<Vec<Vec<u8>>, ()>)
    ensures
        r is Ok <==> pem_rsa_private_keys(pem@) is Some,
        r matches Ok(v) ==> v.deep_view() == pem_rsa_private_keys(pem@)->Some_0,
{
    let mut reader = Cursor::new(pem);
    rustls::internal::pemfile::rsa_private_keys(&mut reader).map(
        |v| v.into_iter().map(|k| k.0).collect(),
    )
}

/// `rustls::internal::pemfile::pkcs8_private_keys` on the bytes `pem`: the
/// trusted contract says that the result is the DER keys named by
/// `pem_pkcs8_private_keys`, a function of `pem` alone.
#[verifier::external_body]
fn pemfile_pkcs8_private_keys(pem: &[u8]) -> (r: Result<Vec<Vec<u8>>, ()>)
    ensures
        r is Ok <==> pem_pkcs8_private_keys(pem@) is Some,
        r matches Ok(v) ==> v.deep_view() == pem_pkcs8_private_keys(pem@)->Some_0,
{
    let mut reader = Cursor::new(pem);
    rustls::internal::pemfile::pkcs8_private_keys(&mut reader).map(
        |v| v.into_iter().map(|k| k.0).collect(),
    )
}

/// `rustls_pemfile::certs` on the bytes `pem`: the trusted contract says
/// that the result is the DER certificates named by
/// `pemfile_x509_certificates`, a function of `pem` alone.
#[verifier::external_body]
fn pemfile_x509_certs(pem: &[u8]) -> (r: Result<Vec<Vec<u8>>, ()>)
    ensures
        r is Ok <==> pemfile_x509_certificates(pem@) is Some,
        r matches Ok(v) ==> v.deep_view() == pemfile_x509_certificates(pem@)->Some_0,
{
    let mut reader = Cursor::new(pem);
    rustls_pemfile::certs(&mut reader).map_err(|_| ())
}

/// `rustls::ServerConfig::new` with `rustls::NoClientAuth::new()`: a server
/// configuration that asks no certificate of clients.  Nothing is claimed
/// of the value, which Verus does not see into.
#[verifier::external_body]
fn server_config_without_client_auth() -> (r: rustls::ServerConfig) {
    rustls::ServerConfig::new(rustls::NoClientAuth::new())
}

/// `rustls::ServerConfig::set_single_cert` with the DER chain `certs` and
/// the DER key `key`.  The trusted contract says that it fails where the key
/// does not decode (`private_key_usable`), and that where it succeeds the
/// key decoded and the configuration now serves with that chain and key;
/// where it fails the configuration is left as it was.  The chain itself is
/// not checked.  A key that decodes is refused only where it is an ECDSA key
/// (its bytes hold `ec_public_key_oid`), which is also refused when the
/// system's random source fails; success is not promised for those.
#[verifier::external_body]
fn server_config_set_single_cert(config: &mut TlsConfig, certs: Vec<Vec<u8>>, key: Vec<u8>) -> (r:
    Result<(), rustls::TLSError>)
    ensures
        r is Ok ==> private_key_usable(key@),
        !private_key_usable(key@) ==> r is Err,
        r is Err ==> !private_key_usable(key@) || contains(key@, ec_public_key_oid()),
        r is Ok ==> final(config).certified() == Some((certs.deep_view(), key@)),
        r is Err ==> final(config).certified() == old(config).certified(),
{
    let chain = certs.into_iter().map(rustls::Certificate).collect();
    config.config.set_single_cert(chain, rustls::PrivateKey(key))
}

/// `rustls::ServerSession::new` on the configuration `config`: the trusted
/// contract says that the session serves with the configuration's chain and
/// key, and that nothing has been exchanged with it yet.
#[verifier::external_body]
fn server_session_new(config: TlsConfig) -> (r: TlsSession)
    ensures
        r.certified() == config.certified(),
        r.trace() == Seq::<TlsEvent>::empty(),
{
    let session = rustls::ServerSession::new(&Arc::new(config.config));
    TlsSession { session, certified: config.certified, trace: Ghost(Seq::empty()) }
}

/// `Session::read_tls` of the session, reading from the bytes `data`: the
/// trusted contract says that it takes at most `data.len()` bytes, and the
/// exchange is recorded.
#[verifier::external_body]
fn session_read_tls(session: &mut TlsSession, data: &[u8]) -> (r: Result<usize, ()>)
    ensures
        r matches Ok(n) ==> n <= data@.len(),
        final(session).certified() == old(session).certified(),
        final(session).trace() == old(session).trace().push(
            TlsEvent::ReadTls {
                offered: data@,
                taken: match r {
                    Ok(n) => Some(n as nat),
                    Err(_) => None,
                },
            },
        ),
{
    let mut reader = Cursor::new(data);
    session.session.read_tls(&mut reader).map_err(|_| ())
}

/// `Session::process_new_packets` of the session.  Whether it succeeds
/// depends on the peer's records and the session's state, so only the
/// exchange is recorded.
#[verifier::external_body]
fn session_process_new_packets(session: &mut TlsSession) -> (r: Result<(), rustls::TLSError>)
    ensures
        final(session).certified() == old(session).certified(),
        final(session).trace() == old(session).trace().push(TlsEvent::Processed { ok: r is Ok }),
{
    session.session.process_new_packets()
}

/// `Read::read_to_end` of the session into `out`: the trusted contract says
/// that it only appends to `out`, and that on success it appended as many
/// bytes as it returns; the bytes appended are recorded.  What they are (the
/// plaintext the peer sent) is the session's.
#[verifier::external_body]
fn session_read_to_end(session: &mut TlsSession, out: &mut Vec<u8>) -> (r: Result<usize, ()>)
    ensures
        final(out)@.len() >= old(out)@.len(),
        final(out)@.take(old(out)@.len() as int) == old(out)@,
        r matches Ok(n) ==> final(out)@.len() == old(out)@.len() + n,
        final(session).certified() == old(session).certified(),
        final(session).trace() == old(session).trace().push(
            TlsEvent::ReadPlain { plain: final(out)@.skip(old(out)@.len() as int), ok: r is Ok },
        ),
{
    session.session.read_to_end(out).map_err(|_| ())
}

/// `Write::write_all` of the session with the plaintext `data`.  Nothing is
/// claimed of the outcome; the exchange is recorded.
#[verifier::external_body]
fn session_write_all(session: &mut TlsSession, data: &[u8]) -> (r: Result<(), ()>)
    ensures
        final(session).certified() == old(session).certified(),
        final(session).trace() == old(session).trace().push(
            TlsEvent::WrotePlain { plain: data@, ok: r is Ok },
        ),
{
    session.session.write_all(data).map_err(|_| ())
}

/// `Session::wants_write` of the session.  Nothing is claimed of the
/// answer; it is recorded.
#[verifier::external_body]
fn session_wants_write(session: &mut TlsSession) -> (r: bool)
    ensures
        final(session).certified() == old(session).certified(),
        final(session).trace() == old(session).trace().push(TlsEvent::WantsWrite { wants: r }),
{
    session.session.wants_write()
}

/// `Session::write_tls` of the session into `out[pos..]`: the trusted
/// contract says that it writes at most the room left and touches no byte
/// outside the ones it reports; the bytes written are recorded.  What they
/// are (encrypted records) is the session's.
#[verifier::external_body]
fn session_write_tls(session: &mut TlsSession, out: &mut [u8], pos: usize) -> (r: Result<
    usize,
    (),
>)
    requires
        pos <= old(out)@.len(),
    ensures
        final(out)@.len() == old(out)@.len(),
        final(out)@.take(pos as int) == old(out)@.take(pos as int),
        r matches Ok(n) ==> pos + n <= old(out)@.len() && final(out)@.skip(pos + n) == old(
            out,
        )@.skip(pos + n),
        final(session).certified() == old(session).certified(),
        final(session).trace() == old(session).trace().push(
            TlsEvent::WroteRecords {
                records: match r {
                    Ok(n) => Some(final(out)@.subrange(pos as int, pos + n)),
                    Err(_) => None,
                },
            },
        ),
{
    let mut writer: &mut [u8] = &mut out[pos..];
    session.session.write_tls(&mut writer).map_err(|_| ())
}

/// The DER certificates of the PEM text `pem`, or why they do not decode.
pub open spec fn certificates_of(pem: Seq<u8>) -> Result<Seq<Seq<u8>>, TlsError> {
    match pem_certificates(pem) {
        Some(c) => Ok(c),
        None => Err(TlsError::InvalidCertificates),
    }
}

/// The key chosen among the PKCS#8 keys `pkcs8` and the RSA keys `rsa`: the
/// first PKCS#8 key, else the first RSA key.
pub open spec fn chosen_key(pkcs8: Seq<Seq<u8>>, rsa: Seq<Seq<u8>>) -> Option<Seq<u8>> {
    if pkcs8.len() > 0 {
        Some(pkcs8[0])
    } else if rsa.len() > 0 {
        Some(rsa[0])
    } else {
        None
    }
}

/// The private key of the PEM text `pem`, or why there is none: the RSA
/// sections are decoded first, then the PKCS#8 ones, and a PKCS#8 key is
/// preferred.
pub open spec fn private_key_of(pem: Seq<u8>) -> Result<Seq<u8>, TlsError> {
    match pem_rsa_private_keys(pem) {
        None => Err(TlsError::InvalidRsaKey),
        Some(rsa) => match pem_pkcs8_private_keys(pem) {
            None => Err(TlsError::InvalidPkcs8Key),
            Some(pkcs8) => match chosen_key(pkcs8, rsa) {
                Some(k) => Ok(k),
                None => Err(TlsError::NoPrivateKey),
            },
        },
    }
}

/// The certificate chain and private key that the certificate file
/// `cert_pem` and the key file `key_pem` hold, or why they do not: the
/// certificates are decoded first, then the key.
pub open spec fn config_inputs(cert_pem: Seq<u8>, key_pem: Seq<u8>) -> Result<
    (Seq<Seq<u8>>, Seq<u8>),
    TlsError,
> {
    match certificates_of(cert_pem) {
        Err(e) => Err(e),
        Ok(chain) => match private_key_of(key_pem) {
            Err(e) => Err(e),
            Ok(key) => Ok((chain, key)),
        },
    }
}

/// What a configuration made from the files `cert_pem` and `key_pem` serves
/// with, against the outcome `made` (`Ok` with what the configuration
/// serves with): the files' errors come back as they are; where both decode,
/// a configuration serves with their chain and key, only a key that decodes
/// is taken, one that does not is refused, a key that decodes and is no
/// ECDSA key is always taken, and `rustls`'s refusal is
/// `BadCertificatesOrKey`.
pub open spec fn config_made(
    cert_pem: Seq<u8>,
    key_pem: Seq<u8>,
    made: Result<Option<(Seq<Seq<u8>>, Seq<u8>)>, TlsError>,
) -> bool {
    match config_inputs(cert_pem, key_pem) {
        Err(e) => made == Err::<Option<(Seq<Seq<u8>>, Seq<u8>)>, TlsError>(e),
        Ok((chain, key)) => {
            &&& made is Ok ==> made == Ok::<Option<(Seq<Seq<u8>>, Seq<u8>)>, TlsError>(
                Some((chain, key)),
            ) && private_key_usable(key)
            &&& made is Err ==> made == Err::<Option<(Seq<Seq<u8>>, Seq<u8>)>, TlsError>(
                TlsError::BadCertificatesOrKey,
            )
            &&& !private_key_usable(key) ==> made is Err
            &&& private_key_usable(key) && !contains(key, ec_public_key_oid()) ==> made == Ok::<
                Option<(Seq<Seq<u8>>, Seq<u8>)>,
                TlsError,
            >(Some((chain, key)))
        },
    }
}

/// What the configuration outcome `r` serves with.
pub open spec fn config_view(r: Result<TlsConfig, TlsError>) -> Result<
    Option<(Seq<Seq<u8>>, Seq<u8>)>,
    TlsError,
> {
    match r {
        Ok(config) => Ok(config.certified()),
        Err(e) => Err(e),
    }
}

/// What the session outcome `r` serves with.
pub open spec fn session_view(r: Result<TlsSession, TlsError>) -> Result<
    Option<(Seq<Seq<u8>>, Seq<u8>)>,
    TlsError,
> {
    match r {
        Ok(session) => Ok(session.certified()),
        Err(e) => Err(e),
    }
}

/// The certificate chain of the PEM text `pem`.
pub fn load_certs(pem: &[u8]) -> (r: Result<Vec<Vec<u8>>, TlsError>)
    ensures
        r is Ok <==> certificates_of(pem@) is Ok,
        r matches Ok(c) ==> certificates_of(pem@) == Ok::<Seq<Seq<u8>>, TlsError>(c.deep_view()),
        r matches Err(e) ==> certificates_of(pem@) == Err::<Seq<Seq<u8>>, TlsError>(e),
{
    match pemfile_certs(pem) {
        Ok(c) => Ok(c),
        Err(()) => Err(TlsError::InvalidCertificates),
    }
}

/// Picks the private key among decoded keys: the first PKCS#8 key, else
/// the first RSA key, else none.
pub fn select_private_key(pkcs8: &Vec<Vec<u8>>, rsa: &Vec<Vec<u8>>) -> (r: Option<Vec<u8>>)
    ensures
        r matches Some(k) ==> chosen_key(pkcs8.deep_view(), rsa.deep_view()) == Some(k@),
        r is None ==> chosen_key(pkcs8.deep_view(), rsa.deep_view()) is None,
{
    if pkcs8.len() > 0 {
        let k = vstd::slice::slice_to_vec(pkcs8[0].as_slice());
        assert(k@ =~= pkcs8.deep_view()[0]);
        Some(k)
    } else if rsa.len() > 0 {
        let k = vstd::slice::slice_to_vec(rsa[0].as_slice());
        assert(k@ =~= rsa.deep_view()[0]);
        Some(k)
    } else {
        None
    }
}

/// The private key of the PEM text `pem`, preferring a PKCS#8 key to an
/// RSA key.
pub fn load_private_key(pem: &[u8]) -> (r: Result<Vec<u8>, TlsError>)
    ensures
        r is Ok <==> private_key_of(pem@) is Ok,
        r matches Ok(k) ==> private_key_of(pem@) == Ok::<Seq<u8>, TlsError>(k@),
        r matches Err(e) ==> private_key_of(pem@) == Err::<Seq<u8>, TlsError>(e),
{
    let rsa = match pemfile_rsa_private_keys(pem) {
        Ok(keys) => keys,
        Err(()) => {
            return Err(TlsError::InvalidRsaKey);
        },
    };
    let pkcs8 = match pemfile_pkcs8_private_keys(pem) {
        Ok(keys) => keys,
        Err(()) => {
            return Err(TlsError::InvalidPkcs8Key);
        },
    };
    match select_private_key(&pkcs8, &rsa) {
        Some(k) => Ok(k),
        None => Err(TlsError::NoPrivateKey),
    }
}

/// The server configuration for the certificate file `cert_pem` and the
/// key file `key_pem`, asking no certificate of clients.
pub fn make_config(cert_pem: &[u8], key_pem: &[u8]) -> (r: Result<TlsConfig, TlsError>)
    ensures
        config_made(cert_pem@, key_pem@, config_view(r)),
{
    let certs = load_certs(cert_pem)?;
    let key = load_private_key(key_pem)?;
    let mut config = TlsConfig { config: server_config_without_client_auth(), certified: Ghost(None) };
    match server_config_set_single_cert(&mut config, certs, key) {
        Ok(()) => Ok(config),
        Err(_) => Err(TlsError::BadCertificatesOrKey),
    }
}

/// A fresh server session, configured from the certificate file `cert_pem`
/// and the key file `key_pem`.
pub fn new_tls_session(cert_pem: &[u8], key_pem: &[u8]) -> (r: Result<TlsSession, TlsError>)
    ensures
        config_made(cert_pem@, key_pem@, session_view(r)),
        r matches Ok(session) ==> session.trace() == Seq::<TlsEvent>::empty(),
{
    let config = make_config(cert_pem, key_pem)?;
    Ok(server_session_new(config))
}

/// The certificates of the PEM text `ca_pem` that a client trusts besides
/// the public roots.
pub fn load_client_roots(ca_pem: &[u8]) -> (r: Result<Vec<Vec<u8>>, TlsError>)
    ensures
        r is Ok <==> pemfile_x509_certificates(ca_pem@) is Some,
        r matches Ok(v) ==> v.deep_view() == pemfile_x509_certificates(ca_pem@)->Some_0,
        r matches Err(e) ==> e == TlsError::InvalidCertificates,
{
    match pemfile_x509_certs(ca_pem) {
        Ok(v) => Ok(v),
        Err(()) => Err(TlsError::InvalidCertificates),
    }
}

/// How reading goes on after `Session::read_tls` replied `fed`: a failed
/// read is an I/O failure.
pub fn after_read_tls(fed: Result<usize, ()>) -> (r: Result<(), TlsError>)
    ensures
        r == (match fed {
            Ok(_) => Ok::<(), TlsError>(()),
            Err(()) => Err(TlsError::Io),
        }),
{
    match fed {
        Ok(_) => Ok(()),
        Err(()) => Err(TlsError::Io),
    }
}

/// How reading goes on after `Session::process_new_packets` replied
/// `processed`: a refused record is a protocol failure.
pub fn after_process_new_packets(processed: Result<(), rustls::TLSError>) -> (r: Result<
    (),
    TlsError,
>)
    ensures
        r is Ok <==> processed is Ok,
        r is Err ==> r == Err::<(), TlsError>(TlsError::Protocol),
{
    match processed {
        Ok(()) => Ok(()),
        Err(_) => Err(TlsError::Protocol),
    }
}

/// How writing goes on after `Write::write_all` of the plaintext replied
/// `sent`: a failed write is an I/O failure.
pub fn after_write_all(sent: Result<(), ()>) -> (r: Result<(), TlsError>)
    ensures
        r == (match sent {
            Ok(()) => Ok::<(), TlsError>(()),
            Err(()) => Err(TlsError::Io),
        }),
{
    match sent {
        Ok(()) => Ok(()),
        Err(()) => Err(TlsError::Io),
    }
}

/// How writing goes on after `Session::write_tls` replied `reply`, with
/// `written` bytes already in the output: the count grows by what was
/// written; nothing written while the session still has records to send
/// means the output is full; a failed write is an I/O failure.
pub fn after_write_tls(written: usize, reply: Result<usize, ()>, room: usize) -> (r: Result<
    usize,
    TlsError,
>)
    requires
        reply matches Ok(c) ==> written + c <= room,
    ensures
        r == (match reply {
            Ok(c) => if c == 0 {
                Err(TlsError::OutputFull)
            } else {
                Ok::<usize, TlsError>((written + c) as usize)
            },
            Err(()) => Err(TlsError::Io),
        }),
{
    match reply {
        Ok(c) => if c == 0 {
            Err(TlsError::OutputFull)
        } else {
            Ok(written + c)
        },
        Err(()) => Err(TlsError::Io),
    }
}

/// The exchanges in `after` that came after those in `before`, where
/// `before` is a prefix of `after`.
pub open spec fn events_since(before: Seq<TlsEvent>, after: Seq<TlsEvent>) -> Seq<TlsEvent> {
    after.skip(before.len() as int)
}

/// The read round at the front of `events` for the encrypted bytes
/// `encrypted`, and how many exchanges it spans: the bytes are offered to
/// `read_tls`, the records processed, and the plaintext read out.  A failed
/// `read_tls` is an I/O failure and ends the round; so does a refusal by
/// `process_new_packets`, as a protocol failure.  The plaintext counts
/// whatever `read_to_end` answered.  `None` where the events are no such
/// round.
pub open spec fn read_round(events: Seq<TlsEvent>, encrypted: Seq<u8>) -> Option<
    (Result<Seq<u8>, TlsError>, nat),
> {
    if events.len() == 0 {
        None
    } else {
        match events[0] {
            TlsEvent::ReadTls { offered, taken } => if offered != encrypted {
                None
            } else if taken is None {
                Some((Err(TlsError::Io), 1))
            } else if events.len() < 2 {
                None
            } else {
                match events[1] {
                    TlsEvent::Processed { ok } => if !ok {
                        Some((Err(TlsError::Protocol), 2))
                    } else if events.len() < 3 {
                        None
                    } else {
                        match events[2] {
                            TlsEvent::ReadPlain { plain, ok: _ } => Some((Ok(plain), 3)),
                            _ => None,
                        }
                    },
                    _ => None,
                }
            },
            _ => None,
        }
    }
}

/// The outcome of `events` where they are exactly one read round for
/// `encrypted`: the plaintext read out, or why the round failed.
pub open spec fn read_outcome(events: Seq<TlsEvent>, encrypted: Seq<u8>) -> Option<
    Result<Seq<u8>, TlsError>,
> {
    match read_round(events, encrypted) {
        Some((out, k)) => if k == events.len() {
            Some(out)
        } else {
            None
        },
        None => None,
    }
}

/// The outcome of `events` where they drain the session's records: while
/// `wants_write` says yes, `write_tls` puts out records, and the drain ends
/// when it says no, with the records in order.  A failed `write_tls` is an
/// I/O failure; one that puts out nothing means the output is full.
pub open spec fn drain_outcome(events: Seq<TlsEvent>) -> Option<Result<Seq<u8>, TlsError>>
    decreases events.len(),
{
    if events.len() == 0 {
        None
    } else {
        match events[0] {
            TlsEvent::WantsWrite { wants } => if !wants {
                if events.len() == 1 {
                    Some(Ok(Seq::empty()))
                } else {
                    None
                }
            } else if events.len() < 2 {
                None
            } else {
                match events[1] {
                    TlsEvent::WroteRecords { records } => match records {
                        None => if events.len() == 2 {
                            Some(Err(TlsError::Io))
                        } else {
                            None
                        },
                        Some(b) => if b.len() == 0 {
                            if events.len() == 2 {
                                Some(Err(TlsError::OutputFull))
                            } else {
                                None
                            }
                        } else {
                            match drain_outcome(events.skip(2)) {
                                Some(Ok(rest)) => Some(Ok(b + rest)),
                                other => other,
                            }
                        },
                    },
                    _ => None,
                }
            },
            _ => None,
        }
    }
}

/// The outcome of `events` where they are exactly one write round for the
/// plaintext `plain`: a plaintext that is not empty is handed to
/// `write_all` first (a failure there is an I/O failure), then the records
/// are drained.
pub open spec fn write_outcome(events: Seq<TlsEvent>, plain: Seq<u8>) -> Option<
    Result<Seq<u8>, TlsError>,
> {
    if plain.len() == 0 {
        drain_outcome(events)
    } else if events.len() == 0 {
        None
    } else {
        match events[0] {
            TlsEvent::WrotePlain { plain: handed, ok } => if handed != plain {
                None
            } else if !ok {
                if events.len() == 1 {
                    Some(Err(TlsError::Io))
                } else {
                    None
                }
            } else {
                drain_outcome(events.skip(1))
            },
            _ => None,
        }
    }
}

/// The outcome of `events` where they are one round of the echo server for
/// the encrypted bytes `received`: a read round, then, where it gave the
/// plaintext, a write round that sends that plaintext back.
pub open spec fn echo_outcome(events: Seq<TlsEvent>, received: Seq<u8>) -> Option<
    Result<Seq<u8>, TlsError>,
> {
    match read_round(events, received) {
        Some((Ok(plain), k)) => write_outcome(events.skip(k as int), plain),
        Some((Err(e), k)) => if k == events.len() {
            Some(Err(e))
        } else {
            None
        },
        None => None,
    }
}

/// The read outcome `out` is what `r` and the plaintext buffer show: on
/// success the plaintext read out follows the bytes that were there; on
/// failure the buffer is as it was.
pub open spec fn plain_appended(
    out: Result<Seq<u8>, TlsError>,
    r: Result<(), TlsError>,
    before: Seq<u8>,
    after: Seq<u8>,
) -> bool {
    match out {
        Ok(plain) => r is Ok && after == before + plain,
        Err(e) => r == Err::<(), TlsError>(e) && after == before,
    }
}

/// The drain outcome `out` is what `r` and the output buffer show, the
/// records having been written from `at`: on success `r` counts the bytes
/// up to their end, the records stand there, and the bytes around them are
/// as they were; on failure `r` is that failure.
pub open spec fn records_placed(
    out: Result<Seq<u8>, TlsError>,
    r: Result<usize, TlsError>,
    at: int,
    before: Seq<u8>,
    after: Seq<u8>,
) -> bool {
    match out {
        Ok(records) => {
            &&& r matches Ok(n) && n == at + records.len()
            &&& at + records.len() <= before.len()
            &&& after.len() == before.len()
            &&& after.take(at) == before.take(at)
            &&& after.subrange(at, at + records.len()) == records
            &&& after.skip(at + records.len()) == before.skip(at + records.len())
        },
        Err(e) => r == Err::<usize, TlsError>(e),
    }
}

/// Feeds the encrypted bytes `encrypted` to the session, processes them, and
/// appends the plaintext that came out to `plain`.
pub fn do_tls_read(session: &mut TlsSession, encrypted: &[u8], plain: &mut Vec<u8>) -> (r: Result<
    (),
    TlsError,
>)
    ensures
        final(session).certified() == old(session).certified(),
        old(session).trace().is_prefix_of(final(session).trace()),
        read_outcome(events_since(old(session).trace(), final(session).trace()), encrypted@) matches Some(out)
            && plain_appended(out, r, old(plain)@, final(plain)@),
{
    let ghost t0 = session.trace();
    let fed = session_read_tls(session, encrypted);
    let step = after_read_tls(fed);
    if step.is_err() {
        assert(events_since(t0, session.trace()) =~= seq![session.trace().last()]);
        return step;
    }
    let processed = session_process_new_packets(session);
    let step = after_process_new_packets(processed);
    if step.is_err() {
        assert(events_since(t0, session.trace()) =~= session.trace().subrange(t0.len() as int, (t0.len() + 2) as int));
        return step;
    }
    let ghost before = plain@;
    let _ = session_read_to_end(session, plain);
    assert(plain@ =~= before + plain@.skip(before.len() as int));
    assert(events_since(t0, session.trace()) =~= session.trace().subrange(t0.len() as int, (t0.len() + 3) as int));
    Ok(())
}

/// Moves the records the session has to send into `encrypted`, from
/// `written` on, while `wants_write` says there are some: the count of bytes
/// up to the end of the records comes back.
fn drain_records(session: &mut TlsSession, encrypted: &mut [u8], written: usize) -> (r: Result<
    usize,
    TlsError,
>)
    requires
        written <= old(encrypted)@.len(),
    ensures
        final(session).certified() == old(session).certified(),
        old(session).trace().is_prefix_of(final(session).trace()),
        final(encrypted)@.len() == old(encrypted)@.len(),
        drain_outcome(events_since(old(session).trace(), final(session).trace())) matches Some(out)
            && records_placed(out, r, written as int, old(encrypted)@, final(encrypted)@),
    decreases old(encrypted)@.len() - written,
{
    let ghost t0 = session.trace();
    let ghost e0 = encrypted@;
    let room = encrypted.len();
    if !session_wants_write(session) {
        assert(events_since(t0, session.trace()) =~= seq![session.trace().last()]);
        assert(encrypted@.subrange(written as int, written as int) =~= Seq::<u8>::empty());
        return Ok(written);
    }
    let reply = session_write_tls(session, encrypted, written);
    let ghost t1 = session.trace();
    let ghost e1 = encrypted@;
    assert(events_since(t0, t1) =~= t1.subrange(t0.len() as int, (t0.len() + 2) as int));
    let next = match after_write_tls(written, reply, room) {
        Ok(next) => next,
        Err(e) => {
            return Err(e);
        },
    };
    let r = drain_records(session, encrypted, next);
    proof {
        let t2 = session.trace();
        let e2 = encrypted@;
        let records = e1.subrange(written as int, next as int);
        assert(events_since(t0, t2).skip(2) =~= events_since(t1, t2));
        assert(events_since(t0, t2)[0] == t1[t0.len() as int]);
        assert(events_since(t0, t2)[1] == t1[(t0.len() + 1) as int]);
        if let Some(Ok(rest)) = drain_outcome(events_since(t1, t2)) {
            let end = next + rest.len();
            assert(e2.subrange(written as int, end) =~= records + rest) by {
                assert(e2.subrange(written as int, next as int) =~= e1.subrange(
                    written as int,
                    next as int,
                )) by {
                    assert(e2.take(next as int) == e1.take(next as int));
                    assert forall|k: int| written <= k < next implies e2[k] == e1[k] by {
                        assert(e2.take(next as int)[k] == e1.take(next as int)[k]);
                    }
                }
            }
            assert(e2.take(written as int) =~= e0.take(written as int)) by {
                assert forall|k: int| 0 <= k < written implies e2[k] == e0[k] by {
                    assert(e2.take(next as int)[k] == e1.take(next as int)[k]);
                    assert(e1.take(written as int)[k] == e0.take(written as int)[k]);
                }
            }
            assert(e2.skip(end) =~= e0.skip(end)) by {
                assert forall|k: int| 0 <= k < e0.len() - end implies e2.skip(end)[k] == e0.skip(
                    end,
                )[k] by {
                    assert(e1.skip(next as int)[k + rest.len()] == e0.skip(next as int)[k
                        + rest.len()]);
                }
            }
        }
    }
    r
}

/// Hands the plaintext `plain` to the session (when there is any) and moves
/// the encrypted records it has to send into `encrypted`, from its start:
/// the number of bytes written comes back.  Bytes of `encrypted` past those
/// are left as they were.
pub fn do_tls_write(session: &mut TlsSession, encrypted: &mut [u8], plain: &[u8]) -> (r: Result<
    usize,
    TlsError,
>)
    ensures
        final(session).certified() == old(session).certified(),
        old(session).trace().is_prefix_of(final(session).trace()),
        final(encrypted)@.len() == old(encrypted)@.len(),
        write_outcome(events_since(old(session).trace(), final(session).trace()), plain@) matches Some(out)
            && records_placed(out, r, 0, old(encrypted)@, final(encrypted)@),
{
    let ghost t0 = session.trace();
    if plain.len() > 0 {
        let sent = session_write_all(session, plain);
        let ghost t1 = session.trace();
        assert(events_since(t0, t1) =~= seq![t1.last()]);
        match after_write_all(sent) {
            Ok(()) => {},
            Err(e) => {
                return Err(e);
            },
        }
        let r = drain_records(session, encrypted, 0);
        assert(events_since(t0, session.trace()).skip(1) =~= events_since(t1, session.trace()));
        assert(events_since(t0, session.trace())[0] == t1.last());
        r
    } else {
        drain_records(session, encrypted, 0)
    }
}

/// A read round at the front of `events` stays the same round when more
/// exchanges follow it.
proof fn lemma_read_round_extends(events: Seq<TlsEvent>, more: Seq<TlsEvent>, encrypted: Seq<u8>)
    requires
        read_round(events, encrypted) matches Some((_, k)) && k == events.len(),
    ensures
        read_round(events + more, encrypted) == read_round(events, encrypted),
{
    let all = events + more;
    assert(all[0] == events[0]);
    if events.len() >= 2 {
        assert(all[1] == events[1]);
    }
    if events.len() >= 3 {
        assert(all[2] == events[2]);
    }
}

/// One round of the TLS echo server: the encrypted bytes `received` are
/// decrypted, and the plaintext is sent back encrypted into `out`; the
/// number of bytes to send comes back, and bytes of `out` past those are
/// left as they were.
pub fn tls_echo(session: &mut TlsSession, received: &[u8], out: &mut [u8]) -> (r: Result<
    usize,
    TlsError,
>)
    ensures
        final(session).certified() == old(session).certified(),
        old(session).trace().is_prefix_of(final(session).trace()),
        final(out)@.len() == old(out)@.len(),
        echo_outcome(events_since(old(session).trace(), final(session).trace()), received@) matches Some(o)
            && records_placed(o, r, 0, old(out)@, final(out)@),
{
    let ghost t0 = session.trace();
    let mut plain: Vec<u8> = Vec::new();
    let read = do_tls_read(session, received, &mut plain);
    let ghost t1 = session.trace();
    let ghost reads = events_since(t0, t1);
    proof {
        assert(plain@ =~= Seq::<u8>::empty() + plain@);
    }
    match read {
        Err(e) => {
            return Err(e);
        },
        Ok(()) => {},
    }
    let r = do_tls_write(session, out, plain.as_slice());
    proof {
        let t2 = session.trace();
        let writes = events_since(t1, t2);
        assert(events_since(t0, t2) =~= reads + writes);
        lemma_read_round_extends(reads, writes, received@);
        assert((reads + writes).skip(reads.len() as int) =~= writes);
    }
    r
}

/// A configuration made from files that decode is refused only by
/// `rustls`, and only for a key that does not decode or an ECDSA key: a
/// certificate chain of any length with an RSA or Ed25519 key that decodes
/// gives a configuration that serves with exactly that chain and key.
pub proof fn lemma_config_refused_only_by_rustls(
    cert_pem: Seq<u8>,
    key_pem: Seq<u8>,
    made: Result<Option<(Seq<Seq<u8>>, Seq<u8>)>, TlsError>,
    chain: Seq<Seq<u8>>,
    key: Seq<u8>,
)
    requires
        config_made(cert_pem, key_pem, made),
        pem_certificates(cert_pem) == Some(chain),
        private_key_of(key_pem) == Ok::<Seq<u8>, TlsError>(key),
    ensures
        made is Err ==> made == Err::<Option<(Seq<Seq<u8>>, Seq<u8>)>, TlsError>(
            TlsError::BadCertificatesOrKey,
        ) && (!private_key_usable(key) || contains(key, ec_public_key_oid())),
        made is Ok ==> made == Ok::<Option<(Seq<Seq<u8>>, Seq<u8>)>, TlsError>(Some((chain, key))),
        private_key_usable(key) && !contains(key, ec_public_key_oid()) ==> made == Ok::<
            Option<(Seq<Seq<u8>>, Seq<u8>)>,
            TlsError,
        >(Some((chain, key))),
{
}

/// Draining that succeeds ends with the session saying it has nothing more
/// to send.
pub proof fn lemma_drain_ends_idle(events: Seq<TlsEvent>)
    ensures
        drain_outcome(events) matches Some(Ok(_)) ==> events.len() > 0 && events.last()
            == (TlsEvent::WantsWrite { wants: false }),
    decreases events.len(),
{
    if events.len() >= 2 {
        lemma_drain_ends_idle(events.skip(2));
        if drain_outcome(events.skip(2)) matches Some(Ok(_)) {
            assert(events.last() == events.skip(2).last());
        }
    }
}

/// A write round that succeeds leaves nothing to send: it ends with the
/// session saying so, whatever the plaintext, the empty one included.
pub proof fn lemma_write_ends_idle(events: Seq<TlsEvent>, plain: Seq<u8>)
    ensures
        write_outcome(events, plain) matches Some(Ok(_)) ==> events.len() > 0 && events.last()
            == (TlsEvent::WantsWrite { wants: false }),
{
    lemma_drain_ends_idle(events);
    if events.len() > 0 {
        lemma_drain_ends_idle(events.skip(1));
        if plain.len() > 0 && drain_outcome(events.skip(1)) matches Some(Ok(_)) {
            assert(events.last() == events.skip(1).last());
        }
    }
}

/// An echo round is a read round followed by a write round of the plaintext
/// read, whatever it is, the empty plaintext included; where the read fails
/// the round ends there with that failure.
pub proof fn lemma_echo_is_read_then_write(
    reads: Seq<TlsEvent>,
    writes: Seq<TlsEvent>,
    received: Seq<u8>,
)
    ensures
        read_outcome(reads, received) matches Some(Ok(plain)) ==> echo_outcome(
            reads + writes,
            received,
        ) == write_outcome(writes, plain),
        read_outcome(reads, received) matches Some(Err(e)) ==> echo_outcome(reads, received) == Some(
            Err::<Seq<u8>, TlsError>(e),
        ),
{
    if read_outcome(reads, received) is Some {
        lemma_read_round_extends(reads, writes, received);
        assert((reads + writes).skip(reads.len() as int) =~= writes);
    }
}

/// An echo round that succeeds drains the session: it ends with the session
/// saying it has nothing more to send, so every record it had, handshake
/// records included, is in the output.
pub proof fn lemma_echo_ends_idle(events: Seq<TlsEvent>, received: Seq<u8>)
    ensures
        echo_outcome(events, received) matches Some(Ok(_)) ==> events.len() > 0 && events.last()
            == (TlsEvent::WantsWrite { wants: false }),
{
    if let Some((Ok(plain), k)) = read_round(events, received) {
        lemma_write_ends_idle(events.skip(k as int), plain);
        if write_outcome(events.skip(k as int), plain) matches Some(Ok(_)) {
            assert(events.last() == events.skip(k as int).last());
        }
    }
}

}
