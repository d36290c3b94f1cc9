use std::io::{Read, Write};
use std::sync::Arc;

use tee_server::tls::{
    do_tls_read, do_tls_write, load_certs, load_client_roots, load_private_key, make_config,
    new_tls_session, select_private_key, tls_echo, TlsError, MAX_WIRE_SIZE, after_read_tls,
    after_process_new_packets, after_write_all, after_write_tls,
};

const EE_CERT_DER: &[u8] = &[
    0x30, 0x82, 0x01, 0x4e, 0x30, 0x81, 0xf5, 0xa0, 0x03, 0x02, 0x01, 0x02, 0x02, 0x01, 0x02, 0x30,
    0x0a, 0x06, 0x08, 0x2a, 0x86, 0x48, 0xce, 0x3d, 0x04, 0x03, 0x02, 0x30, 0x14, 0x31, 0x12, 0x30,
    0x10, 0x06, 0x03, 0x55, 0x04, 0x03, 0x0c, 0x09, 0x54, 0x65, 0x73, 0x74, 0x20, 0x52, 0x6f, 0x6f,
    0x74, 0x30, 0x1e, 0x17, 0x0d, 0x30, 0x30, 0x30, 0x31, 0x30, 0x31, 0x30, 0x30, 0x30, 0x30, 0x30,
    0x30, 0x5a, 0x17, 0x0d, 0x34, 0x39, 0x31, 0x32, 0x33, 0x31, 0x30, 0x30, 0x30, 0x30, 0x30, 0x30,
    0x5a, 0x30, 0x14, 0x31, 0x12, 0x30, 0x10, 0x06, 0x03, 0x55, 0x04, 0x03, 0x0c, 0x09, 0x6c, 0x6f,
    0x63, 0x61, 0x6c, 0x68, 0x6f, 0x73, 0x74, 0x30, 0x59, 0x30, 0x13, 0x06, 0x07, 0x2a, 0x86, 0x48,
    0xce, 0x3d, 0x02, 0x01, 0x06, 0x08, 0x2a, 0x86, 0x48, 0xce, 0x3d, 0x03, 0x01, 0x07, 0x03, 0x42,
    0x00, 0x04, 0xd9, 0x17, 0x25, 0xd8, 0x9b, 0x7d, 0xa4, 0x8f, 0x08, 0x09, 0x9d, 0x85, 0xcb, 0x95,
    0x95, 0xcc, 0xff, 0x75, 0xd9, 0x9d, 0xdc, 0x74, 0xee, 0x1c, 0xcf, 0xff, 0x1d, 0x66, 0x3d, 0xdb,
    0x16, 0x1f, 0xdd, 0xbc, 0x0f, 0x5c, 0x14, 0x8a, 0x26, 0x62, 0x62, 0xdb, 0xa5, 0x0d, 0xf4, 0xed,
    0x82, 0x56, 0xb7, 0x16, 0x31, 0xf0, 0xf5, 0x4d, 0xc5, 0x09, 0x52, 0x8e, 0xe6, 0xe8, 0x2d, 0xf9,
    0xea, 0x1d, 0xa3, 0x38, 0x30, 0x36, 0x30, 0x09, 0x06, 0x03, 0x55, 0x1d, 0x13, 0x04, 0x02, 0x30,
    0x00, 0x30, 0x13, 0x06, 0x03, 0x55, 0x1d, 0x25, 0x04, 0x0c, 0x30, 0x0a, 0x06, 0x08, 0x2b, 0x06,
    0x01, 0x05, 0x05, 0x07, 0x03, 0x01, 0x30, 0x14, 0x06, 0x03, 0x55, 0x1d, 0x11, 0x04, 0x0d, 0x30,
    0x0b, 0x82, 0x09, 0x6c, 0x6f, 0x63, 0x61, 0x6c, 0x68, 0x6f, 0x73, 0x74, 0x30, 0x0a, 0x06, 0x08,
    0x2a, 0x86, 0x48, 0xce, 0x3d, 0x04, 0x03, 0x02, 0x03, 0x48, 0x00, 0x30, 0x45, 0x02, 0x21, 0x00,
    0xa6, 0x28, 0xab, 0x80, 0x3e, 0x56, 0x21, 0x72, 0xc0, 0x74, 0x8b, 0xe3, 0x1c, 0x45, 0x9f, 0x02,
    0x5a, 0x77, 0xcf, 0xc4, 0x18, 0x8a, 0x36, 0x67, 0x5b, 0x15, 0x78, 0x65, 0x55, 0xfd, 0xb6, 0xe2,
    0x02, 0x20, 0x41, 0x1d, 0x8d, 0x51, 0xeb, 0xd9, 0x9b, 0xeb, 0x81, 0x48, 0x10, 0x8c, 0x28, 0xd4,
    0x1b, 0x71, 0x80, 0x3a, 0x25, 0x10, 0x7a, 0x40, 0x62, 0x01, 0xad, 0xfe, 0xc0, 0x5b, 0xf6, 0xfb,
    0x6d, 0x3f,
];

const CA_CERT_DER: &[u8] = &[
    0x30, 0x82, 0x01, 0x38, 0x30, 0x81, 0xe0, 0xa0, 0x03, 0x02, 0x01, 0x02, 0x02, 0x01, 0x01, 0x30,
    0x0a, 0x06, 0x08, 0x2a, 0x86, 0x48, 0xce, 0x3d, 0x04, 0x03, 0x02, 0x30, 0x14, 0x31, 0x12, 0x30,
    0x10, 0x06, 0x03, 0x55, 0x04, 0x03, 0x0c, 0x09, 0x54, 0x65, 0x73, 0x74, 0x20, 0x52, 0x6f, 0x6f,
    0x74, 0x30, 0x1e, 0x17, 0x0d, 0x30, 0x30, 0x30, 0x31, 0x30, 0x31, 0x30, 0x30, 0x30, 0x30, 0x30,
    0x30, 0x5a, 0x17, 0x0d, 0x34, 0x39, 0x31, 0x32, 0x33, 0x31, 0x30, 0x30, 0x30, 0x30, 0x30, 0x30,
    0x5a, 0x30, 0x14, 0x31, 0x12, 0x30, 0x10, 0x06, 0x03, 0x55, 0x04, 0x03, 0x0c, 0x09, 0x54, 0x65,
    0x73, 0x74, 0x20, 0x52, 0x6f, 0x6f, 0x74, 0x30, 0x59, 0x30, 0x13, 0x06, 0x07, 0x2a, 0x86, 0x48,
    0xce, 0x3d, 0x02, 0x01, 0x06, 0x08, 0x2a, 0x86, 0x48, 0xce, 0x3d, 0x03, 0x01, 0x07, 0x03, 0x42,
    0x00, 0x04, 0x81, 0x21, 0x2c, 0xdc, 0x55, 0x4d, 0xb6, 0x2c, 0x17, 0x29, 0x7a, 0xc8, 0x2e, 0x16,
    0x92, 0xa9, 0x2a, 0x27, 0xc1, 0xce, 0x86, 0x2c, 0x48, 0x05, 0xdb, 0xd1, 0x7f, 0xc3, 0xd9, 0xaa,
    0xf8, 0xae, 0x5f, 0x43, 0x10, 0xbe, 0x0c, 0xdb, 0xb9, 0x92, 0xa9, 0x74, 0x98, 0x41, 0x56, 0xc8,
    0x28, 0xb2, 0x31, 0x99, 0xdd, 0x9f, 0xfb, 0x80, 0x66, 0xa6, 0x08, 0x9d, 0x24, 0x05, 0x52, 0x34,
    0xfd, 0x21, 0xa3, 0x23, 0x30, 0x21, 0x30, 0x0f, 0x06, 0x03, 0x55, 0x1d, 0x13, 0x01, 0x01, 0xff,
    0x04, 0x05, 0x30, 0x03, 0x01, 0x01, 0xff, 0x30, 0x0e, 0x06, 0x03, 0x55, 0x1d, 0x0f, 0x01, 0x01,
    0xff, 0x04, 0x04, 0x03, 0x02, 0x01, 0x06, 0x30, 0x0a, 0x06, 0x08, 0x2a, 0x86, 0x48, 0xce, 0x3d,
    0x04, 0x03, 0x02, 0x03, 0x47, 0x00, 0x30, 0x44, 0x02, 0x20, 0x73, 0xdd, 0x3e, 0xfb, 0x98, 0x99,
    0x1a, 0x63, 0x52, 0x22, 0x75, 0xb3, 0x97, 0x5a, 0x3b, 0x77, 0x32, 0x85, 0x5f, 0x7e, 0x26, 0x26,
    0x68, 0x17, 0xa4, 0xf6, 0x19, 0x2b, 0x7e, 0x22, 0x54, 0x6f, 0x02, 0x20, 0x2f, 0x2a, 0xcd, 0x7c,
    0xc2, 0x38, 0x54, 0x1c, 0xaa, 0x0b, 0x98, 0x65, 0x41, 0xd0, 0x6b, 0x6e, 0x23, 0xdb, 0xfc, 0x06,
    0xe1, 0x5c, 0xa6, 0x80, 0x87, 0x56, 0xfc, 0x0a, 0x42, 0x9a, 0x04, 0x06,
];

const EE_KEY_DER: &[u8] = &[
    0x30, 0x81, 0x87, 0x02, 0x01, 0x00, 0x30, 0x13, 0x06, 0x07, 0x2a, 0x86, 0x48, 0xce, 0x3d, 0x02,
    0x01, 0x06, 0x08, 0x2a, 0x86, 0x48, 0xce, 0x3d, 0x03, 0x01, 0x07, 0x04, 0x6d, 0x30, 0x6b, 0x02,
    0x01, 0x01, 0x04, 0x20, 0xe3, 0xf6, 0xa5, 0xdc, 0xa5, 0xa8, 0xc5, 0x77, 0xfb, 0x40, 0xc0, 0x0e,
    0xb5, 0x74, 0xbd, 0x01, 0xd2, 0x81, 0x6f, 0xb6, 0x37, 0x39, 0x28, 0xc9, 0xdd, 0x74, 0x31, 0x77,
    0xea, 0x23, 0xdb, 0xc4, 0xa1, 0x44, 0x03, 0x42, 0x00, 0x04, 0xd9, 0x17, 0x25, 0xd8, 0x9b, 0x7d,
    0xa4, 0x8f, 0x08, 0x09, 0x9d, 0x85, 0xcb, 0x95, 0x95, 0xcc, 0xff, 0x75, 0xd9, 0x9d, 0xdc, 0x74,
    0xee, 0x1c, 0xcf, 0xff, 0x1d, 0x66, 0x3d, 0xdb, 0x16, 0x1f, 0xdd, 0xbc, 0x0f, 0x5c, 0x14, 0x8a,
    0x26, 0x62, 0x62, 0xdb, 0xa5, 0x0d, 0xf4, 0xed, 0x82, 0x56, 0xb7, 0x16, 0x31, 0xf0, 0xf5, 0x4d,
    0xc5, 0x09, 0x52, 0x8e, 0xe6, 0xe8, 0x2d, 0xf9, 0xea, 0x1d,
];

/// Base64 (standard alphabet, with padding) of `data`.
fn base64(data: &[u8]) -> String {
    const ALPHABET: &[u8] = b"ABCDEFGHIJKLMNOPQRSTUVWXYZabcdefghijklmnopqrstuvwxyz0123456789+/";
    let mut out = String::new();
    for chunk in data.chunks(3) {
        let b = [chunk[0], *chunk.get(1).unwrap_or(&0), *chunk.get(2).unwrap_or(&0)];
        let n = ((b[0] as u32) << 16) | ((b[1] as u32) << 8) | b[2] as u32;
        for i in 0..4 {
            if i <= chunk.len() {
                out.push(ALPHABET[((n >> (18 - 6 * i)) & 63) as usize] as char);
            } else {
                out.push('=');
            }
        }
    }
    out
}

/// A PEM section labelled `label` holding `der`.
fn pem(label: &str, der: &[u8]) -> String {
    let mut text = format!("-----BEGIN {}-----\n", label);
    let encoded = base64(der);
    for line in encoded.as_bytes().chunks(64) {
        text.push_str(std::str::from_utf8(line).unwrap());
        text.push('\n');
    }
    text.push_str(&format!("-----END {}-----\n", label));
    text
}

fn chain_pem() -> String {
    format!("{}{}", pem("CERTIFICATE", EE_CERT_DER), pem("CERTIFICATE", CA_CERT_DER))
}

fn key_label() -> String {
    ["PRIVATE", "KEY"].join(" ")
}

fn rsa_key_label() -> String {
    ["RSA", "PRIVATE", "KEY"].join(" ")
}

fn key_pem() -> String {
    pem(&key_label(), EE_KEY_DER)
}

fn ca_pem() -> String {
    pem("CERTIFICATE", CA_CERT_DER)
}

#[test]
fn base64_helper() {
    assert_eq!(base64(b"hello"), "aGVsbG8=");
    assert_eq!(base64(b"hell"), "aGVsbA==");
    assert_eq!(base64(b"hel"), "aGVs");
}

#[test]
fn load_certs_decodes_every_section() {
    let certs = load_certs(chain_pem().as_bytes()).unwrap();
    assert_eq!(certs.len(), 2);
    assert_eq!(certs[0][0], 0x30);
    let small = "-----BEGIN CERTIFICATE-----\nAQID\n-----END CERTIFICATE-----\n";
    assert_eq!(load_certs(small.as_bytes()).unwrap(), vec![vec![1u8, 2, 3]]);
    assert_eq!(load_certs(b"").unwrap(), Vec::<Vec<u8>>::new());
}

#[test]
fn load_certs_rejects_bad_base64() {
    let bad = "-----BEGIN CERTIFICATE-----\n!!!!\n-----END CERTIFICATE-----\n";
    assert_eq!(load_certs(bad.as_bytes()), Err(TlsError::InvalidCertificates));
}

#[test]
fn private_key_prefers_pkcs8() {
    let rsa_pem = pem(&rsa_key_label(), &[1, 2, 3]);
    let both = format!("{}{}", rsa_pem, key_pem());
    assert_eq!(load_private_key(both.as_bytes()).unwrap(), EE_KEY_DER.to_vec());
    let reversed = format!("{}{}", key_pem(), rsa_pem);
    assert_eq!(load_private_key(reversed.as_bytes()).unwrap(), EE_KEY_DER.to_vec());
    assert_eq!(load_private_key(rsa_pem.as_bytes()).unwrap(), vec![1u8, 2, 3]);
}

#[test]
fn private_key_errors() {
    assert_eq!(load_private_key(chain_pem().as_bytes()), Err(TlsError::NoPrivateKey));
    let bad_rsa = format!("-----BEGIN {0}-----\n!!\n-----END {0}-----\n", rsa_key_label());
    assert_eq!(load_private_key(bad_rsa.as_bytes()), Err(TlsError::InvalidRsaKey));
    let bad_pkcs8 = format!("-----BEGIN {0}-----\n!!\n-----END {0}-----\n", key_label());
    assert_eq!(load_private_key(bad_pkcs8.as_bytes()), Err(TlsError::InvalidPkcs8Key));
}

#[test]
fn select_key_order() {
    let a = vec![vec![1u8]];
    let b = vec![vec![2u8]];
    let none: Vec<Vec<u8>> = Vec::new();
    assert_eq!(select_private_key(&a, &b), Some(vec![1u8]));
    assert_eq!(select_private_key(&none, &b), Some(vec![2u8]));
    assert_eq!(select_private_key(&none, &none), None);
}

#[test]
fn make_config_checks_key() {
    assert!(make_config(chain_pem().as_bytes(), key_pem().as_bytes()).is_ok());
    let junk = pem(&key_label(), &[1, 2, 3]);
    assert!(matches!(make_config(chain_pem().as_bytes(), junk.as_bytes()), Err(TlsError::BadCertificatesOrKey)));
    let bad = "-----BEGIN CERTIFICATE-----\n!!!!\n-----END CERTIFICATE-----\n";
    assert!(matches!(make_config(bad.as_bytes(), key_pem().as_bytes()), Err(TlsError::InvalidCertificates)));
    assert!(matches!(new_tls_session(chain_pem().as_bytes(), b""), Err(TlsError::NoPrivateKey)));
}

fn client() -> rustls::ClientSession {
    let ca = load_certs(ca_pem().as_bytes()).unwrap();
    let mut config = rustls::ClientConfig::new();
    config.root_store.add(&rustls::Certificate(ca[0].clone())).unwrap();
    let name = webpki::DNSNameRef::try_from_ascii_str("localhost").unwrap();
    rustls::ClientSession::new(&Arc::new(config), name)
}

fn flush_client(client: &mut rustls::ClientSession) -> Vec<u8> {
    let mut out = Vec::new();
    while rustls::Session::wants_write(client) {
        rustls::Session::write_tls(client, &mut out).unwrap();
    }
    out
}

#[test]
fn handshake_and_echo() {
    let mut server = new_tls_session(chain_pem().as_bytes(), key_pem().as_bytes()).unwrap();
    let mut client = client();
    client.write_all(b"ping").unwrap();
    let mut received = Vec::new();
    for _ in 0..10 {
        let to_server = flush_client(&mut client);
        if !to_server.is_empty() {
            do_tls_read(&mut server, &to_server, &mut received).unwrap();
        }
        let mut out = vec![0u8; MAX_WIRE_SIZE];
        let n = do_tls_write(&mut server, &mut out, &[]).unwrap();
        assert!(n <= out.len());
        let mut rd = &out[..n];
        rustls::Session::read_tls(&mut client, &mut rd).unwrap();
        rustls::Session::process_new_packets(&mut client).unwrap();
        if received == b"ping".to_vec() {
            break;
        }
    }
    assert_eq!(received, b"ping".to_vec());

    client.write_all(b"echo me").unwrap();
    let to_server = flush_client(&mut client);
    let mut out = vec![7u8; MAX_WIRE_SIZE];
    let n = tls_echo(&mut server, &to_server, &mut out).unwrap();
    assert!(n > 0);
    assert!(out[n..].iter().all(|&b| b == 7));
    let mut rd = &out[..n];
    rustls::Session::read_tls(&mut client, &mut rd).unwrap();
    rustls::Session::process_new_packets(&mut client).unwrap();
    let mut back = vec![0u8; 64];
    let k = client.read(&mut back).unwrap();
    assert_eq!(&back[..k], b"echo me");
}

#[test]
fn tls_read_rejects_garbage() {
    let mut server = new_tls_session(chain_pem().as_bytes(), key_pem().as_bytes()).unwrap();
    let mut plain = b"kept".to_vec();
    let r = do_tls_read(&mut server, b"\x16\x03\x01\xff\xff\x00\x00", &mut plain);
    assert_eq!(r, Err(TlsError::Protocol));
    assert_eq!(plain, b"kept".to_vec());
}

#[test]
fn tls_write_reports_full_output() {
    let mut server = new_tls_session(chain_pem().as_bytes(), key_pem().as_bytes()).unwrap();
    let mut client = client();
    let hello = flush_client(&mut client);
    let mut plain = Vec::new();
    do_tls_read(&mut server, &hello, &mut plain).unwrap();
    let mut tiny = [0u8; 8];
    assert_eq!(do_tls_write(&mut server, &mut tiny, &[]), Err(TlsError::OutputFull));
}

#[test]
fn read_steps_map_replies() {
    assert_eq!(after_read_tls(Ok(5)), Ok(()));
    assert_eq!(after_read_tls(Err(())), Err(TlsError::Io));
    assert_eq!(after_process_new_packets(Ok(())), Ok(()));
    let refused = rustls::TLSError::General("refused".to_string());
    assert_eq!(after_process_new_packets(Err(refused)), Err(TlsError::Protocol));
}

#[test]
fn write_steps_map_replies() {
    assert_eq!(after_write_all(Ok(())), Ok(()));
    assert_eq!(after_write_all(Err(())), Err(TlsError::Io));
    assert_eq!(after_write_tls(3, Ok(4), 10), Ok(7));
    assert_eq!(after_write_tls(3, Ok(0), 10), Err(TlsError::OutputFull));
    assert_eq!(after_write_tls(3, Err(()), 10), Err(TlsError::Io));
}

#[test]
fn client_roots_from_pem() {
    assert_eq!(load_client_roots(ca_pem().as_bytes()), Ok(vec![CA_CERT_DER.to_vec()]));
    let mixed = format!("{}{}", key_pem(), chain_pem());
    assert_eq!(
        load_client_roots(mixed.as_bytes()),
        Ok(vec![EE_CERT_DER.to_vec(), CA_CERT_DER.to_vec()])
    );
    assert_eq!(load_client_roots(b""), Ok(Vec::new()));
    let unterminated = "-----BEGIN CERTIFICATE-----\nAQID\n";
    assert_eq!(load_client_roots(unterminated.as_bytes()), Err(TlsError::InvalidCertificates));
}

#[test]
fn echo_with_nothing_received_sends_nothing() {
    let mut server = new_tls_session(chain_pem().as_bytes(), key_pem().as_bytes()).unwrap();
    let mut out = vec![9u8; 16];
    assert_eq!(tls_echo(&mut server, &[], &mut out), Ok(0));
    assert!(out.iter().all(|&b| b == 9));
}
