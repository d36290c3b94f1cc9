//! The HTTP request parser of the file server, and the responses it sends.
//!
//! A request arrives as raw bytes, each byte read as the character with the
//! same code.  Its first line must hold exactly three words; the first names
//! the method.  `GET` and `DELETE` requests end there.  A `POST` request is
//! read on: a header line holding `Content-Length: ` sets the expected body
//! length, an empty line starts the body, and the first non-empty line after
//! it (that is not itself such a header) is the body, whose UTF-8 length must
//! be the expected one.
use vstd::prelude::*;
use vstd::slice::slice_to_vec;

use crate::decimal::{decimal, format_usize, parse_decimal, parse_usize};
use crate::text::{
    char_at_byte, char_index_at_byte, contains, contains_bytes, latin1_to_utf8, split_crlf,
    split_lines, split_words, strip_whitespace_from, strip_ws, utf8_encode, utf8_len, utf8_length,
    words,
};

verus! {

/// Where the parsing of a request stands.
#[derive(PartialEq, Eq, Structural, Clone, Copy, Debug)]
pub enum HttpParseState {
    Start,
    Finish,
    Post,
    BodyStart,
    BodyIncomplete,
}

/// Why a request was refused.
#[derive(PartialEq, Eq, Structural, Clone, Copy, Debug)]
pub enum HttpError {
    /// The first line does not hold exactly three words.
    BadRequestLine,
    /// The method is none of `POST`, `GET` and `DELETE`.
    BadMethod,
    /// A `Content-Length: ` line whose value is not a `usize`.
    InvalidContentLength,
    /// The body's UTF-8 length differs from the announced length.
    BodyLengthMismatch,
    /// The request ended before its body.
    HeaderIncomplete,
    /// The request could not be answered: it was not parsed.
    BadRequest,
}

/// A parsed request: method, target and, for `POST`, the body (as received,
/// one byte per character).
#[derive(Debug)]
pub enum Request {
    Get(Vec<u8>),
    Delete(Vec<u8>),
    Post(Vec<u8>, Vec<u8>),
    /// The parser was not at the start of a request, so nothing was read.
    NotParsed,
}

/// The mathematical value of a `Request`.
pub enum RequestView {
    Get(Seq<u8>),
    Delete(Seq<u8>),
    Post(Seq<u8>, Seq<u8>),
    NotParsed,
}

impl View for Request {
    type V = RequestView;

    open spec fn view(&self) -> RequestView {
        match self {
            Request::Get(u) => RequestView::Get(u@),
            Request::Delete(u) => RequestView::Delete(u@),
            Request::Post(u, b) => RequestView::Post(u@, b@),
            Request::NotParsed => RequestView::NotParsed,
        }
    }
}

/// What the server must do with its files to answer a request; paths and
/// contents are UTF-8 bytes.
#[derive(Debug)]
pub enum FileAction {
    /// Create (or truncate) the file `path` and write `contents` to it.
    Store { path: Vec<u8>, contents: Vec<u8> },
    /// Read the file `path` and send it back with `finish_get_response`.
    Load { path: Vec<u8> },
    /// Remove the file `path`.
    Remove { path: Vec<u8> },
}

/// The mathematical value of a `FileAction`.
pub enum FileActionView {
    Store { path: Seq<u8>, contents: Seq<u8> },
    Load { path: Seq<u8> },
    Remove { path: Seq<u8> },
}

impl View for FileAction {
    type V = FileActionView;

    open spec fn view(&self) -> FileActionView {
        match self {
            FileAction::Store { path, contents } => FileActionView::Store {
                path: path@,
                contents: contents@,
            },
            FileAction::Load { path } => FileActionView::Load { path: path@ },
            FileAction::Remove { path } => FileActionView::Remove { path: path@ },
        }
    }
}

/// `POST`
pub open spec fn post_word() -> Seq<u8> {
    seq!['P' as u8, 'O' as u8, 'S' as u8, 'T' as u8]
}

/// `GET`
pub open spec fn get_word() -> Seq<u8> {
    seq!['G' as u8, 'E' as u8, 'T' as u8]
}

/// `DELETE`
pub open spec fn delete_word() -> Seq<u8> {
    seq!['D' as u8, 'E' as u8, 'L' as u8, 'E' as u8, 'T' as u8, 'E' as u8]
}

/// `Content-Length: `
pub open spec fn content_length_field() -> Seq<u8> {
    seq![
        'C' as u8,
        'o' as u8,
        'n' as u8,
        't' as u8,
        'e' as u8,
        'n' as u8,
        't' as u8,
        '-' as u8,
        'L' as u8,
        'e' as u8,
        'n' as u8,
        'g' as u8,
        't' as u8,
        'h' as u8,
        ':' as u8,
        ' ' as u8,
    ]
}

/// `HTTP 200 OK\r\nContent-Length: `, the start of every response.
pub open spec fn response_head() -> Seq<u8> {
    seq!['H' as u8, 'T' as u8, 'T' as u8, 'P' as u8, ' ' as u8, '2' as u8, '0' as u8, '0' as u8, ' ' as u8, 'O' as u8, 'K' as u8, 13u8, 10u8]
        + content_length_field()
}

/// `\r\n\r\n`, the end of the response header.
pub open spec fn header_end() -> Seq<u8> {
    seq![13u8, 10u8, 13u8, 10u8]
}

/// `0\r\n\r\n`: the rest of a response without body.
pub open spec fn empty_body_tail() -> Seq<u8> {
    seq!['0' as u8] + header_end()
}

/// The value announced by a line holding `Content-Length: `: the text that
/// follows the line's first 16 UTF-8 bytes, with all white space taken out,
/// read as a `usize`; `None` when byte 16 falls inside a character or the
/// text is not a `usize`.
pub open spec fn content_length_of(line: Seq<u8>) -> Option<usize> {
    match char_at_byte(line, 16) {
        Some(j) => parse_usize(strip_ws(line.subrange(j, line.len() as int))),
        None => None,
    }
}

/// Reading the lines of a `POST` request from line `i` on, with announced
/// length `cl` and parser state `state`: the outcome and the state left.
pub open spec fn post_from(
    lines: Seq<Seq<u8>>,
    i: int,
    cl: usize,
    state: HttpParseState,
    uri: Seq<u8>,
) -> (Result<RequestView, HttpError>, HttpParseState)
    decreases lines.len() - i,
{
    if i < 0 || i >= lines.len() {
        (Err(HttpError::HeaderIncomplete), state)
    } else if contains(lines[i], content_length_field()) {
        match content_length_of(lines[i]) {
            Some(v) => post_from(lines, i + 1, v, state, uri),
            None => (Err(HttpError::InvalidContentLength), state),
        }
    } else if lines[i].len() == 0 {
        post_from(lines, i + 1, cl, HttpParseState::BodyStart, uri)
    } else if state == HttpParseState::BodyStart {
        if utf8_len(lines[i]) == cl {
            (Ok(RequestView::Post(uri, lines[i])), HttpParseState::Finish)
        } else {
            (Err(HttpError::BodyLengthMismatch), HttpParseState::BodyIncomplete)
        }
    } else {
        post_from(lines, i + 1, cl, state, uri)
    }
}

/// Parsing the request `req` from its start, in state `state`: the outcome
/// and the state left.
pub open spec fn start_spec(req: Seq<u8>, state: HttpParseState) -> (
    Result<RequestView, HttpError>,
    HttpParseState,
) {
    let lines = split_lines(req);
    let w = split_words(lines[0]);
    if w.len() != 3 {
        (Err(HttpError::BadRequestLine), state)
    } else if w[0] == post_word() {
        post_from(lines, 1, 0, HttpParseState::Post, w[1])
    } else if w[0] == get_word() {
        (Ok(RequestView::Get(w[1])), HttpParseState::Finish)
    } else if w[0] == delete_word() {
        (Ok(RequestView::Delete(w[1])), HttpParseState::Finish)
    } else {
        (Err(HttpError::BadMethod), state)
    }
}

/// Parsing the request `req` in state `state`: a request is only read at the
/// start; in any other state nothing is read and the state stays.
pub open spec fn request_spec(req: Seq<u8>, state: HttpParseState) -> (
    Result<RequestView, HttpError>,
    HttpParseState,
) {
    if state == HttpParseState::Start {
        start_spec(req, state)
    } else {
        (Ok(RequestView::NotParsed), state)
    }
}

/// The view of a parse outcome.
pub open spec fn result_view(r: Result<Request, HttpError>) -> Result<RequestView, HttpError> {
    match r {
        Ok(q) => Ok(q@),
        Err(e) => Err(e),
    }
}

/// Answering the request `req` in state `state`: the outcome, the bytes
/// appended to the response, and the state left.
pub open spec fn handle_spec(req: Seq<u8>, state: HttpParseState) -> (
    Result<FileActionView, HttpError>,
    Seq<u8>,
    HttpParseState,
) {
    let (parsed, next) = request_spec(req, state);
    match parsed {
        Err(e) => (Err(e), Seq::empty(), next),
        Ok(RequestView::NotParsed) => (Err(HttpError::BadRequest), response_head(), next),
        Ok(RequestView::Get(uri)) => (
            Ok(FileActionView::Load { path: utf8_encode(uri) }),
            response_head(),
            next,
        ),
        Ok(RequestView::Post(uri, body)) => (
            Ok(FileActionView::Store { path: utf8_encode(uri), contents: utf8_encode(body) }),
            response_head() + empty_body_tail(),
            next,
        ),
        Ok(RequestView::Delete(uri)) => (
            Ok(FileActionView::Remove { path: utf8_encode(uri) }),
            response_head() + empty_body_tail(),
            next,
        ),
    }
}

/// The view of an answer's outcome.
pub open spec fn action_view(r: Result<FileAction, HttpError>) -> Result<
    FileActionView,
    HttpError,
> {
    match r {
        Ok(a) => Ok(a@),
        Err(e) => Err(e),
    }
}

/// Proof that splitting at CR LF always gives at least one piece.
pub proof fn lemma_lines_nonempty(s: Seq<u8>, i: int, cur: Seq<u8>)
    ensures
        crate::text::lines_from(s, i, cur).len() >= 1,
    decreases s.len() - i,
{
    if i < s.len() {
        if i + 1 < s.len() && s[i] == crate::text::CR && s[i + 1] == crate::text::LF {
            lemma_lines_nonempty(s, i + 2, Seq::empty());
        } else {
            lemma_lines_nonempty(s, i + 1, cur.push(s[i]));
        }
    }
}

fn post_bytes() -> (r: Vec<u8>)
    ensures
        r@ == post_word(),
{
    let r = vec!['P' as u8, 'O' as u8, 'S' as u8, 'T' as u8];
    assert(r@ =~= post_word());
    r
}

fn get_bytes() -> (r: Vec<u8>)
    ensures
        r@ == get_word(),
{
    let r = vec!['G' as u8, 'E' as u8, 'T' as u8];
    assert(r@ =~= get_word());
    r
}

fn delete_bytes() -> (r: Vec<u8>)
    ensures
        r@ == delete_word(),
{
    let r = vec!['D' as u8, 'E' as u8, 'L' as u8, 'E' as u8, 'T' as u8, 'E' as u8];
    assert(r@ =~= delete_word());
    r
}

fn content_length_bytes() -> (r: Vec<u8>)
    ensures
        r@ == content_length_field(),
{
    let r = vec![
        'C' as u8,
        'o' as u8,
        'n' as u8,
        't' as u8,
        'e' as u8,
        'n' as u8,
        't' as u8,
        '-' as u8,
        'L' as u8,
        'e' as u8,
        'n' as u8,
        'g' as u8,
        't' as u8,
        'h' as u8,
        ':' as u8,
        ' ' as u8,
    ];
    assert(r@ =~= content_length_field());
    r
}

/// Appends every byte of `bytes` to `out`.
fn append_bytes(out: &mut Vec<u8>, bytes: &[u8])
    ensures
        final(out)@ == old(out)@ + bytes@,
{
    let mut i: usize = 0;
    let n = bytes.len();
    while i < n
        invariant
            n == bytes@.len(),
            0 <= i <= n,
            out@ == old(out)@ + bytes@.take(i as int),
        decreases n - i,
    {
        out.push(bytes[i]);
        i = i + 1;
        assert(out@ =~= old(out)@ + bytes@.take(i as int));
    }
    assert(bytes@.take(n as int) =~= bytes@);
}

/// Appends `HTTP 200 OK\r\nContent-Length: ` to `out`.
fn append_response_head(out: &mut Vec<u8>)
    ensures
        final(out)@ == old(out)@ + response_head(),
{
    let head = vec![
        'H' as u8,
        'T' as u8,
        'T' as u8,
        'P' as u8,
        ' ' as u8,
        '2' as u8,
        '0' as u8,
        '0' as u8,
        ' ' as u8,
        'O' as u8,
        'K' as u8,
        13u8,
        10u8,
    ];
    append_bytes(out, head.as_slice());
    let field = content_length_bytes();
    append_bytes(out, field.as_slice());
    assert(final(out)@ =~= old(out)@ + response_head());
}

/// Appends `\r\n\r\n` to `out`.
fn append_header_end(out: &mut Vec<u8>)
    ensures
        final(out)@ == old(out)@ + header_end(),
{
    out.push(13u8);
    out.push(10u8);
    out.push(13u8);
    out.push(10u8);
    assert(final(out)@ =~= old(out)@ + header_end());
}

/// True when `a` and `b` hold the same bytes.
pub fn bytes_equal(a: &[u8], b: &[u8]) -> (r: bool)
    ensures
        r == (a@ == b@),
{
    if a.len() != b.len() {
        return false;
    }
    let n = a.len();
    let mut i: usize = 0;
    while i < n
        invariant
            n == a@.len(),
            n == b@.len(),
            0 <= i <= n,
            forall|k: int| 0 <= k < i ==> a@[k] == b@[k],
        decreases n - i,
    {
        if a[i] != b[i] {
            return false;
        }
        i = i + 1;
    }
    assert(a@ =~= b@);
    true
}

/// The value announced by a line holding `Content-Length: `, as
/// `line[16..].split_whitespace().collect::<String>().parse::<usize>()`
/// reads it; `None` where that panics or fails.
pub fn content_length(line: &[u8]) -> (r: Option<usize>)
    ensures
        r == content_length_of(line@),
{
    match char_index_at_byte(line, 16) {
        Some(j) => {
            let digits = strip_whitespace_from(line, j);
            parse_decimal(digits.as_slice())
        },
        None => None,
    }
}

/// Reads the lines of a `POST` request after its first line: header lines,
/// an empty line, then the body.
fn parse_post(lines: &Vec<Vec<u8>>, uri: Vec<u8>, http_state: &mut HttpParseState) -> (r: Result<
    Request,
    HttpError,
>)
    requires
        *old(http_state) == HttpParseState::Post,
        lines@.len() >= 1,
    ensures
        (result_view(r), *final(http_state)) == post_from(
            lines.deep_view(),
            1,
            0,
            HttpParseState::Post,
            uri@,
        ),
{
    let ghost all = lines.deep_view();
    let ghost target = post_from(all, 1, 0, HttpParseState::Post, uri@);
    let field = content_length_bytes();
    let mut content_length_value: usize = 0;
    let mut i: usize = 1;
    let n = lines.len();
    while i < n
        invariant
            n == lines@.len(),
            all == lines.deep_view(),
            target == post_from(all, 1, 0, HttpParseState::Post, uri@),
            1 <= i <= n,
            field@ == content_length_field(),
            post_from(all, i as int, content_length_value, *http_state, uri@) == target,
        decreases n - i,
    {
        let line: &Vec<u8> = &lines[i];
        assert(line@ =~= all[i as int]);
        if contains_bytes(line.as_slice(), field.as_slice()) {
            match content_length(line.as_slice()) {
                Some(v) => {
                    content_length_value = v;
                },
                None => {
                    return Err(HttpError::InvalidContentLength);
                },
            }
        } else if line.len() == 0 {
            *http_state = HttpParseState::BodyStart;
        } else if *http_state == HttpParseState::BodyStart {
            if utf8_length(line.as_slice()) == content_length_value as u128 {
                *http_state = HttpParseState::Finish;
                let body = slice_to_vec(line.as_slice());
                return Ok(Request::Post(uri, body));
            } else {
                *http_state = HttpParseState::BodyIncomplete;
                return Err(HttpError::BodyLengthMismatch);
            }
        }
        i = i + 1;
    }
    Err(HttpError::HeaderIncomplete)
}

/// Parses a request from its start: the request line, and for `POST` the
/// header lines and the body.  Sets the parser state as it goes.  A request
/// that cannot be read is refused with the `HttpError` that says why, and no
/// request is made up for it.
pub fn parse_start(request: &[u8], http_state: &mut HttpParseState) -> (r: Result<
    Request,
    HttpError,
>)
    ensures
        (result_view(r), *final(http_state)) == start_spec(request@, *old(http_state)),
{
    let lines = split_crlf(request);
    proof {
        lemma_lines_nonempty(request@, 0, Seq::empty());
    }
    let first: &Vec<u8> = &lines[0];
    assert(first@ =~= split_lines(request@)[0]);
    let w = words(first.as_slice());
    if w.len() != 3 {
        return Err(HttpError::BadRequestLine);
    }
    assert(w[0]@ =~= split_words(first@)[0]);
    assert(w[1]@ =~= split_words(first@)[1]);
    let uri = slice_to_vec(w[1].as_slice());
    let method: &[u8] = w[0].as_slice();
    let post = post_bytes();
    let get = get_bytes();
    let delete = delete_bytes();
    if bytes_equal(method, post.as_slice()) {
        *http_state = HttpParseState::Post;
        parse_post(&lines, uri, http_state)
    } else if bytes_equal(method, get.as_slice()) {
        *http_state = HttpParseState::Finish;
        Ok(Request::Get(uri))
    } else if bytes_equal(method, delete.as_slice()) {
        *http_state = HttpParseState::Finish;
        Ok(Request::Delete(uri))
    } else {
        Err(HttpError::BadMethod)
    }
}

/// Parses a request when the parser is at the start of one; in any other
/// state nothing is read and `NotParsed` comes back.
pub fn parse_request(request: &[u8], http_state: &mut HttpParseState) -> (r: Result<
    Request,
    HttpError,
>)
    ensures
        (result_view(r), *final(http_state)) == request_spec(request@, *old(http_state)),
{
    match *http_state {
        HttpParseState::Start => parse_start(request, http_state),
        _ => Ok(Request::NotParsed),
    }
}

/// Answers the request in `plain_buf`: parses it, appends the start of the
/// response to `response`, and says what must be done with the files.  For
/// `POST` and `DELETE` the response is then complete (an empty body); for
/// `GET` it is completed by `finish_get_response` with the file's contents.
/// A request that cannot be read, or one met while the parser is not at the
/// start of a request, is refused with an error and asks nothing of the
/// files.
pub fn handle_request(
    plain_buf: &[u8],
    response: &mut Vec<u8>,
    http_state: &mut HttpParseState,
) -> (r: Result<FileAction, HttpError>)
    ensures
        (action_view(r), final(response)@.skip(old(response)@.len() as int), *final(http_state))
            == handle_spec(plain_buf@, *old(http_state)),
        final(response)@.len() >= old(response)@.len(),
        final(response)@.take(old(response)@.len() as int) == old(response)@,
{
    let ghost start = response@;
    let parsed = parse_request(plain_buf, http_state);
    let result = match parsed {
        Err(e) => {
            assert(response@.skip(start.len() as int) =~= Seq::<u8>::empty());
            Err(e)
        },
        Ok(Request::NotParsed) => {
            append_response_head(response);
            Err(HttpError::BadRequest)
        },
        Ok(Request::Get(uri)) => {
            append_response_head(response);
            let path = latin1_to_utf8(uri.as_slice());
            Ok(FileAction::Load { path })
        },
        Ok(Request::Post(uri, body)) => {
            append_response_head(response);
            let path = latin1_to_utf8(uri.as_slice());
            let contents = latin1_to_utf8(body.as_slice());
            response.push('0' as u8);
            append_header_end(response);
            Ok(FileAction::Store { path, contents })
        },
        Ok(Request::Delete(uri)) => {
            append_response_head(response);
            let path = latin1_to_utf8(uri.as_slice());
            response.push('0' as u8);
            append_header_end(response);
            Ok(FileAction::Remove { path })
        },
    };
    assert(response@.take(start.len() as int) =~= start);
    assert(response@.skip(start.len() as int) =~= handle_spec(plain_buf@, *old(http_state)).1);
    result
}

/// Completes the answer to a `GET` request with the file's contents `data`:
/// their length in decimal, the end of the header, then `data` itself.
pub fn finish_get_response(response: &mut Vec<u8>, data: &[u8])
    ensures
        final(response)@ == old(response)@ + decimal(data@.len()) + header_end() + data@,
{
    let size = format_usize(data.len());
    append_bytes(response, size.as_slice());
    append_header_end(response);
    append_bytes(response, data);
}

/// After a response has gone out, a finished request lets the next one
/// start; any other state stays.
pub fn reset_after_response(http_state: &mut HttpParseState)
    ensures
        *final(http_state) == (if *old(http_state) == HttpParseState::Finish {
            HttpParseState::Start
        } else {
            *old(http_state)
        }),
{
    if *http_state == HttpParseState::Finish {
        *http_state = HttpParseState::Start;
    }
}

/// Answers the plaintext that one round of the connection brought: nothing
/// when there is none, else the answer of `handle_request`.
pub fn answer_plaintext(
    plain: &[u8],
    response: &mut Vec<u8>,
    http_state: &mut HttpParseState,
) -> (r: Result<Option<FileAction>, HttpError>)
    ensures
        plain@.len() == 0 ==> {
            &&& r matches Ok(None)
            &&& final(response)@ == old(response)@
            &&& *final(http_state) == *old(http_state)
        },
        plain@.len() > 0 ==> {
            &&& !(r matches Ok(None))
            &&& r matches Ok(Some(a)) ==> handle_spec(plain@, *old(http_state)).0 == Ok::<
                FileActionView,
                HttpError,
            >(a@)
            &&& r matches Err(e) ==> handle_spec(plain@, *old(http_state)).0 == Err::<
                FileActionView,
                HttpError,
            >(e)
            &&& final(response)@ == old(response)@ + handle_spec(plain@, *old(http_state)).1
            &&& *final(http_state) == handle_spec(plain@, *old(http_state)).2
        },
{
    if plain.len() == 0 {
        return Ok(None);
    }
    let ghost start = response@;
    let r = handle_request(plain, response, http_state);
    assert(response@ =~= response@.take(start.len() as int) + response@.skip(start.len() as int));
    match r {
        Ok(a) => Ok(Some(a)),
        Err(e) => Err(e),
    }
}

} // verus!
