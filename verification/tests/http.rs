use tee_server::http::{
    answer_plaintext, content_length, finish_get_response, handle_request, parse_request,
    parse_start, reset_after_response, FileAction, HttpError, HttpParseState, Request,
};

fn parse(req: &[u8]) -> (Result<Request, HttpError>, HttpParseState) {
    let mut state = HttpParseState::Start;
    let r = parse_request(req, &mut state);
    (r, state)
}

#[test]
fn get_request_parses() {
    let (r, state) = parse(b"GET /config HTTP/1.1\r\nHost: x\r\n\r\n");
    match r {
        Ok(Request::Get(uri)) => assert_eq!(uri, b"/config".to_vec()),
        other => panic!("unexpected {:?}", other),
    }
    assert_eq!(state, HttpParseState::Finish);
}

#[test]
fn delete_request_parses() {
    let (r, state) = parse(b"DELETE /config HTTP/1.1");
    match r {
        Ok(Request::Delete(uri)) => assert_eq!(uri, b"/config".to_vec()),
        other => panic!("unexpected {:?}", other),
    }
    assert_eq!(state, HttpParseState::Finish);
}

#[test]
fn post_request_parses() {
    let (r, state) = parse(b"POST /config HTTP/1.1\r\nContent-Length: 8\r\n\r\nHello TA");
    match r {
        Ok(Request::Post(uri, body)) => {
            assert_eq!(uri, b"/config".to_vec());
            assert_eq!(body, b"Hello TA".to_vec());
        }
        other => panic!("unexpected {:?}", other),
    }
    assert_eq!(state, HttpParseState::Finish);
}

#[test]
fn post_header_lines_are_skipped() {
    let (r, _) = parse(b"POST /a HTTP/1.1\r\nHost: h\r\nContent-Length:  +3 \r\nX: y\r\n\r\n\r\nabc\r\nrest");
    match r {
        Ok(Request::Post(_, body)) => assert_eq!(body, b"abc".to_vec()),
        other => panic!("unexpected {:?}", other),
    }
}

#[test]
fn post_body_length_is_utf8_length() {
    // "h\xe9" is two characters, three bytes of UTF-8.
    let (r, state) = parse(b"POST /a HTTP/1.1\r\nContent-Length: 3\r\n\r\nh\xe9");
    assert!(matches!(r, Ok(Request::Post(_, _))));
    assert_eq!(state, HttpParseState::Finish);
    let (r, state) = parse(b"POST /a HTTP/1.1\r\nContent-Length: 2\r\n\r\nh\xe9");
    assert!(matches!(r, Err(HttpError::BodyLengthMismatch)));
    assert_eq!(state, HttpParseState::BodyIncomplete);
}

#[test]
fn bad_request_line() {
    // The request the http client example sends has two words only.
    let (r, state) = parse(b"POST /config \r\nHello TA\r\n");
    assert!(matches!(r, Err(HttpError::BadRequestLine)));
    assert_eq!(state, HttpParseState::Start);
    let (r, _) = parse(b"GET /a HTTP/1.1 extra");
    assert!(matches!(r, Err(HttpError::BadRequestLine)));
    let (r, _) = parse(b"");
    assert!(matches!(r, Err(HttpError::BadRequestLine)));
}

#[test]
fn bad_method() {
    let (r, state) = parse(b"PUT /a HTTP/1.1\r\n");
    assert!(matches!(r, Err(HttpError::BadMethod)));
    assert_eq!(state, HttpParseState::Start);
    let (r, _) = parse(b"get /a HTTP/1.1");
    assert!(matches!(r, Err(HttpError::BadMethod)));
}

#[test]
fn invalid_content_length() {
    let (r, state) = parse(b"POST /a HTTP/1.1\r\nContent-Length: abc\r\n\r\nx");
    assert!(matches!(r, Err(HttpError::InvalidContentLength)));
    assert_eq!(state, HttpParseState::Post);
    let (r, state) = parse(b"POST /a HTTP/1.1\r\n\r\nContent-Length: -1\r\nx");
    assert!(matches!(r, Err(HttpError::InvalidContentLength)));
    assert_eq!(state, HttpParseState::BodyStart);
}

#[test]
fn content_length_offset_counts_utf8_bytes() {
    // Byte 16 of the UTF-8 text lies after ':' here, so only ' 5' remains.
    assert_eq!(content_length(b"\xe9Content-Length: 5"), None);
    assert_eq!(content_length(b"XXContent-Length: 5"), None);
    assert_eq!(content_length(b"Content-Length: 5 1"), Some(51));
    assert_eq!(content_length(b"Content-Length: 12"), Some(12));
    // Byte 16 inside a two-byte character.
    assert_eq!(content_length(b"Content-Length:\xe95"), None);
}

#[test]
fn header_incomplete() {
    let (r, state) = parse(b"POST /a HTTP/1.1\r\nContent-Length: 1\r\n\r\n");
    assert!(matches!(r, Err(HttpError::HeaderIncomplete)));
    assert_eq!(state, HttpParseState::BodyStart);
    let (r, state) = parse(b"POST /a HTTP/1.1\r\nHost: x");
    assert!(matches!(r, Err(HttpError::HeaderIncomplete)));
    assert_eq!(state, HttpParseState::Post);
}

#[test]
fn not_parsed_outside_start() {
    for s in [HttpParseState::Finish, HttpParseState::Post, HttpParseState::BodyStart, HttpParseState::BodyIncomplete] {
        let mut state = s;
        let r = parse_request(b"GET /a HTTP/1.1", &mut state);
        assert!(matches!(r, Ok(Request::NotParsed)));
        assert_eq!(state, s);
    }
}

#[test]
fn parse_start_from_start() {
    let mut state = HttpParseState::Start;
    let r = parse_start(b"GET / HTTP/1.0", &mut state);
    assert!(matches!(r, Ok(Request::Get(_))));
    assert_eq!(state, HttpParseState::Finish);
}

#[test]
fn handle_post_request() {
    let mut state = HttpParseState::Start;
    let mut response = Vec::new();
    let r = handle_request(b"POST /f\xe9 HTTP/1.1\r\nContent-Length: 4\r\n\r\nab\xe9", &mut response, &mut state);
    match r {
        Ok(FileAction::Store { path, contents }) => {
            assert_eq!(path, "/f\u{e9}".as_bytes().to_vec());
            assert_eq!(contents, "ab\u{e9}".as_bytes().to_vec());
        }
        other => panic!("unexpected {:?}", other),
    }
    assert_eq!(response, b"HTTP 200 OK\r\nContent-Length: 0\r\n\r\n".to_vec());
    assert_eq!(state, HttpParseState::Finish);
}

#[test]
fn handle_get_request() {
    let mut state = HttpParseState::Start;
    let mut response = Vec::new();
    let r = handle_request(b"GET /config HTTP/1.1\r\n", &mut response, &mut state);
    match r {
        Ok(FileAction::Load { path }) => assert_eq!(path, b"/config".to_vec()),
        other => panic!("unexpected {:?}", other),
    }
    assert_eq!(response, b"HTTP 200 OK\r\nContent-Length: ".to_vec());
    finish_get_response(&mut response, b"hello");
    assert_eq!(response, b"HTTP 200 OK\r\nContent-Length: 5\r\n\r\nhello".to_vec());
}

#[test]
fn handle_delete_request() {
    let mut state = HttpParseState::Start;
    let mut response = b"pre".to_vec();
    let r = handle_request(b"DELETE /config HTTP/1.1", &mut response, &mut state);
    assert!(matches!(r, Ok(FileAction::Remove { .. })));
    assert_eq!(response, b"preHTTP 200 OK\r\nContent-Length: 0\r\n\r\n".to_vec());
}

#[test]
fn handle_request_outside_start_is_bad_request() {
    let mut state = HttpParseState::BodyStart;
    let mut response = Vec::new();
    let r = handle_request(b"GET /config HTTP/1.1", &mut response, &mut state);
    assert!(matches!(r, Err(HttpError::BadRequest)));
    assert_eq!(response, b"HTTP 200 OK\r\nContent-Length: ".to_vec());
    assert_eq!(state, HttpParseState::BodyStart);
}

#[test]
fn handle_request_error_leaves_response() {
    let mut state = HttpParseState::Start;
    let mut response = Vec::new();
    let r = handle_request(b"BREW /pot HTTP/1.1", &mut response, &mut state);
    assert!(matches!(r, Err(HttpError::BadMethod)));
    assert!(response.is_empty());
}

#[test]
fn empty_get_response() {
    let mut response = Vec::new();
    finish_get_response(&mut response, b"");
    assert_eq!(response, b"0\r\n\r\n".to_vec());
}

#[test]
fn reset_after_finish() {
    let mut state = HttpParseState::Finish;
    reset_after_response(&mut state);
    assert_eq!(state, HttpParseState::Start);
    let mut state = HttpParseState::BodyIncomplete;
    reset_after_response(&mut state);
    assert_eq!(state, HttpParseState::BodyIncomplete);
}

#[test]
fn answer_empty_plaintext() {
    let mut state = HttpParseState::Start;
    let mut response = Vec::new();
    let r = answer_plaintext(b"", &mut response, &mut state);
    assert!(matches!(r, Ok(None)));
    assert!(response.is_empty());
    assert_eq!(state, HttpParseState::Start);
}

#[test]
fn answer_then_next_request() {
    let mut state = HttpParseState::Start;
    let mut response = Vec::new();
    let r = answer_plaintext(b"DELETE /a HTTP/1.1", &mut response, &mut state);
    assert!(matches!(r, Ok(Some(FileAction::Remove { .. }))));
    reset_after_response(&mut state);
    let mut response = Vec::new();
    let r = answer_plaintext(b"GET /a HTTP/1.1", &mut response, &mut state);
    assert!(matches!(r, Ok(Some(FileAction::Load { .. }))));
}

#[test]
fn parse_start_ignores_initial_state() {
    let req: &[u8] = b"POST /cfg HTTP/1.1\r\nContent-Length: 2\r\n\r\nhi";
    for initial in [
        HttpParseState::Start,
        HttpParseState::Post,
        HttpParseState::BodyStart,
        HttpParseState::BodyIncomplete,
        HttpParseState::Finish,
    ] {
        let mut state = initial;
        match parse_start(req, &mut state) {
            Ok(Request::Post(uri, body)) => {
                assert_eq!(uri, b"/cfg".to_vec());
                assert_eq!(body, b"hi".to_vec());
            }
            other => panic!("unexpected {:?}", other),
        }
        assert_eq!(state, HttpParseState::Finish);
    }
}

#[test]
fn parsed_parts_occur_in_request() {
    let req: &[u8] = b"POST  /x/y \t HTTP/1.1\r\nContent-Length: 4\r\n\r\nbody";
    let mut state = HttpParseState::Start;
    match parse_start(req, &mut state) {
        Ok(Request::Post(uri, body)) => {
            assert!(req.windows(uri.len()).any(|w| w == uri.as_slice()));
            assert!(req.windows(body.len()).any(|w| w == body.as_slice()));
            assert_eq!(uri, b"/x/y".to_vec());
        }
        other => panic!("unexpected {:?}", other),
    }
}
