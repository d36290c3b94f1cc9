use tee_server::text::{
    char_index_at_byte, contains_bytes, is_whitespace, latin1_to_utf8, split_crlf,
    strip_whitespace_from, utf8_length, words,
};

#[test]
fn split_crlf_pieces() {
    let lines = split_crlf(b"a\r\nb\r\n\r\nc");
    assert_eq!(lines, vec![b"a".to_vec(), b"b".to_vec(), b"".to_vec(), b"c".to_vec()]);
}

#[test]
fn split_crlf_edges() {
    assert_eq!(split_crlf(b""), vec![b"".to_vec()]);
    assert_eq!(split_crlf(b"x\r\n"), vec![b"x".to_vec(), b"".to_vec()]);
    assert_eq!(split_crlf(b"\r\r\n"), vec![b"\r".to_vec(), b"".to_vec()]);
    assert_eq!(split_crlf(b"a\rb\nc"), vec![b"a\rb\nc".to_vec()]);
}

#[test]
fn split_crlf_matches_str_split() {
    let text = "GET /x HTTP/1.1\r\nHost: a\r\r\n\r\nbody\r\n";
    let expected: Vec<Vec<u8>> = text.split("\r\n").map(|s| s.as_bytes().to_vec()).collect();
    assert_eq!(split_crlf(text.as_bytes()), expected);
}

#[test]
fn words_of_line() {
    assert_eq!(
        words(b"  GET\t/a  HTTP/1.1 "),
        vec![b"GET".to_vec(), b"/a".to_vec(), b"HTTP/1.1".to_vec()]
    );
    assert_eq!(words(b""), Vec::<Vec<u8>>::new());
    assert_eq!(words(b" \x0b\x0c "), Vec::<Vec<u8>>::new());
}

#[test]
fn words_split_at_latin1_white_space() {
    // 0x85 (NEL) and 0xA0 (NBSP) are white space as characters.
    assert_eq!(words(b"a\x85b\xa0c\xe9"), vec![b"a".to_vec(), b"b".to_vec(), b"c\xe9".to_vec()]);
    let text: String = b"a\x85b\xa0c\xe9".iter().map(|&b| b as char).collect();
    assert_eq!(text.split_whitespace().count(), 3);
}

#[test]
fn whitespace_bytes() {
    for b in 0u8..=255 {
        assert_eq!(is_whitespace(b), (b as char).is_whitespace(), "byte {}", b);
    }
}

#[test]
fn contains_pattern() {
    assert!(contains_bytes(b"xxContent-Length: 5", b"Content-Length: "));
    assert!(!contains_bytes(b"Content-Length:5", b"Content-Length: "));
    assert!(contains_bytes(b"abc", b""));
    assert!(!contains_bytes(b"ab", b"abc"));
    assert!(contains_bytes(b"abc", b"abc"));
}

#[test]
fn utf8_length_and_encoding() {
    let s = b"h\xe9!";
    assert_eq!(utf8_length(s), 4);
    assert_eq!(latin1_to_utf8(s), vec![0x68, 0xc3, 0xa9, 0x21]);
    let text: String = s.iter().map(|&b| b as char).collect();
    assert_eq!(latin1_to_utf8(s), text.as_bytes().to_vec());
    assert_eq!(utf8_length(b""), 0);
}

#[test]
fn latin1_encoding_matches_std_for_every_byte() {
    let all: Vec<u8> = (0u8..=255).collect();
    let text: String = all.iter().map(|&b| b as char).collect();
    assert_eq!(latin1_to_utf8(&all), text.as_bytes().to_vec());
    assert_eq!(utf8_length(&all), text.len() as u128);
}

#[test]
fn char_index_of_byte_offset() {
    assert_eq!(char_index_at_byte(b"abcdef", 3), Some(3));
    assert_eq!(char_index_at_byte(b"\xe9bc", 2), Some(1));
    assert_eq!(char_index_at_byte(b"\xe9bc", 1), None);
    assert_eq!(char_index_at_byte(b"ab", 2), Some(2));
    assert_eq!(char_index_at_byte(b"ab", 3), None);
}

#[test]
fn strip_whitespace_tail() {
    assert_eq!(strip_whitespace_from(b"ab 1 2\t3 ", 2), b"123".to_vec());
    assert_eq!(strip_whitespace_from(b"ab", 2), Vec::<u8>::new());
}
