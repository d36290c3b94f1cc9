//! Laws of the request parser and of the responses: a well-formed request
//! is read back as what it was built from, a parsed request leaves the
//! parser finished, and a response announces the length of what it carries.
use vstd::prelude::*;

use crate::decimal::{decimal, lemma_decimal_digits, lemma_decimal_roundtrip, is_digit};
use crate::http::{
    content_length_field, content_length_of, delete_word, empty_body_tail, get_word, header_end,
    post_from, post_word, request_spec, response_head, start_spec, handle_spec, FileActionView,
    HttpError, HttpParseState, RequestView,
};
use crate::text::{
    char_at_byte_from, contains, is_ws, lines_from, occurs_at, split_lines, split_words,
    strip_ws, utf8_encode, utf8_len, word_if_any, words_from, CR, LF, lemma_utf8_encode_len,
};

verus! {

/// CR LF.
pub open spec fn crlf() -> Seq<u8> {
    seq![CR, LF]
}

/// A single space.
pub open spec fn space() -> Seq<u8> {
    seq![32u8]
}

/// The request line `method target version`.
pub open spec fn request_line(method: Seq<u8>, target: Seq<u8>, version: Seq<u8>) -> Seq<u8> {
    method + space() + target + space() + version
}

/// A `POST` request of `body` to `target`: the request line, a
/// `Content-Length` header announcing the body's UTF-8 length, an empty
/// line, then the body.
pub open spec fn post_request(target: Seq<u8>, version: Seq<u8>, body: Seq<u8>) -> Seq<u8> {
    request_line(post_word(), target, version) + crlf() + (content_length_line(utf8_len(body))
        + crlf() + (crlf() + body))
}

/// The header line `Content-Length: n`.
pub open spec fn content_length_line(n: nat) -> Seq<u8> {
    content_length_field() + decimal(n)
}

/// A request with method `method` on `target`, followed by anything.
pub open spec fn simple_request(
    method: Seq<u8>,
    target: Seq<u8>,
    version: Seq<u8>,
    rest: Seq<u8>,
) -> Seq<u8> {
    request_line(method, target, version) + crlf() + rest
}

/// True when `w` is a word: not empty, without white space.
pub open spec fn is_word(w: Seq<u8>) -> bool {
    w.len() > 0 && forall|i: int| 0 <= i < w.len() ==> !is_ws(#[trigger] w[i])
}

/// True when no byte of `s` is a carriage return.
pub open spec fn no_cr(s: Seq<u8>) -> bool {
    forall|i: int| 0 <= i < s.len() ==> #[trigger] s[i] != CR
}

/// Proof that scanning a stretch without CR LF only grows the current piece.
pub proof fn lemma_lines_skip(s: Seq<u8>, i: int, j: int, cur: Seq<u8>)
    requires
        0 <= i <= j <= s.len(),
        forall|k: int| i <= k < j && k + 1 < s.len() ==> !(#[trigger] s[k] == CR && s[k + 1] == LF),
    ensures
        lines_from(s, i, cur) == lines_from(s, j, cur + s.subrange(i, j)),
    decreases j - i,
{
    if i == j {
        assert(cur + s.subrange(i, j) =~= cur);
    } else {
        assert(!(s[i] == CR && s[i + 1] == LF) || i + 1 >= s.len());
        lemma_lines_skip(s, i + 1, j, cur.push(s[i]));
        assert(cur.push(s[i]) + s.subrange(i + 1, j) =~= cur + s.subrange(i, j));
    }
}

/// Proof that a line `a` without CR, followed by CR LF, is the next piece.
pub proof fn lemma_lines_at_line(s: Seq<u8>, i: int, a: Seq<u8>)
    requires
        0 <= i,
        i + a.len() + 2 <= s.len(),
        s.subrange(i, i + a.len()) == a,
        no_cr(a),
        s[i + a.len()] == CR,
        s[i + a.len() + 1] == LF,
    ensures
        lines_from(s, i, Seq::empty()) == seq![a] + lines_from(
            s,
            i + a.len() + 2,
            Seq::empty(),
        ),
{
    assert forall|k: int| i <= k < i + a.len() && k + 1 < s.len() implies !(#[trigger] s[k] == CR
        && s[k + 1] == LF) by {
        assert(s[k] == s.subrange(i, i + a.len())[k - i]);
        assert(a[k - i] != CR);
    }
    lemma_lines_skip(s, i, i + a.len(), Seq::empty());
    assert(Seq::<u8>::empty() + s.subrange(i, i + a.len()) =~= a);
}

/// Proof that the pieces of a text after a prefix are those of the rest.
pub proof fn lemma_lines_shift(p: Seq<u8>, q: Seq<u8>, j: int, cur: Seq<u8>)
    requires
        0 <= j <= q.len(),
    ensures
        lines_from(p + q, p.len() + j, cur) == lines_from(q, j, cur),
    decreases q.len() - j,
{
    let s = p + q;
    let i = p.len() + j;
    if j < q.len() {
        assert(s[i] == q[j]);
        if j + 1 < q.len() {
            assert(s[i + 1] == q[j + 1]);
        }
        if j + 1 < q.len() && q[j] == CR && q[j + 1] == LF {
            lemma_lines_shift(p, q, j + 2, Seq::empty());
        } else {
            lemma_lines_shift(p, q, j + 1, cur.push(q[j]));
        }
    }
}

/// Splitting `a`, CR LF, `rest` at CR LF gives `a` and then the pieces of
/// `rest`, when `a` holds no carriage return.
pub proof fn lemma_split_lines_cons(a: Seq<u8>, rest: Seq<u8>)
    requires
        no_cr(a),
    ensures
        split_lines(a + crlf() + rest) == seq![a] + split_lines(rest),
{
    let s = a + crlf() + rest;
    assert(s.subrange(0, a.len() as int) =~= a);
    assert(s[a.len() as int] == CR);
    assert(s[a.len() as int + 1] == LF);
    lemma_lines_at_line(s, 0, a);
    lemma_lines_shift(a + crlf(), rest, 0, Seq::empty());
}

/// A text without CR LF is a single piece.
pub proof fn lemma_split_lines_single(s: Seq<u8>)
    requires
        !contains(s, crlf()),
    ensures
        split_lines(s) == seq![s],
{
    assert forall|k: int| 0 <= k < s.len() && k + 1 < s.len() implies !(#[trigger] s[k] == CR
        && s[k + 1] == LF) by {
        if s[k] == CR && s[k + 1] == LF {
            assert(s.subrange(k, k + 2) =~= crlf());
            assert(occurs_at(s, crlf(), k));
        }
    }
    lemma_lines_skip(s, 0, s.len() as int, Seq::empty());
    assert(Seq::<u8>::empty() + s.subrange(0, s.len() as int) =~= s);
}

/// Proof that scanning a stretch without white space only grows the
/// current word.
pub proof fn lemma_words_skip(s: Seq<u8>, i: int, j: int, cur: Seq<u8>)
    requires
        0 <= i <= j <= s.len(),
        forall|k: int| i <= k < j ==> !is_ws(#[trigger] s[k]),
    ensures
        words_from(s, i, cur) == words_from(s, j, cur + s.subrange(i, j)),
    decreases j - i,
{
    if i == j {
        assert(cur + s.subrange(i, j) =~= cur);
    } else {
        assert(!is_ws(s[i]));
        lemma_words_skip(s, i + 1, j, cur.push(s[i]));
        assert(cur.push(s[i]) + s.subrange(i + 1, j) =~= cur + s.subrange(i, j));
    }
}

/// Proof that the words of a text after a prefix are those of the rest.
pub proof fn lemma_words_shift(p: Seq<u8>, q: Seq<u8>, j: int, cur: Seq<u8>)
    requires
        0 <= j <= q.len(),
    ensures
        words_from(p + q, p.len() + j, cur) == words_from(q, j, cur),
    decreases q.len() - j,
{
    let s = p + q;
    let i = p.len() + j;
    if j < q.len() {
        assert(s[i] == q[j]);
        if is_ws(q[j]) {
            lemma_words_shift(p, q, j + 1, Seq::empty());
        } else {
            lemma_words_shift(p, q, j + 1, cur.push(q[j]));
        }
    }
}

/// A word is the only word of itself.
pub proof fn lemma_split_words_single(w: Seq<u8>)
    requires
        is_word(w),
    ensures
        split_words(w) == seq![w],
{
    lemma_words_skip(w, 0, w.len() as int, Seq::empty());
    assert(Seq::<u8>::empty() + w.subrange(0, w.len() as int) =~= w);
}

/// The words of `w`, a space, `rest` are `w` and then the words of `rest`.
pub proof fn lemma_split_words_cons(w: Seq<u8>, rest: Seq<u8>)
    requires
        is_word(w),
    ensures
        split_words(w + space() + rest) == seq![w] + split_words(rest),
{
    let s = w + space() + rest;
    assert forall|k: int| 0 <= k < w.len() implies !is_ws(#[trigger] s[k]) by {
        assert(s[k] == w[k]);
    }
    lemma_words_skip(s, 0, w.len() as int, Seq::empty());
    assert(Seq::<u8>::empty() + s.subrange(0, w.len() as int) =~= w);
    assert(s[w.len() as int] == 32u8);
    lemma_words_shift(w + space(), rest, 0, Seq::empty());
}

/// Proof that the words of a request line are its method, target and
/// version.
pub proof fn lemma_request_line_words(method: Seq<u8>, target: Seq<u8>, version: Seq<u8>)
    requires
        is_word(method),
        is_word(target),
        is_word(version),
    ensures
        split_words(request_line(method, target, version)) == seq![method, target, version],
{
    let l = request_line(method, target, version);
    assert(l =~= method + space() + (target + space() + version));
    lemma_split_words_cons(method, target + space() + version);
    lemma_split_words_cons(target, version);
    lemma_split_words_single(version);
    assert(split_words(l) =~= seq![method, target, version]);
}

/// Proof that a request line holds no carriage return.
pub proof fn lemma_request_line_no_cr(method: Seq<u8>, target: Seq<u8>, version: Seq<u8>)
    requires
        is_word(method),
        is_word(target),
        is_word(version),
    ensures
        no_cr(request_line(method, target, version)),
{
    let l = request_line(method, target, version);
    assert forall|i: int| 0 <= i < l.len() implies #[trigger] l[i] != CR by {
        let a: int = method.len() as int;
        let b: int = a + 1 + target.len();
        if i < a {
            assert(l[i] == method[i]);
            assert(!is_ws(method[i]));
        } else if i == a || i == b {
        } else if i < b {
            assert(l[i] == target[i - a - 1]);
            assert(!is_ws(target[i - a - 1]));
        } else {
            assert(l[i] == version[i - b - 1]);
            assert(!is_ws(version[i - b - 1]));
        }
    }
}

/// Proof that the first line of a request built from a request line is
/// that line.
pub proof fn lemma_first_line(method: Seq<u8>, target: Seq<u8>, version: Seq<u8>, rest: Seq<u8>)
    requires
        is_word(method),
        is_word(target),
        is_word(version),
    ensures
        split_lines(simple_request(method, target, version, rest))[0] == request_line(
            method,
            target,
            version,
        ),
{
    lemma_request_line_no_cr(method, target, version);
    lemma_split_lines_cons(request_line(method, target, version), rest);
}

/// Proof that scanning ASCII characters finds UTF-8 byte `k` at character
/// `k`.
pub proof fn lemma_char_at_ascii(s: Seq<u8>, k: nat, j: int, acc: nat)
    requires
        0 <= j,
        acc <= k,
        j + (k - acc) <= s.len(),
        forall|t: int| j <= t < j + (k - acc) ==> #[trigger] s[t] < 0x80,
    ensures
        char_at_byte_from(s, k, j, acc) == Some(j + (k - acc)),
    decreases k - acc,
{
    if acc < k {
        assert(s[j] < 0x80);
        lemma_char_at_ascii(s, k, j + 1, acc + 1);
    }
}

/// Proof that taking the white space out of a text without any leaves it.
pub proof fn lemma_strip_ws_none(s: Seq<u8>)
    requires
        forall|i: int| 0 <= i < s.len() ==> !is_ws(#[trigger] s[i]),
    ensures
        strip_ws(s) == s,
    decreases s.len(),
{
    if s.len() > 0 {
        assert(!is_ws(s[s.len() - 1]));
        lemma_strip_ws_none(s.drop_last());
        assert(s.drop_last().push(s.last()) =~= s);
    }
}

/// Proof that `Content-Length: ` is 16 ASCII bytes.
pub proof fn lemma_field_ascii()
    ensures
        content_length_field().len() == 16,
        no_cr(content_length_field()),
        forall|t: int| 0 <= t < 16 ==> #[trigger] content_length_field()[t] < 0x80,
{
}

/// Proof that the line `Content-Length: n` holds the field and announces
/// `n`.
pub proof fn lemma_content_length_line(n: usize)
    ensures
        contains(content_length_line(n as nat), content_length_field()),
        content_length_of(content_length_line(n as nat)) == Some(n),
        no_cr(content_length_line(n as nat)),
{
    let line = content_length_line(n as nat);
    lemma_field_ascii();
    lemma_decimal_digits(n as nat);
    assert(line.subrange(0, 16) =~= content_length_field());
    assert(occurs_at(line, content_length_field(), 0));
    assert forall|t: int| 0 <= t < 16 implies #[trigger] line[t] < 0x80 by {
        assert(line[t] == content_length_field()[t]);
    }
    lemma_char_at_ascii(line, 16, 0, 0);
    let tail = line.subrange(16, line.len() as int);
    assert(tail =~= decimal(n as nat));
    assert forall|i: int| 0 <= i < tail.len() implies !is_ws(#[trigger] tail[i]) by {
        assert(is_digit(decimal(n as nat)[i]));
    }
    lemma_strip_ws_none(tail);
    lemma_decimal_roundtrip(n);
    assert forall|i: int| 0 <= i < line.len() implies #[trigger] line[i] != CR by {
        if i >= 16 {
            assert(is_digit(decimal(n as nat)[i - 16]));
        }
    }
}

/// Proof that a line, an empty line and a last line split back into
/// those three lines.
pub proof fn lemma_three_lines(l1: Seq<u8>, body: Seq<u8>)
    requires
        no_cr(l1),
        !contains(body, crlf()),
    ensures
        split_lines(l1 + crlf() + (crlf() + body)) == seq![l1, Seq::<u8>::empty(), body],
{
    let empty = Seq::<u8>::empty();
    assert(no_cr(empty));
    assert(crlf() + body =~= empty + crlf() + body);
    lemma_split_lines_cons(empty, body);
    lemma_split_lines_single(body);
    lemma_split_lines_cons(l1, crlf() + body);
    assert(seq![l1] + (seq![empty] + seq![body]) =~= seq![l1, empty, body]);
}

/// Proof that the lines of a `POST` request are its request line, its
/// header, an empty line and its body.
pub proof fn lemma_post_request_lines(target: Seq<u8>, version: Seq<u8>, body: Seq<u8>)
    requires
        is_word(target),
        is_word(version),
        !contains(body, crlf()),
        utf8_len(body) <= usize::MAX,
    ensures
        split_lines(post_request(target, version, body)) == seq![
            request_line(post_word(), target, version),
            content_length_line(utf8_len(body)),
            Seq::<u8>::empty(),
            body,
        ],
{
    let l0 = request_line(post_word(), target, version);
    let l1 = content_length_line(utf8_len(body));
    lemma_content_length_line(utf8_len(body) as usize);
    lemma_three_lines(l1, body);
    assert(is_word(post_word()));
    lemma_request_line_no_cr(post_word(), target, version);
    lemma_split_lines_cons(l0, l1 + crlf() + (crlf() + body));
    assert(seq![l0] + seq![l1, Seq::<u8>::empty(), body] =~= seq![
        l0,
        l1,
        Seq::<u8>::empty(),
        body,
    ]);
}

/// Proof that reading the lines after the request line of a `POST` request
/// gives its target and body.
pub proof fn lemma_post_body_lines(target: Seq<u8>, l0: Seq<u8>, body: Seq<u8>)
    requires
        body.len() > 0,
        !contains(body, content_length_field()),
        utf8_len(body) <= usize::MAX,
    ensures
        post_from(
            seq![l0, content_length_line(utf8_len(body)), Seq::<u8>::empty(), body],
            1,
            0,
            HttpParseState::Post,
            target,
        ) == (
            Ok::<RequestView, crate::http::HttpError>(RequestView::Post(target, body)),
            HttpParseState::Finish,
        ),
{
    let n = utf8_len(body) as usize;
    let empty = Seq::<u8>::empty();
    let lines = seq![l0, content_length_line(n as nat), empty, body];
    lemma_content_length_line(n);
    assert(lines[1] == content_length_line(n as nat));
    assert(lines[2] == empty);
    assert(lines[3] == body);
    assert(!contains(empty, content_length_field()));
    assert(post_from(lines, 3, n, HttpParseState::BodyStart, target) == (
        Ok::<RequestView, crate::http::HttpError>(RequestView::Post(target, body)),
        HttpParseState::Finish,
    ));
    assert(post_from(lines, 2, n, HttpParseState::Post, target) == post_from(
        lines,
        3,
        n,
        HttpParseState::BodyStart,
        target,
    ));
    assert(post_from(lines, 1, 0, HttpParseState::Post, target) == post_from(
        lines,
        2,
        n,
        HttpParseState::Post,
        target,
    ));
}

/// A well-formed `POST` request is read back as its target and body: when
/// the request line holds three words, the `Content-Length` header gives the
/// body's UTF-8 length, and the body is one non-empty line that does not
/// itself hold `Content-Length: `, the parser returns the target and the
/// body and finishes.
pub proof fn lemma_post_request_roundtrip(target: Seq<u8>, version: Seq<u8>, body: Seq<u8>)
    requires
        is_word(target),
        is_word(version),
        body.len() > 0,
        !contains(body, crlf()),
        !contains(body, content_length_field()),
        utf8_len(body) <= usize::MAX,
    ensures
        request_spec(post_request(target, version, body), HttpParseState::Start) == (
            Ok::<RequestView, crate::http::HttpError>(RequestView::Post(target, body)),
            HttpParseState::Finish,
        ),
{
    let l0 = request_line(post_word(), target, version);
    assert(is_word(post_word()));
    lemma_post_request_lines(target, version, body);
    lemma_request_line_words(post_word(), target, version);
    lemma_post_body_lines(target, l0, body);
}

/// A well-formed `GET` request is read back as its target, whatever follows
/// its request line, and the parser finishes.
pub proof fn lemma_get_request_roundtrip(target: Seq<u8>, version: Seq<u8>, rest: Seq<u8>)
    requires
        is_word(target),
        is_word(version),
    ensures
        request_spec(simple_request(get_word(), target, version, rest), HttpParseState::Start)
            == (
            Ok::<RequestView, crate::http::HttpError>(RequestView::Get(target)),
            HttpParseState::Finish,
        ),
{
    assert(is_word(get_word()));
    lemma_first_line(get_word(), target, version, rest);
    lemma_request_line_words(get_word(), target, version);
    assert(get_word() != post_word());
}

/// A well-formed `DELETE` request is read back as its target, whatever
/// follows its request line, and the parser finishes.
pub proof fn lemma_delete_request_roundtrip(target: Seq<u8>, version: Seq<u8>, rest: Seq<u8>)
    requires
        is_word(target),
        is_word(version),
    ensures
        request_spec(simple_request(delete_word(), target, version, rest), HttpParseState::Start)
            == (
            Ok::<RequestView, crate::http::HttpError>(RequestView::Delete(target)),
            HttpParseState::Finish,
        ),
{
    assert(is_word(delete_word()));
    lemma_first_line(delete_word(), target, version, rest);
    lemma_request_line_words(delete_word(), target, version);
    assert(delete_word() != post_word());
    assert(delete_word() != get_word());
}

/// Proof that a `POST` request that is read ends finished.
pub proof fn lemma_post_from_finishes(
    lines: Seq<Seq<u8>>,
    i: int,
    cl: usize,
    state: HttpParseState,
    uri: Seq<u8>,
)
    ensures
        post_from(lines, i, cl, state, uri).0 is Ok ==> post_from(lines, i, cl, state, uri).1
            == HttpParseState::Finish,
    decreases lines.len() - i,
{
    if 0 <= i < lines.len() {
        lemma_post_from_finishes(lines, i + 1, cl, state, uri);
        lemma_post_from_finishes(lines, i + 1, cl, HttpParseState::BodyStart, uri);
        if let Some(v) = content_length_of(lines[i]) {
            lemma_post_from_finishes(lines, i + 1, v, state, uri);
        }
    }
}

/// What reading a request from its start gives does not depend on the state
/// the parser was in, and every request that is read leaves the parser
/// finished, so that the next one can start once the response is out.
pub proof fn lemma_parsed_request_finishes(req: Seq<u8>, state: HttpParseState, other: HttpParseState)
    ensures
        start_spec(req, state).0 == start_spec(req, other).0,
        start_spec(req, state).0 is Ok ==> start_spec(req, state).1 == HttpParseState::Finish,
{
    let lines = split_lines(req);
    let w = split_words(lines[0]);
    if w.len() == 3 && w[0] == post_word() {
        lemma_post_from_finishes(lines, 1, 0, HttpParseState::Post, w[1]);
    }
}

/// The parts of the request `v` (its target, and a `POST`'s body) each occur
/// in the bytes `req`.
pub open spec fn parts_within(v: RequestView, req: Seq<u8>) -> bool {
    match v {
        RequestView::Get(uri) => contains(req, uri),
        RequestView::Delete(uri) => contains(req, uri),
        RequestView::Post(uri, body) => contains(req, uri) && contains(req, body),
        RequestView::NotParsed => true,
    }
}

/// What occurs in a piece of `s` occurs in `s`.
pub proof fn lemma_contains_within(s: Seq<u8>, a: Seq<u8>, w: Seq<u8>)
    requires
        contains(s, a),
        contains(a, w),
    ensures
        contains(s, w),
{
    let q = choose|q: int| occurs_at(s, a, q);
    let p = choose|p: int| occurs_at(a, w, p);
    assert(s.subrange(q + p, q + p + w.len()) =~= a.subrange(p, p + w.len()));
    assert(occurs_at(s, w, q + p));
}

/// Every piece that splitting `s` at CR LF from index `i` gives occurs in
/// `s`, where the piece `cur` begun is the bytes just before `i`.
pub proof fn lemma_lines_within(s: Seq<u8>, i: int, cur: Seq<u8>)
    requires
        0 <= i <= s.len(),
        cur.len() <= i,
        cur == s.subrange(i - cur.len(), i),
    ensures
        lines_from(s, i, cur).len() >= 1,
        forall|k: int| 0 <= k < lines_from(s, i, cur).len() ==> contains(s, #[trigger] lines_from(s, i, cur)[k]),
    decreases s.len() - i,
{
    assert(occurs_at(s, cur, i - cur.len()));
    let all = lines_from(s, i, cur);
    if i >= s.len() {
        assert(all == seq![cur]);
        assert forall|k: int| 0 <= k < all.len() implies contains(s, #[trigger] all[k]) by {
            assert(all[k] == cur);
        }
    } else if i + 1 < s.len() && s[i] == CR && s[i + 1] == LF {
        assert(Seq::<u8>::empty() =~= s.subrange(i + 2, i + 2));
        lemma_lines_within(s, i + 2, Seq::empty());
        let rest = lines_from(s, i + 2, Seq::empty());
        assert(all == seq![cur] + rest);
        assert forall|k: int| 0 <= k < all.len() implies contains(s, #[trigger] all[k]) by {
            if k > 0 {
                assert(all[k] == rest[k - 1]);
            } else {
                assert(all[k] == cur);
            }
        }
    } else {
        assert(cur.push(s[i]) =~= s.subrange(i - cur.len(), i + 1));
        lemma_lines_within(s, i + 1, cur.push(s[i]));
        assert(all == lines_from(s, i + 1, cur.push(s[i])));
    }
}

/// Every word that splitting `s` at white space from index `i` gives occurs
/// in `s`, where the word `cur` begun is the bytes just before `i`.
pub proof fn lemma_words_within(s: Seq<u8>, i: int, cur: Seq<u8>)
    requires
        0 <= i <= s.len(),
        cur.len() <= i,
        cur == s.subrange(i - cur.len(), i),
    ensures
        forall|k: int| 0 <= k < words_from(s, i, cur).len() ==> contains(s, #[trigger] words_from(s, i, cur)[k]),
    decreases s.len() - i,
{
    assert(occurs_at(s, cur, i - cur.len()));
    let all = words_from(s, i, cur);
    let first = word_if_any(cur);
    if i >= s.len() {
        assert(all == first);
        assert forall|k: int| 0 <= k < all.len() implies contains(s, #[trigger] all[k]) by {
            assert(all[k] == cur);
        }
    } else if is_ws(s[i]) {
        assert(Seq::<u8>::empty() =~= s.subrange(i + 1, i + 1));
        lemma_words_within(s, i + 1, Seq::empty());
        let rest = words_from(s, i + 1, Seq::empty());
        assert(all == first + rest);
        assert forall|k: int| 0 <= k < all.len() implies contains(s, #[trigger] all[k]) by {
            if k >= first.len() {
                assert(all[k] == rest[k - first.len()]);
            } else {
                assert(all[k] == cur);
            }
        }
    } else {
        assert(cur.push(s[i]) =~= s.subrange(i - cur.len(), i + 1));
        lemma_words_within(s, i + 1, cur.push(s[i]));
        assert(all == words_from(s, i + 1, cur.push(s[i])));
    }
}

/// What reading the lines of a `POST` request gives takes its body from one
/// of the lines.
pub proof fn lemma_post_from_within(
    lines: Seq<Seq<u8>>,
    i: int,
    cl: usize,
    state: HttpParseState,
    uri: Seq<u8>,
    req: Seq<u8>,
)
    requires
        forall|k: int| 0 <= k < lines.len() ==> contains(req, #[trigger] lines[k]),
        contains(req, uri),
    ensures
        post_from(lines, i, cl, state, uri).0 matches Ok(v) ==> parts_within(v, req),
    decreases lines.len() - i,
{
    if 0 <= i < lines.len() {
        lemma_post_from_within(lines, i + 1, cl, state, uri, req);
        lemma_post_from_within(lines, i + 1, cl, HttpParseState::BodyStart, uri, req);
        if let Some(v) = content_length_of(lines[i]) {
            lemma_post_from_within(lines, i + 1, v, state, uri, req);
        }
    }
}

/// What a request read from its start gives is taken from the request: its
/// target is a word of the first line, and a `POST`'s body is one of its
/// lines.
pub proof fn lemma_request_parts_within(req: Seq<u8>, state: HttpParseState)
    ensures
        start_spec(req, state).0 matches Ok(v) ==> parts_within(v, req),
{
    let lines = split_lines(req);
    let w = split_words(lines[0]);
    assert(Seq::<u8>::empty() =~= req.subrange(0, 0));
    lemma_lines_within(req, 0, Seq::empty());
    assert(Seq::<u8>::empty() =~= lines[0].subrange(0, 0));
    lemma_words_within(lines[0], 0, Seq::empty());
    assert(contains(req, lines[0]));
    if w.len() == 3 {
        assert(contains(lines[0], w[1]));
        lemma_contains_within(req, lines[0], w[1]);
        if w[0] == post_word() {
            lemma_post_from_within(lines, 1, 0, HttpParseState::Post, w[1], req);
        }
    }
}

/// The response to a `GET` request announces exactly the length of the data
/// it carries: its second line is the `Content-Length` header, which reads
/// back as the data's length, and the data ends the response.
pub proof fn lemma_get_response_length(data: Seq<u8>)
    requires
        data.len() <= usize::MAX,
    ensures
        ({
            let resp = response_head() + decimal(data.len()) + header_end() + data;
            &&& split_lines(resp)[1] == content_length_field() + decimal(data.len())
            &&& content_length_of(split_lines(resp)[1]) == Some(data.len() as usize)
            &&& resp.subrange(resp.len() - data.len(), resp.len() as int) == data
        }),
{
    let n = data.len();
    let resp = response_head() + decimal(n) + header_end() + data;
    let status = response_head().subrange(0, 11);
    let l1 = content_length_line(n);
    let empty = Seq::<u8>::empty();
    let rest2 = empty + crlf() + data;
    let rest1 = l1 + crlf() + rest2;
    assert(resp =~= status + crlf() + rest1);
    assert(split_lines(rest1).len() >= 1 && split_lines(rest1)[0] == l1) by {
        lemma_content_length_line(n as usize);
        lemma_split_lines_cons(l1, rest2);
    }
    assert(split_lines(status + crlf() + rest1)[1] == l1) by {
        assert(no_cr(status));
        lemma_split_lines_cons(status, rest1);
    }
    assert(content_length_of(l1) == Some(n as usize)) by {
        lemma_content_length_line(n as usize);
    }
    assert(resp.subrange(resp.len() - data.len(), resp.len() as int) =~= data);
}

/// The responses to `POST` and `DELETE` requests announce an empty body and
/// carry none.
pub proof fn lemma_empty_response()
    ensures
        ({
            let resp = response_head() + empty_body_tail();
            &&& split_lines(resp)[1] == content_length_field() + decimal(0)
            &&& content_length_of(split_lines(resp)[1]) == Some(0usize)
            &&& resp == response_head() + decimal(0) + header_end()
        }),
{
    assert(empty_body_tail() =~= decimal(0) + header_end());
    assert(response_head() + empty_body_tail() =~= response_head() + decimal(0) + header_end()
        + Seq::<u8>::empty());
    lemma_get_response_length(Seq::<u8>::empty());
    assert(response_head() + decimal(0) + header_end() + Seq::<u8>::empty() =~= response_head()
        + decimal(0) + header_end());
}

/// The text of Latin-1 characters below 128 is its own UTF-8 encoding.
pub proof fn lemma_utf8_encode_ascii(s: Seq<u8>)
    requires
        forall|i: int| 0 <= i < s.len() ==> s[i] < 0x80,
    ensures
        utf8_encode(s) == s,
    decreases s.len(),
{
    if s.len() > 0 {
        lemma_utf8_encode_ascii(s.drop_last());
        assert(s.drop_last().push(s.last()) =~= s);
    }
}

/// What answering a request asks of the files, and the response it starts,
/// for each way the request parses: a `DELETE` removes the file named by its
/// target and a `GET` loads it, a `POST` stores its body in it, the file's
/// name and contents being the UTF-8 text of the target and body (the same
/// bytes for ASCII text); `POST` and `DELETE` answer with an empty body
/// (`HTTP 200 OK`, `Content-Length: 0`), a `GET` with the header start that
/// the file's length completes; a request that is refused asks nothing and
/// starts no response, and one met outside the start of a request is a bad
/// request.  The parser state is the one parsing leaves.
pub proof fn lemma_answer_actions(req: Seq<u8>, state: HttpParseState, uri: Seq<u8>, body: Seq<u8>)
    ensures
        request_spec(req, state).0 == Ok::<RequestView, HttpError>(RequestView::Delete(uri)) ==> {
            &&& handle_spec(req, state).0 == Ok::<FileActionView, HttpError>(
                FileActionView::Remove { path: utf8_encode(uri) },
            )
            &&& handle_spec(req, state).1 == response_head() + seq!['0' as u8, 13u8, 10u8, 13u8, 10u8]
        },
        request_spec(req, state).0 == Ok::<RequestView, HttpError>(RequestView::Get(uri)) ==> {
            &&& handle_spec(req, state).0 == Ok::<FileActionView, HttpError>(
                FileActionView::Load { path: utf8_encode(uri) },
            )
            &&& handle_spec(req, state).1 == response_head()
        },
        request_spec(req, state).0 == Ok::<RequestView, HttpError>(RequestView::Post(uri, body)) ==> {
            &&& handle_spec(req, state).0 == Ok::<FileActionView, HttpError>(
                FileActionView::Store { path: utf8_encode(uri), contents: utf8_encode(body) },
            )
            &&& handle_spec(req, state).1 == response_head() + seq!['0' as u8, 13u8, 10u8, 13u8, 10u8]
        },
        request_spec(req, state).0 is Err ==> handle_spec(req, state).0 == Err::<
            FileActionView,
            HttpError,
        >(request_spec(req, state).0->Err_0) && handle_spec(req, state).1 == Seq::<u8>::empty(),
        request_spec(req, state).0 == Ok::<RequestView, HttpError>(RequestView::NotParsed) ==> handle_spec(
            req,
            state,
        ).0 == Err::<FileActionView, HttpError>(HttpError::BadRequest),
        handle_spec(req, state).2 == request_spec(req, state).1,
        (forall|i: int| 0 <= i < uri.len() ==> uri[i] < 0x80) ==> utf8_encode(uri) == uri,
{
    assert(empty_body_tail() =~= seq!['0' as u8, 13u8, 10u8, 13u8, 10u8]);
    if forall|i: int| 0 <= i < uri.len() ==> uri[i] < 0x80 {
        lemma_utf8_encode_ascii(uri);
    }
}

/// The length announced before line `k` of a request's lines, the header
/// lines being read from line `i` on with the length `cl` announced before
/// them: the value of the last readable `Content-Length: ` line among lines
/// `i` to `k - 1`, else `cl`.
pub open spec fn announced_before(lines: Seq<Seq<u8>>, i: int, cl: usize, k: int) -> usize
    decreases k - i,
{
    if k <= i {
        cl
    } else if contains(lines[k - 1], content_length_field()) && content_length_of(lines[k - 1]) is Some {
        content_length_of(lines[k - 1])->Some_0
    } else {
        announced_before(lines, i, cl, k - 1)
    }
}

/// Reading one more line before line `k`: a `Content-Length: ` line with
/// value `v` announces `v`, any other line keeps what was announced.
pub proof fn lemma_announced_shift(lines: Seq<Seq<u8>>, i: int, cl: usize, v: usize, k: int)
    requires
        i + 1 <= k,
        (contains(lines[i], content_length_field()) && content_length_of(lines[i]) == Some(v)) || (
        !contains(lines[i], content_length_field()) && v == cl),
    ensures
        announced_before(lines, i, cl, k) == announced_before(lines, i + 1, v, k),
    decreases k - i,
{
    if k > i + 1 {
        lemma_announced_shift(lines, i, cl, v, k - 1);
    } else {
        assert(announced_before(lines, i, cl, i) == cl);
        assert(announced_before(lines, i + 1, v, i + 1) == v);
    }
}

/// A `POST` body read from line `i` on is one of the lines, and its UTF-8
/// length is the length announced before it.
pub proof fn lemma_post_body_announced(
    lines: Seq<Seq<u8>>,
    i: int,
    cl: usize,
    state: HttpParseState,
    uri: Seq<u8>,
)
    ensures
        post_from(lines, i, cl, state, uri).0 is Ok ==> (post_from(lines, i, cl, state, uri).0
            matches Ok(RequestView::Post(u, b)) && u == uri && exists|k: int|
            i <= k < lines.len() && lines[k] == b && utf8_len(b) == announced_before(
                lines,
                i,
                cl,
                k,
            )),
    decreases lines.len() - i,
{
    if 0 <= i < lines.len() && post_from(lines, i, cl, state, uri).0 is Ok {
        if contains(lines[i], content_length_field()) {
            let v = content_length_of(lines[i])->Some_0;
            lemma_post_body_announced(lines, i + 1, v, state, uri);
            let k = choose|k: int| i + 1 <= k < lines.len() && lines[k] == post_from(lines, i + 1, v, state, uri).0->Ok_0->Post_1
                && utf8_len(lines[k]) == announced_before(lines, i + 1, v, k);
            lemma_announced_shift(lines, i, cl, v, k);
        } else if lines[i].len() == 0 {
            lemma_post_body_announced(lines, i + 1, cl, HttpParseState::BodyStart, uri);
            let k = choose|k: int| i + 1 <= k < lines.len() && lines[k] == post_from(lines, i + 1, cl, HttpParseState::BodyStart, uri).0->Ok_0->Post_1
                && utf8_len(lines[k]) == announced_before(lines, i + 1, cl, k);
            lemma_announced_shift(lines, i, cl, cl, k);
        } else if state == HttpParseState::BodyStart {
            assert(announced_before(lines, i, cl, i) == cl);
        } else {
            lemma_post_body_announced(lines, i + 1, cl, state, uri);
            let k = choose|k: int| i + 1 <= k < lines.len() && lines[k] == post_from(lines, i + 1, cl, state, uri).0->Ok_0->Post_1
                && utf8_len(lines[k]) == announced_before(lines, i + 1, cl, k);
            lemma_announced_shift(lines, i, cl, cl, k);
        }
    }
}

/// A `POST` request is only accepted with a body whose UTF-8 length is the
/// value of the last `Content-Length: ` line before it (0 where there is
/// none): the body is one of the request's lines after the first, and the
/// contents stored for it are exactly that many bytes.
pub proof fn lemma_post_body_length(req: Seq<u8>, state: HttpParseState, uri: Seq<u8>, body: Seq<u8>)
    requires
        start_spec(req, state).0 == Ok::<RequestView, HttpError>(RequestView::Post(uri, body)),
    ensures
        exists|k: int|
            1 <= k < split_lines(req).len() && split_lines(req)[k] == body && utf8_len(body)
                == announced_before(split_lines(req), 1, 0, k),
        utf8_encode(body).len() == utf8_len(body),
{
    let lines = split_lines(req);
    let w = split_words(lines[0]);
    lemma_post_body_announced(lines, 1, 0, HttpParseState::Post, w[1]);
    lemma_utf8_encode_len(body);
}

} // verus!