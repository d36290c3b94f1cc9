//! Byte-level text primitives for requests received as raw bytes.
//!
//! A received request is read byte by byte, each byte standing for the
//! character with the same code (Latin-1).  Everything here works on those
//! bytes; where the length or the encoding of the corresponding UTF-8 text
//! matters, `utf8_len` and `utf8_encode` give it.
use vstd::prelude::*;

verus! {

/// Carriage return.
pub const CR: u8 = 13;

/// Line feed.
pub const LF: u8 = 10;

/// True when the character with code `b` is Unicode white space
/// (the Latin-1 part of the `White_Space` property).
pub open spec fn is_ws(b: u8) -> bool {
    (9 <= b && b <= 13) || b == 32 || b == 0x85 || b == 0xa0
}

/// Number of bytes that the character with code `b` takes in UTF-8.
pub open spec fn utf8_width(b: u8) -> nat {
    if b < 0x80 {
        1
    } else {
        2
    }
}

/// Length in bytes of the UTF-8 encoding of the characters `s`.
pub open spec fn utf8_len(s: Seq<u8>) -> nat
    decreases s.len(),
{
    if s.len() == 0 {
        0
    } else {
        utf8_len(s.drop_last()) + utf8_width(s.last())
    }
}

/// UTF-8 encoding of the single character with code `b`.
pub open spec fn utf8_char(b: u8) -> Seq<u8> {
    if b < 0x80 {
        seq![b]
    } else {
        seq![0xc0u8 | (b >> 6u8), 0x80u8 | (b & 0x3fu8)]
    }
}

/// UTF-8 encoding of the characters `s`.
pub open spec fn utf8_encode(s: Seq<u8>) -> Seq<u8>
    decreases s.len(),
{
    if s.len() == 0 {
        Seq::empty()
    } else {
        utf8_encode(s.drop_last()) + utf8_char(s.last())
    }
}

/// Pieces of `s` between occurrences of CR LF, scanning from index `i`
/// with the piece `cur` begun: occurrences are taken from left to right and
/// do not overlap.
pub open spec fn lines_from(s: Seq<u8>, i: int, cur: Seq<u8>) -> Seq<Seq<u8>>
    decreases s.len() - i,
{
    if i >= s.len() {
        seq![cur]
    } else if i + 1 < s.len() && s[i] == CR && s[i + 1] == LF {
        seq![cur] + lines_from(s, i + 2, Seq::empty())
    } else {
        lines_from(s, i + 1, cur.push(s[i]))
    }
}

/// `s` split at every CR LF; there is always at least one piece.
pub open spec fn split_lines(s: Seq<u8>) -> Seq<Seq<u8>> {
    lines_from(s, 0, Seq::empty())
}

/// The word `cur` as a list: empty when the word is empty.
pub open spec fn word_if_any(cur: Seq<u8>) -> Seq<Seq<u8>> {
    if cur.len() > 0 {
        seq![cur]
    } else {
        Seq::empty()
    }
}

/// Maximal runs of non-white-space bytes of `s`, scanning from index `i`
/// with the run `cur` begun.
pub open spec fn words_from(s: Seq<u8>, i: int, cur: Seq<u8>) -> Seq<Seq<u8>>
    decreases s.len() - i,
{
    if i >= s.len() {
        word_if_any(cur)
    } else if is_ws(s[i]) {
        word_if_any(cur) + words_from(s, i + 1, Seq::empty())
    } else {
        words_from(s, i + 1, cur.push(s[i]))
    }
}

/// The words of `s`: its maximal runs of non-white-space bytes, in order.
pub open spec fn split_words(s: Seq<u8>) -> Seq<Seq<u8>> {
    words_from(s, 0, Seq::empty())
}

/// `s` with every white-space byte taken out.
pub open spec fn strip_ws(s: Seq<u8>) -> Seq<u8>
    decreases s.len(),
{
    if s.len() == 0 {
        s
    } else if is_ws(s.last()) {
        strip_ws(s.drop_last())
    } else {
        strip_ws(s.drop_last()).push(s.last())
    }
}

/// `pat` occurs in `s` at index `p`.
pub open spec fn occurs_at(s: Seq<u8>, pat: Seq<u8>, p: int) -> bool {
    0 <= p && p + pat.len() <= s.len() && s.subrange(p, p + pat.len()) == pat
}

/// `pat` occurs somewhere in `s`.
pub open spec fn contains(s: Seq<u8>, pat: Seq<u8>) -> bool {
    exists|p: int| occurs_at(s, pat, p)
}

/// Scanning the characters of `s` from index `j`, with `acc` bytes of UTF-8
/// before `j`: the index of the character that starts at UTF-8 byte `k`, if
/// byte `k` starts a character or ends the text.
pub open spec fn char_at_byte_from(s: Seq<u8>, k: nat, j: int, acc: nat) -> Option<int>
    decreases s.len() - j,
{
    if acc == k {
        Some(j)
    } else if acc > k || j >= s.len() || j < 0 {
        None
    } else {
        char_at_byte_from(s, k, j + 1, acc + utf8_width(s[j]))
    }
}

/// The index of the character of `s` at which UTF-8 byte `k` begins, or
/// `None` when byte `k` lies inside a character or past the end.
pub open spec fn char_at_byte(s: Seq<u8>, k: nat) -> Option<int> {
    char_at_byte_from(s, k, 0, 0)
}

/// True when `b` is Unicode white space.
pub fn is_whitespace(b: u8) -> (r: bool)
    ensures
        r == is_ws(b),
{
    (9 <= b && b <= 13) || b == 32 || b == 0x85 || b == 0xa0
}

/// Splits `s` at every CR LF, as `str::split("\r\n")` does.
pub fn split_crlf(s: &[u8]) -> (r: Vec<Vec<u8>>)
    ensures
        r.deep_view() == split_lines(s@),
{
    let mut out: Vec<Vec<u8>> = Vec::new();
    let mut cur: Vec<u8> = Vec::new();
    let mut i: usize = 0;
    let n = s.len();
    while i < n
        invariant
            n == s@.len(),
            0 <= i <= n,
            out.deep_view() + lines_from(s@, i as int, cur@) == split_lines(s@),
        decreases n - i,
    {
        if i + 1 < n && s[i] == CR && s[i + 1] == LF {
            let ghost before = out.deep_view();
            let ghost piece = cur@;
            assert(cur.deep_view() =~= piece);
            out.push(cur);
            cur = Vec::new();
            i = i + 2;
            assert(out.deep_view() =~= before.push(piece));
            assert(before + (seq![piece] + lines_from(s@, i as int, Seq::empty())) =~= before.push(
                piece,
            ) + lines_from(s@, i as int, Seq::empty()));
        } else {
            cur.push(s[i]);
            i = i + 1;
        }
    }
    let ghost before = out.deep_view();
    let ghost piece = cur@;
    assert(cur.deep_view() =~= piece);
    out.push(cur);
    assert(out.deep_view() =~= before + seq![piece]);
    out
}

/// The words of `s`, as `str::split_whitespace` gives them.
pub fn words(s: &[u8]) -> (r: Vec<Vec<u8>>)
    ensures
        r.deep_view() == split_words(s@),
{
    let mut out: Vec<Vec<u8>> = Vec::new();
    let mut cur: Vec<u8> = Vec::new();
    let mut i: usize = 0;
    let n = s.len();
    while i < n
        invariant
            n == s@.len(),
            0 <= i <= n,
            out.deep_view() + words_from(s@, i as int, cur@) == split_words(s@),
        decreases n - i,
    {
        if is_whitespace(s[i]) {
            let ghost before = out.deep_view();
            let ghost piece = cur@;
            assert(cur.deep_view() =~= piece);
            if cur.len() > 0 {
                out.push(cur);
                assert(out.deep_view() =~= before + word_if_any(piece));
            } else {
                assert(before + word_if_any(piece) =~= before);
            }
            cur = Vec::new();
            i = i + 1;
            assert(before + (word_if_any(piece) + words_from(s@, i as int, Seq::empty()))
                =~= before + word_if_any(piece) + words_from(s@, i as int, Seq::empty()));
        } else {
            cur.push(s[i]);
            i = i + 1;
        }
    }
    let ghost before = out.deep_view();
    let ghost piece = cur@;
    assert(cur.deep_view() =~= piece);
    if cur.len() > 0 {
        out.push(cur);
        assert(out.deep_view() =~= before + word_if_any(piece));
    } else {
        assert(before + word_if_any(piece) =~= before);
    }
    out
}

/// True when `pat` occurs in `s` at index `p`.
pub fn matches_at(s: &[u8], pat: &[u8], p: usize) -> (r: bool)
    ensures
        r == occurs_at(s@, pat@, p as int),
{
    if p > s.len() || pat.len() > s.len() - p {
        return false;
    }
    let n = s.len();
    let mut k: usize = 0;
    while k < pat.len()
        invariant
            n == s@.len(),
            p + pat@.len() <= s@.len(),
            0 <= k <= pat@.len(),
            forall|t: int| 0 <= t < k ==> s@[p + t] == pat@[t],
        decreases pat@.len() - k,
    {
        if s[p + k] != pat[k] {
            assert(s@.subrange(p as int, p + pat@.len())[k as int] != pat@[k as int]);
            return false;
        }
        k = k + 1;
    }
    assert(s@.subrange(p as int, p + pat@.len()) =~= pat@);
    true
}

/// True when `pat` occurs somewhere in `s`, as `str::contains` tells.
pub fn contains_bytes(s: &[u8], pat: &[u8]) -> (r: bool)
    ensures
        r == contains(s@, pat@),
{
    if pat.len() > s.len() {
        assert forall|p: int| !occurs_at(s@, pat@, p) by {}
        return false;
    }
    let last = s.len() - pat.len();
    let mut p: usize = 0;
    while p <= last
        invariant
            last == s@.len() - pat@.len(),
            p <= last,
            forall|q: int| 0 <= q < p ==> !occurs_at(s@, pat@, q),
        decreases last - p,
    {
        if matches_at(s, pat, p) {
            return true;
        }
        if p == last {
            assert forall|q: int| !occurs_at(s@, pat@, q) by {
                if 0 <= q && q < p {
                }
            }
            return false;
        }
        p = p + 1;
    }
    false
}

/// Proof that the UTF-8 length of `s` grows by the width of each byte added.
pub proof fn lemma_utf8_len_push(s: Seq<u8>, b: u8)
    ensures
        utf8_len(s.push(b)) == utf8_len(s) + utf8_width(b),
{
    assert(s.push(b).drop_last() =~= s);
}

/// Proof that the UTF-8 encoding of `s` is `utf8_len(s)` bytes long.
pub proof fn lemma_utf8_encode_len(s: Seq<u8>)
    ensures
        utf8_encode(s).len() == utf8_len(s),
    decreases s.len(),
{
    if s.len() > 0 {
        lemma_utf8_encode_len(s.drop_last());
    }
}

/// The length in bytes of the UTF-8 encoding of `s`.
pub fn utf8_length(s: &[u8]) -> (r: u128)
    ensures
        r == utf8_len(s@),
{
    let mut acc: u128 = 0;
    let mut i: usize = 0;
    let n = s.len();
    while i < n
        invariant
            n == s@.len(),
            0 <= i <= n,
            acc == utf8_len(s@.take(i as int)),
            acc <= 2 * i,
        decreases n - i,
    {
        proof {
            lemma_utf8_len_push(s@.take(i as int), s@[i as int]);
            assert(s@.take(i as int).push(s@[i as int]) =~= s@.take(i + 1));
        }
        if s[i] < 0x80 {
            acc = acc + 1;
        } else {
            acc = acc + 2;
        }
        i = i + 1;
    }
    assert(s@.take(n as int) =~= s@);
    acc
}

/// The UTF-8 bytes of the characters `s` (each byte taken as the character
/// with the same code), as `str::as_bytes` gives them.
pub fn latin1_to_utf8(s: &[u8]) -> (r: Vec<u8>)
    ensures
        r@ == utf8_encode(s@),
{
    let mut out: Vec<u8> = Vec::new();
    let mut i: usize = 0;
    let n = s.len();
    while i < n
        invariant
            n == s@.len(),
            0 <= i <= n,
            out@ == utf8_encode(s@.take(i as int)),
        decreases n - i,
    {
        let b = s[i];
        assert(s@.take(i + 1).drop_last() =~= s@.take(i as int));
        if b < 0x80 {
            out.push(b);
        } else {
            out.push(0xc0u8 | (b >> 6u8));
            out.push(0x80u8 | (b & 0x3fu8));
        }
        i = i + 1;
        assert(out@ =~= utf8_encode(s@.take(i as int)));
    }
    assert(s@.take(n as int) =~= s@);
    out
}

/// The bytes of `s[from..]` that are not white space, in order.
pub fn strip_whitespace_from(s: &[u8], from: usize) -> (r: Vec<u8>)
    requires
        from <= s@.len(),
    ensures
        r@ == strip_ws(s@.subrange(from as int, s@.len() as int)),
{
    let mut out: Vec<u8> = Vec::new();
    let mut i: usize = from;
    let n = s.len();
    assert(s@.subrange(from as int, from as int) =~= Seq::<u8>::empty());
    while i < n
        invariant
            n == s@.len(),
            from <= i <= n,
            out@ == strip_ws(s@.subrange(from as int, i as int)),
        decreases n - i,
    {
        assert(s@.subrange(from as int, i + 1).drop_last() =~= s@.subrange(from as int, i as int));
        if !is_whitespace(s[i]) {
            out.push(s[i]);
        }
        i = i + 1;
    }
    out
}

/// The index of the character of `s` at which UTF-8 byte `k` begins, or
/// `None` when byte `k` falls inside a character or past the end of `s`.
pub fn char_index_at_byte(s: &[u8], k: usize) -> (r: Option<usize>)
    ensures
        r matches Some(j) ==> char_at_byte(s@, k as nat) == Some(j as int) && j <= s@.len(),
        r is None ==> char_at_byte(s@, k as nat) is None,
{
    let mut j: usize = 0;
    let mut acc: usize = 0;
    let n = s.len();
    while j < n && acc < k
        invariant
            n == s@.len(),
            0 <= j <= n,
            acc <= k,
            char_at_byte_from(s@, k as nat, j as int, acc as nat) == char_at_byte(s@, k as nat),
        decreases n - j,
    {
        let w: usize = if s[j] < 0x80 {
            1
        } else {
            2
        };
        if w > k - acc {
            assert(char_at_byte_from(s@, k as nat, j + 1, (acc + w) as nat) is None);
            return None;
        }
        acc = acc + w;
        j = j + 1;
    }
    if acc == k {
        Some(j)
    } else {
        None
    }
}

} // verus!
