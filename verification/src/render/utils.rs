//! Text helpers of the render engine.

use vstd::prelude::*;
use vstd::slice::slice_subrange;
use crate::text::{is_text, push_bytes, same_bytes, text};

verus! {

/// The length of the whitespace character whose UTF-8 bytes start at `i`, or
/// 0 where none starts there. The whitespace characters are U+0009 to
/// U+000D, U+0020, U+0085, U+00A0, U+1680, U+2000 to U+200A, U+2028, U+2029,
/// U+202F, U+205F and U+3000.
pub open spec fn space_at(s: Seq<u8>, i: int) -> int {
    if !(0 <= i < s.len()) {
        0
    } else if (9 <= s[i] <= 13) || s[i] == 32 {
        1
    } else if i + 1 < s.len() && s[i] == 0xc2 && (s[i + 1] == 0x85 || s[i + 1] == 0xa0) {
        2
    } else if i + 2 < s.len() && ((s[i] == 0xe1 && s[i + 1] == 0x9a && s[i + 2] == 0x80) || (s[i]
        == 0xe2 && s[i + 1] == 0x80 && ((0x80 <= s[i + 2] <= 0x8a) || s[i + 2] == 0xa8 || s[i
        + 2] == 0xa9 || s[i + 2] == 0xaf)) || (s[i] == 0xe2 && s[i + 1] == 0x81 && s[i + 2]
        == 0x9f) || (s[i] == 0xe3 && s[i + 1] == 0x80 && s[i + 2] == 0x80)) {
        3
    } else {
        0
    }
}

/// The length of the whitespace character whose UTF-8 bytes end before
/// `end`, or 0 where none ends there.
pub open spec fn space_before(s: Seq<u8>, end: int) -> int {
    if end >= 1 && space_at(s, end - 1) == 1 {
        1
    } else if end >= 2 && space_at(s, end - 2) == 2 {
        2
    } else if end >= 3 && space_at(s, end - 3) == 3 {
        3
    } else {
        0
    }
}

/// The first position at or after `i` at which no whitespace character
/// starts.
pub open spec fn trim_start(s: Seq<u8>, i: int) -> int
    decreases s.len() - i,
{
    if space_at(s, i) > 0 {
        trim_start(s, i + space_at(s, i))
    } else {
        i
    }
}

/// The last position at or before `end`, and not before `start`, before
/// which no whitespace character of `s[start..]` ends.
pub open spec fn trim_end(s: Seq<u8>, start: int, end: int) -> int
    decreases end,
{
    let n = space_before(s, end);
    if n > 0 && end - n >= start {
        trim_end(s, start, end - n)
    } else {
        end
    }
}

/// A text without the whitespace at its two ends.
pub open spec fn trimmed(s: Seq<u8>) -> Seq<u8> {
    let start = trim_start(s, 0);
    let end = trim_end(s, start, s.len() as int);
    if 0 <= start <= end <= s.len() {
        s.subrange(start, end)
    } else {
        Seq::empty()
    }
}

/// Whether a text stands for false: trimmed, it is `0`, `false`, the empty
/// text, `null` or `NaN`.
pub open spec fn is_false_text(s: Seq<u8>) -> bool {
    let t = trimmed(s);
    t == text("0") || t == text("false") || t.len() == 0 || t == text("null") || t == text("NaN")
}

/// Whether `pattern` stands in `buf` at `pos`.
pub open spec fn matches_at(buf: Seq<u8>, pos: int, pattern: Seq<u8>) -> bool {
    0 <= pos && pos + pattern.len() <= buf.len() && buf.subrange(pos, pos + pattern.len())
        == pattern
}

/// The first position at or after `from` at which `pattern` stands, or
/// `None`.
pub open spec fn find_from(buf: Seq<u8>, pattern: Seq<u8>, from: int) -> Option<int>
    decreases buf.len() - from,
{
    if from < 0 || from + pattern.len() > buf.len() {
        None
    } else if matches_at(buf, from, pattern) {
        Some(from)
    } else if from >= buf.len() {
        None
    } else {
        find_from(buf, pattern, from + 1)
    }
}

/// The texts from index `i` on, joined.
pub open spec fn join_from(parts: Seq<Seq<u8>>, i: int) -> Seq<u8>
    decreases parts.len() - i,
{
    if !(0 <= i < parts.len()) {
        Seq::empty()
    } else {
        parts[i] + join_from(parts, i + 1)
    }
}

/// All the texts, joined.
pub open spec fn join_all(parts: Seq<Seq<u8>>) -> Seq<u8> {
    join_from(parts, 0)
}

/// The views of a list of texts.
pub open spec fn texts_view(parts: Seq<Vec<u8>>) -> Seq<Seq<u8>> {
    Seq::new(parts.len(), |i: int| parts[i]@)
}

pub proof fn lemma_join_prefix(parts: Seq<Seq<u8>>, n: int, from: int)
    requires
        0 <= from <= n <= parts.len(),
    ensures
        join_from(parts, from) == join_from(parts.subrange(0, n), from) + join_from(parts, n),
    decreases n - from,
{
    let head = parts.subrange(0, n);
    if from == n {
        assert(join_from(head, from) =~= Seq::<u8>::empty());
        assert(join_from(parts, from) =~= Seq::<u8>::empty() + join_from(parts, n));
    } else {
        lemma_join_prefix(parts, n, from + 1);
        assert(head[from] == parts[from]);
        assert(join_from(parts, from) =~= join_from(head, from) + join_from(parts, n));
    }
}

/// The length of the whitespace character that starts at `i`.
pub fn space_len_at(s: &[u8], i: usize) -> (r: usize)
    ensures
        r as int == space_at(s@, i as int),
        r <= 3,
        r > 0 ==> i + r <= s@.len(),
{
    if i >= s.len() {
        return 0;
    }
    let b = s[i];
    let left = s.len() - i;
    if (9 <= b && b <= 13) || b == 32 {
        1
    } else if left > 1 && b == 0xc2 && (s[i + 1] == 0x85 || s[i + 1] == 0xa0) {
        2
    } else if left > 2 && ((b == 0xe1 && s[i + 1] == 0x9a && s[i + 2] == 0x80) || (b == 0xe2
        && s[i + 1] == 0x80 && ((0x80 <= s[i + 2] && s[i + 2] <= 0x8a) || s[i + 2] == 0xa8 || s[i
        + 2] == 0xa9 || s[i + 2] == 0xaf)) || (b == 0xe2 && s[i + 1] == 0x81 && s[i + 2] == 0x9f)
        || (b == 0xe3 && s[i + 1] == 0x80 && s[i + 2] == 0x80)) {
        3
    } else {
        0
    }
}

/// The length of the whitespace character that ends before `end`.
pub fn space_len_before(s: &[u8], end: usize) -> (r: usize)
    ensures
        r as int == space_before(s@, end as int),
        r <= 3,
        r <= end,
{
    if end >= 1 && space_len_at(s, end - 1) == 1 {
        1
    } else if end >= 2 && space_len_at(s, end - 2) == 2 {
        2
    } else if end >= 3 && space_len_at(s, end - 3) == 3 {
        3
    } else {
        0
    }
}

/// A text without the whitespace at its two ends.
pub fn trim_bytes(s: &[u8]) -> (r: &[u8])
    ensures
        r@ == trimmed(s@),
{
    let len = s.len();
    let mut start: usize = 0;
    loop
        invariant
            len == s@.len(),
            start <= s@.len(),
            trim_start(s@, 0) == trim_start(s@, start as int),
        ensures
            start <= s@.len(),
            trim_start(s@, 0) == start,
        decreases s@.len() - start,
    {
        let n = space_len_at(s, start);
        if n == 0 {
            break;
        }
        start = start + n;
    }
    let mut end: usize = s.len();
    loop
        invariant
            start <= end <= s@.len(),
            trim_end(s@, start as int, s@.len() as int) == trim_end(s@, start as int, end as int),
        ensures
            start <= end <= s@.len(),
            trim_end(s@, start as int, s@.len() as int) == end,
        decreases end,
    {
        let n = space_len_before(s, end);
        if n == 0 || end - n < start {
            break;
        }
        end = end - n;
    }
    slice_subrange(s, start, end)
}

/// Whether a text stands for false; see `is_false_text`.
pub fn is_false_value(value: &str) -> (r: bool)
    ensures
        r == is_false_text(text(value)),
{
    is_false_bytes(value.as_bytes())
}

/// Whether a text, given as bytes, stands for false; see `is_false_text`.
pub fn is_false_bytes(value: &[u8]) -> (r: bool)
    ensures
        r == is_false_text(value@),
{
    let val = trim_bytes(value);
    is_text(val, "0") || is_text(val, "false") || val.len() == 0 || is_text(val, "null")
        || is_text(val, "NaN")
}

/// Whether `pattern` stands in `buf` at `pos`.
pub fn buf_match_str(buf: &[u8], pos: usize, pattern: &str) -> (r: bool)
    ensures
        r == matches_at(buf@, pos as int, text(pattern)),
{
    let pattern_buf = pattern.as_bytes();
    buf_match(buf, pos, pattern_buf)
}

/// Whether `pattern` stands in `buf` at `pos`.
pub fn buf_match(buf: &[u8], pos: usize, pattern: &[u8]) -> (r: bool)
    ensures
        r == matches_at(buf@, pos as int, pattern@),
{
    if pos > buf.len() || pattern.len() > buf.len() - pos {
        return false;
    }
    same_bytes(slice_subrange(buf, pos, pos + pattern.len()), pattern)
}

/// The first position at or after `from` at which `pattern` stands.
#[verifier::loop_isolation(false)]
pub fn find_bytes(buf: &[u8], pattern: &[u8], from: usize) -> (r: Option<usize>)
    ensures
        match r {
            Some(i) => find_from(buf@, pattern@, from as int) == Some(i as int) && from <= i && i
                + pattern@.len() <= buf@.len(),
            None => find_from(buf@, pattern@, from as int) is None,
        },
{
    let mut i = from;
    while i <= buf.len() && pattern.len() <= buf.len() - i
        invariant
            from <= i,
            find_from(buf@, pattern@, from as int) == find_from(buf@, pattern@, i as int),
        decreases buf@.len() - i,
    {
        if buf_match(buf, i, pattern) {
            return Some(i);
        }
        if i >= buf.len() {
            return None;
        }
        i = i + 1;
    }
    None
}

/// All the texts, joined.
pub fn join_bytes(parts: &Vec<Vec<u8>>) -> (r: Vec<u8>)
    ensures
        r@ == join_all(texts_view(parts@)),
{
    let ghost model = texts_view(parts@);
    let mut out: Vec<u8> = Vec::new();
    let mut i: usize = 0;
    proof {
        assert(join_from(model.subrange(0, 0), 0) =~= Seq::<u8>::empty());
    }
    while i < parts.len()
        invariant
            i <= parts.len(),
            model == texts_view(parts@),
            out@ == join_from(model.subrange(0, i as int), 0),
        decreases parts.len() - i,
    {
        proof {
            let head = model.subrange(0, i as int + 1);
            lemma_join_prefix(head, i as int, 0);
            assert(head.subrange(0, i as int) =~= model.subrange(0, i as int));
            assert(join_from(head, i as int) =~= model[i as int]) by {
                assert(join_from(head, i as int + 1) =~= Seq::<u8>::empty());
            }
        }
        push_bytes(&mut out, parts[i].as_slice());
        i = i + 1;
    }
    proof {
        assert(model.subrange(0, parts.len() as int) =~= model);
    }
    out
}

} // verus!
