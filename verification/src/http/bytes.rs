//! Searching and cutting byte buffers.

use vstd::prelude::*;
use super::text::{
    find_from, lemma_find_from, lemma_position_is, matches_at, position, position_from, split,
    split_from,
};

verus! {

/// The pieces of `bytes` that a list of index pairs cuts out.
pub open spec fn byte_spans_of(bytes: Seq<u8>, spans: Seq<(usize, usize)>) -> Seq<Seq<u8>> {
    Seq::new(spans.len(), |k: int| bytes.subrange(spans[k].0 as int, spans[k].1 as int))
}

/// Searching for a pattern of one element is searching for that element.
pub proof fn lemma_find_single<T>(s: Seq<T>, x: T, i: int)
    requires
        0 <= i,
    ensures
        find_from(s, seq![x], i) == position_from(s, x, i),
    decreases s.len() - i,
{
    if i < s.len() {
        if s[i] == x {
            assert(s.subrange(i, i + 1) =~= seq![x]);
        } else {
            assert(s.subrange(i, i + 1)[0] != seq![x][0]);
            lemma_find_single(s, x, i + 1);
        }
    }
}

/// First index of `x` in `bytes[from..to]`, as an index into `bytes`; `to`
/// when `x` does not occur.
pub fn position_in_bytes(bytes: &[u8], from: usize, to: usize, x: u8) -> (r: usize)
    requires
        from <= to <= bytes@.len(),
    ensures
        from <= r <= to,
        r - from == position(bytes@.subrange(from as int, to as int), x),
        r == position_from(bytes@.subrange(0, to as int), x, from as int),
        r < to ==> bytes[r as int] == x,
        forall|j: int| from <= j < r ==> bytes[j] != x,
{
    let mut i: usize = from;
    while i < to && bytes[i] != x
        invariant
            from <= i <= to <= bytes@.len(),
            forall|j: int| from <= j < i ==> bytes[j] != x,
        decreases to - i,
    {
        i = i + 1;
    }
    proof {
        lemma_position_is(bytes@.subrange(from as int, to as int), x, 0, i - from);
        lemma_position_is(bytes@.subrange(0, to as int), x, from as int, i as int);
    }
    i
}

/// True when `pat` occurs in `bytes` at index `i`.
pub fn bytes_match_at(bytes: &[u8], pat: &[u8], i: usize) -> (r: bool)
    requires
        i <= bytes@.len(),
    ensures
        r == matches_at(bytes@, pat@, i as int),
{
    let n = bytes.len();
    if pat.len() > n - i {
        return false;
    }
    let mut k: usize = 0;
    while k < pat.len()
        invariant
            i + pat@.len() <= n == bytes@.len(),
            k <= pat@.len(),
            forall|j: int| 0 <= j < k ==> bytes[i + j] == pat[j],
        decreases pat.len() - k,
    {
        if bytes[i + k] != pat[k] {
            assert(bytes@.subrange(i as int, i + pat@.len())[k as int] != pat@[k as int]);
            return false;
        }
        k = k + 1;
    }
    assert(bytes@.subrange(i as int, i + pat@.len()) =~= pat@);
    true
}

/// First index at or after `from` where `pat` occurs in `bytes`; the length
/// of `bytes` when it does not occur.
pub fn find_in_bytes(bytes: &[u8], from: usize, pat: &[u8]) -> (r: usize)
    requires
        from <= bytes@.len(),
    ensures
        from <= r <= bytes@.len(),
        r == find_from(bytes@, pat@, from as int),
{
    let n = bytes.len();
    let mut i: usize = from;
    while i < n
        invariant
            from <= i <= n == bytes@.len(),
            find_from(bytes@, pat@, from as int) == find_from(bytes@, pat@, i as int),
        decreases n - i,
    {
        if bytes_match_at(bytes, pat, i) {
            return i;
        }
        i = i + 1;
    }
    i
}

/// Bounds of the pieces that the separator byte `sep` cuts `bytes` into.
pub fn split_byte_spans(bytes: &[u8], sep: u8) -> (spans: Vec<(usize, usize)>)
    ensures
        forall|k: int| 0 <= k < spans.len() ==> (#[trigger] spans[k]).0 <= spans[k].1 <= bytes@.len(),
        byte_spans_of(bytes@, spans@) == split(bytes@, seq![sep]),
{
    let n = bytes.len();
    let ghost pat = seq![sep];
    let mut spans: Vec<(usize, usize)> = Vec::new();
    let mut i: usize = 0;
    assert(bytes@.subrange(0, n as int) == bytes@);
    loop
        invariant_except_break
            split(bytes@, pat) == byte_spans_of(bytes@, spans@) + split_from(bytes@, pat, i as int),
        invariant
            i <= n == bytes@.len(),
            pat == seq![sep],
            forall|k: int| 0 <= k < spans.len() ==> (#[trigger] spans[k]).0 <= spans[k].1 <= n,
        ensures
            byte_spans_of(bytes@, spans@) == split(bytes@, pat),
        decreases n - i,
    {
        let ghost before = byte_spans_of(bytes@, spans@);
        assert(bytes@.subrange(0, n as int) == bytes@);
        let e = position_in_bytes(bytes, i, n, sep);
        proof {
            lemma_find_single(bytes@, sep, i as int);
            lemma_find_from(bytes@, pat, i as int);
        }
        if e < n {
            spans.push((i, e));
            assert(byte_spans_of(bytes@, spans@) =~= before.push(
                bytes@.subrange(i as int, e as int),
            ));
            i = e + 1;
        } else {
            spans.push((i, n));
            assert(byte_spans_of(bytes@, spans@) =~= before.push(
                bytes@.subrange(i as int, n as int),
            ));
            break;
        }
    }
    spans
}

} // verus!
