//! Character-level building blocks shared by the parsers: the whitespace
//! class, trimming, searching, line splitting and the few string
//! conversions the rest of the crate needs.

use vstd::prelude::*;
use vstd::string::*;
use vstd::utf8::{decode_utf8, valid_utf8};

verus! {

/// The Unicode `White_Space` class.
pub open spec fn is_whitespace(c: char) -> bool {
    let u = c as u32;
    ||| 0x09 <= u <= 0x0D
    ||| u == 0x20
    ||| u == 0x85
    ||| u == 0xA0
    ||| u == 0x1680
    ||| 0x2000 <= u <= 0x200A
    ||| u == 0x2028
    ||| u == 0x2029
    ||| u == 0x202F
    ||| u == 0x205F
    ||| u == 0x3000
}

/// True when `c` is whitespace.
pub fn whitespace(c: char) -> (r: bool)
    ensures
        r == is_whitespace(c),
{
    let u: u32 = c as u32;
    (0x09 <= u && u <= 0x0D) || u == 0x20 || u == 0x85 || u == 0xA0 || u == 0x1680 || (0x2000 <= u
        && u <= 0x200A) || u == 0x2028 || u == 0x2029 || u == 0x202F || u == 0x205F || u == 0x3000
}

/// `s` without its leading whitespace.
pub open spec fn trim_start(s: Seq<char>) -> Seq<char>
    decreases s.len(),
{
    if s.len() > 0 && is_whitespace(s[0]) {
        trim_start(s.drop_first())
    } else {
        s
    }
}

/// `s` without its trailing whitespace.
pub open spec fn trim_end(s: Seq<char>) -> Seq<char>
    decreases s.len(),
{
    if s.len() > 0 && is_whitespace(s.last()) {
        trim_end(s.drop_last())
    } else {
        s
    }
}

/// `s` without the whitespace on either side.
pub open spec fn trim(s: Seq<char>) -> Seq<char> {
    trim_end(trim_start(s))
}

/// True when no character of `s` is whitespace.
pub open spec fn no_whitespace(s: Seq<char>) -> bool {
    forall|i: int| 0 <= i < s.len() ==> !is_whitespace(#[trigger] s[i])
}

/// Index of the first element equal to `x` at or after `i`, or `s.len()`
/// when there is none.
pub open spec fn position_from<T>(s: Seq<T>, x: T, i: int) -> int
    decreases s.len() - i,
{
    if i >= s.len() {
        s.len() as int
    } else if s[i] == x {
        i
    } else {
        position_from(s, x, i + 1)
    }
}

/// Index of the first element equal to `x`, or `s.len()` when there is none.
pub open spec fn position<T>(s: Seq<T>, x: T) -> int {
    position_from(s, x, 0)
}

/// The position is the first index that holds `x`, and lies within bounds.
pub proof fn lemma_position_from<T>(s: Seq<T>, x: T, i: int)
    requires
        0 <= i <= s.len(),
    ensures
        i <= position_from(s, x, i) <= s.len(),
        position_from(s, x, i) < s.len() ==> s[position_from(s, x, i)] == x,
        forall|j: int| i <= j < position_from(s, x, i) ==> s[j] != x,
    decreases s.len() - i,
{
    if i < s.len() && s[i] != x {
        lemma_position_from(s, x, i + 1);
    }
}

/// The first index with the three properties of `lemma_position_from` is
/// the position.
pub proof fn lemma_position_is<T>(s: Seq<T>, x: T, i: int, p: int)
    requires
        0 <= i <= p <= s.len(),
        p < s.len() ==> s[p] == x,
        forall|j: int| i <= j < p ==> s[j] != x,
    ensures
        position_from(s, x, i) == p,
    decreases p - i,
{
    if i < p {
        lemma_position_is(s, x, i + 1, p);
    }
}

/// True when `pat` occurs in `s` at index `i`.
pub open spec fn matches_at<T>(s: Seq<T>, pat: Seq<T>, i: int) -> bool {
    &&& 0 <= i
    &&& i + pat.len() <= s.len()
    &&& s.subrange(i, i + pat.len()) == pat
}

/// Index of the first occurrence of `pat` at or after `i`, or `s.len()` when
/// there is none.
pub open spec fn find_from<T>(s: Seq<T>, pat: Seq<T>, i: int) -> int
    decreases s.len() - i,
{
    if i >= s.len() {
        s.len() as int
    } else if matches_at(s, pat, i) {
        i
    } else {
        find_from(s, pat, i + 1)
    }
}

/// Index of the first occurrence of `pat` in `s`, or `s.len()` when there is
/// none.
pub open spec fn find<T>(s: Seq<T>, pat: Seq<T>) -> int {
    find_from(s, pat, 0)
}

/// What `find_from` gives is the first index where `pat` occurs, and lies
/// within bounds.
pub proof fn lemma_find_from<T>(s: Seq<T>, pat: Seq<T>, i: int)
    requires
        0 <= i <= s.len(),
    ensures
        i <= find_from(s, pat, i) <= s.len(),
        find_from(s, pat, i) < s.len() ==> matches_at(s, pat, find_from(s, pat, i)),
        forall|j: int| i <= j < find_from(s, pat, i) ==> !matches_at(s, pat, j),
    decreases s.len() - i,
{
    if i < s.len() && !matches_at(s, pat, i) {
        lemma_find_from(s, pat, i + 1);
    }
}

/// True when `pat` occurs somewhere in `s`.
pub open spec fn contains_seq<T>(s: Seq<T>, pat: Seq<T>) -> bool {
    find(s, pat) < s.len() || pat.len() == 0
}

/// `std::str::Utf8Error`, carried through as it is; nothing is known of
/// what it holds.
#[verifier::external_type_specification]
#[verifier::external_body]
pub struct ExUtf8Error(std::str::Utf8Error);

/// Calls `std::str::from_utf8`: the bytes are accepted exactly when they are
/// well-formed UTF-8, and the text returned is what they encode.
#[verifier::external_body]
pub(crate) fn str_from_utf8(bytes: &[u8]) -> (r: Result<&str, std::str::Utf8Error>)
    ensures
        r is Ok <==> valid_utf8(bytes@),
        r matches Ok(s) ==> s@ == decode_utf8(bytes@),
{
    std::str::from_utf8(bytes)
}

/// The lower-case form of a text under the Unicode case mapping.
pub uninterp spec fn lowercase(s: Seq<char>) -> Seq<char>;

/// Calls `str::to_lowercase`. The mapping is Unicode's and is not spelled
/// out here: the result is taken to depend on the characters alone and is
/// known to the proofs only by the name `lowercase`.
#[verifier::external_body]
pub(crate) fn to_lowercase(s: &str) -> (r: String)
    ensures
        r@ == lowercase(s@),
{
    s.to_lowercase()
}

/// The pieces that the separator `pat` cuts `s` into, from index `i` on.
/// There is always at least one piece; pieces may be empty.
pub open spec fn split_from<T>(s: Seq<T>, pat: Seq<T>, i: int) -> Seq<Seq<T>>
    recommends
        0 <= i <= s.len(),
        pat.len() > 0,
    decreases s.len() - i,
{
    let e = find_from(s, pat, i);
    if 0 <= i <= e && e + pat.len() <= s.len() && pat.len() > 0 {
        seq![s.subrange(i, e)] + split_from(s, pat, e + pat.len())
    } else {
        seq![s.subrange(i, s.len() as int)]
    }
}

/// The pieces that the separator `pat` cuts `s` into.
pub open spec fn split<T>(s: Seq<T>, pat: Seq<T>) -> Seq<Seq<T>> {
    split_from(s, pat, 0)
}

/// `line` without one trailing carriage return.
pub open spec fn strip_cr(line: Seq<char>) -> Seq<char> {
    if line.len() > 0 && line.last() == '\r' {
        line.drop_last()
    } else {
        line
    }
}

/// The lines of `s` from index `i` on. A line ends at a line feed; the line
/// feed and a carriage return before it are not part of the line. What
/// follows the last line feed is a line only when it is not empty.
pub open spec fn lines_from(s: Seq<char>, i: int) -> Seq<Seq<char>>
    recommends
        0 <= i,
    decreases s.len() - i,
{
    if i >= s.len() || i < 0 {
        seq![]
    } else {
        let e = position_from(s, '\n', i);
        if i <= e < s.len() {
            seq![strip_cr(s.subrange(i, e))] + lines_from(s, e + 1)
        } else {
            seq![s.subrange(i, s.len() as int)]
        }
    }
}

/// The lines of `s`.
pub open spec fn lines(s: Seq<char>) -> Seq<Seq<char>> {
    lines_from(s, 0)
}

/// The leading lines up to, and without, the first empty one.
pub open spec fn until_empty(lines: Seq<Seq<char>>) -> Seq<Seq<char>>
    decreases lines.len(),
{
    if lines.len() == 0 || lines[0].len() == 0 {
        seq![]
    } else {
        seq![lines[0]] + until_empty(lines.drop_first())
    }
}

/// The characters of a string slice, one vector element each.
pub fn chars_of(s: &str) -> (v: Vec<char>)
    ensures
        v@ == s@,
{
    let mut v: Vec<char> = Vec::new();
    for c in it: s.chars()
        invariant
            v@ == it.seq().take(it.index()),
            it.seq() == s@,
    {
        v.push(c);
    }
    v
}

/// Bounds of what is left of `cs[from..to]` after trimming.
pub fn trim_bounds(cs: &Vec<char>, from: usize, to: usize) -> (r: (usize, usize))
    requires
        from <= to <= cs.len(),
    ensures
        from <= r.0 <= r.1 <= to,
        cs@.subrange(r.0 as int, r.1 as int) == trim(cs@.subrange(from as int, to as int)),
{
    let mut a: usize = from;
    while a < to && whitespace(cs[a])
        invariant
            from <= a <= to <= cs.len(),
            trim_start(cs@.subrange(from as int, to as int)) == trim_start(
                cs@.subrange(a as int, to as int),
            ),
        decreases to - a,
    {
        assert(cs@.subrange(a as int, to as int).drop_first() == cs@.subrange(
            a as int + 1,
            to as int,
        ));
        a = a + 1;
    }
    assert(trim_start(cs@.subrange(a as int, to as int)) == cs@.subrange(a as int, to as int));
    let mut b: usize = to;
    while b > a && whitespace(cs[b - 1])
        invariant
            a <= b <= to <= cs.len(),
            trim_end(cs@.subrange(a as int, to as int)) == trim_end(
                cs@.subrange(a as int, b as int),
            ),
        decreases b - a,
    {
        assert(cs@.subrange(a as int, b as int).drop_last() == cs@.subrange(
            a as int,
            b as int - 1,
        ));
        b = b - 1;
    }
    assert(trim_end(cs@.subrange(a as int, b as int)) == cs@.subrange(a as int, b as int));
    (a, b)
}

/// First index of `x` in `cs[from..to]`, as an index into `cs`; `to` when
/// `x` does not occur.
pub fn position_in(cs: &Vec<char>, from: usize, to: usize, x: char) -> (r: usize)
    requires
        from <= to <= cs.len(),
    ensures
        from <= r <= to,
        r - from == position(cs@.subrange(from as int, to as int), x),
        r < to ==> cs[r as int] == x,
        forall|j: int| from <= j < r ==> cs[j] != x,
{
    let ghost s = cs@.subrange(from as int, to as int);
    let mut i: usize = from;
    while i < to && cs[i] != x
        invariant
            from <= i <= to <= cs.len(),
            s == cs@.subrange(from as int, to as int),
            forall|j: int| from <= j < i ==> cs[j] != x,
        decreases to - i,
    {
        i = i + 1;
    }
    proof {
        lemma_position_is(s, x, 0, i - from);
    }
    i
}

/// True when `pat` occurs in `cs` at index `i`.
pub fn chars_match_at(cs: &Vec<char>, to: usize, pat: &Vec<char>, i: usize) -> (r: bool)
    requires
        i <= to <= cs.len(),
    ensures
        r == matches_at(cs@.subrange(0, to as int), pat@, i as int),
{
    if pat.len() > to - i {
        return false;
    }
    let ghost s = cs@.subrange(0, to as int);
    let mut k: usize = 0;
    while k < pat.len()
        invariant
            i + pat.len() <= to <= cs.len(),
            k <= pat.len(),
            s == cs@.subrange(0, to as int),
            forall|j: int| 0 <= j < k ==> cs[i + j] == pat[j],
        decreases pat.len() - k,
    {
        if cs[i + k] != pat[k] {
            assert(s.subrange(i as int, i + pat.len())[k as int] != pat@[k as int]);
            return false;
        }
        k = k + 1;
    }
    assert(s.subrange(i as int, i + pat.len()) =~= pat@);
    true
}

/// First index at or after `from` where `pat` occurs in `cs[..to]`; `to`
/// when it does not occur.
pub fn find_in(cs: &Vec<char>, from: usize, to: usize, pat: &Vec<char>) -> (r: usize)
    requires
        from <= to <= cs.len(),
    ensures
        from <= r <= to,
        r == find_from(cs@.subrange(0, to as int), pat@, from as int),
{
    let ghost s = cs@.subrange(0, to as int);
    let mut i: usize = from;
    while i < to
        invariant
            from <= i <= to <= cs.len(),
            s == cs@.subrange(0, to as int),
            find_from(s, pat@, from as int) == find_from(s, pat@, i as int),
        decreases to - i,
    {
        if chars_match_at(cs, to, pat, i) {
            return i;
        }
        i = i + 1;
    }
    i
}

/// The maximal whitespace-free runs of `s`, in order.
pub open spec fn split_whitespace(s: Seq<char>) -> Seq<Seq<char>>
    decreases s.len(),
{
    if s.len() == 0 {
        seq![]
    } else {
        let init = s.drop_last();
        let prev = split_whitespace(init);
        if is_whitespace(s.last()) {
            prev
        } else if init.len() == 0 || is_whitespace(init.last()) {
            prev.push(seq![s.last()])
        } else {
            prev.drop_last().push(prev.last().push(s.last()))
        }
    }
}

/// True when every character of `s` is whitespace.
pub open spec fn all_whitespace(s: Seq<char>) -> bool {
    forall|i: int| 0 <= i < s.len() ==> is_whitespace(#[trigger] s[i])
}

/// A text that ends in a character that is not whitespace has a last word,
/// and every word of a text is non-empty and free of whitespace.
pub proof fn lemma_words(s: Seq<char>)
    ensures
        s.len() > 0 && !is_whitespace(s.last()) ==> split_whitespace(s).len() > 0,
        forall|k: int|
            0 <= k < split_whitespace(s).len() ==> (#[trigger] split_whitespace(s)[k]).len() > 0
                && no_whitespace(split_whitespace(s)[k]),
    decreases s.len(),
{
    if s.len() > 0 {
        lemma_words(s.drop_last());
    }
}

/// What is left after trimming neither starts nor ends with whitespace.
pub proof fn lemma_trimmed(s: Seq<char>)
    ensures
        trim(s).len() > 0 ==> !is_whitespace(trim(s)[0]) && !is_whitespace(trim(s).last()),
{
    lemma_trim_start(s);
    lemma_trim_end(trim_start(s));
}

proof fn lemma_trim_start(s: Seq<char>)
    ensures
        trim_start(s).len() > 0 ==> !is_whitespace(trim_start(s)[0]),
    decreases s.len(),
{
    if s.len() > 0 && is_whitespace(s[0]) {
        lemma_trim_start(s.drop_first());
    }
}

proof fn lemma_trim_end(s: Seq<char>)
    ensures
        trim_end(s).len() > 0 ==> !is_whitespace(trim_end(s).last()) && trim_end(s)[0] == s[0],
    decreases s.len(),
{
    if s.len() > 0 && is_whitespace(s.last()) {
        lemma_trim_end(s.drop_last());
    }
}

/// Whitespace at the end of a text adds no word.
pub proof fn lemma_split_whitespace_gap(x: Seq<char>, gap: Seq<char>)
    requires
        all_whitespace(gap),
    ensures
        split_whitespace(x + gap) == split_whitespace(x),
    decreases gap.len(),
{
    if gap.len() == 0 {
        assert(x + gap == x);
    } else {
        lemma_split_whitespace_gap(x, gap.drop_last());
        assert((x + gap).drop_last() == x + gap.drop_last());
        assert(is_whitespace(gap[gap.len() - 1]));
    }
}

/// A whitespace-free run after a gap, or at the start, is one more word.
pub proof fn lemma_split_whitespace_word(x: Seq<char>, word: Seq<char>)
    requires
        word.len() > 0,
        no_whitespace(word),
        x.len() == 0 || is_whitespace(x.last()),
    ensures
        split_whitespace(x + word) == split_whitespace(x).push(word),
    decreases word.len(),
{
    let init = word.drop_last();
    let c = word.last();
    assert((x + word).drop_last() == x + init);
    assert(!is_whitespace(word[word.len() - 1]));
    if init.len() == 0 {
        assert(x + init == x);
        assert(word == seq![c]);
    } else {
        lemma_split_whitespace_word(x, init);
        assert(!is_whitespace(init[init.len() - 1]));
        assert(split_whitespace(x).push(init).drop_last() == split_whitespace(x));
        assert(init.push(c) == word);
    }
}

/// The pieces of `cs` that a list of index pairs cuts out.
pub open spec fn spans_of(cs: Seq<char>, spans: Seq<(usize, usize)>) -> Seq<Seq<char>> {
    Seq::new(spans.len(), |k: int| cs.subrange(spans[k].0 as int, spans[k].1 as int))
}

/// True when every pair is an ordered pair of indices up to `len`.
pub open spec fn spans_within(spans: Seq<(usize, usize)>, len: int) -> bool {
    forall|k: int| 0 <= k < spans.len() ==> (#[trigger] spans[k]).0 <= spans[k].1 <= len
}

/// Bounds of the whitespace-separated words of `cs`.
pub fn word_spans(cs: &Vec<char>) -> (spans: Vec<(usize, usize)>)
    ensures
        spans_within(spans@, cs.len() as int),
        spans_of(cs@, spans@) == split_whitespace(cs@),
{
    let n = cs.len();
    let mut spans: Vec<(usize, usize)> = Vec::new();
    let mut start: usize = 0;
    let mut open: bool = false;
    let mut i: usize = 0;
    assert(spans_of(cs@, spans@) =~= split_whitespace(cs@.take(0)));
    while i < n
        invariant
            i <= n == cs.len(),
            spans_within(spans@, n as int),
            open ==> 0 < i && start < i && !is_whitespace(cs[i - 1]),
            !open ==> i == 0 || is_whitespace(cs[i - 1]),
            open ==> split_whitespace(cs@.take(i as int)) == spans_of(cs@, spans@).push(
                cs@.subrange(start as int, i as int),
            ),
            !open ==> split_whitespace(cs@.take(i as int)) == spans_of(cs@, spans@),
        decreases n - i,
    {
        let c = cs[i];
        let ghost before = spans_of(cs@, spans@);
        let ghost next = cs@.take(i + 1);
        assert(next.drop_last() == cs@.take(i as int));
        assert(next.last() == c);
        if whitespace(c) {
            if open {
                spans.push((start, i));
                open = false;
                assert(spans_of(cs@, spans@) =~= before.push(cs@.subrange(start as int, i as int)));
            }
        } else if open {
            assert(before.push(cs@.subrange(start as int, i as int)).drop_last() =~= before);
            assert(cs@.subrange(start as int, i as int).push(c) =~= cs@.subrange(
                start as int,
                i + 1,
            ));
        } else {
            start = i;
            open = true;
            assert(seq![c] =~= cs@.subrange(i as int, i + 1));
        }
        i = i + 1;
    }
    assert(cs@.take(n as int) == cs@);
    if open {
        let ghost before = spans_of(cs@, spans@);
        spans.push((start, n));
        assert(spans_of(cs@, spans@) =~= before.push(cs@.subrange(start as int, n as int)));
    }
    spans
}

/// True when `cs[from..to]` spells `word`.
pub fn span_is(cs: &Vec<char>, from: usize, to: usize, word: &str) -> (r: bool)
    requires
        from <= to <= cs.len(),
    ensures
        r == (cs@.subrange(from as int, to as int) == word@),
{
    let w = chars_of(word);
    if w.len() != to - from {
        return false;
    }
    let r = chars_match_at(cs, to, &w, from);
    assert(cs@.subrange(0, to as int).subrange(from as int, from + w.len()) =~= cs@.subrange(
        from as int,
        to as int,
    ));
    r
}

/// Bounds of the pieces that the separator `pat` cuts `cs` into.
pub fn split_spans(cs: &Vec<char>, pat: &Vec<char>) -> (spans: Vec<(usize, usize)>)
    requires
        pat.len() > 0,
    ensures
        spans_within(spans@, cs.len() as int),
        spans_of(cs@, spans@) == split(cs@, pat@),
{
    let n = cs.len();
    let mut spans: Vec<(usize, usize)> = Vec::new();
    let mut i: usize = 0;
    assert(cs@.subrange(0, n as int) == cs@);
    loop
        invariant_except_break
            split(cs@, pat@) == spans_of(cs@, spans@) + split_from(cs@, pat@, i as int),
        invariant
            i <= n == cs.len(),
            pat.len() > 0,
            spans_within(spans@, n as int),
        ensures
            spans_within(spans@, n as int),
            spans_of(cs@, spans@) == split(cs@, pat@),
        decreases n - i,
    {
        let ghost before = spans_of(cs@, spans@);
        assert(cs@.subrange(0, n as int) == cs@);
        let e = find_in(cs, i, n, pat);
        proof {
            lemma_find_from(cs@, pat@, i as int);
        }
        if e < n {
            spans.push((i, e));
            assert(spans_of(cs@, spans@) =~= before.push(cs@.subrange(i as int, e as int)));
            i = e + pat.len();
        } else {
            spans.push((i, n));
            assert(spans_of(cs@, spans@) =~= before.push(cs@.subrange(i as int, n as int)));
            break;
        }
    }
    spans
}

/// Bounds of the lines of `cs`.
pub fn line_spans(cs: &Vec<char>) -> (spans: Vec<(usize, usize)>)
    ensures
        spans_within(spans@, cs.len() as int),
        spans_of(cs@, spans@) == lines(cs@),
{
    let n = cs.len();
    let mut spans: Vec<(usize, usize)> = Vec::new();
    let mut i: usize = 0;
    while i < n
        invariant
            i <= n == cs.len(),
            spans_within(spans@, n as int),
            lines(cs@) == spans_of(cs@, spans@) + lines_from(cs@, i as int),
        decreases n - i,
    {
        let ghost before = spans_of(cs@, spans@);
        let e = position_in(cs, i, n, '\n');
        proof {
            lemma_position_is(cs@, '\n', i as int, e as int);
        }
        if e < n {
            let end = if e > i && cs[e - 1] == '\r' {
                e - 1
            } else {
                e
            };
            assert(cs@.subrange(i as int, end as int) =~= strip_cr(cs@.subrange(i as int, e as int)));
            spans.push((i, end));
            assert(spans_of(cs@, spans@) =~= before.push(cs@.subrange(i as int, end as int)));
            i = e + 1;
        } else {
            spans.push((i, n));
            assert(spans_of(cs@, spans@) =~= before.push(cs@.subrange(i as int, n as int)));
            i = n;
        }
    }
    spans
}

/// The characters `cs[from..to]` of `s` as an owned string.
pub fn substring(s: &str, from: usize, to: usize) -> (r: String)
    requires
        from <= to <= s@.len(),
    ensures
        r@ == s@.subrange(from as int, to as int),
{
    s.substring_char(from, to).to_owned()
}

} // verus!
