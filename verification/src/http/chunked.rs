//! Chunked transfer coding: a body sent as length-prefixed chunks and
//! closed by a chunk of length zero.

use vstd::prelude::*;
use vstd::slice::slice_subrange;
use vstd::utf8::{decode_utf8, valid_utf8};
use super::bytes::position_in_bytes;
use super::number::{parse_unsigned, parse_unsigned_in};
use super::text::{
    chars_of, lemma_position_from, position, position_from, position_in, str_from_utf8, trim,
    trim_bounds,
};

verus! {

/// What the line that opens a chunk says.
#[derive(Debug, Clone, Copy, PartialEq, Eq, Structural)]
pub enum SizeLine {
    /// Nothing but whitespace: the line is passed over.
    Blank,
    /// The length of the chunk that follows.
    Size(usize),
    /// No length can be read from the line.
    Malformed,
}

/// Reads a chunk-size line: after trimming, the text before the first `;`
/// is the length in hexadecimal; what follows the `;` is ignored.
pub open spec fn size_line(line: Seq<u8>) -> SizeLine {
    if !valid_utf8(line) {
        SizeLine::Malformed
    } else {
        let text = trim(decode_utf8(line));
        if text.len() == 0 {
            SizeLine::Blank
        } else {
            match parse_unsigned(text.take(position(text, ';')), 16) {
                Some(n) => SizeLine::Size(n as usize),
                None => SizeLine::Malformed,
            }
        }
    }
}

/// The line terminators accepted after chunk data: CRLF or a bare line
/// feed.
pub open spec fn is_line_end(line: Seq<u8>) -> bool {
    line == seq![0x0Du8, 0x0Au8] || line == seq![0x0Au8]
}

/// Index just past the line that starts at `i`: past its line feed, or the
/// end of the buffer when no line feed follows.
pub open spec fn line_end(buf: Seq<u8>, i: int) -> int {
    let p = position_from(buf, 0x0Au8, i);
    if p < buf.len() {
        p + 1
    } else {
        buf.len() as int
    }
}

/// The body that the chunks from index `i` on carry. `None` when a size
/// line is malformed or missing, when the buffer ends before the chunk's
/// data does, or when the data is not followed by a line terminator. What
/// follows the chunk of length zero is not looked at.
pub open spec fn decode_chunks(buf: Seq<u8>, i: int) -> Option<Seq<u8>>
    decreases buf.len() - i,
{
    if i < 0 || i >= buf.len() {
        None
    } else {
        let e = line_end(buf, i);
        proof {
            lemma_line_end(buf, i);
        }
        match size_line(buf.subrange(i, e)) {
            SizeLine::Malformed => None,
            SizeLine::Blank => decode_chunks(buf, e),
            SizeLine::Size(n) => {
                let data_end = e + n;
                let t = line_end(buf, data_end);
                if n == 0 {
                    Some(Seq::empty())
                } else if data_end <= buf.len() && is_line_end(buf.subrange(data_end, t)) {
                    proof {
                        lemma_line_end(buf, data_end);
                    }
                    match decode_chunks(buf, t) {
                        Some(rest) => Some(buf.subrange(e, data_end) + rest),
                        None => None,
                    }
                } else {
                    None
                }
            },
        }
    }
}

/// The body of a chunked message whose bytes are `buf`.
pub open spec fn decode_chunked_spec(buf: Seq<u8>) -> Option<Seq<u8>> {
    decode_chunks(buf, 0)
}

/// A line ends within the buffer, and past its start unless the buffer
/// ends there.
pub proof fn lemma_line_end(buf: Seq<u8>, i: int)
    requires
        0 <= i <= buf.len(),
    ensures
        i <= line_end(buf, i) <= buf.len(),
        i < buf.len() ==> i < line_end(buf, i),
{
    lemma_position_from(buf, 0x0Au8, i);
}

/// A chunk whose data is not followed by a line terminator spoils the
/// body, whatever comes after.
pub proof fn lemma_missing_terminator_fails(buf: Seq<u8>, i: int)
    requires
        0 <= i < buf.len(),
        size_line(buf.subrange(i, line_end(buf, i))) matches SizeLine::Size(n) && n > 0 && {
            let data_end = line_end(buf, i) + n;
            !is_line_end(buf.subrange(data_end, line_end(buf, data_end)))
        },
    ensures
        decode_chunks(buf, i) is None,
{
}

/// Reads a chunk-size line.
pub fn read_size_line(line: &[u8]) -> (r: SizeLine)
    ensures
        r == size_line(line@),
{
    match str_from_utf8(line) {
        Err(_) => SizeLine::Malformed,
        Ok(s) => {
            let cs = chars_of(s);
            let n = cs.len();
            assert(cs@.subrange(0, n as int) == cs@);
            let (a, b) = trim_bounds(&cs, 0, n);
            if a == b {
                SizeLine::Blank
            } else {
                let semi = position_in(&cs, a, b, ';');
                assert(cs@.subrange(a as int, b as int).take(semi - a) == cs@.subrange(
                    a as int,
                    semi as int,
                ));
                match parse_unsigned_in(&cs, a, semi, 16) {
                    Some(v) => SizeLine::Size(v),
                    None => SizeLine::Malformed,
                }
            }
        },
    }
}

/// True when `line` is a line terminator and nothing else.
pub fn line_is_end(line: &[u8]) -> (r: bool)
    ensures
        r == is_line_end(line@),
{
    if line.len() == 1 {
        let r = line[0] == 0x0A;
        assert(r == (line@ =~= seq![0x0Au8]));
        r
    } else if line.len() == 2 {
        let r = line[0] == 0x0D && line[1] == 0x0A;
        assert(r == (line@ =~= seq![0x0Du8, 0x0Au8]));
        r
    } else {
        false
    }
}

/// Index just past the line of `buf` that starts at `i`.
pub fn next_line_end(buf: &[u8], i: usize) -> (r: usize)
    requires
        i <= buf@.len(),
    ensures
        r == line_end(buf@, i as int),
        i <= r <= buf@.len(),
        i < buf@.len() ==> i < r,
{
    let n = buf.len();
    assert(buf@.subrange(0, n as int) == buf@);
    let p = position_in_bytes(buf, i, n, 0x0A);
    if p < n {
        p + 1
    } else {
        n
    }
}

/// Decodes a chunked body held in `buf`.
pub fn decode_chunked(buf: &[u8]) -> (r: Option<Vec<u8>>)
    ensures
        match r {
            Some(body) => decode_chunked_spec(buf@) == Some(body@),
            None => decode_chunked_spec(buf@) is None,
        },
{
    let n = buf.len();
    let mut body: Vec<u8> = Vec::new();
    let mut i: usize = 0;
    assert(Seq::<u8>::empty() + decode_chunks(buf@, 0)->0 =~= decode_chunks(buf@, 0)->0);
    while i < n
        invariant
            i <= n == buf@.len(),
            decode_chunks(buf@, 0) == match decode_chunks(buf@, i as int) {
                Some(rest) => Some(body@ + rest),
                None => None,
            },
        decreases n - i,
    {
        let e = next_line_end(buf, i);
        match read_size_line(slice_subrange(buf, i, e)) {
            SizeLine::Malformed => {
                return None;
            },
            SizeLine::Blank => {
                i = e;
            },
            SizeLine::Size(size) => {
                if size == 0 {
                    assert(body@ + Seq::<u8>::empty() =~= body@);
                    return Some(body);
                }
                if size > n - e {
                    return None;
                }
                let data_end = e + size;
                let t = next_line_end(buf, data_end);
                if !line_is_end(slice_subrange(buf, data_end, t)) {
                    return None;
                }
                let ghost before = body@;
                let ghost data = buf@.subrange(e as int, data_end as int);
                let mut k: usize = e;
                while k < data_end
                    invariant
                        e <= k <= data_end <= n == buf@.len(),
                        body@ == before + buf@.subrange(e as int, k as int),
                    decreases data_end - k,
                {
                    body.push(buf[k]);
                    assert(body@ =~= before + buf@.subrange(e as int, k + 1));
                    k = k + 1;
                }
                proof {
                    if decode_chunks(buf@, t as int) is Some {
                        let rest = decode_chunks(buf@, t as int)->0;
                        assert(before + (data + rest) =~= (before + data) + rest);
                    }
                }
                i = t;
            },
        }
    }
    None
}

} // verus!
