//! Percent-encoding of bytes, as used in query strings: unreserved
//! characters stand for themselves, a space is written `+`, and every other
//! byte is written `%XX` with two upper-case hexadecimal digits.

use vstd::prelude::*;
use vstd::string::*;
use vstd::utf8::{
    decode_utf8, encode_utf8, encode_utf8_decode_utf8, encode_utf8_valid_utf8, is_ascii_chars,
    is_ascii_chars_encode_utf8, valid_utf8,
};
use super::text::str_from_utf8;

verus! {

/// A byte that is written as it is: an ASCII letter or digit, or one of
/// `-`, `_`, `.`, `~`.
pub open spec fn is_unreserved(b: u8) -> bool {
    ||| 0x41 <= b <= 0x5A
    ||| 0x61 <= b <= 0x7A
    ||| 0x30 <= b <= 0x39
    ||| b == 0x2D
    ||| b == 0x5F
    ||| b == 0x2E
    ||| b == 0x7E
}

/// The upper-case hexadecimal digit for `n`.
pub open spec fn hex_upper(n: int) -> u8
    recommends
        0 <= n < 16,
{
    if n < 10 {
        (0x30 + n) as u8
    } else {
        (0x41 + n - 10) as u8
    }
}

/// The value of a hexadecimal digit, in either case.
pub open spec fn hex_digit(b: u8) -> Option<int> {
    if 0x30 <= b <= 0x39 {
        Some(b - 0x30)
    } else if 0x41 <= b <= 0x46 {
        Some(b - 0x41 + 10)
    } else if 0x61 <= b <= 0x66 {
        Some(b - 0x61 + 10)
    } else {
        None
    }
}

/// How one byte is written.
pub open spec fn encode_byte(b: u8) -> Seq<u8> {
    if is_unreserved(b) {
        seq![b]
    } else if b == 0x20 {
        seq![0x2Bu8]
    } else {
        seq![0x25u8, hex_upper(b as int / 16), hex_upper(b as int % 16)]
    }
}

/// How a run of bytes is written.
pub open spec fn percent_encode(bytes: Seq<u8>) -> Seq<u8>
    decreases bytes.len(),
{
    if bytes.len() == 0 {
        Seq::empty()
    } else {
        encode_byte(bytes[0]) + percent_encode(bytes.drop_first())
    }
}

/// The bytes that `s` stands for: `%` and two hexadecimal digits are the
/// byte with that value, `+` is a space, any other byte is itself. `None`
/// when a `%` is not followed by two hexadecimal digits.
pub open spec fn percent_decode(s: Seq<u8>) -> Option<Seq<u8>>
    decreases s.len(),
{
    if s.len() == 0 {
        Some(Seq::empty())
    } else if s[0] == 0x25 {
        if s.len() < 3 {
            None
        } else {
            match (hex_digit(s[1]), hex_digit(s[2]), percent_decode(s.skip(3))) {
                (Some(high), Some(low), Some(rest)) => Some(seq![(high * 16 + low) as u8] + rest),
                _ => None,
            }
        }
    } else {
        match percent_decode(s.drop_first()) {
            Some(rest) => Some(
                seq![
                    if s[0] == 0x2B {
                        0x20u8
                    } else {
                        s[0]
                    },
                ] + rest,
            ),
            None => None,
        }
    }
}

/// The text whose characters are the given ASCII bytes.
pub open spec fn ascii_text(bytes: Seq<u8>) -> Seq<char> {
    Seq::new(bytes.len(), |i: int| bytes[i] as char)
}

/// True when every byte is ASCII.
pub open spec fn all_ascii(bytes: Seq<u8>) -> bool {
    forall|i: int| 0 <= i < bytes.len() ==> #[trigger] bytes[i] < 0x80
}

/// ASCII bytes are well-formed UTF-8 and encode the text of the same
/// characters.
pub proof fn lemma_ascii_is_utf8(bytes: Seq<u8>)
    requires
        all_ascii(bytes),
    ensures
        valid_utf8(bytes),
        decode_utf8(bytes) == ascii_text(bytes),
        encode_utf8(ascii_text(bytes)) == bytes,
{
    let chars = ascii_text(bytes);
    assert(is_ascii_chars(chars)) by {
        assert forall|i: int| 0 <= i < chars.len() implies '\0' <= #[trigger] chars[i]
            <= '\u{7f}' by {
            assert(bytes[i] < 0x80);
        }
    }
    is_ascii_chars_encode_utf8(chars);
    assert(encode_utf8(chars) =~= bytes) by {
        assert forall|i: int| 0 <= i < bytes.len() implies encode_utf8(chars)[i] == bytes[i] by {
            assert(chars[i] as u8 == encode_utf8(chars)[i]);
            assert(bytes[i] < 0x80);
        }
    }
    encode_utf8_valid_utf8(chars);
    encode_utf8_decode_utf8(chars);
}

/// Whatever is written is ASCII.
pub proof fn lemma_percent_encode_is_ascii(bytes: Seq<u8>)
    ensures
        all_ascii(percent_encode(bytes)),
    decreases bytes.len(),
{
    if bytes.len() > 0 {
        lemma_percent_encode_is_ascii(bytes.drop_first());
    }
}

/// Reading what was written gives the bytes back.
pub proof fn lemma_percent_round_trip(bytes: Seq<u8>)
    ensures
        percent_decode(percent_encode(bytes)) == Some(bytes),
    decreases bytes.len(),
{
    if bytes.len() > 0 {
        let b = bytes[0];
        let rest = percent_encode(bytes.drop_first());
        let all = percent_encode(bytes);
        lemma_percent_round_trip(bytes.drop_first());
        if is_unreserved(b) || b == 0x20 {
            assert(all.drop_first() == rest);
        } else {
            assert(all.skip(3) == rest);
            let high = b as int / 16;
            let low = b as int % 16;
            assert(hex_digit(hex_upper(high)) == Some(high));
            assert(hex_digit(hex_upper(low)) == Some(low));
            assert(high * 16 + low == b);
        }
        assert(seq![b] + bytes.drop_first() == bytes);
    }
}

fn hex_upper_of(n: u8) -> (r: u8)
    requires
        n < 16,
    ensures
        r == hex_upper(n as int),
{
    if n < 10 {
        0x30 + n
    } else {
        0x41 + (n - 10)
    }
}

fn hex_digit_of(b: u8) -> (r: Option<u8>)
    ensures
        r.is_some() == hex_digit(b).is_some(),
        r matches Some(v) ==> hex_digit(b) == Some(v as int) && v < 16,
{
    if 0x30 <= b && b <= 0x39 {
        Some(b - 0x30)
    } else if 0x41 <= b && b <= 0x46 {
        Some(b - 0x41 + 10)
    } else if 0x61 <= b && b <= 0x66 {
        Some(b - 0x61 + 10)
    } else {
        None
    }
}

fn is_unreserved_byte(b: u8) -> (r: bool)
    ensures
        r == is_unreserved(b),
{
    (0x41 <= b && b <= 0x5A) || (0x61 <= b && b <= 0x7A) || (0x30 <= b && b <= 0x39) || b == 0x2D
        || b == 0x5F || b == 0x2E || b == 0x7E
}

/// Writes `bytes` percent-encoded.
pub fn encode_bytes(bytes: &[u8]) -> (out: Vec<u8>)
    ensures
        out@ == percent_encode(bytes@),
{
    let mut out: Vec<u8> = Vec::new();
    let n = bytes.len();
    let mut i: usize = 0;
    assert(bytes@.skip(0) == bytes@);
    while i < n
        invariant
            i <= n == bytes@.len(),
            percent_encode(bytes@) == out@ + percent_encode(bytes@.skip(i as int)),
        decreases n - i,
    {
        let b = bytes[i];
        let ghost before = out@;
        assert(bytes@.skip(i as int).drop_first() == bytes@.skip(i + 1));
        assert(bytes@.skip(i as int)[0] == b);
        if is_unreserved_byte(b) {
            out.push(b);
        } else if b == 0x20 {
            out.push(0x2B);
        } else {
            out.push(0x25);
            out.push(hex_upper_of(b / 16));
            out.push(hex_upper_of(b % 16));
        }
        assert(out@ =~= before + encode_byte(b));
        assert(before + (encode_byte(b) + percent_encode(bytes@.skip(i + 1))) =~= before
            + encode_byte(b) + percent_encode(bytes@.skip(i + 1)));
        i = i + 1;
    }
    assert(out@ + Seq::<u8>::empty() =~= out@);
    out
}

/// Reads the percent-encoded bytes `bytes[from..to]`.
pub fn decode_bytes(bytes: &[u8], from: usize, to: usize) -> (r: Option<Vec<u8>>)
    requires
        from <= to <= bytes@.len(),
    ensures
        match r {
            Some(out) => percent_decode(bytes@.subrange(from as int, to as int)) == Some(out@),
            None => percent_decode(bytes@.subrange(from as int, to as int)) is None,
        },
{
    let ghost s = bytes@.subrange(from as int, to as int);
    let mut out: Vec<u8> = Vec::new();
    let mut i: usize = from;
    assert(s.skip(0) == s);
    assert(Seq::<u8>::empty() + percent_decode(s)->0 =~= percent_decode(s)->0);
    while i < to
        invariant
            from <= i <= to <= bytes@.len(),
            s == bytes@.subrange(from as int, to as int),
            percent_decode(s) == match percent_decode(s.skip(i - from)) {
                Some(rest) => Some(out@ + rest),
                None => None,
            },
        decreases to - i,
    {
        let b = bytes[i];
        let ghost tail = s.skip(i - from);
        let ghost before = out@;
        assert(tail[0] == b);
        if b == 0x25 {
            if to - i < 3 {
                return None;
            }
            assert(tail[1] == bytes[i + 1]);
            assert(tail[2] == bytes[i + 2]);
            assert(tail.skip(3) == s.skip(i - from + 3));
            let high = match hex_digit_of(bytes[i + 1]) {
                Some(v) => v,
                None => {
                    return None;
                },
            };
            let low = match hex_digit_of(bytes[i + 2]) {
                Some(v) => v,
                None => {
                    return None;
                },
            };
            out.push(high * 16 + low);
            proof {
                let byte = (high * 16 + low) as u8;
                if percent_decode(tail.skip(3)) is Some {
                    let rest = percent_decode(tail.skip(3))->0;
                    assert(before + (seq![byte] + rest) =~= before.push(byte) + rest);
                }
            }
            i = i + 3;
        } else {
            assert(tail.drop_first() == s.skip(i - from + 1));
            let byte: u8 = if b == 0x2B {
                0x20
            } else {
                b
            };
            out.push(byte);
            proof {
                if percent_decode(tail.drop_first()) is Some {
                    let rest = percent_decode(tail.drop_first())->0;
                    assert(before + (seq![byte] + rest) =~= before.push(byte) + rest);
                }
            }
            i = i + 1;
        }
    }
    assert(out@ + Seq::<u8>::empty() =~= out@);
    Some(out)
}

/// The text whose characters are the given ASCII bytes.
pub fn ascii_string(bytes: &[u8]) -> (r: String)
    requires
        all_ascii(bytes@),
    ensures
        r@ == ascii_text(bytes@),
{
    proof {
        lemma_ascii_is_utf8(bytes@);
    }
    match str_from_utf8(bytes) {
        Ok(s) => s.to_owned(),
        Err(_) => {
            // ASCII is well-formed UTF-8: this arm is never taken.
            assert(false);
            String::new()
        },
    }
}

} // verus!
