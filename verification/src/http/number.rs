//! Unsigned numbers in text: reading them in base ten or sixteen, and
//! writing them in base ten.

use vstd::prelude::*;
use vstd::string::*;

verus! {

/// The value of `c` as a digit in the given base, if it is one. Letters
/// count in either case.
pub open spec fn digit_value(c: char, radix: nat) -> Option<nat> {
    let u = c as u32;
    let v: nat = if 0x30 <= u <= 0x39 {
        (u - 0x30) as nat
    } else if 0x61 <= u <= 0x7A {
        (u - 0x61 + 10) as nat
    } else if 0x41 <= u <= 0x5A {
        (u - 0x41 + 10) as nat
    } else {
        radix
    };
    if v < radix {
        Some(v)
    } else {
        None
    }
}

/// The number that a run of digits spells, most significant first; `None`
/// when a character is no digit. The empty run spells zero.
pub open spec fn digits_value(s: Seq<char>, radix: nat) -> Option<nat>
    decreases s.len(),
{
    if s.len() == 0 {
        Some(0)
    } else {
        match (digits_value(s.drop_last(), radix), digit_value(s.last(), radix)) {
            (Some(high), Some(low)) => Some(high * radix + low),
            _ => None,
        }
    }
}

/// The number that `s` spells: an optional `+`, then one or more digits and
/// nothing else. `None` also when the number does not fit in `usize`.
pub open spec fn parse_unsigned(s: Seq<char>, radix: nat) -> Option<nat> {
    let digits = if s.len() > 0 && s[0] == '+' {
        s.drop_first()
    } else {
        s
    };
    if digits.len() == 0 {
        None
    } else {
        match digits_value(digits, radix) {
            Some(v) => if v <= usize::MAX {
                Some(v)
            } else {
                None
            },
            None => None,
        }
    }
}

/// A longer run of digits spells no smaller a number.
pub proof fn lemma_digits_value_grows(s: Seq<char>, radix: nat, i: int)
    requires
        0 <= i <= s.len(),
        radix >= 1,
    ensures
        digits_value(s, radix) is Some ==> digits_value(s.take(i), radix) is Some
            && digits_value(s.take(i), radix)->0 <= digits_value(s, radix)->0,
    decreases s.len(),
{
    if i == s.len() {
        assert(s.take(i) == s);
    } else {
        lemma_digits_value_grows(s.drop_last(), radix, i);
        assert(s.drop_last().take(i) == s.take(i));
        if digits_value(s, radix) is Some {
            let high = digits_value(s.drop_last(), radix)->0;
            assert(high * radix >= high) by (nonlinear_arith)
                requires
                    radix >= 1,
                    high >= 0,
            ;
        }
    }
}

/// The character that writes the digit `d`.
pub open spec fn digit_char(d: nat) -> char
    recommends
        d < 10,
{
    ((0x30 + d) as u8) as char
}

/// `n` written in base ten, without sign or leading zeros.
pub open spec fn decimal(n: nat) -> Seq<char>
    decreases n,
{
    if n < 10 {
        seq![digit_char(n)]
    } else {
        decimal(n / 10).push(digit_char(n % 10))
    }
}

/// What is written in base ten reads back as the same number.
pub proof fn lemma_decimal_reads_back(n: nat)
    ensures
        decimal(n).len() > 0,
        decimal(n)[0] != '+',
        digits_value(decimal(n), 10) == Some(n),
        n <= usize::MAX ==> parse_unsigned(decimal(n), 10) == Some(n),
    decreases n,
{
    let s = decimal(n);
    if n < 10 {
        assert(s.drop_last() =~= Seq::<char>::empty());
        assert(s.last() == digit_char(n));
        assert(digit_value(digit_char(n), 10) == Some(n));
        assert(digits_value(s.drop_last(), 10) == Some(0nat));
        assert(digits_value(s, 10) == Some((0 * 10 + n) as nat));
    } else {
        lemma_decimal_reads_back(n / 10);
        assert(s.drop_last() =~= decimal(n / 10));
        assert(s.last() == digit_char(n % 10));
        assert(digit_value(digit_char(n % 10), 10) == Some(n % 10));
        assert(digits_value(s, 10) == Some(((n / 10) * 10 + n % 10) as nat));
        assert(s[0] == decimal(n / 10)[0]);
    }
    if n <= usize::MAX {
        assert(s.len() > 0 && s[0] != '+');
    }
}

/// Reads `c` as a digit in base `radix`.
pub fn digit_of(c: char, radix: usize) -> (r: Option<usize>)
    requires
        radix <= 36,
    ensures
        r.is_some() == digit_value(c, radix as nat).is_some(),
        r matches Some(v) ==> digit_value(c, radix as nat) == Some(v as nat),
{
    let u: u32 = c as u32;
    let v: usize = if 0x30 <= u && u <= 0x39 {
        (u - 0x30) as usize
    } else if 0x61 <= u && u <= 0x7A {
        (u - 0x61 + 10) as usize
    } else if 0x41 <= u && u <= 0x5A {
        (u - 0x41 + 10) as usize
    } else {
        radix
    };
    if v < radix {
        Some(v)
    } else {
        None
    }
}

/// Reads the number that `cs[from..to]` spells in base `radix`.
pub fn parse_unsigned_in(cs: &Vec<char>, from: usize, to: usize, radix: usize) -> (r: Option<
    usize,
>)
    requires
        from <= to <= cs.len(),
        1 <= radix <= 36,
    ensures
        r.is_some() == parse_unsigned(cs@.subrange(from as int, to as int), radix as nat).is_some(),
        r matches Some(v) ==> parse_unsigned(cs@.subrange(from as int, to as int), radix as nat)
            == Some(v as nat),
{
    let ghost s = cs@.subrange(from as int, to as int);
    let start: usize = if from < to && cs[from] == '+' {
        from + 1
    } else {
        from
    };
    let ghost digits = cs@.subrange(start as int, to as int);
    assert(digits == if s.len() > 0 && s[0] == '+' {
        s.drop_first()
    } else {
        s
    });
    if start == to {
        return None;
    }
    let mut acc: usize = 0;
    let mut i: usize = start;
    assert(digits.take(0) == Seq::<char>::empty());
    while i < to
        invariant
            start <= i <= to <= cs.len(),
            1 <= radix <= 36,
            digits == cs@.subrange(start as int, to as int),
            digits.len() > 0,
            s == cs@.subrange(from as int, to as int),
            digits == if s.len() > 0 && s[0] == '+' {
                s.drop_first()
            } else {
                s
            },
            digits_value(digits.take(i - start), radix as nat) == Some(acc as nat),
        decreases to - i,
    {
        let ghost next = digits.take(i - start + 1);
        assert(next.drop_last() == digits.take(i - start));
        assert(next.last() == cs[i as int]);
        proof {
            lemma_digits_value_grows(digits, radix as nat, i - start + 1);
        }
        let d = match digit_of(cs[i], radix) {
            Some(d) => d,
            None => {
                return None;
            },
        };
        let shifted = match acc.checked_mul(radix) {
            Some(v) => v,
            None => {
                return None;
            },
        };
        acc = match shifted.checked_add(d) {
            Some(v) => v,
            None => {
                return None;
            },
        };
        i = i + 1;
    }
    assert(digits.take(to - start) == digits);
    Some(acc)
}

fn digit_str(d: usize) -> (r: &'static str)
    requires
        d < 10,
    ensures
        r@ == seq![digit_char(d as nat)],
{
    proof {
        reveal_strlit("0");
        reveal_strlit("1");
        reveal_strlit("2");
        reveal_strlit("3");
        reveal_strlit("4");
        reveal_strlit("5");
        reveal_strlit("6");
        reveal_strlit("7");
        reveal_strlit("8");
        reveal_strlit("9");
    }
    let r = if d == 0 {
        "0"
    } else if d == 1 {
        "1"
    } else if d == 2 {
        "2"
    } else if d == 3 {
        "3"
    } else if d == 4 {
        "4"
    } else if d == 5 {
        "5"
    } else if d == 6 {
        "6"
    } else if d == 7 {
        "7"
    } else if d == 8 {
        "8"
    } else {
        "9"
    };
    assert(r@ =~= seq![digit_char(d as nat)]);
    r
}

/// Writes `n` in base ten.
pub fn format_decimal(n: usize) -> (r: String)
    ensures
        r@ == decimal(n as nat),
    decreases n,
{
    if n < 10 {
        digit_str(n).to_owned()
    } else {
        let mut s = format_decimal(n / 10);
        s.append(digit_str(n % 10));
        s
    }
}

} // verus!
