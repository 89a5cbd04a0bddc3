//! Decimal integers as text.

use vstd::prelude::*;

use crate::text::chars_of;

verus! {

/// The character of a decimal digit.
pub open spec fn digit_char(d: nat) -> char {
    (0x30 + d) as char
}

/// The decimal form of `n`, without leading zeros.
pub open spec fn decimal(n: nat) -> Seq<char>
    decreases n,
{
    if n < 10 {
        seq![digit_char(n)]
    } else {
        decimal(n / 10).push(digit_char(n % 10))
    }
}

/// The decimal form of `n`, with a minus sign where it is negative.
pub open spec fn signed_decimal(n: int) -> Seq<char> {
    if n < 0 {
        seq!['-'] + decimal((-n) as nat)
    } else {
        decimal(n as nat)
    }
}

fn digit_of(d: u64) -> (c: char)
    requires
        d < 10,
    ensures
        c == digit_char(d as nat),
{
    let b: u8 = 0x30 + d as u8;
    b as char
}

/// Append the decimal form of `n` to `out`.
pub fn push_decimal(out: &mut String, n: u64)
    ensures
        final(out)@ == old(out)@ + decimal(n as nat),
    decreases n,
{
    let ghost start = out@;
    if n >= 10 {
        push_decimal(out, n / 10);
    }
    out.push(digit_of(n % 10));
    assert(out@ =~= start + decimal(n as nat));
}

/// Append the decimal form of `n`, with its sign, to `out`.
pub fn push_signed(out: &mut String, n: i64)
    ensures
        final(out)@ == old(out)@ + signed_decimal(n as int),
{
    let ghost start = out@;
    if n < 0 {
        out.push('-');
        let magnitude: u64 = (-(n + 1)) as u64 + 1;
        push_decimal(out, magnitude);
        assert(out@ =~= start + signed_decimal(n as int));
    } else {
        push_decimal(out, n as u64);
    }
}

// ── Reading ──────────────────────────────────────────────────────────────────

/// Whether `c` is an ASCII decimal digit.
pub open spec fn is_digit(c: char) -> bool {
    0x30 <= c as u32 <= 0x39
}

/// Whether every character of `s` is a digit.
pub open spec fn all_digits(s: Seq<char>) -> bool {
    forall|i: int| 0 <= i < s.len() ==> is_digit(#[trigger] s[i])
}

/// The number that a run of digits denotes.
pub open spec fn digits_value(s: Seq<char>) -> nat
    decreases s.len(),
{
    if s.len() == 0 {
        0
    } else {
        digits_value(s.drop_last()) * 10 + (s.last() as u32 - 0x30) as nat
    }
}

/// The integer that `s` denotes: one or more digits, with an optional sign in
/// front.
pub open spec fn integer_value(s: Seq<char>) -> Option<int> {
    if s.len() > 0 && s[0] == '-' {
        if s.len() > 1 && all_digits(s.skip(1)) {
            Some(-(digits_value(s.skip(1)) as int))
        } else {
            None
        }
    } else {
        let digits = if s.len() > 0 && s[0] == '+' {
            s.skip(1)
        } else {
            s
        };
        if digits.len() > 0 && all_digits(digits) {
            Some(digits_value(digits) as int)
        } else {
            None
        }
    }
}

/// More digits never make a smaller number.
proof fn lemma_digits_grow(s: Seq<char>, k: int)
    requires
        all_digits(s),
        0 <= k <= s.len(),
    ensures
        digits_value(s.take(k)) <= digits_value(s),
    decreases s.len() - k,
{
    if k < s.len() {
        lemma_digits_grow(s, k + 1);
        assert(s.take(k + 1).drop_last() =~= s.take(k));
        assert(is_digit(s[k]));
    } else {
        assert(s.take(k) =~= s);
    }
}

/// Read `chars[from..]` as a number up to `limit`: `None` where it is empty,
/// holds anything but digits, or denotes a larger number.
pub fn read_digits(chars: &Vec<char>, from: usize, limit: u64) -> (r: Option<u64>)
    requires
        from <= chars@.len(),
    ensures
        r matches Some(v) ==> {
            let digits = chars@.skip(from as int);
            &&& digits.len() > 0
            &&& all_digits(digits)
            &&& v == digits_value(digits)
            &&& v <= limit
        },
        r is None ==> {
            let digits = chars@.skip(from as int);
            digits.len() == 0 || !all_digits(digits) || digits_value(digits) > limit
        },
{
    let ghost digits = chars@.skip(from as int);
    if from == chars.len() {
        return None;
    }
    let mut acc: u64 = 0;
    let mut over: bool = false;
    let mut i: usize = from;
    assert(digits.take(0) =~= Seq::empty());
    while i < chars.len()
        invariant
            digits == chars@.skip(from as int),
            from <= i <= chars@.len(),
            forall|k: int| 0 <= k < i - from ==> is_digit(#[trigger] digits[k]),
            !over ==> acc == digits_value(digits.take(i - from)) && acc <= limit,
            over ==> digits_value(digits.take(i - from)) > limit,
        decreases chars@.len() - i,
    {
        let u: u32 = chars[i] as u32;
        assert(digits[i - from] == chars@[i as int]);
        if u < 0x30 || u > 0x39 {
            assert(!is_digit(digits[i - from]));
            return None;
        }
        let d: u64 = (u - 0x30) as u64;
        let ghost sofar = digits.take(i - from);
        proof {
            assert(digits.take(i - from + 1).drop_last() =~= sofar);
            assert(digits.take(i - from + 1).last() == chars@[i as int]);
        }
        if !over {
            let next: u128 = acc as u128 * 10 + d as u128;
            if next > limit as u128 {
                over = true;
            } else {
                acc = next as u64;
            }
        }
        i += 1;
    }
    assert(digits.take(i - from) =~= digits);
    if over {
        None
    } else {
        Some(acc)
    }
}

/// Read an integer whose magnitude is at most `below` where it is negative and
/// `above` where it is not.
fn read_signed(s: &str, below: u64, above: u64) -> (r: Option<i128>)
    ensures
        r == match integer_value(s@) {
            Some(v) => if -below <= v <= above {
                Some(v as i128)
            } else {
                None
            },
            None => None,
        },
{
    let chars = chars_of(s);
    assert(chars@.skip(0) =~= chars@);
    if chars.len() == 0 {
        return None;
    }
    if chars[0] == '-' {
        match read_digits(&chars, 1, below) {
            Some(v) => Some(-(v as i128)),
            None => None,
        }
    } else {
        let from: usize = if chars[0] == '+' {
            1
        } else {
            0
        };
        match read_digits(&chars, from, above) {
            Some(v) => Some(v as i128),
            None => None,
        }
    }
}

/// Read a 64-bit integer, as `str::parse` does: `None` where the text is no
/// integer, or one that does not fit.
pub fn parse_i64(s: &str) -> (r: Option<i64>)
    ensures
        r == match integer_value(s@) {
            Some(v) => if i64::MIN <= v <= i64::MAX {
                Some(v as i64)
            } else {
                None
            },
            None => None,
        },
{
    match read_signed(s, 0x8000_0000_0000_0000, 0x7fff_ffff_ffff_ffff) {
        Some(v) => Some(v as i64),
        None => None,
    }
}

/// Read a 16-bit integer, as `str::parse` does: `None` where the text is no
/// integer, or one that does not fit.
pub fn parse_i16(s: &str) -> (r: Option<i16>)
    ensures
        r == match integer_value(s@) {
            Some(v) => if i16::MIN <= v <= i16::MAX {
                Some(v as i16)
            } else {
                None
            },
            None => None,
        },
{
    match read_signed(s, 0x8000, 0x7fff) {
        Some(v) => Some(v as i16),
        None => None,
    }
}

} // verus!
