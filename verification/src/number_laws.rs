//! What is read of a written number.

use vstd::prelude::*;

use crate::number::{
    all_digits, decimal, digit_char, digits_value, integer_value, is_digit, signed_decimal,
};

verus! {

/// Every character of `s` is one of the ten digits.
pub open spec fn digits_only(s: Seq<char>) -> bool {
    forall|i: int| 0 <= i < s.len() ==> '0' <= #[trigger] s[i] <= '9'
}

proof fn lemma_is_digit(c: char)
    ensures
        is_digit(c) <==> '0' <= c <= '9',
{
}

proof fn lemma_digits_only(s: Seq<char>)
    ensures
        all_digits(s) <==> digits_only(s),
{
    if all_digits(s) {
        assert forall|i: int| 0 <= i < s.len() implies '0' <= #[trigger] s[i] <= '9' by {
            assert(is_digit(s[i]));
            lemma_is_digit(s[i]);
        }
    }
    if digits_only(s) {
        assert forall|i: int| 0 <= i < s.len() implies is_digit(#[trigger] s[i]) by {
            lemma_is_digit(s[i]);
        }
    }
}

/// The digits are the characters from `0` to `9`, and a text of digits is one
/// that holds nothing else.
pub proof fn digits_are_ascii(s: Seq<char>)
    ensures
        all_digits(s) <==> forall|i: int| 0 <= i < s.len() ==> '0' <= #[trigger] s[i] <= '9',
{
    lemma_digits_only(s);
}

/// A digit behind a number makes it ten times as large, and itself more.
pub proof fn digits_are_decimal_places(s: Seq<char>, c: char)
    requires
        '0' <= c <= '9',
    ensures
        digits_value(s.push(c)) == 10 * digits_value(s) + (c as int - '0' as int),
        digits_value(Seq::empty()) == 0,
{
    assert(s.push(c).drop_last() =~= s);
}

/// Zeros in front change nothing.
pub proof fn leading_zeros_are_ignored(z: Seq<char>, s: Seq<char>)
    requires
        forall|i: int| 0 <= i < z.len() ==> #[trigger] z[i] == '0',
        digits_only(s),
    ensures
        digits_value(z + s) == digits_value(s),
    decreases z.len() + s.len(),
{
    if s.len() > 0 {
        let front = s.drop_last();
        assert((z + s).drop_last() =~= z + front);
        assert forall|i: int| 0 <= i < front.len() implies '0' <= #[trigger] front[i] <= '9' by {
            assert(front[i] == s[i]);
        }
        leading_zeros_are_ignored(z, front);
        assert((z + s).last() == s.last());
    } else if z.len() > 0 {
        assert(z + s =~= z);
        assert(z[z.len() - 1] == '0');
        assert(z.drop_last() + s =~= z.drop_last());
        leading_zeros_are_ignored(z.drop_last(), s);
    } else {
        assert(z + s =~= s);
    }
}

proof fn lemma_digit(d: nat)
    requires
        d < 10,
    ensures
        is_digit(digit_char(d)),
        digit_char(d) as int == 0x30 + d,
        d > 0 ==> digit_char(d) != '0',
{
    let c = digit_char(d);
    assert(c as int == 0x30 + d);
}

/// The decimal form of a number is made of digits, does not begin with a zero
/// unless it is one, and is read as that number.
pub proof fn decimal_forms_are_read_back(n: nat)
    ensures
        digits_only(decimal(n)),
        all_digits(decimal(n)),
        decimal(n).len() > 0,
        n > 0 ==> decimal(n)[0] != '0',
        n == 0 ==> decimal(n) == seq!['0'],
        digits_value(decimal(n)) == n,
    decreases n,
{
    let s = decimal(n);
    if n < 10 {
        lemma_digit(n);
        assert(s.drop_last() =~= Seq::empty());
        assert(digits_value(s.drop_last()) == 0);
        if n == 0 {
            assert(digit_char(0) == '0');
            assert(s =~= seq!['0']);
        }
    } else {
        decimal_forms_are_read_back(n / 10);
        lemma_digit(n % 10);
        assert(s.drop_last() =~= decimal(n / 10));
        assert(n == (n / 10) * 10 + n % 10) by (nonlinear_arith);
        assert(s[0] == decimal(n / 10)[0]);
    }
    assert forall|i: int| 0 <= i < s.len() implies is_digit(#[trigger] s[i]) by {
        if n >= 10 && i < s.len() - 1 {
            assert(s[i] == decimal(n / 10)[i]);
            assert(is_digit(decimal(n / 10)[i]));
        }
    }
    lemma_digits_only(s);
}

/// A number is read from its decimal form, with a plus sign in front of it
/// and with a minus sign for its opposite.
pub proof fn signed_forms_are_read_back(n: nat)
    ensures
        integer_value(decimal(n)) == Some(n as int),
        integer_value(seq!['+'] + decimal(n)) == Some(n as int),
        integer_value(seq!['-'] + decimal(n)) == Some(-(n as int)),
        integer_value(signed_decimal(n as int)) == Some(n as int),
        integer_value(signed_decimal(-(n as int))) == Some(-(n as int)),
{
    decimal_forms_are_read_back(n);
    assert('0' <= decimal(n)[0] <= '9');
    assert((seq!['+'] + decimal(n)).skip(1) =~= decimal(n));
    assert((seq!['-'] + decimal(n)).skip(1) =~= decimal(n));
}

/// Every text of digits is a number, with or without a sign in front.
pub proof fn every_run_of_digits_is_a_number(s: Seq<char>)
    requires
        s.len() > 0,
        digits_only(s),
    ensures
        integer_value(s) == Some(digits_value(s) as int),
        integer_value(seq!['+'] + s) == Some(digits_value(s) as int),
        integer_value(seq!['-'] + s) == Some(-(digits_value(s) as int)),
{
    lemma_digits_only(s);
    assert('0' <= s[0] <= '9');
    assert((seq!['+'] + s).skip(1) =~= s);
    assert((seq!['-'] + s).skip(1) =~= s);
}

/// Nothing else is a number: a text that is read as one is made of digits, with
/// at most a sign in front of them.
pub proof fn only_digits_are_a_number(s: Seq<char>)
    ensures
        integer_value(s) is Some ==> s.len() > 0,
        integer_value(s) is Some ==> forall|i: int|
            1 <= i < s.len() ==> '0' <= #[trigger] s[i] <= '9',
        integer_value(s) is Some ==> '0' <= s[0] <= '9' || (s.len() > 1 && (s[0] == '+' || s[0]
            == '-')),
{
    if integer_value(s) is Some {
        let d = if s[0] == '-' || s[0] == '+' {
            s.skip(1)
        } else {
            s
        };
        assert(all_digits(d));
        lemma_digits_only(d);
        if s[0] == '-' || s[0] == '+' {
            assert forall|i: int| 1 <= i < s.len() implies '0' <= #[trigger] s[i] <= '9' by {
                assert(s[i] == d[i - 1]);
            }
        } else {
            assert('0' <= d[0] <= '9');
        }
    }
}

} // verus!
