//! The Caldwell catalogue.
//!
//! Services do not know the numbers of the Caldwell catalogue, so a query such
//! as `C 14` is translated to the designation by which they know the object.

use vstd::prelude::*;

use crate::normalize::{continues, lower, normalized, outer_space_is_ignored};
use crate::number::{all_digits, decimal, digit_char, digits_value, is_digit, read_digits};
use crate::text::{chars_of, text_between, trim, trim_front, trimmed, white_space, Strip};

verus! {

/// The number of objects in the catalogue.
pub const CALDWELL_COUNT: u64 = 109;

/// The catalogue number that a query asks for: the letter `C` in either case,
/// white space or none, and a number from 1 to 109.
pub open spec fn caldwell_number(query: Seq<char>) -> Option<u32> {
    let q = trimmed(query);
    if q.len() > 0 && (q[0] == 'C' || q[0] == 'c') {
        let digits = trimmed(q.skip(1));
        if digits.len() > 0 && all_digits(digits) && 1 <= digits_value(digits) <= CALDWELL_COUNT {
            Some(digits_value(digits) as u32)
        } else {
            None
        }
    } else {
        None
    }
}

/// The catalogue number that a query asks for, if it asks for one.
pub fn parse_caldwell_number(query: &str) -> (r: Option<u32>)
    ensures
        r == caldwell_number(query@),
{
    let q = trim(query);
    let chars = chars_of(q.as_str());
    if chars.len() == 0 || (chars[0] != 'C' && chars[0] != 'c') {
        return None;
    }
    assert(chars@.subrange(1, chars@.len() as int) =~= q@.skip(1));
    let rest = trim(text_between(&chars, 1, chars.len()).as_str());
    let digits = chars_of(rest.as_str());
    assert(digits@.skip(0) =~= rest@);
    match read_digits(&digits, 0, CALDWELL_COUNT) {
        Some(n) => if n >= 1 {
            Some(n as u32)
        } else {
            None
        },
        None => None,
    }
}

/// The designation of an object of the catalogue; object 99, the Coalsack, has
/// none.
pub open spec fn designation_of(n: u32) -> Option<Seq<char>> {
    match n {
        1 => Some("NGC 188"@),
        2 => Some("NGC 40"@),
        3 => Some("NGC 4236"@),
        4 => Some("NGC 7023"@),
        5 => Some("IC 342"@),
        6 => Some("NGC 6543"@),
        7 => Some("NGC 2403"@),
        8 => Some("NGC 559"@),
        9 => Some("SH 2-155"@),
        10 => Some("NGC 663"@),
        11 => Some("NGC 7635"@),
        12 => Some("NGC 6946"@),
        13 => Some("NGC 457"@),
        14 => Some("NGC 869"@),
        15 => Some("NGC 6826"@),
        16 => Some("NGC 7243"@),
        17 => Some("NGC 147"@),
        18 => Some("NGC 185"@),
        19 => Some("IC 5146"@),
        20 => Some("NGC 7000"@),
        21 => Some("NGC 4449"@),
        22 => Some("NGC 7662"@),
        23 => Some("NGC 891"@),
        24 => Some("NGC 1275"@),
        25 => Some("NGC 2419"@),
        26 => Some("NGC 4244"@),
        27 => Some("NGC 6888"@),
        28 => Some("NGC 752"@),
        29 => Some("NGC 5005"@),
        30 => Some("NGC 7331"@),
        31 => Some("IC 405"@),
        32 => Some("NGC 4631"@),
        33 => Some("NGC 6992"@),
        34 => Some("NGC 6960"@),
        35 => Some("NGC 4889"@),
        36 => Some("NGC 4559"@),
        37 => Some("NGC 6885"@),
        38 => Some("NGC 4565"@),
        39 => Some("NGC 2392"@),
        40 => Some("NGC 3626"@),
        41 => Some("Cl Melotte 25"@),
        42 => Some("NGC 7006"@),
        43 => Some("NGC 7814"@),
        44 => Some("NGC 7479"@),
        45 => Some("NGC 5248"@),
        46 => Some("NGC 2261"@),
        47 => Some("NGC 6934"@),
        48 => Some("NGC 2775"@),
        49 => Some("NGC 2237"@),
        50 => Some("NGC 2244"@),
        51 => Some("IC 1613"@),
        52 => Some("NGC 4697"@),
        53 => Some("NGC 3115"@),
        54 => Some("NGC 2506"@),
        55 => Some("NGC 7009"@),
        56 => Some("NGC 246"@),
        57 => Some("NGC 6822"@),
        58 => Some("NGC 2360"@),
        59 => Some("NGC 3242"@),
        60 => Some("NGC 4038"@),
        61 => Some("NGC 4039"@),
        62 => Some("NGC 247"@),
        63 => Some("NGC 7293"@),
        64 => Some("NGC 2362"@),
        65 => Some("NGC 253"@),
        66 => Some("NGC 5694"@),
        67 => Some("NGC 1097"@),
        68 => Some("NGC 6729"@),
        69 => Some("NGC 6302"@),
        70 => Some("NGC 300"@),
        71 => Some("NGC 2477"@),
        72 => Some("NGC 55"@),
        73 => Some("NGC 1851"@),
        74 => Some("NGC 3132"@),
        75 => Some("NGC 6124"@),
        76 => Some("NGC 6231"@),
        77 => Some("NGC 5128"@),
        78 => Some("NGC 6541"@),
        79 => Some("NGC 3201"@),
        80 => Some("NGC 5139"@),
        81 => Some("NGC 6352"@),
        82 => Some("NGC 6193"@),
        83 => Some("NGC 4945"@),
        84 => Some("NGC 5286"@),
        85 => Some("IC 2391"@),
        86 => Some("NGC 6397"@),
        87 => Some("NGC 1261"@),
        88 => Some("NGC 5823"@),
        89 => Some("NGC 6087"@),
        90 => Some("NGC 2867"@),
        91 => Some("NGC 3532"@),
        92 => Some("NGC 3372"@),
        93 => Some("NGC 6752"@),
        94 => Some("NGC 4755"@),
        95 => Some("NGC 6025"@),
        96 => Some("NGC 2516"@),
        97 => Some("NGC 3766"@),
        98 => Some("NGC 4609"@),
        100 => Some("IC 2944"@),
        101 => Some("NGC 6744"@),
        102 => Some("IC 2602"@),
        103 => Some("NGC 2070"@),
        104 => Some("NGC 362"@),
        105 => Some("NGC 4833"@),
        106 => Some("NGC 104"@),
        107 => Some("NGC 6101"@),
        108 => Some("NGC 4372"@),
        109 => Some("NGC 3195"@),
        _ => None,
    }
}

/// The designation of an object of the catalogue, if it has one.
pub fn caldwell_to_designation(n: u32) -> (r: Option<&'static str>)
    ensures
        match r {
            Some(d) => designation_of(n) == Some(d@),
            None => designation_of(n) is None,
        },
{
    match n {
        1 => Some("NGC 188"),
        2 => Some("NGC 40"),
        3 => Some("NGC 4236"),
        4 => Some("NGC 7023"),
        5 => Some("IC 342"),
        6 => Some("NGC 6543"),
        7 => Some("NGC 2403"),
        8 => Some("NGC 559"),
        9 => Some("SH 2-155"),
        10 => Some("NGC 663"),
        11 => Some("NGC 7635"),
        12 => Some("NGC 6946"),
        13 => Some("NGC 457"),
        14 => Some("NGC 869"),
        15 => Some("NGC 6826"),
        16 => Some("NGC 7243"),
        17 => Some("NGC 147"),
        18 => Some("NGC 185"),
        19 => Some("IC 5146"),
        20 => Some("NGC 7000"),
        21 => Some("NGC 4449"),
        22 => Some("NGC 7662"),
        23 => Some("NGC 891"),
        24 => Some("NGC 1275"),
        25 => Some("NGC 2419"),
        26 => Some("NGC 4244"),
        27 => Some("NGC 6888"),
        28 => Some("NGC 752"),
        29 => Some("NGC 5005"),
        30 => Some("NGC 7331"),
        31 => Some("IC 405"),
        32 => Some("NGC 4631"),
        33 => Some("NGC 6992"),
        34 => Some("NGC 6960"),
        35 => Some("NGC 4889"),
        36 => Some("NGC 4559"),
        37 => Some("NGC 6885"),
        38 => Some("NGC 4565"),
        39 => Some("NGC 2392"),
        40 => Some("NGC 3626"),
        41 => Some("Cl Melotte 25"),
        42 => Some("NGC 7006"),
        43 => Some("NGC 7814"),
        44 => Some("NGC 7479"),
        45 => Some("NGC 5248"),
        46 => Some("NGC 2261"),
        47 => Some("NGC 6934"),
        48 => Some("NGC 2775"),
        49 => Some("NGC 2237"),
        50 => Some("NGC 2244"),
        51 => Some("IC 1613"),
        52 => Some("NGC 4697"),
        53 => Some("NGC 3115"),
        54 => Some("NGC 2506"),
        55 => Some("NGC 7009"),
        56 => Some("NGC 246"),
        57 => Some("NGC 6822"),
        58 => Some("NGC 2360"),
        59 => Some("NGC 3242"),
        60 => Some("NGC 4038"),
        61 => Some("NGC 4039"),
        62 => Some("NGC 247"),
        63 => Some("NGC 7293"),
        64 => Some("NGC 2362"),
        65 => Some("NGC 253"),
        66 => Some("NGC 5694"),
        67 => Some("NGC 1097"),
        68 => Some("NGC 6729"),
        69 => Some("NGC 6302"),
        70 => Some("NGC 300"),
        71 => Some("NGC 2477"),
        72 => Some("NGC 55"),
        73 => Some("NGC 1851"),
        74 => Some("NGC 3132"),
        75 => Some("NGC 6124"),
        76 => Some("NGC 6231"),
        77 => Some("NGC 5128"),
        78 => Some("NGC 6541"),
        79 => Some("NGC 3201"),
        80 => Some("NGC 5139"),
        81 => Some("NGC 6352"),
        82 => Some("NGC 6193"),
        83 => Some("NGC 4945"),
        84 => Some("NGC 5286"),
        85 => Some("IC 2391"),
        86 => Some("NGC 6397"),
        87 => Some("NGC 1261"),
        88 => Some("NGC 5823"),
        89 => Some("NGC 6087"),
        90 => Some("NGC 2867"),
        91 => Some("NGC 3532"),
        92 => Some("NGC 3372"),
        93 => Some("NGC 6752"),
        94 => Some("NGC 4755"),
        95 => Some("NGC 6025"),
        96 => Some("NGC 2516"),
        97 => Some("NGC 3766"),
        98 => Some("NGC 4609"),
        100 => Some("IC 2944"),
        101 => Some("NGC 6744"),
        102 => Some("IC 2602"),
        103 => Some("NGC 2070"),
        104 => Some("NGC 362"),
        105 => Some("NGC 4833"),
        106 => Some("NGC 104"),
        107 => Some("NGC 6101"),
        108 => Some("NGC 4372"),
        109 => Some("NGC 3195"),
        _ => None,
    }
}

// ── Spellings ────────────────────────────────────────────────────────────────

/// Whether a query that asks for an object of the catalogue writes its number
/// without leading zeros.
pub open spec fn plainly_spelled(query: Seq<char>) -> bool {
    trimmed(trimmed(query).skip(1))[0] != '0'
}

/// A digit is the character of its value.
proof fn lemma_digit_char(c: char)
    requires
        is_digit(c),
    ensures
        digit_char((c as u32 - 0x30) as nat) == c,
{
    let v = (c as u32 - 0x30) as nat;
    assert(0x30 + v == c as int);
}

/// A run of digits without a leading zero is the decimal form of its value.
proof fn lemma_digits_are_decimal(d: Seq<char>)
    requires
        d.len() > 0,
        all_digits(d),
        d[0] != '0',
    ensures
        digits_value(d) > 0,
        decimal(digits_value(d)) == d,
    decreases d.len(),
{
    let front = d.drop_last();
    let last = d.last();
    let v = (last as u32 - 0x30) as nat;
    assert(is_digit(d[d.len() - 1]));
    assert(is_digit(d[0]));
    lemma_digit_char(last);
    if d.len() == 1 {
        assert(front =~= Seq::empty());
        assert(digits_value(front) == 0);
        assert(decimal(v) =~= d);
    } else {
        assert forall|i: int| 0 <= i < front.len() implies is_digit(#[trigger] front[i]) by {
            assert(front[i] == d[i]);
        }
        lemma_digits_are_decimal(front);
        let n = digits_value(d);
        assert(n / 10 == digits_value(front) && n % 10 == v) by (nonlinear_arith)
            requires
                n == digits_value(front) * 10 + v,
                v < 10,
        ;
        assert(decimal(n) =~= d);
    }
}

/// The letter and the white space behind it.
proof fn lemma_letter_and_space(x: char, w: Seq<char>)
    requires
        x == 'C' || x == 'c',
        forall|i: int| 0 <= i < w.len() ==> white_space(#[trigger] w[i]),
    ensures
        normalized(seq![x] + w) == seq!['c'],
    decreases w.len(),
{
    let s = seq![x] + w;
    assert(lower(x) == 'c');
    if w.len() == 0 {
        assert(s.drop_last() =~= Seq::empty());
        assert(normalized(s.drop_last()) == Seq::<char>::empty());
        assert(s.last() == x);
    } else {
        assert(s.drop_last() =~= seq![x] + w.drop_last());
        assert forall|i: int| 0 <= i < w.drop_last().len() implies white_space(
            #[trigger] w.drop_last()[i],
        ) by {
            assert(w.drop_last()[i] == w[i]);
        }
        lemma_letter_and_space(x, w.drop_last());
        assert(white_space(w[w.len() - 1]));
        assert(s.last() == w[w.len() - 1]);
    }
}

/// The letter, the white space behind it and the digits.
proof fn lemma_letter_and_digits(x: char, w: Seq<char>, d: Seq<char>)
    requires
        x == 'C' || x == 'c',
        forall|i: int| 0 <= i < w.len() ==> white_space(#[trigger] w[i]),
        d.len() > 0,
        all_digits(d),
    ensures
        normalized(seq![x] + w + d) == seq!['c', ' '] + d,
    decreases d.len(),
{
    let s = seq![x] + w + d;
    let front = d.drop_last();
    let last = d.last();
    assert(is_digit(d[d.len() - 1]));
    assert(lower(last) == last);
    assert(s.last() == last);
    assert(s.drop_last() =~= seq![x] + w + front);
    if d.len() == 1 {
        assert(seq![x] + w + front =~= seq![x] + w);
        lemma_letter_and_space(x, w);
        if w.len() == 0 {
            assert(s[s.len() - 2] == x);
        } else {
            assert(white_space(w[w.len() - 1]));
            assert(s[s.len() - 2] == w[w.len() - 1]);
        }
        assert(!continues(s));
        assert(normalized(s) =~= seq!['c', ' '] + d);
    } else {
        assert forall|i: int| 0 <= i < front.len() implies is_digit(#[trigger] front[i]) by {
            assert(front[i] == d[i]);
        }
        lemma_letter_and_digits(x, w, front);
        assert(s[s.len() - 2] == d[d.len() - 2]);
        assert(is_digit(d[d.len() - 2]));
        assert(continues(s));
        assert(normalized(s) =~= seq!['c', ' '] + d);
    }
}

/// White space between the letter and the digits, and behind them, is of no
/// account.
proof fn lemma_letter_and_rest(x: char, w: Seq<char>, rest: Seq<char>)
    requires
        x == 'C' || x == 'c',
        forall|i: int| 0 <= i < w.len() ==> white_space(#[trigger] w[i]),
        trimmed(rest).len() > 0,
        all_digits(trimmed(rest)),
    ensures
        normalized(seq![x] + w + rest) == seq!['c', ' '] + trimmed(rest),
    decreases rest.len(),
{
    let s = seq![x] + w + rest;
    if rest.len() > 0 && white_space(rest[0]) {
        let next = w.push(rest[0]);
        assert(seq![x] + next + rest.drop_first() =~= s);
        assert forall|i: int| 0 <= i < next.len() implies white_space(#[trigger] next[i]) by {
            if i < w.len() {
                assert(next[i] == w[i]);
            }
        }
        lemma_letter_and_rest(x, next, rest.drop_first());
    } else if rest.len() > 0 && white_space(rest.last()) {
        let front = rest.drop_last();
        assert(trim_front(rest, Strip::WhiteSpace) == rest);
        assert(front.len() > 0) by {
            if front.len() == 0 {
                assert(rest[0] == rest.last());
            }
        }
        assert(front[0] == rest[0]);
        assert(trim_front(front, Strip::WhiteSpace) == front);
        assert(s.drop_last() =~= seq![x] + w + front);
        assert(s.last() == rest.last());
        lemma_letter_and_rest(x, w, front);
    } else {
        assert(trimmed(rest) == rest);
        lemma_letter_and_digits(x, w, rest);
    }
}

/// However an object of the catalogue is asked for, with a small or a capital
/// letter, with or without white space, the query has the normalized form of the
/// designation, as long as the number has no leading zeros.
pub proof fn spellings_normalize_alike(query: Seq<char>)
    requires
        caldwell_number(query) is Some,
        plainly_spelled(query),
    ensures
        normalized(query) == normalized(
            "C "@ + decimal(caldwell_number(query)->Some_0 as nat),
        ),
        normalized(query).len() > 0,
{
    let q = trimmed(query);
    let rest = q.skip(1);
    let d = trimmed(rest);
    outer_space_is_ignored(query);
    assert(seq![q[0]] + Seq::empty() + rest =~= q);
    lemma_letter_and_rest(q[0], Seq::empty(), rest);
    lemma_digits_are_decimal(d);
    reveal_strlit("C ");
    assert("C "@.len() == 2 && "C "@[0] == 'C' && "C "@[1] == ' ');
    assert("C "@ + d =~= seq!['C'] + seq![' '] + d);
    lemma_letter_and_digits('C', seq![' '], d);
}

} // verus!
