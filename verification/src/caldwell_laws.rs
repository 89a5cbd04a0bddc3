//! Which queries stand for an object of the Caldwell catalogue, and what they
//! are translated to.

use vstd::prelude::*;

use crate::caldwell::{caldwell_number, designation_of};
use crate::number::{decimal, digits_value};
use crate::number_laws::{decimal_forms_are_read_back, digits_are_ascii, digits_only};
use crate::orchestrate::{plan_of, PlanView, ResolutionView, UnresolvedReason};
use crate::text::{trimmed, white_space};
use crate::text_laws::{
    all_white, trimmed_texts_are_framed_by_space, trimming_takes_the_outer_space,
};

verus! {

/// The letter C, white space and digits, with white space around them.
proof fn lemma_spelling(
    a: Seq<char>,
    x: char,
    w: Seq<char>,
    d: Seq<char>,
    b: Seq<char>,
)
    requires
        all_white(a),
        all_white(w),
        all_white(b),
        !white_space(x),
        d.len() > 0,
        !white_space(d[0]),
        !white_space(d.last()),
    ensures
        trimmed(a + seq![x] + w + d + b) == seq![x] + w + d,
        (seq![x] + w + d).skip(1) == w + d,
        trimmed(w + d) == d,
{
    let m = seq![x] + w + d;
    assert(a + seq![x] + w + d + b =~= a + m + b);
    assert(m.last() == d.last());
    trimming_takes_the_outer_space(a, m, b);
    assert(m.skip(1) =~= w + d);
    trimming_takes_the_outer_space(w, d, Seq::empty());
    assert(w + d + Seq::<char>::empty() =~= w + d);
}

/// The letter C in either case and the digits of a number from 1 to 109, with
/// any white space between and around them, are recognized as that number.
pub proof fn every_spelling_is_recognized(
    a: Seq<char>,
    x: char,
    w: Seq<char>,
    d: Seq<char>,
    b: Seq<char>,
)
    requires
        all_white(a),
        all_white(w),
        all_white(b),
        x == 'C' || x == 'c',
        d.len() > 0,
        digits_only(d),
        1 <= digits_value(d) <= 109,
    ensures
        caldwell_number(a + seq![x] + w + d + b) == Some(digits_value(d) as u32),
{
    digits_are_ascii(d);
    assert('0' <= d[0] <= '9');
    assert('0' <= d[d.len() - 1] <= '9');
    lemma_spelling(a, x, w, d, b);
}

/// A number of the catalogue is recognized from the letter C, a space and the
/// number's decimal form.
pub proof fn every_number_is_recognized(n: u32)
    requires
        1 <= n <= 109,
    ensures
        caldwell_number("C "@ + decimal(n as nat)) == Some(n),
        caldwell_number("C"@ + decimal(n as nat)) == Some(n),
        caldwell_number("c"@ + decimal(n as nat)) == Some(n),
{
    let none = Seq::<char>::empty();
    let d = decimal(n as nat);
    decimal_forms_are_read_back(n as nat);
    reveal_strlit("C ");
    reveal_strlit("C");
    reveal_strlit("c");
    every_spelling_is_recognized(none, 'C', seq![' '], d, none);
    every_spelling_is_recognized(none, 'C', none, d, none);
    every_spelling_is_recognized(none, 'c', none, d, none);
    assert("C "@ + d =~= none + seq!['C'] + seq![' '] + d + none);
    assert("C"@ + d =~= none + seq!['C'] + none + d + none);
    assert("c"@ + d =~= none + seq!['c'] + none + d + none);
}

/// No other query is recognized: one that is, is the letter C in either case
/// and the digits of a number from 1 to 109, with white space between and
/// around them.
pub proof fn nothing_else_is_recognized(query: Seq<char>)
    requires
        caldwell_number(query) is Some,
    ensures
        1 <= caldwell_number(query)->Some_0 <= 109,
        exists|a: Seq<char>, x: char, w: Seq<char>, d: Seq<char>, b: Seq<char>| #[trigger]
            (a + seq![x] + w + d + b) == query && all_white(a) && (x == 'C' || x == 'c')
                && all_white(w) && d.len() > 0 && digits_only(d) && digits_value(d)
                == caldwell_number(query)->Some_0 && all_white(b),
{
    let q = trimmed(query);
    let outer = trimmed_texts_are_framed_by_space(query);
    let rest = q.skip(1);
    let inner = trimmed_texts_are_framed_by_space(rest);
    let d = trimmed(rest);
    digits_are_ascii(d);
    assert(q =~= seq![q[0]] + rest);
    let b = inner.1 + outer.1;
    assert forall|i: int| 0 <= i < b.len() implies white_space(#[trigger] b[i]) by {
        if i < inner.1.len() {
            assert(white_space(inner.1[i]));
        } else {
            assert(white_space(outer.1[i - inner.1.len()]));
        }
    }
    assert(outer.0 + seq![q[0]] + inner.0 + d + b =~= outer.0 + (seq![q[0]] + (inner.0 + d
        + inner.1)) + outer.1);
    assert((outer.0 + seq![q[0]] + inner.0 + d + b) == query);
}

/// Every number of the catalogue but 99, which stands for a dark nebula
/// without a designation of its own, has a designation.
pub proof fn the_table_is_complete(n: u32)
    ensures
        designation_of(n) is Some <==> 1 <= n <= 109 && n != 99,
{
}

/// A query for a number of the catalogue asks the resolver for the designation
/// of that number, and binds the catalogue's own name to the answer; so every
/// designation of the table is reached. The one number without a designation is
/// answered as unknown.
pub proof fn catalogue_queries_are_translated(n: u32)
    requires
        1 <= n <= 109,
    ensures
        designation_of(n) matches Some(d) ==> (plan_of("C "@ + decimal(n as nat)) matches Ok(plan)
            && plan.simbad_query == d && plan.caldwell_alias == Some("C "@ + decimal(n as nat))
            && plan.query == "C "@ + decimal(n as nat)),
        designation_of(n) is None ==> plan_of("C "@ + decimal(n as nat)) == Err::<
            PlanView,
            ResolutionView,
        >(
            ResolutionView::Unresolved {
                query: "C "@ + decimal(n as nat),
                reason: UnresolvedReason::Unknown,
            },
        ),
{
    every_number_is_recognized(n);
}

/// A query that is not the letter C and a number of the catalogue is asked as
/// it stands, and binds no name of its own.
pub proof fn other_queries_are_asked_as_they_stand(query: Seq<char>)
    requires
        caldwell_number(query) is None,
    ensures
        plan_of(query) matches Ok(plan) && plan.query == query && plan.simbad_query == query
            && plan.caldwell_alias is None,
{
}

// ── The table ────────────────────────────────────────────────────────────────

/// The NGC numbers of the objects of the catalogue that have one.
pub open spec fn ngc_number(n: u32) -> Option<nat> {
    match n {
        1 => Some(188),
        2 => Some(40),
        3 => Some(4236),
        4 => Some(7023),
        6 => Some(6543),
        7 => Some(2403),
        8 => Some(559),
        10 => Some(663),
        11 => Some(7635),
        12 => Some(6946),
        13 => Some(457),
        14 => Some(869),
        15 => Some(6826),
        16 => Some(7243),
        17 => Some(147),
        18 => Some(185),
        20 => Some(7000),
        21 => Some(4449),
        22 => Some(7662),
        23 => Some(891),
        24 => Some(1275),
        25 => Some(2419),
        26 => Some(4244),
        27 => Some(6888),
        28 => Some(752),
        29 => Some(5005),
        30 => Some(7331),
        32 => Some(4631),
        33 => Some(6992),
        34 => Some(6960),
        35 => Some(4889),
        36 => Some(4559),
        37 => Some(6885),
        38 => Some(4565),
        39 => Some(2392),
        40 => Some(3626),
        42 => Some(7006),
        43 => Some(7814),
        44 => Some(7479),
        45 => Some(5248),
        46 => Some(2261),
        47 => Some(6934),
        48 => Some(2775),
        49 => Some(2237),
        50 => Some(2244),
        52 => Some(4697),
        53 => Some(3115),
        54 => Some(2506),
        55 => Some(7009),
        56 => Some(246),
        57 => Some(6822),
        58 => Some(2360),
        59 => Some(3242),
        60 => Some(4038),
        61 => Some(4039),
        62 => Some(247),
        63 => Some(7293),
        64 => Some(2362),
        65 => Some(253),
        66 => Some(5694),
        67 => Some(1097),
        68 => Some(6729),
        69 => Some(6302),
        70 => Some(300),
        71 => Some(2477),
        72 => Some(55),
        73 => Some(1851),
        74 => Some(3132),
        75 => Some(6124),
        76 => Some(6231),
        77 => Some(5128),
        78 => Some(6541),
        79 => Some(3201),
        80 => Some(5139),
        81 => Some(6352),
        82 => Some(6193),
        83 => Some(4945),
        84 => Some(5286),
        86 => Some(6397),
        87 => Some(1261),
        88 => Some(5823),
        89 => Some(6087),
        90 => Some(2867),
        91 => Some(3532),
        92 => Some(3372),
        93 => Some(6752),
        94 => Some(4755),
        95 => Some(6025),
        96 => Some(2516),
        97 => Some(3766),
        98 => Some(4609),
        101 => Some(6744),
        103 => Some(2070),
        104 => Some(362),
        105 => Some(4833),
        106 => Some(104),
        107 => Some(6101),
        108 => Some(4372),
        109 => Some(3195),
        _ => None,
    }
}

/// The IC numbers of the objects of the catalogue that are known by one.
pub open spec fn ic_number(n: u32) -> Option<nat> {
    match n {
        5 => Some(342),
        19 => Some(5146),
        31 => Some(405),
        51 => Some(1613),
        85 => Some(2391),
        100 => Some(2944),
        102 => Some(2602),
        _ => None,
    }
}

#[verifier::rlimit(60)]
proof fn lemma_table_1(n: u32)
    requires
        1 <= n <= 23,
    ensures
        ngc_number(n) matches Some(k) ==> designation_of(n) == Some("NGC "@ + decimal(k)),
{
    reveal_with_fuel(decimal, 5);
    reveal_strlit("NGC ");
    if n == 1 {
        reveal_strlit("NGC 188");
        assert("NGC 188"@ =~= "NGC "@ + decimal(188));
    }
    if n == 2 {
        reveal_strlit("NGC 40");
        assert("NGC 40"@ =~= "NGC "@ + decimal(40));
    }
    if n == 3 {
        reveal_strlit("NGC 4236");
        assert("NGC 4236"@ =~= "NGC "@ + decimal(4236));
    }
    if n == 4 {
        reveal_strlit("NGC 7023");
        assert("NGC 7023"@ =~= "NGC "@ + decimal(7023));
    }
    if n == 6 {
        reveal_strlit("NGC 6543");
        assert("NGC 6543"@ =~= "NGC "@ + decimal(6543));
    }
    if n == 7 {
        reveal_strlit("NGC 2403");
        assert("NGC 2403"@ =~= "NGC "@ + decimal(2403));
    }
    if n == 8 {
        reveal_strlit("NGC 559");
        assert("NGC 559"@ =~= "NGC "@ + decimal(559));
    }
    if n == 10 {
        reveal_strlit("NGC 663");
        assert("NGC 663"@ =~= "NGC "@ + decimal(663));
    }
    if n == 11 {
        reveal_strlit("NGC 7635");
        assert("NGC 7635"@ =~= "NGC "@ + decimal(7635));
    }
    if n == 12 {
        reveal_strlit("NGC 6946");
        assert("NGC 6946"@ =~= "NGC "@ + decimal(6946));
    }
    if n == 13 {
        reveal_strlit("NGC 457");
        assert("NGC 457"@ =~= "NGC "@ + decimal(457));
    }
    if n == 14 {
        reveal_strlit("NGC 869");
        assert("NGC 869"@ =~= "NGC "@ + decimal(869));
    }
    if n == 15 {
        reveal_strlit("NGC 6826");
        assert("NGC 6826"@ =~= "NGC "@ + decimal(6826));
    }
    if n == 16 {
        reveal_strlit("NGC 7243");
        assert("NGC 7243"@ =~= "NGC "@ + decimal(7243));
    }
    if n == 17 {
        reveal_strlit("NGC 147");
        assert("NGC 147"@ =~= "NGC "@ + decimal(147));
    }
    if n == 18 {
        reveal_strlit("NGC 185");
        assert("NGC 185"@ =~= "NGC "@ + decimal(185));
    }
    if n == 20 {
        reveal_strlit("NGC 7000");
        assert("NGC 7000"@ =~= "NGC "@ + decimal(7000));
    }
    if n == 21 {
        reveal_strlit("NGC 4449");
        assert("NGC 4449"@ =~= "NGC "@ + decimal(4449));
    }
    if n == 22 {
        reveal_strlit("NGC 7662");
        assert("NGC 7662"@ =~= "NGC "@ + decimal(7662));
    }
    if n == 23 {
        reveal_strlit("NGC 891");
        assert("NGC 891"@ =~= "NGC "@ + decimal(891));
    }
}

#[verifier::rlimit(60)]
proof fn lemma_table_2(n: u32)
    requires
        24 <= n <= 45,
    ensures
        ngc_number(n) matches Some(k) ==> designation_of(n) == Some("NGC "@ + decimal(k)),
{
    reveal_with_fuel(decimal, 5);
    reveal_strlit("NGC ");
    if n == 24 {
        reveal_strlit("NGC 1275");
        assert("NGC 1275"@ =~= "NGC "@ + decimal(1275));
    }
    if n == 25 {
        reveal_strlit("NGC 2419");
        assert("NGC 2419"@ =~= "NGC "@ + decimal(2419));
    }
    if n == 26 {
        reveal_strlit("NGC 4244");
        assert("NGC 4244"@ =~= "NGC "@ + decimal(4244));
    }
    if n == 27 {
        reveal_strlit("NGC 6888");
        assert("NGC 6888"@ =~= "NGC "@ + decimal(6888));
    }
    if n == 28 {
        reveal_strlit("NGC 752");
        assert("NGC 752"@ =~= "NGC "@ + decimal(752));
    }
    if n == 29 {
        reveal_strlit("NGC 5005");
        assert("NGC 5005"@ =~= "NGC "@ + decimal(5005));
    }
    if n == 30 {
        reveal_strlit("NGC 7331");
        assert("NGC 7331"@ =~= "NGC "@ + decimal(7331));
    }
    if n == 32 {
        reveal_strlit("NGC 4631");
        assert("NGC 4631"@ =~= "NGC "@ + decimal(4631));
    }
    if n == 33 {
        reveal_strlit("NGC 6992");
        assert("NGC 6992"@ =~= "NGC "@ + decimal(6992));
    }
    if n == 34 {
        reveal_strlit("NGC 6960");
        assert("NGC 6960"@ =~= "NGC "@ + decimal(6960));
    }
    if n == 35 {
        reveal_strlit("NGC 4889");
        assert("NGC 4889"@ =~= "NGC "@ + decimal(4889));
    }
    if n == 36 {
        reveal_strlit("NGC 4559");
        assert("NGC 4559"@ =~= "NGC "@ + decimal(4559));
    }
    if n == 37 {
        reveal_strlit("NGC 6885");
        assert("NGC 6885"@ =~= "NGC "@ + decimal(6885));
    }
    if n == 38 {
        reveal_strlit("NGC 4565");
        assert("NGC 4565"@ =~= "NGC "@ + decimal(4565));
    }
    if n == 39 {
        reveal_strlit("NGC 2392");
        assert("NGC 2392"@ =~= "NGC "@ + decimal(2392));
    }
    if n == 40 {
        reveal_strlit("NGC 3626");
        assert("NGC 3626"@ =~= "NGC "@ + decimal(3626));
    }
    if n == 42 {
        reveal_strlit("NGC 7006");
        assert("NGC 7006"@ =~= "NGC "@ + decimal(7006));
    }
    if n == 43 {
        reveal_strlit("NGC 7814");
        assert("NGC 7814"@ =~= "NGC "@ + decimal(7814));
    }
    if n == 44 {
        reveal_strlit("NGC 7479");
        assert("NGC 7479"@ =~= "NGC "@ + decimal(7479));
    }
    if n == 45 {
        reveal_strlit("NGC 5248");
        assert("NGC 5248"@ =~= "NGC "@ + decimal(5248));
    }
}

#[verifier::rlimit(60)]
proof fn lemma_table_3(n: u32)
    requires
        46 <= n <= 66,
    ensures
        ngc_number(n) matches Some(k) ==> designation_of(n) == Some("NGC "@ + decimal(k)),
{
    reveal_with_fuel(decimal, 5);
    reveal_strlit("NGC ");
    if n == 46 {
        reveal_strlit("NGC 2261");
        assert("NGC 2261"@ =~= "NGC "@ + decimal(2261));
    }
    if n == 47 {
        reveal_strlit("NGC 6934");
        assert("NGC 6934"@ =~= "NGC "@ + decimal(6934));
    }
    if n == 48 {
        reveal_strlit("NGC 2775");
        assert("NGC 2775"@ =~= "NGC "@ + decimal(2775));
    }
    if n == 49 {
        reveal_strlit("NGC 2237");
        assert("NGC 2237"@ =~= "NGC "@ + decimal(2237));
    }
    if n == 50 {
        reveal_strlit("NGC 2244");
        assert("NGC 2244"@ =~= "NGC "@ + decimal(2244));
    }
    if n == 52 {
        reveal_strlit("NGC 4697");
        assert("NGC 4697"@ =~= "NGC "@ + decimal(4697));
    }
    if n == 53 {
        reveal_strlit("NGC 3115");
        assert("NGC 3115"@ =~= "NGC "@ + decimal(3115));
    }
    if n == 54 {
        reveal_strlit("NGC 2506");
        assert("NGC 2506"@ =~= "NGC "@ + decimal(2506));
    }
    if n == 55 {
        reveal_strlit("NGC 7009");
        assert("NGC 7009"@ =~= "NGC "@ + decimal(7009));
    }
    if n == 56 {
        reveal_strlit("NGC 246");
        assert("NGC 246"@ =~= "NGC "@ + decimal(246));
    }
    if n == 57 {
        reveal_strlit("NGC 6822");
        assert("NGC 6822"@ =~= "NGC "@ + decimal(6822));
    }
    if n == 58 {
        reveal_strlit("NGC 2360");
        assert("NGC 2360"@ =~= "NGC "@ + decimal(2360));
    }
    if n == 59 {
        reveal_strlit("NGC 3242");
        assert("NGC 3242"@ =~= "NGC "@ + decimal(3242));
    }
    if n == 60 {
        reveal_strlit("NGC 4038");
        assert("NGC 4038"@ =~= "NGC "@ + decimal(4038));
    }
    if n == 61 {
        reveal_strlit("NGC 4039");
        assert("NGC 4039"@ =~= "NGC "@ + decimal(4039));
    }
    if n == 62 {
        reveal_strlit("NGC 247");
        assert("NGC 247"@ =~= "NGC "@ + decimal(247));
    }
    if n == 63 {
        reveal_strlit("NGC 7293");
        assert("NGC 7293"@ =~= "NGC "@ + decimal(7293));
    }
    if n == 64 {
        reveal_strlit("NGC 2362");
        assert("NGC 2362"@ =~= "NGC "@ + decimal(2362));
    }
    if n == 65 {
        reveal_strlit("NGC 253");
        assert("NGC 253"@ =~= "NGC "@ + decimal(253));
    }
    if n == 66 {
        reveal_strlit("NGC 5694");
        assert("NGC 5694"@ =~= "NGC "@ + decimal(5694));
    }
}

#[verifier::rlimit(60)]
proof fn lemma_table_4(n: u32)
    requires
        67 <= n <= 87,
    ensures
        ngc_number(n) matches Some(k) ==> designation_of(n) == Some("NGC "@ + decimal(k)),
{
    reveal_with_fuel(decimal, 5);
    reveal_strlit("NGC ");
    if n == 67 {
        reveal_strlit("NGC 1097");
        assert("NGC 1097"@ =~= "NGC "@ + decimal(1097));
    }
    if n == 68 {
        reveal_strlit("NGC 6729");
        assert("NGC 6729"@ =~= "NGC "@ + decimal(6729));
    }
    if n == 69 {
        reveal_strlit("NGC 6302");
        assert("NGC 6302"@ =~= "NGC "@ + decimal(6302));
    }
    if n == 70 {
        reveal_strlit("NGC 300");
        assert("NGC 300"@ =~= "NGC "@ + decimal(300));
    }
    if n == 71 {
        reveal_strlit("NGC 2477");
        assert("NGC 2477"@ =~= "NGC "@ + decimal(2477));
    }
    if n == 72 {
        reveal_strlit("NGC 55");
        assert("NGC 55"@ =~= "NGC "@ + decimal(55));
    }
    if n == 73 {
        reveal_strlit("NGC 1851");
        assert("NGC 1851"@ =~= "NGC "@ + decimal(1851));
    }
    if n == 74 {
        reveal_strlit("NGC 3132");
        assert("NGC 3132"@ =~= "NGC "@ + decimal(3132));
    }
    if n == 75 {
        reveal_strlit("NGC 6124");
        assert("NGC 6124"@ =~= "NGC "@ + decimal(6124));
    }
    if n == 76 {
        reveal_strlit("NGC 6231");
        assert("NGC 6231"@ =~= "NGC "@ + decimal(6231));
    }
    if n == 77 {
        reveal_strlit("NGC 5128");
        assert("NGC 5128"@ =~= "NGC "@ + decimal(5128));
    }
    if n == 78 {
        reveal_strlit("NGC 6541");
        assert("NGC 6541"@ =~= "NGC "@ + decimal(6541));
    }
    if n == 79 {
        reveal_strlit("NGC 3201");
        assert("NGC 3201"@ =~= "NGC "@ + decimal(3201));
    }
    if n == 80 {
        reveal_strlit("NGC 5139");
        assert("NGC 5139"@ =~= "NGC "@ + decimal(5139));
    }
    if n == 81 {
        reveal_strlit("NGC 6352");
        assert("NGC 6352"@ =~= "NGC "@ + decimal(6352));
    }
    if n == 82 {
        reveal_strlit("NGC 6193");
        assert("NGC 6193"@ =~= "NGC "@ + decimal(6193));
    }
    if n == 83 {
        reveal_strlit("NGC 4945");
        assert("NGC 4945"@ =~= "NGC "@ + decimal(4945));
    }
    if n == 84 {
        reveal_strlit("NGC 5286");
        assert("NGC 5286"@ =~= "NGC "@ + decimal(5286));
    }
    if n == 86 {
        reveal_strlit("NGC 6397");
        assert("NGC 6397"@ =~= "NGC "@ + decimal(6397));
    }
    if n == 87 {
        reveal_strlit("NGC 1261");
        assert("NGC 1261"@ =~= "NGC "@ + decimal(1261));
    }
}

#[verifier::rlimit(60)]
proof fn lemma_table_5(n: u32)
    requires
        88 <= n <= 109,
    ensures
        ngc_number(n) matches Some(k) ==> designation_of(n) == Some("NGC "@ + decimal(k)),
{
    reveal_with_fuel(decimal, 5);
    reveal_strlit("NGC ");
    if n == 88 {
        reveal_strlit("NGC 5823");
        assert("NGC 5823"@ =~= "NGC "@ + decimal(5823));
    }
    if n == 89 {
        reveal_strlit("NGC 6087");
        assert("NGC 6087"@ =~= "NGC "@ + decimal(6087));
    }
    if n == 90 {
        reveal_strlit("NGC 2867");
        assert("NGC 2867"@ =~= "NGC "@ + decimal(2867));
    }
    if n == 91 {
        reveal_strlit("NGC 3532");
        assert("NGC 3532"@ =~= "NGC "@ + decimal(3532));
    }
    if n == 92 {
        reveal_strlit("NGC 3372");
        assert("NGC 3372"@ =~= "NGC "@ + decimal(3372));
    }
    if n == 93 {
        reveal_strlit("NGC 6752");
        assert("NGC 6752"@ =~= "NGC "@ + decimal(6752));
    }
    if n == 94 {
        reveal_strlit("NGC 4755");
        assert("NGC 4755"@ =~= "NGC "@ + decimal(4755));
    }
    if n == 95 {
        reveal_strlit("NGC 6025");
        assert("NGC 6025"@ =~= "NGC "@ + decimal(6025));
    }
    if n == 96 {
        reveal_strlit("NGC 2516");
        assert("NGC 2516"@ =~= "NGC "@ + decimal(2516));
    }
    if n == 97 {
        reveal_strlit("NGC 3766");
        assert("NGC 3766"@ =~= "NGC "@ + decimal(3766));
    }
    if n == 98 {
        reveal_strlit("NGC 4609");
        assert("NGC 4609"@ =~= "NGC "@ + decimal(4609));
    }
    if n == 101 {
        reveal_strlit("NGC 6744");
        assert("NGC 6744"@ =~= "NGC "@ + decimal(6744));
    }
    if n == 103 {
        reveal_strlit("NGC 2070");
        assert("NGC 2070"@ =~= "NGC "@ + decimal(2070));
    }
    if n == 104 {
        reveal_strlit("NGC 362");
        assert("NGC 362"@ =~= "NGC "@ + decimal(362));
    }
    if n == 105 {
        reveal_strlit("NGC 4833");
        assert("NGC 4833"@ =~= "NGC "@ + decimal(4833));
    }
    if n == 106 {
        reveal_strlit("NGC 104");
        assert("NGC 104"@ =~= "NGC "@ + decimal(104));
    }
    if n == 107 {
        reveal_strlit("NGC 6101");
        assert("NGC 6101"@ =~= "NGC "@ + decimal(6101));
    }
    if n == 108 {
        reveal_strlit("NGC 4372");
        assert("NGC 4372"@ =~= "NGC "@ + decimal(4372));
    }
    if n == 109 {
        reveal_strlit("NGC 3195");
        assert("NGC 3195"@ =~= "NGC "@ + decimal(3195));
    }
}

proof fn lemma_table_ic(n: u32)
    ensures
        ic_number(n) matches Some(k) ==> designation_of(n) == Some("IC "@ + decimal(k)),
{
    reveal_with_fuel(decimal, 5);
    reveal_strlit("IC ");
    if n == 5 {
        reveal_strlit("IC 342");
        assert("IC 342"@ =~= "IC "@ + decimal(342));
    }
    if n == 19 {
        reveal_strlit("IC 5146");
        assert("IC 5146"@ =~= "IC "@ + decimal(5146));
    }
    if n == 31 {
        reveal_strlit("IC 405");
        assert("IC 405"@ =~= "IC "@ + decimal(405));
    }
    if n == 51 {
        reveal_strlit("IC 1613");
        assert("IC 1613"@ =~= "IC "@ + decimal(1613));
    }
    if n == 85 {
        reveal_strlit("IC 2391");
        assert("IC 2391"@ =~= "IC "@ + decimal(2391));
    }
    if n == 100 {
        reveal_strlit("IC 2944");
        assert("IC 2944"@ =~= "IC "@ + decimal(2944));
    }
    if n == 102 {
        reveal_strlit("IC 2602");
        assert("IC 2602"@ =~= "IC "@ + decimal(2602));
    }
}

/// An object that has an NGC number is asked for by it, one that is known by an IC
/// number by that, and the few others by the names that they have elsewhere.
pub proof fn designations_are_catalogue_numbers(n: u32)
    ensures
        ngc_number(n) matches Some(k) ==> designation_of(n) == Some("NGC "@ + decimal(k)),
        ic_number(n) matches Some(k) ==> designation_of(n) == Some("IC "@ + decimal(k)),
        designation_of(9) == Some("SH 2-155"@),
        designation_of(41) == Some("Cl Melotte 25"@),
{
    lemma_table_ic(n);
    if 1 <= n <= 23 {
        lemma_table_1(n);
    }
    if 24 <= n <= 45 {
        lemma_table_2(n);
    }
    if 46 <= n <= 66 {
        lemma_table_3(n);
    }
    if 67 <= n <= 87 {
        lemma_table_4(n);
    }
    if 88 <= n <= 109 {
        lemma_table_5(n);
    }
}

/// No two numbers of the catalogue stand for one NGC number, nor for one IC number.
pub proof fn catalogue_numbers_differ(m: u32, n: u32)
    requires
        m != n,
    ensures
        ngc_number(m) is Some ==> ngc_number(m) != ngc_number(n),
        ic_number(m) is Some ==> ic_number(m) != ic_number(n),
{
}

} // verus!
