//! What holds of Sesame requests and answers as a whole.

use vstd::prelude::*;

use crate::error::ErrorView;
use crate::normalize::normalized;
use crate::sesame::{bounded, coarse_identity, enriched_by, first_located, percent_encoded, primary_of, unreserved, upper_hex, with_name, with_names, BlockNumbers, SesameView, MAX_BODY_BYTES};
use crate::text::{collapse_is_idempotent, collapsed};
use crate::types::{forms_computed, forms_differ, has_normalized, AliasKind, AliasView, IdentityView, TargetSource};

verus! {

// ── Requests ─────────────────────────────────────────────────────────────────

/// Whether a character may stand in an encoded name: one that stands for itself,
/// or part of an escape.
pub open spec fn plain(c: char) -> bool {
    c == '%' || (c as u32 <= 0x7f && unreserved(c as u8))
}

/// An encoded name holds nothing but letters, digits, `-`, `.`, `_`, `~` and
/// escapes.
pub proof fn encoded_names_are_plain(bytes: Seq<u8>)
    ensures
        forall|i: int|
            0 <= i < percent_encoded(bytes).len() ==> plain(#[trigger] percent_encoded(bytes)[i]),
    decreases bytes.len(),
{
    if bytes.len() > 0 {
        let front = percent_encoded(bytes.drop_last());
        let b = bytes.last();
        encoded_names_are_plain(bytes.drop_last());
        let all = percent_encoded(bytes);
        lemma_hex_is_plain(b as int / 16);
        lemma_hex_is_plain(b as int % 16);
        assert forall|i: int| 0 <= i < all.len() implies plain(#[trigger] all[i]) by {
            if i < front.len() {
                assert(all[i] == front[i]);
            } else if unreserved(b) {
                assert(all[i] == b as char);
            }
        }
    }
}

proof fn lemma_hex_is_plain(d: int)
    requires
        0 <= d < 16,
    ensures
        plain(upper_hex(d)),
        upper_hex(d) != '%',
{
    if d < 10 {
        assert(upper_hex(d) as int == 0x30 + d);
    } else {
        assert(upper_hex(d) as int == 0x37 + d);
    }
}

proof fn lemma_hex_is_injective(d: int, e: int)
    requires
        0 <= d < 16,
        0 <= e < 16,
        upper_hex(d) == upper_hex(e),
    ensures
        d == e,
{
    assert(upper_hex(d) as int == if d < 10 {
        0x30 + d
    } else {
        0x37 + d
    });
    assert(upper_hex(e) as int == if e < 10 {
        0x30 + e
    } else {
        0x37 + e
    });
}

/// Where an escape ends, the percent sign stands two places before; behind a
/// character that stands for itself it does not.
proof fn lemma_last_unit(bytes: Seq<u8>)
    requires
        bytes.len() > 0,
    ensures
        ({
            let all = percent_encoded(bytes);
            &&& all.len() > 0
            &&& unreserved(bytes.last()) <==> !(all.len() >= 3 && all[all.len() - 3] == '%')
        }),
    decreases bytes.len(),
{
    let front = percent_encoded(bytes.drop_last());
    let all = percent_encoded(bytes);
    let b = bytes.last();
    if unreserved(b) {
        assert(all =~= front.push(b as char));
        if all.len() >= 3 {
            assert(all[all.len() - 3] == front[front.len() - 2]);
            lemma_no_sign_before_last(bytes.drop_last());
        }
    } else {
        assert(all[all.len() - 3] == '%');
    }
}

/// No percent sign is the last character but one of an encoded name, nor the
/// last.
proof fn lemma_no_sign_before_last(bytes: Seq<u8>)
    ensures
        ({
            let all = percent_encoded(bytes);
            &&& all.len() >= 1 ==> all[all.len() - 1] != '%'
            &&& all.len() >= 2 ==> all[all.len() - 2] != '%'
        }),
    decreases bytes.len(),
{
    if bytes.len() > 0 {
        let front = percent_encoded(bytes.drop_last());
        let all = percent_encoded(bytes);
        let b = bytes.last();
        lemma_no_sign_before_last(bytes.drop_last());
        lemma_hex_is_plain(b as int / 16);
        lemma_hex_is_plain(b as int % 16);
        if unreserved(b) {
            assert(all =~= front.push(b as char));
            assert(b as char != '%');
            if all.len() >= 2 {
                assert(all[all.len() - 2] == front[front.len() - 1]);
            }
        }
    }
}

/// Encoding loses nothing: different names make different requests.
pub proof fn encoding_is_injective(a: Seq<u8>, b: Seq<u8>)
    requires
        percent_encoded(a) == percent_encoded(b),
    ensures
        a == b,
    decreases a.len(),
{
    let x = percent_encoded(a);
    if a.len() > 0 {
        lemma_last_unit(a);
    }
    if b.len() > 0 {
        lemma_last_unit(b);
    }
    if a.len() > 0 && b.len() > 0 {
        let p = percent_encoded(a.drop_last());
        let q = percent_encoded(b.drop_last());
        let c = a.last();
        let d = b.last();
        if unreserved(c) {
            assert(x =~= p.push(c as char));
            assert(x =~= q.push(d as char));
            assert(x.last() == c as char && x.last() == d as char);
            assert(c == d);
            assert(p =~= x.drop_last());
            assert(q =~= x.drop_last());
        } else {
            let n = x.len() - 3;
            assert(x[n + 1] == upper_hex(c as int / 16) && x[n + 1] == upper_hex(d as int / 16));
            assert(x[n + 2] == upper_hex(c as int % 16) && x[n + 2] == upper_hex(d as int % 16));
            lemma_hex_is_injective(c as int / 16, d as int / 16);
            lemma_hex_is_injective(c as int % 16, d as int % 16);
            assert(c == d);
            assert(p =~= x.take(n));
            assert(q =~= x.take(n));
        }
        encoding_is_injective(a.drop_last(), b.drop_last());
        assert(a =~= a.drop_last().push(c));
        assert(b =~= b.drop_last().push(d));
    }
}

// ── Answers ──────────────────────────────────────────────────────────────────

/// What is read of an answer is never longer than the bound, and is the answer
/// where that is short enough.
pub proof fn answers_are_bounded(bytes: Seq<u8>)
    ensures
        bounded(bytes).len() <= MAX_BODY_BYTES,
        bounded(bytes).is_prefix_of(bytes),
        bytes.len() <= MAX_BODY_BYTES ==> bounded(bytes) == bytes,
{
}

/// A hit always has coordinates in range.
pub proof fn hits_are_in_range(parts: Seq<Seq<char>>, numbers: Seq<BlockNumbers>, i: int)
    ensures
        first_located(parts, numbers, i) matches Some(hit) ==> hit.ra_deg.right_ascension()
            && hit.dec_deg.declination(),
    decreases parts.len() - i,
{
    if 0 <= i < parts.len() && i < numbers.len() {
        hits_are_in_range(parts, numbers, i + 1);
    }
}

// ── Identities ───────────────────────────────────────────────────────────────

/// Whether `s` holds designations only.
pub open spec fn all_designations(s: Seq<AliasView>) -> bool {
    forall|i: int| 0 <= i < s.len() ==> (#[trigger] s[i]).kind == AliasKind::Designation
}

proof fn lemma_with_name(s: Seq<AliasView>, name: Seq<char>)
    requires
        forms_differ(s),
        forms_computed(s),
        all_designations(s),
    ensures
        forms_differ(with_name(s, name)),
        forms_computed(with_name(s, name)),
        all_designations(with_name(s, name)),
        s.is_prefix_of(with_name(s, name)),
        collapsed(name).len() > 0 ==> has_normalized(
            with_name(s, name),
            normalized(collapsed(name)),
        ),
{
    let next = with_name(s, name);
    let cleaned = collapsed(name);
    if cleaned.len() > 0 && !has_normalized(s, normalized(cleaned)) {
        assert(next[s.len() as int].normalized == normalized(cleaned));
        assert forall|i: int, j: int| 0 <= i < j < next.len() implies (#[trigger] next[i]).normalized
            != (#[trigger] next[j]).normalized by {
            assert(next[i] == s[i]);
            if j < s.len() {
                assert(next[j] == s[j]);
            }
        }
    }
}

proof fn lemma_with_names(s: Seq<AliasView>, names: Seq<Seq<char>>, n: int)
    requires
        forms_differ(s),
        forms_computed(s),
        all_designations(s),
    ensures
        forms_differ(with_names(s, names, n)),
        forms_computed(with_names(s, names, n)),
        all_designations(with_names(s, names, n)),
        s.is_prefix_of(with_names(s, names, n)),
    decreases n,
{
    if n > 0 {
        lemma_with_names(s, names, n - 1);
        lemma_with_name(with_names(s, names, n - 1), names[n - 1]);
    }
}

/// The names of a coarse identity are designations, no two with one normalized
/// form, and its primary designation comes first, unless that is empty.
pub proof fn coarse_names_are_distinct(hit: SesameView, query: Seq<char>)
    ensures
        ({
            let identity = coarse_identity(hit, query);
            let primary = identity.primary_designation;
            &&& forms_differ(identity.aliases)
            &&& forms_computed(identity.aliases)
            &&& all_designations(identity.aliases)
            &&& primary.len() > 0 ==> identity.aliases.len() > 0 && identity.aliases[0]
                == AliasView::of(primary, AliasKind::Designation)
        }),
{
    let primary = primary_of(hit, query);
    match hit.oname {
        Some(name) => collapse_is_idempotent(name),
        None => {},
    }
    collapse_is_idempotent(query);
    assert(collapsed(primary) == primary);
    let first = with_name(Seq::empty(), primary);
    assert(!has_normalized(Seq::empty(), normalized(primary)));
    lemma_with_name(Seq::empty(), primary);
    lemma_with_names(first, hit.aliases, hit.aliases.len() as int);
    if primary.len() > 0 {
        assert(first[0] == AliasView::of(primary, AliasKind::Designation));
    }
}

/// Enrichment never fails: where the enricher fails the coarse identity stays,
/// and whatever comes out counts as resolved.
pub proof fn enrichment_degrades_to_coarse(
    hit: SesameView,
    query: Seq<char>,
    answer: Result<IdentityView, ErrorView>,
)
    ensures
        answer is Err ==> enriched_by(coarse_identity(hit, query), answer) == coarse_identity(
            hit,
            query,
        ),
        enriched_by(coarse_identity(hit, query), answer).source == TargetSource::Resolved,
        answer matches Ok(found) ==> enriched_by(coarse_identity(hit, query), answer) == (
        IdentityView { source: TargetSource::Resolved, ..found }),
{
}

} // verus!
