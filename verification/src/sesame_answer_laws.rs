//! What is sent to Sesame and what is made of its answers, for every name that is
//! sent and every block that comes back.

use vstd::prelude::*;

use crate::error::ErrorView;
use crate::normalize::normalized;
use crate::sesame::{
    all_elements, block_of, block_texts, bounded, coarse_identity, element, enriched_by, first_element,
    first_located, percent_encoded, place_of, primary_of, request_of, upper_hex, with_name,
    with_names, BlockNumbers, SesameView,
};
use crate::text::{collapse_is_idempotent, collapsed, occurs_at, trimmed};
use crate::types::{otype_of, AliasKind, AliasView, IdentityView, TargetSource};

verus! {

// ── Requests ─────────────────────────────────────────────────────────────────

/// Whether a byte is an ASCII letter or digit or one of `-._~`.
pub open spec fn stands_for_itself(b: u8) -> bool {
    ||| 'A' as u8 <= b <= 'Z' as u8
    ||| 'a' as u8 <= b <= 'z' as u8
    ||| '0' as u8 <= b <= '9' as u8
    ||| b == '-' as u8 || b == '.' as u8 || b == '_' as u8 || b == '~' as u8
}

proof fn lemma_hex(d: int)
    requires
        0 <= d < 16,
    ensures
        upper_hex(d) == "0123456789ABCDEF"@[d],
{
    reveal_strlit("0123456789ABCDEF");
    assert("0123456789ABCDEF"@.len() == 16);
}

/// The bytes of a name are encoded one by one: letters, digits and `-._~` stand
/// for themselves, and every other byte is a percent sign and its two hexadecimal
/// digits in upper case.
pub proof fn bytes_are_encoded_one_by_one(a: Seq<u8>, c: u8, b: Seq<u8>)
    ensures
        percent_encoded(a + b) == percent_encoded(a) + percent_encoded(b),
        stands_for_itself(c) ==> percent_encoded(seq![c]) == seq![c as char],
        !stands_for_itself(c) ==> percent_encoded(seq![c]) == seq![
            '%',
            "0123456789ABCDEF"@[c as int / 16],
            "0123456789ABCDEF"@[c as int % 16],
        ],
    decreases b.len(),
{
    let none = Seq::<u8>::empty();
    assert(seq![c].drop_last() =~= none);
    assert(percent_encoded(none) =~= Seq::<char>::empty());
    lemma_hex(c as int / 16);
    lemma_hex(c as int % 16);
    if stands_for_itself(c) {
        assert(percent_encoded(seq![c]) =~= seq![c as char]);
    } else {
        assert(percent_encoded(seq![c]) =~= seq![
            '%',
            "0123456789ABCDEF"@[c as int / 16],
            "0123456789ABCDEF"@[c as int % 16],
        ]);
    }
    if b.len() == 0 {
        assert(a + b =~= a);
        assert(percent_encoded(a) + percent_encoded(b) =~= percent_encoded(a));
    } else {
        assert((a + b).drop_last() =~= a + b.drop_last());
        bytes_are_encoded_one_by_one(a, c, b.drop_last());
        assert(percent_encoded(a + b) =~= percent_encoded(a) + percent_encoded(b));
    }
}

/// An address that can be read is asked as it is; one that cannot is an error of
/// the network, with the reason at its end.
pub proof fn readable_addresses_are_asked(url: Seq<char>, message: Seq<char>)
    ensures
        request_of(Ok(url)) == Ok::<Seq<char>, ErrorView>(url),
        request_of(Err(message)) matches Err(ErrorView::Network(m)) && m
            == "invalid Sesame endpoint: "@ + message,
{
}

/// Of an answer the first eight mebibytes are read, and all of it where it is no
/// longer.
pub proof fn long_answers_are_cut(bytes: Seq<u8>)
    ensures
        bytes.len() <= 8_388_608 ==> bounded(bytes) == bytes,
        bytes.len() > 8_388_608 ==> bounded(bytes) == bytes.take(8_388_608),
{
}

// ── Elements ─────────────────────────────────────────────────────────────────

/// The place of a text behind a given one is the first at which it occurs.
pub proof fn the_first_occurrence_counts(hay: Seq<char>, needle: Seq<char>, from: int, at: int)
    requires
        0 <= from <= at,
        occurs_at(hay, needle, at),
        forall|i: int| from <= i < at ==> !#[trigger] occurs_at(hay, needle, i),
    ensures
        place_of(hay, needle, from) == Some(at),
    decreases at - from,
{
    if from < at {
        assert(!occurs_at(hay, needle, from));
        the_first_occurrence_counts(hay, needle, from + 1, at);
    }
}

/// A text that occurs nowhere behind a given place has no place there.
pub proof fn without_occurrence_there_is_no_place(hay: Seq<char>, needle: Seq<char>, from: int)
    requires
        0 <= from,
        forall|i: int| from <= i ==> !#[trigger] occurs_at(hay, needle, i),
    ensures
        place_of(hay, needle, from) is None,
    decreases hay.len() + 1 - from,
{
    if from <= hay.len() {
        assert(!occurs_at(hay, needle, from));
        without_occurrence_there_is_no_place(hay, needle, from + 1);
    }
}

/// An element is what stands between its opening tag and the next closing tag,
/// without the white space around it; the search for the next one goes on behind
/// the closing tag, so that every element is found, in its order.
pub proof fn every_element_is_found(
    s: Seq<char>,
    open: Seq<char>,
    close: Seq<char>,
    from: int,
    p: int,
    q: int,
)
    requires
        close.len() > 0,
        0 <= from <= p,
        occurs_at(s, open, p),
        forall|i: int| from <= i < p ==> !#[trigger] occurs_at(s, open, i),
        p + open.len() <= q,
        occurs_at(s, close, q),
        forall|i: int| p + open.len() <= i < q ==> !#[trigger] occurs_at(s, close, i),
    ensures
        element(s, open, close, from) == Some(
            (trimmed(s.subrange(p + open.len(), q)), q + close.len()),
        ),
        from == 0 ==> first_element(s, open, close) == Some(
            trimmed(s.subrange(p + open.len(), q)),
        ),
        all_elements(s, open, close, from) == seq![trimmed(s.subrange(p + open.len(), q))]
            + all_elements(s, open, close, q + close.len()),
{
    the_first_occurrence_counts(s, open, from, p);
    the_first_occurrence_counts(s, close, p + open.len(), q);
}

/// Without another opening tag there is no further element.
pub proof fn elements_end_with_their_tags(
    s: Seq<char>,
    open: Seq<char>,
    close: Seq<char>,
    from: int,
)
    requires
        0 <= from,
        forall|i: int| from <= i ==> !#[trigger] occurs_at(s, open, i),
    ensures
        element(s, open, close, from) is None,
        all_elements(s, open, close, from) == Seq::<Seq<char>>::empty(),
{
    without_occurrence_there_is_no_place(s, open, from);
}

/// A block has its coordinates, name and type from the first element of each tag,
/// and its aliases from all elements of theirs; an answer's blocks are all its
/// resolver elements.
pub proof fn blocks_have_their_elements(s: Seq<char>)
    ensures
        block_of(s).ra == first_element(s, "<jradeg>"@, "</jradeg>"@),
        block_of(s).dec == first_element(s, "<jdedeg>"@, "</jdedeg>"@),
        block_of(s).oname == first_element(s, "<oname>"@, "</oname>"@),
        block_of(s).otype == first_element(s, "<otype>"@, "</otype>"@),
        block_of(s).aliases == all_elements(s, "<alias>"@, "</alias>"@, 0),
        block_texts(s) == all_elements(s, "<Resolver"@, "</Resolver>"@, 0),
{
}

// ── Hits ─────────────────────────────────────────────────────────────────────

/// Whether a block is given a right ascension from 0 up to, but not including,
/// 360 and a declination from -90 to 90.
pub open spec fn has_place(numbers: BlockNumbers) -> bool {
    (numbers.ra matches Some(ra) && (ra.bits < 0x4076_8000_0000_0000 || ra.bits
        == 0x8000_0000_0000_0000)) && (numbers.dec matches Some(dec) && (dec.bits
        <= 0x4056_8000_0000_0000 || 0x8000_0000_0000_0000 <= dec.bits <= 0xc056_8000_0000_0000))
}

/// Where some block has a place, an answer is found: that of the first such block,
/// with its coordinates, its name, its type and all its aliases, whatever the
/// blocks before and after it are.
pub proof fn the_first_block_with_a_place_counts(
    parts: Seq<Seq<char>>,
    numbers: Seq<BlockNumbers>,
    from: int,
    i: int,
)
    requires
        0 <= from <= i < parts.len(),
        i < numbers.len(),
        has_place(numbers[i]),
        forall|j: int| from <= j < i ==> !has_place(#[trigger] numbers[j]),
    ensures
        first_located(parts, numbers, from) matches Some(hit) && {
            &&& Some(hit.ra_deg) == numbers[i].ra
            &&& Some(hit.dec_deg) == numbers[i].dec
            &&& hit.oname == block_of(parts[i]).oname
            &&& hit.otype == block_of(parts[i]).otype
            &&& hit.aliases == block_of(parts[i]).aliases
        },
    decreases i - from,
{
    if from < i {
        assert(!has_place(numbers[from]));
        the_first_block_with_a_place_counts(parts, numbers, from + 1, i);
    }
}

/// An answer is found wherever any block has a place.
pub proof fn some_block_with_a_place_is_enough(
    parts: Seq<Seq<char>>,
    numbers: Seq<BlockNumbers>,
    from: int,
    i: int,
)
    requires
        0 <= from <= i < parts.len(),
        i < numbers.len(),
        has_place(numbers[i]),
    ensures
        first_located(parts, numbers, from) is Some,
    decreases i - from,
{
    if has_place(numbers[from]) {
        the_first_block_with_a_place_counts(parts, numbers, from, from);
    } else {
        some_block_with_a_place_is_enough(parts, numbers, from + 1, i);
    }
}

/// Without a block that has a place nothing is found.
pub proof fn no_place_no_answer(parts: Seq<Seq<char>>, numbers: Seq<BlockNumbers>, from: int)
    requires
        0 <= from,
        forall|j: int|
            from <= j < parts.len() && j < numbers.len() ==> !has_place(#[trigger] numbers[j]),
    ensures
        first_located(parts, numbers, from) is None,
    decreases parts.len() - from,
{
    if from < parts.len() && from < numbers.len() {
        assert(!has_place(numbers[from]));
        no_place_no_answer(parts, numbers, from + 1);
    }
}

// ── Identities ───────────────────────────────────────────────────────────────

/// What a list gains by one more name.
proof fn lemma_one_more(s: Seq<AliasView>, name: Seq<char>)
    ensures
        s.is_prefix_of(with_name(s, name)),
        collapsed(name).len() > 0 ==> exists|k: int|
            0 <= k < with_name(s, name).len() && (#[trigger] with_name(s, name)[k]).normalized
                == normalized(collapsed(name)),
        collapsed(name).len() > 0 && (forall|k: int|
            0 <= k < s.len() ==> (#[trigger] s[k]).normalized != normalized(collapsed(name)))
            ==> with_name(s, name).last() == AliasView::of(
            collapsed(name),
            AliasKind::Designation,
        ) && with_name(s, name).len() == s.len() + 1,
{
    let next = with_name(s, name);
    if next.len() > s.len() {
        assert(next[s.len() as int].normalized == normalized(collapsed(name)));
    }
}

/// Every name of a list that is not blank is found again among the names made of
/// it, by its normalized form; the first name of that form lends its display form.
pub proof fn every_name_is_kept(s: Seq<AliasView>, names: Seq<Seq<char>>, n: int, i: int)
    requires
        0 <= i < n <= names.len(),
        collapsed(names[i]).len() > 0,
    ensures
        s.is_prefix_of(with_names(s, names, n)),
        exists|k: int|
            0 <= k < with_names(s, names, n).len() && (#[trigger] with_names(
                s,
                names,
                n,
            )[k]).normalized == normalized(collapsed(names[i])),
        (forall|k: int|
            0 <= k < s.len() ==> (#[trigger] s[k]).normalized != normalized(collapsed(names[i])))
            && (forall|j: int|
            0 <= j < i ==> normalized(collapsed(#[trigger] names[j])) != normalized(
                collapsed(names[i]),
            )) ==> with_names(s, names, n).contains(
            AliasView::of(collapsed(names[i]), AliasKind::Designation),
        ),
    decreases n,
{
    let front = with_names(s, names, n - 1);
    let all = with_names(s, names, n);
    let form = normalized(collapsed(names[i]));
    let name = AliasView::of(collapsed(names[i]), AliasKind::Designation);
    lemma_one_more(front, names[n - 1]);
    lemma_start_is_kept(s, names, n);
    if i < n - 1 {
        every_name_is_kept(s, names, n - 1, i);
        let k = choose|k: int| 0 <= k < front.len() && (#[trigger] front[k]).normalized == form;
        assert(all[k] == front[k]);
        if front.contains(name) {
            let m = choose|m: int| 0 <= m < front.len() && front[m] == name;
            assert(all[m] == name);
        }
    } else {
        if forall|k: int| 0 <= k < front.len() ==> (#[trigger] front[k]).normalized != form {
            assert(all[all.len() - 1] == name);
        } else {
            let k = choose|k: int| 0 <= k < front.len() && (#[trigger] front[k]).normalized == form;
            names_come_from_the_list(s, names, n - 1, k);
            if k >= s.len() {
                let j = choose|j: int|
                    0 <= j < n - 1 && front[k] == AliasView::of(
                        collapsed(#[trigger] names[j]),
                        AliasKind::Designation,
                    );
                assert(normalized(collapsed(names[j])) == form);
            } else {
                assert(s[k].normalized == form);
            }
        }
    }
}

proof fn lemma_start_is_kept(s: Seq<AliasView>, names: Seq<Seq<char>>, n: int)
    ensures
        s.is_prefix_of(with_names(s, names, n)),
    decreases n,
{
    if n > 0 {
        lemma_start_is_kept(s, names, n - 1);
        lemma_one_more(with_names(s, names, n - 1), names[n - 1]);
        let front = with_names(s, names, n - 1);
        let all = with_names(s, names, n);
        assert forall|k: int| 0 <= k < s.len() implies s[k] == all[k] by {
            assert(front[k] == s[k]);
            assert(all[k] == front[k]);
        }
        assert(s =~= all.subrange(0, s.len() as int));
    }
}

/// Nothing but the list gives names: every name behind those of the start is a
/// collapsed name of the list, as a designation.
pub proof fn names_come_from_the_list(
    s: Seq<AliasView>,
    names: Seq<Seq<char>>,
    n: int,
    k: int,
)
    requires
        0 <= n <= names.len(),
        0 <= k < with_names(s, names, n).len(),
    ensures
        k < s.len() ==> with_names(s, names, n)[k] == s[k],
        k >= s.len() ==> exists|i: int|
            0 <= i < n && with_names(s, names, n)[k] == AliasView::of(
                collapsed(#[trigger] names[i]),
                AliasKind::Designation,
            ),
    decreases n,
{
    if n > 0 {
        let front = with_names(s, names, n - 1);
        let all = with_names(s, names, n);
        lemma_start_is_kept(s, names, n);
        if k < s.len() {
            assert(all[k] == s[k]);
        } else if k < front.len() {
            names_come_from_the_list(s, names, n - 1, k);
            let i = choose|i: int|
                0 <= i < n - 1 && front[k] == AliasView::of(
                    collapsed(#[trigger] names[i]),
                    AliasKind::Designation,
                );
            assert(all[k] == AliasView::of(collapsed(names[i]), AliasKind::Designation));
        } else {
            assert(all[k] == AliasView::of(collapsed(names[n - 1]), AliasKind::Designation));
        }
    }
}

/// The identity of a hit is named by the hit's own name, or by the query where the
/// hit has none or a blank one.
pub proof fn hits_are_named_by_themselves(hit: SesameView, query: Seq<char>)
    ensures
        hit.oname matches Some(name) && collapsed(name).len() > 0 ==> coarse_identity(
            hit,
            query,
        ).primary_designation == collapsed(hit.oname->Some_0),
        hit.oname is None ==> coarse_identity(hit, query).primary_designation == collapsed(query),
        hit.oname matches Some(name) ==> (collapsed(name).len() == 0 ==> coarse_identity(
            hit,
            query,
        ).primary_designation == collapsed(query)),
{
}

/// The identity of a hit has every alias of the hit that is not blank, by its
/// normalized form.
pub proof fn hits_keep_their_names(hit: SesameView, query: Seq<char>, i: int)
    requires
        0 <= i < hit.aliases.len(),
        collapsed(hit.aliases[i]).len() > 0,
    ensures
        ({
            let found = coarse_identity(hit, query);
            exists|k: int|
                0 <= k < found.aliases.len() && (#[trigger] found.aliases[k]).normalized
                    == normalized(collapsed(hit.aliases[i]))
        }),
{
    let first = with_name(Seq::empty(), primary_of(hit, query));
    every_name_is_kept(first, hit.aliases, hit.aliases.len() as int, i);
    let all = with_names(first, hit.aliases, hit.aliases.len() as int);
    let k = choose|k: int|
        0 <= k < all.len() && (#[trigger] all[k]).normalized == normalized(
            collapsed(hit.aliases[i]),
        );
    assert(coarse_identity(hit, query).aliases[k] == all[k]);
}

/// The identity of a hit has the hit's coordinates and type, and neither object id
/// nor measurements nor a common name; its primary designation, where it is not
/// empty, is its first name.
pub proof fn hits_keep_their_place(hit: SesameView, query: Seq<char>)
    ensures
        ({
            let found = coarse_identity(hit, query);
            &&& found.ra_deg == hit.ra_deg
            &&& found.dec_deg == hit.dec_deg
            &&& hit.otype matches Some(t) ==> found.otype_raw == t && found.object_type
                == otype_of(trimmed(t))
            &&& hit.otype is None ==> found.otype_raw.len() == 0
            &&& found.simbad_oid is None
            &&& found.common_name is None
            &&& found.v_mag is None
            &&& found.galdim_majaxis_arcmin is None
            &&& found.galdim_minaxis_arcmin is None
            &&& found.galdim_angle_deg is None
            &&& found.source == TargetSource::Resolved
            &&& found.primary_designation.len() > 0 ==> found.aliases.len() > 0
                && found.aliases[0] == AliasView::of(
                found.primary_designation,
                AliasKind::Designation,
            )
        }),
{
    let primary = primary_of(hit, query);
    if let Some(name) = hit.oname {
        collapse_is_idempotent(name);
    }
    collapse_is_idempotent(query);
    assert(collapsed(primary) == primary);
    let first = with_name(Seq::empty(), primary);
    lemma_start_is_kept(first, hit.aliases, hit.aliases.len() as int);
    lemma_one_more(Seq::empty(), primary);
    if primary.len() > 0 {
        let found = coarse_identity(hit, query);
        assert(first[0] == AliasView::of(primary, AliasKind::Designation));
        assert(found.aliases[0] == first[0]);
    }
}

/// A full answer for a hit takes its place with all it holds, as a resolved one;
/// where there is none the hit stands as it is.
pub proof fn full_answers_take_the_place(
    coarse: IdentityView,
    full: IdentityView,
    error: ErrorView,
)
    ensures
        enriched_by(coarse, Ok(full)) == (IdentityView { source: TargetSource::Resolved, ..full }),
        enriched_by(coarse, Err(error)) == coarse,
{
}

} // verus!
