//! What calls give: the laws of the other modules, said of the functions themselves.

use vstd::prelude::*;
use vstd::utf8::*;

use crate::batch::{verdict_for, Verdict};
use crate::cache::laws::canonical_owners;
use crate::cache::search::bests;
use crate::cache::search_laws::parts_of_names_are_found;
use crate::cache::state::{AliasRowView, TargetRow, TargetRowView};
use crate::cache::store_laws::{
    targets_are_found_by_form, targets_are_found_by_object_id, targets_are_read_with_their_aliases,
};
use crate::cache::tables::CacheTables;
use crate::cache::{CacheError, CachedTarget, SearchHit, RANK_EXACT, RANK_PREFIX};
use crate::caldwell::{caldwell_to_designation, parse_caldwell_number};
use crate::caldwell_laws::{
    catalogue_queries_are_translated, designations_are_catalogue_numbers,
    every_spelling_is_recognized, ngc_number, the_table_is_complete,
};
use crate::config::{ResolverConfig, Timeout};
use crate::error::{ErrorView, ResolveError};
use crate::float::Single;
use crate::identity::{hyphenated, namespace_of};
use crate::normalize::{normalize, normalized, token_overlap, tokens};
use crate::number::{decimal, digits_value, parse_i64, signed_decimal};
use crate::number_laws::{digits_only, signed_forms_are_read_back};
use crate::orchestrate::{
    alias_overlaps, plan_resolve, reason_for, Resolution, ResolutionView, ResolvePlan,
    UnresolvedReason,
};
use crate::order::views;
use crate::resolve_laws::{meaning_of, the_last_registration_counts};
use crate::resolver::{latest, FakeResolver};
use crate::sesame::{
    block_of, block_texts, coarse_answer, parse_sesame_xml, percent_encode_query, percent_encoded,
    status_failure, BlockNumbers, SesameHit,
};
use crate::sesame_answer_laws::{
    has_place, no_place_no_answer, some_block_with_a_place_is_enough,
    the_first_block_with_a_place_counts,
};
use crate::table::has_key;
use crate::tap::{
    aliases_adql, aliases_query, assemble_aliases, classify_failure, data_lines, first_step,
    name_to_resolve, next_step, objects_adql, objects_query, parse_position_row, position_adql,
    position_query, PositionRow, ResponseBuffer, TapFlow, TapStep,
};
use crate::tap_answer_laws::{
    display_given, every_line_gives_its_name, gives_common_name, near_lines_are_cone_rows,
    the_first_common_name_counts,
};
use crate::text::white_space;
use crate::text_laws::{all_white, trimming_takes_the_outer_space};
use crate::types::{map_otype, opt_text, otype_of, ObjectType, ResolvedAlias, ResolvedIdentity};
use crate::wire::{basic_of, columns, number_texts, unquoted, NumberTexts, RowNumbers};

verus! {

// ── Queries ──────────────────────────────────────────────────────────────────

/// The letter C in either case and the digits of a number from 1 to 109, with any
/// white space between and around them, are recognized as that number.
pub proof fn caldwell_spellings_are_recognized(
    query: &str,
    a: Seq<char>,
    x: char,
    w: Seq<char>,
    d: Seq<char>,
    b: Seq<char>,
    r: Option<u32>,
)
    requires
        call_ensures(parse_caldwell_number, (query,), r),
        query@ == a + seq![x] + w + d + b,
        all_white(a),
        all_white(w),
        all_white(b),
        x == 'C' || x == 'c',
        d.len() > 0,
        digits_only(d),
        1 <= digits_value(d) <= 109,
    ensures
        r == Some(digits_value(d) as u32),
{
    every_spelling_is_recognized(a, x, w, d, b);
}

/// Every number of the catalogue but one has a designation: its NGC number, where it
/// has one.
pub proof fn caldwell_numbers_are_translated(n: u32, r: Option<&'static str>)
    requires
        call_ensures(caldwell_to_designation, (n,), r),
    ensures
        r is Some <==> 1 <= n <= 109 && n != 99,
        ngc_number(n) matches Some(k) ==> (r matches Some(d) && d@ == "NGC "@ + decimal(k)),
{
    the_table_is_complete(n);
    designations_are_catalogue_numbers(n);
}

/// A query for a number of the catalogue is planned as one for its designation, and
/// keeps the catalogue's own name to be bound to the answer.
pub proof fn caldwell_queries_are_planned(
    query: &str,
    n: u32,
    k: nat,
    r: Result<ResolvePlan, Resolution>,
)
    requires
        call_ensures(plan_resolve, (query,), r),
        1 <= n <= 109,
        query@ == "C "@ + decimal(n as nat),
        ngc_number(n) == Some(k),
    ensures
        r matches Ok(plan) && plan@.query == query@ && plan@.simbad_query == "NGC "@ + decimal(k)
            && plan@.caldwell_alias == Some(query@),
{
    catalogue_queries_are_translated(n);
    designations_are_catalogue_numbers(n);
}

/// The name to look up is the query without the white space around it.
pub proof fn names_are_looked_up_without_outer_space(
    query: &str,
    a: Seq<char>,
    m: Seq<char>,
    b: Seq<char>,
    r: Result<String, ResolveError>,
)
    requires
        call_ensures(name_to_resolve, (query,), r),
        query@ == a + m + b,
        all_white(a),
        all_white(b),
        m.len() > 0 ==> !white_space(m[0]) && !white_space(m.last()),
    ensures
        m.len() > 0 ==> (r matches Ok(name) && name@ == m),
        m.len() == 0 ==> (r matches Err(e) && e@ == ErrorView::NotFound(Seq::empty())),
{
    trimming_takes_the_outer_space(a, m, b);
}

/// What is sent is the text of the query, with the arguments as they are.
pub proof fn queries_are_sent_with_their_arguments(
    name: &str,
    oid: i64,
    ra: &str,
    dec: &str,
    radius: &str,
    limit: usize,
    by_name: String,
    by_number: String,
    by_position: String,
    encoded: String,
)
    requires
        call_ensures(objects_query, (name,), by_name),
        call_ensures(aliases_query, (oid,), by_number),
        call_ensures(position_query, (ra, dec, radius, limit), by_position),
        call_ensures(percent_encode_query, (name,), encoded),
    ensures
        by_name@ == objects_adql(name@),
        by_number@ == aliases_adql(oid),
        by_position@ == position_adql(ra@, dec@, radius@, limit),
        encoded@ == percent_encoded(encode_utf8(name@)),
{
}

// ── Answers ──────────────────────────────────────────────────────────────────

/// Every data line of an answer gives its name, wherever in the answer it stands; and
/// the common name is that of the first line that gives one.
pub proof fn answers_give_every_name(
    body: &str,
    i: int,
    r: (Vec<ResolvedAlias>, Option<String>),
)
    requires
        call_ensures(assemble_aliases, (body,), r),
        0 <= i < data_lines(body@).len(),
        display_given(data_lines(body@)[i]).len() > 0,
    ensures
        exists|k: int|
            0 <= k < r.0@.len() && (#[trigger] r.0@[k])@.alias == display_given(
                data_lines(body@)[i],
            ),
        (gives_common_name(data_lines(body@)[i]) && forall|j: int|
            0 <= j < i ==> !gives_common_name(#[trigger] data_lines(body@)[j])) ==> opt_text(r.1)
            == Some(display_given(data_lines(body@)[i])),
{
    let data = data_lines(body@);
    let n = data.len() as int;
    every_line_gives_its_name(data, n, i);
    the_first_common_name_counts(data, n);
    let all = crate::tap::alias_set(data, n).0;
    let k = choose|k: int|
        0 <= k < all.len() && (#[trigger] all[k]).alias == display_given(data[i]);
    assert(views(r.0@)[k] == r.0@[k]@);
}

/// A line of ten columns or more, whose first nine make up a row and whose distance is
/// finite and not negative, is a row of a cone search; no other line is.
pub proof fn near_lines_are_parsed(line: &str, numbers: RowNumbers, r: Option<PositionRow>)
    requires
        call_ensures(parse_position_row, (line, &numbers), r),
    ensures
        r is Some <==> {
            &&& columns(line@).len() >= 10
            &&& basic_of(columns(line@).take(9), numbers) is Some
            &&& numbers.dist matches Some(d) && (d.bits < 0x7ff0_0000_0000_0000 || d.bits
                == 0x8000_0000_0000_0000)
        },
        r matches Some(found) ==> basic_of(columns(line@).take(9), numbers) == Some(found@.row)
            && numbers.dist == Some(found@.dist),
{
    if let Some(found) = r {
        near_lines_are_cone_rows(line@, numbers, found@);
    } else if basic_of(columns(line@).take(9), numbers) is Some && numbers.dist is Some {
        near_lines_are_cone_rows(
            line@,
            numbers,
            crate::tap::PositionRowView {
                row: basic_of(columns(line@).take(9), numbers)->Some_0,
                dist: numbers.dist->Some_0,
            },
        );
    }
}

/// The numbers of a line are read from its third and fourth column, its sixth to its
/// eighth and, where there is one, its tenth.
pub proof fn numbers_stand_in_their_columns(line: &str, r: Option<NumberTexts>)
    requires
        call_ensures(number_texts, (line,), r),
    ensures
        r is Some <==> columns(line@).len() >= 9,
        r matches Some(t) ==> {
            &&& t.ra@ == unquoted(columns(line@)[2])
            &&& t.dec@ == unquoted(columns(line@)[3])
            &&& t.v_mag@ == unquoted(columns(line@)[5])
            &&& t.majaxis@ == unquoted(columns(line@)[6])
            &&& t.minaxis@ == unquoted(columns(line@)[7])
            &&& columns(line@).len() >= 10 ==> t.dist@ == unquoted(columns(line@)[9])
        },
{
}

/// A whole number of 64 bits is read from its decimal form.
pub proof fn whole_numbers_are_parsed(s: &str, n: i64, r: Option<i64>)
    requires
        call_ensures(parse_i64, (s,), r),
        s@ == signed_decimal(n as int),
    ensures
        r == Some(n),
{
    let k = if n >= 0 {
        n as int
    } else {
        -(n as int)
    };
    signed_forms_are_read_back(k as nat);
}

/// Where some block of an answer has a place, the first such block is found, with its
/// coordinates, its name, its type and its aliases; else nothing is.
pub proof fn blocks_with_a_place_are_parsed(
    text: &str,
    numbers: Vec<BlockNumbers>,
    i: int,
    r: Option<SesameHit>,
)
    requires
        call_ensures(parse_sesame_xml, (text, &numbers), r),
    ensures
        0 <= i < block_texts(text@).len() && i < numbers@.len() && has_place(numbers@[i])
            ==> r is Some,
        (0 <= i < block_texts(text@).len() && i < numbers@.len() && has_place(numbers@[i]) && (
        forall|j: int| 0 <= j < i ==> !has_place(#[trigger] numbers@[j]))) ==> (r matches Some(
            hit,
        ) && {
            &&& Some(hit@.ra_deg) == numbers@[i].ra
            &&& Some(hit@.dec_deg) == numbers@[i].dec
            &&& hit@.oname == block_of(block_texts(text@)[i]).oname
            &&& hit@.otype == block_of(block_texts(text@)[i]).otype
            &&& hit@.aliases == block_of(block_texts(text@)[i]).aliases
        }),
        (forall|j: int|
            0 <= j < block_texts(text@).len() && j < numbers@.len() ==> !has_place(
                #[trigger] numbers@[j],
            )) ==> r is None,
{
    let parts = block_texts(text@);
    if 0 <= i < parts.len() && i < numbers@.len() && has_place(numbers@[i]) {
        some_block_with_a_place_is_enough(parts, numbers@, 0, i);
        if forall|j: int| 0 <= j < i ==> !has_place(#[trigger] numbers@[j]) {
            the_first_block_with_a_place_counts(parts, numbers@, 0, i);
        }
    }
    if forall|j: int|
        0 <= j < parts.len() && j < numbers@.len() ==> !has_place(#[trigger] numbers@[j]) {
        no_place_no_answer(parts, numbers@, 0);
    }
}

/// An answer without a block that has a place says that the query is not found; any
/// other comes to an identity at that place.
pub proof fn answers_come_to_an_identity(
    query: &str,
    text: &str,
    numbers: Vec<BlockNumbers>,
    i: int,
    r: Result<ResolvedIdentity, ResolveError>,
)
    requires
        call_ensures(coarse_answer, (query, text, &numbers), r),
    ensures
        (0 <= i < block_texts(text@).len() && i < numbers@.len() && has_place(numbers@[i]) && (
        forall|j: int| 0 <= j < i ==> !has_place(#[trigger] numbers@[j]))) ==> (r matches Ok(
            found,
        ) && Some(found@.ra_deg) == numbers@[i].ra && Some(found@.dec_deg) == numbers@[i].dec),
        (forall|j: int|
            0 <= j < block_texts(text@).len() && j < numbers@.len() ==> !has_place(
                #[trigger] numbers@[j],
            )) ==> (r matches Err(e) && e@ == ErrorView::NotFound(query@)),
{
    let parts = block_texts(text@);
    if 0 <= i < parts.len() && i < numbers@.len() && has_place(numbers@[i]) && (forall|j: int|
        0 <= j < i ==> !has_place(#[trigger] numbers@[j])) {
        the_first_block_with_a_place_counts(parts, numbers@, 0, i);
    }
    if forall|j: int|
        0 <= j < parts.len() && j < numbers@.len() ==> !has_place(#[trigger] numbers@[j]) {
        no_place_no_answer(parts, numbers@, 0);
    }
}

/// A failed request is a timeout, with its seconds, or an error of the network, with
/// its message; an unsuccessful status is an error of the network that names it.
pub proof fn failures_say_what_failed(
    message: String,
    timeout: Timeout,
    status: &str,
    late: ResolveError,
    failed: ResolveError,
    refused: ResolveError,
)
    requires
        call_ensures(classify_failure, (true, message, timeout), late),
        call_ensures(classify_failure, (false, message, timeout), failed),
        call_ensures(status_failure, (status,), refused),
    ensures
        late@ == ErrorView::Timeout(timeout.secs),
        failed@ == ErrorView::Network(message@),
        refused@ == ErrorView::Network("Sesame returned HTTP "@ + status@),
{
}

/// An answer is received unless it is announced to be longer than eight mebibytes.
pub proof fn short_answers_are_received(
    announced: Option<u64>,
    r: Result<ResponseBuffer, ResolveError>,
)
    requires
        call_ensures(ResponseBuffer::start, (announced,), r),
    ensures
        r is Ok <==> (announced matches Some(len) ==> len <= 8 * 1024 * 1024),
        r matches Ok(buffer) ==> buffer@.len() == 0,
{
}

/// A code is read without the white space around it.
pub proof fn codes_are_read_without_outer_space(
    text: &str,
    a: Seq<char>,
    m: Seq<char>,
    b: Seq<char>,
    r: ObjectType,
)
    requires
        call_ensures(map_otype, (text,), r),
        text@ == a + m + b,
        all_white(a),
        all_white(b),
        m.len() > 0 ==> !white_space(m[0]) && !white_space(m.last()),
    ensures
        r == otype_of(m),
{
    trimming_takes_the_outer_space(a, m, b);
}

/// A lookup begins with the query for the name, and goes on with what the answers say.
pub proof fn lookups_go_by_their_steps(
    query: &str,
    flow: TapFlow,
    body: &str,
    numbers: Vec<RowNumbers>,
    first: TapStep,
    next: TapStep,
)
    requires
        call_ensures(TapFlow::start, (query,), first),
        call_ensures(TapFlow::advance, (flow, body, &numbers), next),
    ensures
        first@ == first_step(query@),
        next@ == next_step(flow@, body@, numbers@),
{
}

// ── Decisions ────────────────────────────────────────────────────────────────

/// An error means for a query what it says: open, ambiguous or unknown.
pub proof fn errors_have_their_meaning(e: ResolveError, r: UnresolvedReason)
    requires
        call_ensures(reason_for, (&e,), r),
    ensures
        r == meaning_of(e@),
{
}

/// A resolution settles an item, unless it is open for want of the network.
pub proof fn resolutions_have_their_verdict(r: Resolution, v: Verdict)
    requires
        call_ensures(verdict_for, (&r,), v),
    ensures
        r@ matches ResolutionView::Resolved(t) ==> v == Verdict::Resolved(t.id),
        r@ matches ResolutionView::Unresolved { reason, .. } ==> (v == if reason
            == UnresolvedReason::Offline {
            Verdict::StillPending
        } else {
            Verdict::Unresolved
        }),
{
}

/// A configuration starts online and without fuzzy search, in the namespace of its
/// seed; each change leaves the rest as it was.
pub proof fn configurations_keep_the_rest(
    seed: &str,
    online: bool,
    min: Single,
    first: ResolverConfig,
    second: ResolverConfig,
    third: ResolverConfig,
)
    requires
        call_ensures(ResolverConfig::new, (seed,), first),
        call_ensures(ResolverConfig::with_online, (first, online), second),
        call_ensures(ResolverConfig::with_fuzzy, (second, min), third),
    ensures
        first.online_enabled && first.fuzzy_min_score is None && first.namespace == namespace_of(
            seed@,
        ),
        second.online_enabled == online && second.fuzzy_min_score is None && second.namespace
            == first.namespace,
        third.online_enabled == online && third.fuzzy_min_score == Some(min) && third.namespace
            == first.namespace,
{
}

/// A canned identity is the answer to every query of its normalized form, unless an
/// error is registered for it; a canned error always is.
pub proof fn canned_answers_are_given(
    fake: FakeResolver,
    query: &str,
    later: Seq<char>,
    identity: ResolvedIdentity,
    error: ResolveError,
    with_identity: FakeResolver,
    with_error: FakeResolver,
)
    requires
        call_ensures(FakeResolver::with_response, (fake, query, identity), with_identity),
        call_ensures(FakeResolver::with_error, (fake, query, error), with_error),
        normalized(later) == normalized(query@),
    ensures
        latest(fake@.errors, normalized(later)) is None ==> with_identity@.answer(later) == Ok::<
            _,
            ErrorView,
        >(identity@),
        with_error@.answer(later) == Err::<crate::types::IdentityView, _>(error@),
{
    the_last_registration_counts(
        fake@.responses,
        normalized(query@),
        identity@,
        normalized(later),
    );
    the_last_registration_counts(fake@.errors, normalized(query@), error@, normalized(later));
}

// ── The store ────────────────────────────────────────────────────────────────

/// A stored target is read by its id, with the fields of its row.
pub proof fn stored_targets_are_read(
    cache: CacheTables,
    id: u128,
    row: TargetRowView,
    r: Option<CachedTarget>,
)
    requires
        cache.wf(),
        call_ensures(CacheTables::get_by_id, (&cache, id), r),
        cache@.targets.contains(row),
        row.id == hyphenated(id),
    ensures
        r matches Some(t) && {
            &&& t@.id == id
            &&& t@.simbad_oid == row.simbad_oid
            &&& t@.primary_designation == row.primary_designation
            &&& t@.common_name == row.common_name
            &&& t@.object_type == row.object_type
            &&& t@.ra_deg == row.ra_deg
            &&& t@.dec_deg == row.dec_deg
            &&& t@.source == row.source
            &&& t@.resolved_at == row.resolved_at
        },
{
    targets_are_read_with_their_aliases(cache@, id, row);
}

/// A stored target is read by its object id and by the form of its first alias row as
/// its own id gives it.
pub proof fn stored_targets_are_found(
    cache: CacheTables,
    oid: i64,
    i: int,
    form: &str,
    j: int,
    id: u128,
    by_oid: Result<Option<CachedTarget>, CacheError>,
    by_form: Result<Option<CachedTarget>, CacheError>,
)
    requires
        cache.wf(),
        call_ensures(CacheTables::get_by_simbad_oid, (&cache, oid), by_oid),
        call_ensures(CacheTables::get_by_normalized, (&cache, form), by_form),
        0 <= i < cache@.targets.len(),
        cache@.targets[i].simbad_oid == Some(oid),
        forall|k: int| 0 <= k < i ==> (#[trigger] cache@.targets[k]).simbad_oid != Some(oid),
        cache@.targets[i].id == hyphenated(id),
        0 <= j < cache@.aliases.len(),
        cache@.aliases[j].alias.normalized == form@,
        forall|k: int| 0 <= k < j ==> (#[trigger] cache@.aliases[k]).alias.normalized != form@,
        cache@.aliases[j].target_id == hyphenated(id),
    ensures
        by_oid matches Ok(Some(t)) && cache@.by_id(id) == Some(t@),
        by_form matches Ok(Some(t)) && cache@.by_id(id) == Some(t@),
{
    targets_are_found_by_object_id(cache@, oid, i, id);
    targets_are_found_by_form(cache@, form@, j, id);
    targets_are_read_with_their_aliases(cache@, id, cache@.targets[i]);
}

/// A search for any part of the normalized form of an alias finds its target, while
/// there is room.
pub proof fn searches_find_parts_of_names(
    cache: CacheTables,
    query: &str,
    limit: usize,
    row: AliasRowView,
    a: Seq<char>,
    b: Seq<char>,
    r: Result<Vec<SearchHit>, CacheError>,
)
    requires
        cache.wf(),
        call_ensures(CacheTables::search, (&cache, query, limit), r),
        canonical_owners(cache@.aliases),
        limit > 0,
        normalized(query@).len() > 0,
        cache@.aliases.contains(row),
        has_key::<TargetRow>(cache@.targets, row.target_id),
        row.alias.normalized == a + normalized(query@) + b,
        bests(cache@.aliases, normalized(query@)).len() <= limit,
    ensures
        r matches Ok(hits) && exists|i: int|
            0 <= i < hits@.len() && hyphenated((#[trigger] hits@[i])@.target.id) == row.target_id
                && (a.len() == 0 ==> hits@[i]@.rank <= RANK_PREFIX) && (a.len() == 0 && b.len()
                == 0 ==> hits@[i]@.rank == RANK_EXACT),
{
    parts_of_names_are_found(cache@, query@, limit as int, row, a, b);
    let hits = cache@.found(query@, limit as int)->Ok_0;
    let i = choose|i: int|
        0 <= i < hits.len() && hyphenated((#[trigger] hits[i]).target.id) == row.target_id && (
        a.len() == 0 ==> hits[i].rank <= RANK_PREFIX) && (a.len() == 0 && b.len() == 0
            ==> hits[i].rank == RANK_EXACT);
    let v = r->Ok_0;
    assert(views(v@)[i] == v@[i]@);
}

/// The similarity of a query and each alias of a target is that of their tokens: those
/// that they share, over those that they have between them.
pub proof fn aliases_are_scored_one_by_one(
    q: &str,
    target: CachedTarget,
    j: int,
    out: Vec<(u128, u128)>,
    a: &str,
    one: (u128, u128),
)
    requires
        call_ensures(alias_overlaps, (q, &target), out),
        call_ensures(token_overlap, (q, a), one),
        0 <= j < target@.aliases.len(),
        a@ == target@.aliases[j].normalized,
    ensures
        out@.len() == target@.aliases.len(),
        out@[j] == one,
        one.0 == tokens(q@).intersect(tokens(a@)).len(),
        one.1 == tokens(q@).union(tokens(a@)).len(),
{
}

/// Normalizing gives the normalized form.
pub proof fn texts_are_normalized(s: &str, out: String)
    requires
        call_ensures(normalize, (s,), out),
    ensures
        out@ == normalized(s@),
{
}

} // verus!
