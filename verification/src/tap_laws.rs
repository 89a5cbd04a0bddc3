//! What holds of lookups over TAP as a whole.

use vstd::prelude::*;

use crate::tap::{alias_set, basic_rows, data_lines, doubled_quotes, first_step, identity_of, name_mark, next_step, numbers_at, position_hits, position_of, with_designation, with_display, FlowView, PositionRowView, StepView};
use crate::text::{collapsed, trimmed};
use crate::types::{displays_differ, forms_computed, has_designation, has_display, names_differ, AliasKind, AliasView, TargetSource};
use crate::wire::{basic_of, columns, rows_are_in_range, unquoted, BasicView, RowNumbers};

verus! {

// ── Queries ──────────────────────────────────────────────────────────────────

/// Doubling the quotes of a name loses nothing: different names make different
/// literals.
pub proof fn quoting_is_injective(a: Seq<char>, b: Seq<char>)
    requires
        doubled_quotes(a) == doubled_quotes(b),
    ensures
        a == b,
    decreases a.len(),
{
    let x = doubled_quotes(a);
    let y = doubled_quotes(b);
    if a.len() > 0 && b.len() > 0 {
        assert(x.last() == a.last());
        assert(y.last() == b.last());
        let n = if a.last() == '\'' {
            x.len() - 2
        } else {
            x.len() - 1
        };
        assert(x.take(n) =~= doubled_quotes(a.drop_last()));
        assert(y.take(n) =~= doubled_quotes(b.drop_last()));
        quoting_is_injective(a.drop_last(), b.drop_last());
        assert(a =~= a.drop_last().push(a.last()));
        assert(b =~= b.drop_last().push(b.last()));
    }
}

/// The number of quotes in `s`.
pub open spec fn quotes(s: Seq<char>) -> nat
    decreases s.len(),
{
    if s.len() == 0 {
        0
    } else {
        quotes(s.drop_last()) + if s.last() == '\'' {
            1nat
        } else {
            0
        }
    }
}

/// Inside a literal the quotes come in pairs.
pub proof fn quotes_are_paired(s: Seq<char>)
    ensures
        quotes(doubled_quotes(s)) == 2 * quotes(s),
    decreases s.len(),
{
    if s.len() > 0 {
        let front = doubled_quotes(s.drop_last());
        quotes_are_paired(s.drop_last());
        let c = s.last();
        if c == '\'' {
            assert(front.push(c).push(c).drop_last() =~= front.push(c));
            assert(front.push(c).drop_last() =~= front);
            assert(quotes(front.push(c)) == quotes(front) + 1);
            assert(quotes(front.push(c).push(c)) == quotes(front.push(c)) + 1);
        } else {
            assert(front.push(c).drop_last() =~= front);
        }
    }
}

// ── Lookups ──────────────────────────────────────────────────────────────────

/// A lookup sends at most two queries: the one for the objects of the name and,
/// where there is just one, the one for its identifiers.
pub proof fn lookups_take_two_queries(
    query: Seq<char>,
    body: Seq<char>,
    numbers: Seq<RowNumbers>,
    second: Seq<char>,
    other: Seq<RowNumbers>,
)
    ensures
        first_step(query) matches StepView::Send { next, .. } ==> (next_step(
            next,
            body,
            numbers,
        ) matches StepView::Send { next: last, .. } ==> (next_step(
            last,
            second,
            other,
        ) matches StepView::Finish(r) && r is Ok)),
{
}

/// What a lookup finds has the object id, the coordinates and the measurements of
/// the one row of the answer, and those are in range.
pub proof fn lookups_keep_the_row(
    name: Seq<char>,
    body: Seq<char>,
    numbers: Seq<RowNumbers>,
    second: Seq<char>,
    other: Seq<RowNumbers>,
)
    ensures
        next_step(FlowView::Objects { name }, body, numbers) matches StepView::Send { next, .. }
            ==> (next_step(next, second, other) matches StepView::Finish(Ok(found)) && ({
            let data = data_lines(body);
            let rows = basic_rows(data, numbers, data.len() as int);
            &&& rows.len() == 1
            &&& found.simbad_oid == Some(rows[0].oid)
            &&& found.primary_designation == collapsed(rows[0].main_id)
            &&& found.otype_raw == rows[0].otype
            &&& found.ra_deg == rows[0].ra
            &&& found.dec_deg == rows[0].dec
            &&& found.ra_deg.right_ascension()
            &&& found.dec_deg.declination()
            &&& found.source == TargetSource::Resolved
        })),
{
    let data = data_lines(body);
    let rows = basic_rows(data, numbers, data.len() as int);
    lemma_basic_rows(data, numbers, data.len() as int);
    if rows.len() == 1 {
        assert(rows.contains(rows[0]));
    }
}

proof fn lemma_basic_rows(data: Seq<Seq<char>>, numbers: Seq<RowNumbers>, n: int)
    ensures
        forall|row: BasicView| #[trigger]
            basic_rows(data, numbers, n).contains(row) ==> row.ra.right_ascension()
                && row.dec.declination(),
    decreases n,
{
    if n > 0 {
        lemma_basic_rows(data, numbers, n - 1);
        let front = basic_rows(data, numbers, n - 1);
        let c = columns(data[n - 1]);
        rows_are_in_range(c, numbers_at(numbers, n - 1));
        if let Some(last) = basic_of(c, numbers_at(numbers, n - 1)) {
            assert forall|row: BasicView| #[trigger]
                basic_rows(data, numbers, n).contains(row) implies row.ra.right_ascension()
                && row.dec.declination() by {
                vstd::seq_lib::lemma_seq_contains_after_push(front, last, row);
            }
        }
    }
}

// ── Names ────────────────────────────────────────────────────────────────────

proof fn lemma_with_display(s: Seq<AliasView>, alias: Seq<char>, kind: AliasKind)
    requires
        displays_differ(s),
        forms_computed(s),
    ensures
        displays_differ(with_display(s, alias, kind)),
        forms_computed(with_display(s, alias, kind)),
        alias.len() > 0 ==> has_display(with_display(s, alias, kind), alias),
{
    let next = with_display(s, alias, kind);
    if alias.len() > 0 && !has_display(s, alias) {
        assert(next[s.len() as int].alias == alias);
        assert forall|i: int, j: int| 0 <= i < j < next.len() implies (#[trigger] next[i]).alias
            != (#[trigger] next[j]).alias by {
            assert(next[i] == s[i]);
            if j < s.len() {
                assert(next[j] == s[j]);
            }
        }
    }
}

/// No two names of an answer have one display form, and every name has the
/// normalized form of its display form.
pub proof fn names_are_distinct(data: Seq<Seq<char>>, n: int)
    ensures
        displays_differ(alias_set(data, n).0),
        forms_computed(alias_set(data, n).0),
    decreases n,
{
    if n > 0 {
        names_are_distinct(data, n - 1);
        let front = alias_set(data, n - 1).0;
        let id = unquoted(data[n - 1]);
        lemma_with_display(
            front,
            trimmed(id.skip(name_mark().len() as int)),
            AliasKind::CommonName,
        );
        lemma_with_display(front, collapsed(id), AliasKind::Designation);
    }
}

/// The primary designation is among the names of an identity as a designation,
/// once, unless it is empty; the names that were given stay in front, and no two
/// names have one display form and one kind.
pub proof fn primary_designation_is_a_name(
    row: BasicView,
    aliases: Seq<AliasView>,
    common_name: Option<Seq<char>>,
)
    requires
        displays_differ(aliases),
        forms_computed(aliases),
    ensures
        ({
            let identity = identity_of(row, aliases, common_name);
            &&& names_differ(identity.aliases)
            &&& forms_computed(identity.aliases)
            &&& aliases.is_prefix_of(identity.aliases)
            &&& identity.primary_designation.len() > 0 ==> has_designation(
                identity.aliases,
                identity.primary_designation,
            )
        }),
{
    let primary = collapsed(row.main_id);
    let next = with_designation(aliases, primary);
    if primary.len() > 0 && !has_designation(aliases, primary) {
        assert(next[aliases.len() as int] == AliasView::of(primary, AliasKind::Designation));
        assert forall|i: int, j: int| 0 <= i < j < next.len() implies (#[trigger] next[i]).alias
            != (#[trigger] next[j]).alias || next[i].kind != next[j].kind by {
            assert(next[i] == aliases[i]);
            if j < aliases.len() {
                assert(next[j] == aliases[j]);
            }
        }
    }
}

// ── Cone searches ────────────────────────────────────────────────────────────

/// The hits of a cone search are in the order of the answer, each with its
/// distance, and with no name but its primary designation.
pub proof fn cone_hits_keep_their_order(rows: Seq<PositionRowView>, n: int, i: int)
    requires
        0 <= i < n <= rows.len(),
    ensures
        position_hits(rows, n).len() == n,
        ({
            let hit = position_hits(rows, n)[i];
            let primary = collapsed(rows[i].row.main_id);
            &&& hit.separation_deg == rows[i].dist
            &&& hit.identity.simbad_oid == Some(rows[i].row.oid)
            &&& hit.identity.primary_designation == primary
            &&& hit.identity.common_name is None
            &&& hit.identity.aliases == if primary.len() == 0 {
                Seq::empty()
            } else {
                seq![AliasView::of(primary, AliasKind::Designation)]
            }
        }),
    decreases n,
{
    lemma_hits_len(rows, n);
    lemma_hits_len(rows, n - 1);
    if i < n - 1 {
        cone_hits_keep_their_order(rows, n - 1, i);
    } else {
        let primary = collapsed(rows[i].row.main_id);
        assert(!has_designation(Seq::empty(), primary));
        assert(position_hits(rows, n)[i].identity.aliases =~= if primary.len() == 0 {
            Seq::empty()
        } else {
            seq![AliasView::of(primary, AliasKind::Designation)]
        });
    }
}

proof fn lemma_hits_len(rows: Seq<PositionRowView>, n: int)
    requires
        0 <= n,
    ensures
        position_hits(rows, n).len() == n,
    decreases n,
{
    if n > 0 {
        lemma_hits_len(rows, n - 1);
    }
}

/// Every row of a cone search has coordinates in range and a distance that is
/// finite and not negative.
pub proof fn cone_rows_are_in_range(line: Seq<char>, numbers: RowNumbers)
    ensures
        position_of(line, numbers) matches Some(p) ==> {
            &&& p.row.ra.right_ascension()
            &&& p.row.dec.declination()
            &&& p.dist.separation()
        },
{
    rows_are_in_range(columns(line).take(9), numbers);
}

} // verus!
