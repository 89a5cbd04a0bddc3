//! What is asked of TAP and what is made of its answers, for every text that is
//! sent and every line that comes back.

use vstd::prelude::*;

use crate::config::ConfigView;
use crate::error::ErrorView;
use crate::normalize::normalized;
use crate::number::{decimal, signed_decimal};
use crate::tap::{
    alias_set, aliases_adql, basic_rows, checked_body, data_lines, doubled_quotes, exceeded,
    first_step, identity_of, next_step, not_blank, objects_adql, position_adql, position_hits,
    position_of, position_rows, tap_service, too_large, FlowView, PositionRowView, StepView,
    TapView, MAX_RESPONSE_BYTES,
};
use crate::tap_laws::{names_are_distinct, primary_designation_is_a_name};
use crate::text::{collapsed, has_infix, has_prefix, lines, trimmed, white_space};
use crate::text_laws::{
    a_line_ends_at_its_line_feed, a_part_occurs_in_the_whole, all_white, an_occurrence_is_a_part,
    lacks, trimming_takes_the_outer_space,
};
use crate::types::{has_display, AliasKind, AliasView};
use crate::wire::{basic_of, columns, unquoted, BasicView, RowNumbers};

verus! {

// ── Queries ──────────────────────────────────────────────────────────────────

/// Quotes are doubled one by one, and every other character is kept.
pub proof fn quotes_are_doubled_one_by_one(a: Seq<char>, c: char, b: Seq<char>)
    ensures
        doubled_quotes(a + b) == doubled_quotes(a) + doubled_quotes(b),
        c != '\'' ==> doubled_quotes(seq![c]) == seq![c],
        doubled_quotes(seq!['\'']) == seq!['\'', '\''],
    decreases b.len(),
{
    let none = Seq::<char>::empty();
    assert(seq![c].drop_last() =~= none);
    assert(seq!['\''].drop_last() =~= none);
    assert(doubled_quotes(none) == none);
    assert(doubled_quotes(seq!['\'']) =~= seq!['\'', '\'']);
    if c != '\'' {
        assert(doubled_quotes(seq![c]) =~= seq![c]);
    }
    if b.len() == 0 {
        assert(a + b =~= a);
        assert(doubled_quotes(a) + doubled_quotes(b) =~= doubled_quotes(a));
    } else {
        let front = b.drop_last();
        assert((a + b).drop_last() =~= a + front);
        quotes_are_doubled_one_by_one(a, c, front);
        assert(doubled_quotes(a + b) =~= doubled_quotes(a) + doubled_quotes(b));
    }
}

/// The query for the objects of a name is one text around the name's literals,
/// whatever the name: the name itself and, where it differs, the name with its
/// white space collapsed.
pub proof fn objects_are_asked_by_name() -> (frame: (Seq<char>, Seq<char>))
    ensures
        forall|name: Seq<char>|
            collapsed(name) == name ==> #[trigger] objects_adql(name) == frame.0 + ("'"@
                + doubled_quotes(name) + "'"@) + frame.1,
        forall|name: Seq<char>|
            collapsed(name) != name ==> #[trigger] objects_adql(name) == frame.0 + (("'"@
                + doubled_quotes(name) + "'"@) + ", "@ + ("'"@ + doubled_quotes(collapsed(name))
                + "'"@)) + frame.1,
        has_infix(frame.0, "WHERE i.id IN ("@),
        frame.1 == ") AND b.ra IS NOT NULL AND b.dec IS NOT NULL"@,
{
    let front =
        "SELECT DISTINCT b.oid, b.main_id, b.ra, b.dec, b.otype_txt, f.V, b.galdim_majaxis, b.galdim_minaxis, b.galdim_angle FROM basic AS b JOIN ident AS i ON i.oidref = b.oid LEFT OUTER JOIN allfluxes AS f ON f.oidref = b.oid WHERE i.id IN ("@;
    reveal_strlit(
        "SELECT DISTINCT b.oid, b.main_id, b.ra, b.dec, b.otype_txt, f.V, b.galdim_majaxis, b.galdim_minaxis, b.galdim_angle FROM basic AS b JOIN ident AS i ON i.oidref = b.oid LEFT OUTER JOIN allfluxes AS f ON f.oidref = b.oid WHERE i.id IN (",
    );
    reveal_strlit("WHERE i.id IN (");
    let n = front.len() - "WHERE i.id IN ("@.len();
    assert(front =~= front.take(n) + "WHERE i.id IN ("@ + Seq::<char>::empty());
    a_part_occurs_in_the_whole(front.take(n), "WHERE i.id IN ("@, Seq::empty());
    (front, ") AND b.ra IS NOT NULL AND b.dec IS NOT NULL"@)
}

/// The identifiers of an object are asked for by its number, whatever it is.
pub proof fn identifiers_are_asked_by_number() -> (front: Seq<char>)
    ensures
        forall|oid: i64| #[trigger] aliases_adql(oid) == front + signed_decimal(oid as int),
{
    "SELECT i.id FROM ident AS i WHERE i.oidref = "@
}

/// The query of a cone search is one text around its arguments, whatever they
/// are: the number of rows, the centre, the centre again and the radius.
pub proof fn cones_are_asked_by_centre_and_radius() -> (frame: (
    Seq<char>,
    Seq<char>,
    Seq<char>,
    Seq<char>,
))
    ensures
        forall|ra: Seq<char>, dec: Seq<char>, radius: Seq<char>, limit: usize| #[trigger]
            position_adql(ra, dec, radius, limit) == frame.0 + decimal(limit as nat) + frame.1
                + ra + ", "@ + dec + frame.2 + ra + ", "@ + dec + ", "@ + radius + frame.3,
{
    (
        "SELECT TOP "@,
        " b.oid, b.main_id, b.ra, b.dec, b.otype_txt, f.V, b.galdim_majaxis, b.galdim_minaxis, b.galdim_angle, DISTANCE(POINT('ICRS', b.ra, b.dec), POINT('ICRS', "@,
        ")) AS dist FROM basic AS b LEFT OUTER JOIN allfluxes AS f ON f.oidref = b.oid WHERE CONTAINS(POINT('ICRS', b.ra, b.dec), CIRCLE('ICRS', "@,
        ")) = 1 AND b.ra IS NOT NULL ORDER BY dist ASC"@,
    )
}

/// A name is asked for as it stands, without the white space around it; a query
/// of white space alone is not sent at all.
pub proof fn names_are_asked_without_outer_space(a: Seq<char>, m: Seq<char>, b: Seq<char>)
    requires
        all_white(a),
        all_white(b),
        m.len() > 0 ==> !white_space(m[0]) && !white_space(m.last()),
    ensures
        m.len() > 0 ==> first_step(a + m + b) == (StepView::Send {
            adql: objects_adql(m),
            next: FlowView::Objects { name: m },
        }),
        m.len() == 0 ==> first_step(a + m + b) == StepView::Finish(
            Err(ErrorView::NotFound(Seq::empty())),
        ),
{
    trimming_takes_the_outer_space(a, m, b);
}

// ── Bodies ───────────────────────────────────────────────────────────────────

/// A body is an error exactly where it holds both the opening of a VOTable and the
/// word of an error; any other body is passed on as it is.
pub proof fn only_error_documents_are_refused(body: Seq<char>)
    ensures
        checked_body(body) is Err <==> (exists|a: Seq<char>, b: Seq<char>|
            body == #[trigger] (a + "<VOTABLE"@ + b)) && (exists|a: Seq<char>, b: Seq<char>|
            body == #[trigger] (a + "ERROR"@ + b)),
        checked_body(body) matches Ok(same) ==> same == body,
        checked_body(body) matches Err(e) ==> e is Parse,
{
    an_occurrence_is_a_part(body, "<VOTABLE"@);
    an_occurrence_is_a_part(body, "ERROR"@);
    if exists|a: Seq<char>, b: Seq<char>| body == #[trigger] (a + "<VOTABLE"@ + b) {
        let (a, b) = choose|a: Seq<char>, b: Seq<char>| body == #[trigger] (a + "<VOTABLE"@ + b);
        a_part_occurs_in_the_whole(a, "<VOTABLE"@, b);
    }
    if exists|a: Seq<char>, b: Seq<char>| body == #[trigger] (a + "ERROR"@ + b) {
        let (a, b) = choose|a: Seq<char>, b: Seq<char>| body == #[trigger] (a + "ERROR"@ + b);
        a_part_occurs_in_the_whole(a, "ERROR"@, b);
    }
}

/// Lines are kept or dropped one by one: a line of white space alone is dropped,
/// and every other line is kept as it is, in its place.
pub proof fn blank_lines_are_dropped_one_by_one(
    a: Seq<Seq<char>>,
    line: Seq<char>,
    b: Seq<Seq<char>>,
)
    ensures
        not_blank(a + b) == not_blank(a) + not_blank(b),
        all_white(line) ==> not_blank(seq![line]) == Seq::<Seq<char>>::empty(),
        !all_white(line) ==> not_blank(seq![line]) == seq![line],
    decreases b.len(),
{
    let none = Seq::<Seq<char>>::empty();
    assert(seq![line].drop_last() =~= none);
    assert(not_blank(none) == none);
    lemma_blank(line);
    if !all_white(line) {
        assert(not_blank(seq![line]) =~= seq![line]);
    }
    if b.len() == 0 {
        assert(a + b =~= a);
        assert(not_blank(a) + not_blank(b) =~= not_blank(a));
    } else {
        assert((a + b).drop_last() =~= a + b.drop_last());
        blank_lines_are_dropped_one_by_one(a, line, b.drop_last());
        assert(not_blank(a + b) =~= not_blank(a) + not_blank(b));
    }
}

/// A text is trimmed to nothing exactly where it is white space alone.
proof fn lemma_blank(line: Seq<char>)
    ensures
        trimmed(line).len() == 0 <==> all_white(line),
{
    let none = Seq::<char>::empty();
    if all_white(line) {
        trimming_takes_the_outer_space(line, none, none);
        assert(line + none + none =~= line);
    }
    if trimmed(line).len() == 0 {
        let frame = crate::text_laws::trimmed_texts_are_framed_by_space(line);
        assert forall|i: int| 0 <= i < line.len() implies white_space(#[trigger] line[i]) by {
            if i < frame.0.len() {
                assert(line[i] == frame.0[i]);
            } else {
                assert(line[i] == frame.1[i - frame.0.len()]);
            }
        }
    }
}

/// The lines behind the first are the data, all but the blank ones; the first line
/// is the heading, and no part of them.
pub proof fn data_stands_behind_the_heading(heading: Seq<char>, rest: Seq<char>)
    requires
        lacks(heading, '\n'),
    ensures
        data_lines(heading + seq!['\n'] + rest) == not_blank(lines(rest)),
{
    if heading.len() > 0 && heading.last() == '\r' {
        let h = heading.drop_last();
        assert forall|i: int| 0 <= i < h.len() implies #[trigger] h[i] != '\n' by {
            assert(h[i] == heading[i]);
        }
        a_line_ends_at_its_line_feed(h, rest);
        assert(h.push('\r') =~= heading);
        assert((seq![h] + lines(rest)).skip(1) =~= lines(rest));
    } else {
        a_line_ends_at_its_line_feed(heading, rest);
        assert((seq![heading] + lines(rest)).skip(1) =~= lines(rest));
    }
}

// ── Rows ─────────────────────────────────────────────────────────────────────

/// The rows of an answer are the lines that make up a row, all of them and in
/// their order. Gives the places of those lines.
pub proof fn every_readable_line_is_a_row(
    data: Seq<Seq<char>>,
    numbers: Seq<RowNumbers>,
    n: int,
) -> (at: Seq<int>)
    requires
        0 <= n <= data.len(),
        numbers.len() == data.len(),
    ensures
        at.len() == basic_rows(data, numbers, n).len(),
        forall|j: int, k: int| 0 <= j < k < at.len() ==> #[trigger] at[j] < #[trigger] at[k],
        forall|k: int|
            0 <= k < at.len() ==> 0 <= #[trigger] at[k] < n && basic_of(
                columns(data[at[k]]),
                numbers[at[k]],
            ) == Some(basic_rows(data, numbers, n)[k]),
        forall|i: int|
            0 <= i < n && basic_of(columns(#[trigger] data[i]), numbers[i]) is Some
                ==> at.contains(i),
    decreases n,
{
    if n == 0 {
        Seq::empty()
    } else {
        let front = every_readable_line_is_a_row(data, numbers, n - 1);
        if basic_of(columns(data[n - 1]), numbers[n - 1]) is Some {
            let at = front.push(n - 1);
            assert forall|i: int|
                0 <= i < n && basic_of(
                    columns(#[trigger] data[i]),
                    numbers[i],
                ) is Some implies at.contains(i) by {
                if i < n - 1 {
                    let k = choose|k: int| 0 <= k < front.len() && front[k] == i;
                    assert(at[k] == i);
                } else {
                    assert(at[front.len() as int] == i);
                }
            }
            at
        } else {
            front
        }
    }
}

/// A line of ten columns or more, whose first nine make up a row and whose
/// distance is finite and not negative, is a row of a cone search, with that row
/// and that distance. No other line is.
pub proof fn near_lines_are_cone_rows(
    line: Seq<char>,
    numbers: RowNumbers,
    found: PositionRowView,
)
    ensures
        position_of(line, numbers) == Some(found) <==> {
            &&& columns(line).len() >= 10
            &&& basic_of(columns(line).take(9), numbers) == Some(found.row)
            &&& numbers.dist == Some(found.dist)
            &&& found.dist.bits < 0x7ff0_0000_0000_0000 || found.dist.bits
                == 0x8000_0000_0000_0000
        },
{
}

/// The rows of a cone search are the lines that make up one, all of them and in
/// their order. Gives the places of those lines.
pub proof fn every_near_line_is_a_cone_row(
    data: Seq<Seq<char>>,
    numbers: Seq<RowNumbers>,
    n: int,
) -> (at: Seq<int>)
    requires
        0 <= n <= data.len(),
        numbers.len() == data.len(),
    ensures
        at.len() == position_rows(data, numbers, n).len(),
        forall|j: int, k: int| 0 <= j < k < at.len() ==> #[trigger] at[j] < #[trigger] at[k],
        forall|k: int|
            0 <= k < at.len() ==> 0 <= #[trigger] at[k] < n && position_of(
                data[at[k]],
                numbers[at[k]],
            ) == Some(position_rows(data, numbers, n)[k]),
        forall|i: int|
            0 <= i < n && position_of(#[trigger] data[i], numbers[i]) is Some ==> at.contains(i),
    decreases n,
{
    if n == 0 {
        Seq::empty()
    } else {
        let front = every_near_line_is_a_cone_row(data, numbers, n - 1);
        if position_of(data[n - 1], numbers[n - 1]) is Some {
            let at = front.push(n - 1);
            assert forall|i: int|
                0 <= i < n && position_of(#[trigger] data[i], numbers[i]) is Some implies at.contains(
            i) by {
                if i < n - 1 {
                    let k = choose|k: int| 0 <= k < front.len() && front[k] == i;
                    assert(at[k] == i);
                } else {
                    assert(at[front.len() as int] == i);
                }
            }
            at
        } else {
            front
        }
    }
}

/// An answer of one row goes on to the identifiers of that row's object. One
/// without rows says that the name is not found, and one of several rows that it
/// is ambiguous, with their number.
pub proof fn one_row_is_looked_up(name: Seq<char>, body: Seq<char>, numbers: Seq<RowNumbers>)
    ensures
        ({
            let data = data_lines(body);
            let rows = basic_rows(data, numbers, data.len() as int);
            let next = next_step(FlowView::Objects { name }, body, numbers);
            &&& rows.len() == 1 ==> next == (StepView::Send {
                adql: aliases_adql(rows[0].oid),
                next: FlowView::Aliases { row: rows[0] },
            })
            &&& rows.len() == 0 ==> next == StepView::Finish(Err(ErrorView::NotFound(name)))
            &&& 2 <= rows.len() <= usize::MAX ==> (next matches StepView::Finish(
                Err(ErrorView::Ambiguous { query, count }),
            ) && query == name && count == rows.len())
        }),
{
}

// ── Names ────────────────────────────────────────────────────────────────────

/// Whether a line of an answer gives a common name.
pub open spec fn gives_common_name(line: Seq<char>) -> bool {
    "NAME "@.is_prefix_of(unquoted(line))
}

/// The display form that a line of an answer gives: what stands behind the mark of
/// a common name, without the white space around it, or else the identifier with
/// its white space collapsed.
pub open spec fn display_given(line: Seq<char>) -> Seq<char> {
    if gives_common_name(line) {
        trimmed(unquoted(line).skip(5))
    } else {
        collapsed(unquoted(line))
    }
}

/// The name that a line of an answer gives.
pub open spec fn name_given(line: Seq<char>) -> AliasView {
    AliasView::of(
        display_given(line),
        if gives_common_name(line) {
            AliasKind::CommonName
        } else {
            AliasKind::Designation
        },
    )
}

proof fn lemma_mark(line: Seq<char>)
    ensures
        gives_common_name(line) <==> has_prefix(unquoted(line), "NAME "@),
        "NAME "@.len() == 5,
        unquoted(line).len() == 0 ==> !gives_common_name(line) && display_given(line).len() == 0,
{
    let id = unquoted(line);
    let mark = "NAME "@;
    reveal_strlit("NAME ");
    if mark.is_prefix_of(id) {
        assert(id.subrange(0, mark.len() as int) =~= mark);
    }
    if has_prefix(id, mark) {
        assert(mark =~= id.subrange(0, mark.len() as int));
    }
    if id.len() == 0 {
        assert(crate::text::words(id) =~= Seq::empty());
    }
}

/// Every line of an answer gives its name, wherever in the answer it stands and
/// whatever stands before and after it, unless the name is empty; the first line
/// of a display form also says of what kind the name is.
pub proof fn every_line_gives_its_name(data: Seq<Seq<char>>, n: int, i: int)
    requires
        0 <= i < n <= data.len(),
        display_given(data[i]).len() > 0,
    ensures
        exists|k: int|
            0 <= k < alias_set(data, n).0.len() && (#[trigger] alias_set(data, n).0[k]).alias
                == display_given(data[i]),
        (forall|j: int|
            0 <= j < i ==> display_given(#[trigger] data[j]) != display_given(data[i]))
            ==> alias_set(data, n).0.contains(name_given(data[i])),
    decreases n,
{
    let front = alias_set(data, n - 1).0;
    let all = alias_set(data, n).0;
    let display = display_given(data[i]);
    lemma_mark(data[n - 1]);
    lemma_front_is_kept(data, n);
    if i < n - 1 {
        every_line_gives_its_name(data, n - 1, i);
        let k = choose|k: int| 0 <= k < front.len() && (#[trigger] front[k]).alias == display;
        assert(all[k].alias == display);
        if front.contains(name_given(data[i])) {
            let m = choose|m: int| 0 <= m < front.len() && front[m] == name_given(data[i]);
            assert(all[m] == front[m]);
        }
    } else {
        if has_display(front, display) {
            let k = choose|k: int| 0 <= k < front.len() && (#[trigger] front[k]).alias == display;
            assert(all[k].alias == display);
            names_come_from_lines(data, n - 1, k);
            let j = choose|j: int| 0 <= j < n - 1 && #[trigger] name_given(data[j]) == front[k];
            assert(display_given(data[j]) == display);
        } else {
            assert(all[front.len() as int] == name_given(data[i]));
        }
    }
}

proof fn lemma_front_is_kept(data: Seq<Seq<char>>, n: int)
    requires
        n > 0,
    ensures
        ({
            let front = alias_set(data, n - 1).0;
            let all = alias_set(data, n).0;
            let display = display_given(data[n - 1]);
            all == if display.len() == 0 || has_display(front, display) {
                front
            } else {
                front.push(name_given(data[n - 1]))
            }
        }),
{
    lemma_mark(data[n - 1]);
}

/// Nothing but the lines gives names: every name is the one that some line gives,
/// with that line's kind.
pub proof fn names_come_from_lines(data: Seq<Seq<char>>, n: int, k: int)
    requires
        0 <= n <= data.len(),
        0 <= k < alias_set(data, n).0.len(),
    ensures
        exists|i: int| 0 <= i < n && #[trigger] name_given(data[i]) == alias_set(data, n).0[k],
        alias_set(data, n).0[k].alias.len() > 0,
    decreases n,
{
    lemma_mark(data[n - 1]);
    lemma_front_is_kept(data, n);
    let front = alias_set(data, n - 1).0;
    if k < front.len() {
        names_come_from_lines(data, n - 1, k);
        let i = choose|i: int| 0 <= i < n - 1 && #[trigger] name_given(data[i]) == front[k];
        assert(name_given(data[i]) == alias_set(data, n).0[k]);
    } else {
        assert(name_given(data[n - 1]) == alias_set(data, n).0[k]);
    }
}

/// The common name is that of the first line that gives one; without such a line
/// there is none.
pub proof fn the_first_common_name_counts(data: Seq<Seq<char>>, n: int)
    requires
        0 <= n <= data.len(),
    ensures
        forall|i: int|
            0 <= i < n && gives_common_name(#[trigger] data[i]) && (forall|j: int|
                0 <= j < i ==> !gives_common_name(#[trigger] data[j])) ==> alias_set(data, n).1
                == Some(display_given(data[i])),
        (forall|i: int| 0 <= i < n ==> !gives_common_name(#[trigger] data[i])) ==> alias_set(
            data,
            n,
        ).1 is None,
        alias_set(data, n).1 is Some ==> exists|i: int|
            0 <= i < n && gives_common_name(#[trigger] data[i]),
    decreases n,
{
    if n > 0 {
        the_first_common_name_counts(data, n - 1);
        lemma_mark(data[n - 1]);
        if alias_set(data, n - 1).1 is Some {
            let i = choose|i: int| 0 <= i < n - 1 && gives_common_name(#[trigger] data[i]);
            assert(gives_common_name(data[i]));
        } else if gives_common_name(data[n - 1]) {
            assert(gives_common_name(data[n - 1]));
        }
    }
}

/// The identity that a lookup ends with has every name of the answer's data lines
/// and, as a designation, the collapsed main identifier of the row.
pub proof fn lookups_find_every_name(
    row: BasicView,
    body: Seq<char>,
    numbers: Seq<RowNumbers>,
    i: int,
)
    requires
        0 <= i < data_lines(body).len(),
        display_given(data_lines(body)[i]).len() > 0,
    ensures
        next_step(FlowView::Aliases { row }, body, numbers) matches StepView::Finish(Ok(found))
            && (exists|k: int|
            0 <= k < found.aliases.len() && (#[trigger] found.aliases[k]).alias == display_given(
                data_lines(body)[i],
            )) && (collapsed(row.main_id).len() > 0 ==> exists|k: int|
            0 <= k < found.aliases.len() && (#[trigger] found.aliases[k]).alias == collapsed(
                row.main_id,
            ) && found.aliases[k].kind == AliasKind::Designation),
{
    let data = data_lines(body);
    let n = data.len() as int;
    let display = display_given(data[i]);
    let (aliases, common_name) = alias_set(data, n);
    every_line_gives_its_name(data, n, i);
    names_are_distinct(data, n);
    primary_designation_is_a_name(row, aliases, common_name);
    let found = identity_of(row, aliases, common_name);
    let k = choose|k: int| 0 <= k < aliases.len() && (#[trigger] aliases[k]).alias == display;
    assert(found.aliases[k].alias == display);
    if collapsed(row.main_id).len() > 0 {
        let m = choose|m: int|
            0 <= m < found.aliases.len() && (#[trigger] found.aliases[m]).alias == collapsed(
                row.main_id,
            ) && found.aliases[m].kind == AliasKind::Designation;
        assert(found.aliases[m].alias == collapsed(row.main_id));
    }
}

/// The identity that a lookup ends with has the common name of the first data line
/// that gives one, and none without such a line.
pub proof fn lookups_find_the_common_name(
    row: BasicView,
    body: Seq<char>,
    numbers: Seq<RowNumbers>,
    i: int,
)
    ensures
        next_step(FlowView::Aliases { row }, body, numbers) matches StepView::Finish(Ok(found)) && {
            let data = data_lines(body);
            &&& (0 <= i < data.len() && gives_common_name(data[i]) && forall|j: int|
                0 <= j < i ==> !gives_common_name(#[trigger] data[j])) ==> found.common_name
                == Some(display_given(data[i]))
            &&& (forall|j: int| 0 <= j < data.len() ==> !gives_common_name(#[trigger] data[j]))
                ==> found.common_name is None
        },
{
    let data = data_lines(body);
    the_first_common_name_counts(data, data.len() as int);
}

/// The identity of a row has the row's measurements and type, the common name that
/// it was given, and the names that it was given with the primary designation behind
/// them where it is not one of them.
pub proof fn identities_keep_the_row(
    row: BasicView,
    aliases: Seq<AliasView>,
    common_name: Option<Seq<char>>,
)
    ensures
        ({
            let found = identity_of(row, aliases, common_name);
            &&& found.simbad_oid == Some(row.oid)
            &&& found.primary_designation == collapsed(row.main_id)
            &&& found.common_name == common_name
            &&& found.object_type == crate::types::otype_of(trimmed(row.otype))
            &&& found.otype_raw == row.otype
            &&& found.ra_deg == row.ra
            &&& found.dec_deg == row.dec
            &&& found.v_mag == row.v_mag
            &&& found.galdim_majaxis_arcmin == row.galdim_majaxis
            &&& found.galdim_minaxis_arcmin == row.galdim_minaxis
            &&& found.galdim_angle_deg == row.galdim_angle
            &&& found.aliases == if found.primary_designation.len() == 0 || (exists|k: int|
                0 <= k < aliases.len() && (#[trigger] aliases[k]).alias
                    == found.primary_designation && aliases[k].kind == AliasKind::Designation) {
                aliases
            } else {
                aliases.push(
                    AliasView {
                        alias: found.primary_designation,
                        normalized: normalized(found.primary_designation),
                        kind: AliasKind::Designation,
                    },
                )
            }
        }),
{
}

/// The hits of a cone search are the identities of its rows, with nothing but the
/// rows to go by, and their distances, one for each row and in their order.
pub proof fn every_cone_row_is_a_hit(rows: Seq<PositionRowView>, n: int, i: int)
    requires
        0 <= i < n <= rows.len(),
    ensures
        position_hits(rows, n).len() == n,
        position_hits(rows, n)[i].identity == identity_of(rows[i].row, Seq::empty(), None),
        position_hits(rows, n)[i].separation_deg == rows[i].dist,
    decreases n,
{
    if i < n - 1 {
        every_cone_row_is_a_hit(rows, n - 1, i);
    } else if n > 1 {
        every_cone_row_is_a_hit(rows, n - 1, 0);
    } else {
        assert(position_hits(rows, 0).len() == 0);
    }
}

// ── The service ──────────────────────────────────────────────────────────────

/// A service is asked at the address that was read, with the time limit and the user
/// agent of the configuration; an address that cannot be read is an error of the
/// network that shows it and says why.
pub proof fn services_have_their_configuration(
    config: ConfigView,
    url: Seq<char>,
    message: Seq<char>,
    shown: Seq<char>,
)
    ensures
        tap_service(config, Ok(url), shown) == Ok::<TapView, ErrorView>(
            TapView { endpoint: url, timeout: config.timeout, user_agent: config.user_agent },
        ),
        tap_service(config, Err(message), shown) == Err::<TapView, ErrorView>(
            ErrorView::Network("invalid TAP endpoint "@ + shown + ": "@ + message),
        ),
{
}

/// Answers of up to eight mebibytes are taken; the refusals name that number and,
/// where it was announced, the length.
pub proof fn answers_have_a_cap(len: u64)
    ensures
        MAX_RESPONSE_BYTES == 8 * 1024 * 1024,
        too_large(len) == ErrorView::Parse(
            "SIMBAD response too large ("@ + decimal(len as nat) + " bytes > "@ + decimal(
                8 * 1024 * 1024,
            ) + " cap)"@,
        ),
        exceeded() == ErrorView::Parse(
            "SIMBAD response exceeded "@ + decimal(8 * 1024 * 1024) + " byte cap"@,
        ),
{
}

} // verus!
