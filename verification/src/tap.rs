//! The SIMBAD TAP service: queries, and what is made of the answers.
//!
//! A name takes two requests. The first finds the objects whose identifier is
//! the name, as given and with its white space collapsed; the second gets all
//! identifiers of the one object found. A position takes one request. Sending a
//! request and collecting its answer is the business of the caller; this module
//! writes the queries, bounds the answer, and reads it.

use vstd::prelude::*;
use vstd::utf8::{decode_utf8, valid_utf8};

use crate::config::{ConfigView, SimbadConfig, Timeout, DEFAULT_TAP_ENDPOINT, DEFAULT_USER_AGENT};
use crate::endpoint::{debug_form, debug_text, parse_url, url_of};
use crate::error::{ErrorView, ResolveError};
use crate::float::Double;
use crate::number::{decimal, push_decimal, push_signed, signed_decimal};
use crate::order::views;
use crate::text::{chars_of, collapsed, contains, has_infix, has_prefix, lines, lines_of, push_text, same_text, split_at_char, starts_with, text_between, texts, trim, trimmed};
use crate::types::{designates, displays, has_designation, has_display, map_otype, opt_text, otype_of, AliasKind, AliasView, IdentityView, PositionMatch, PositionView, ResolvedAlias, ResolvedIdentity, TargetSource};
use crate::wire::{basic_of, basic_row_of, collapse_spaces, columns, parse_basic_row, unquote, unquoted, BasicRow, BasicView, RowNumbers};

verus! {

/// The largest answer that is accepted, in bytes.
pub const MAX_RESPONSE_BYTES: u64 = 8_388_608;

// ── Queries ──────────────────────────────────────────────────────────────────

/// `s` with every single quote doubled.
pub open spec fn doubled_quotes(s: Seq<char>) -> Seq<char>
    decreases s.len(),
{
    if s.len() == 0 {
        s
    } else if s.last() == '\'' {
        doubled_quotes(s.drop_last()).push('\'').push('\'')
    } else {
        doubled_quotes(s.drop_last()).push(s.last())
    }
}

/// `s` as a string literal of ADQL.
pub open spec fn quoted(s: Seq<char>) -> Seq<char> {
    "'"@ + doubled_quotes(s) + "'"@
}

/// The literals that a name is looked up by: as given, and with its white space
/// collapsed where that differs.
pub open spec fn id_list(query: Seq<char>) -> Seq<char> {
    if collapsed(query) == query {
        quoted(query)
    } else {
        quoted(query) + ", "@ + quoted(collapsed(query))
    }
}

/// The query for the objects of a name.
pub open spec fn objects_adql(query: Seq<char>) -> Seq<char> {
    "SELECT DISTINCT b.oid, b.main_id, b.ra, b.dec, b.otype_txt, f.V, b.galdim_majaxis, b.galdim_minaxis, b.galdim_angle FROM basic AS b JOIN ident AS i ON i.oidref = b.oid LEFT OUTER JOIN allfluxes AS f ON f.oidref = b.oid WHERE i.id IN ("@
        + id_list(query) + ") AND b.ra IS NOT NULL AND b.dec IS NOT NULL"@
}

/// The query for the identifiers of an object.
pub open spec fn aliases_adql(oid: i64) -> Seq<char> {
    "SELECT i.id FROM ident AS i WHERE i.oidref = "@ + signed_decimal(oid as int)
}

/// The query for the objects around a position, nearest first.
pub open spec fn position_adql(
    ra: Seq<char>,
    dec: Seq<char>,
    radius: Seq<char>,
    limit: usize,
) -> Seq<char> {
    "SELECT TOP "@ + decimal(limit as nat)
        + " b.oid, b.main_id, b.ra, b.dec, b.otype_txt, f.V, b.galdim_majaxis, b.galdim_minaxis, b.galdim_angle, DISTANCE(POINT('ICRS', b.ra, b.dec), POINT('ICRS', "@
        + ra + ", "@ + dec
        + ")) AS dist FROM basic AS b LEFT OUTER JOIN allfluxes AS f ON f.oidref = b.oid WHERE CONTAINS(POINT('ICRS', b.ra, b.dec), CIRCLE('ICRS', "@
        + ra + ", "@ + dec + ", "@ + radius + ")) = 1 AND b.ra IS NOT NULL ORDER BY dist ASC"@
}

fn double_quotes(s: &str) -> (out: String)
    ensures
        out@ == doubled_quotes(s@),
{
    let chars = chars_of(s);
    let mut out = String::new();
    let mut i: usize = 0;
    assert(chars@.take(0) =~= Seq::empty());
    while i < chars.len()
        invariant
            i <= chars@.len(),
            out@ == doubled_quotes(chars@.take(i as int)),
        decreases chars@.len() - i,
    {
        let c = chars[i];
        proof {
            assert(chars@.take(i + 1).drop_last() =~= chars@.take(i as int));
            assert(chars@.take(i + 1).last() == c);
        }
        if c == '\'' {
            out.push('\'');
        }
        out.push(c);
        i += 1;
    }
    assert(chars@.take(chars@.len() as int) =~= chars@);
    out
}

fn push_quoted(out: &mut String, s: &str)
    ensures
        final(out)@ == old(out)@ + quoted(s@),
{
    let ghost start = out@;
    push_text(out, "'");
    push_text(out, double_quotes(s).as_str());
    push_text(out, "'");
    assert(out@ =~= start + quoted(s@));
}

/// The query for the objects of a name.
pub fn objects_query(query: &str) -> (out: String)
    ensures
        out@ == objects_adql(query@),
{
    let mut out = String::new();
    push_text(
        &mut out,
        "SELECT DISTINCT b.oid, b.main_id, b.ra, b.dec, b.otype_txt, f.V, b.galdim_majaxis, b.galdim_minaxis, b.galdim_angle FROM basic AS b JOIN ident AS i ON i.oidref = b.oid LEFT OUTER JOIN allfluxes AS f ON f.oidref = b.oid WHERE i.id IN (",
    );
    push_quoted(&mut out, query);
    let plain = collapse_spaces(query);
    if !same_text(plain.as_str(), query) {
        push_text(&mut out, ", ");
        push_quoted(&mut out, plain.as_str());
    }
    push_text(&mut out, ") AND b.ra IS NOT NULL AND b.dec IS NOT NULL");
    assert(out@ =~= objects_adql(query@));
    out
}

/// The query for the identifiers of an object.
pub fn aliases_query(oid: i64) -> (out: String)
    ensures
        out@ == aliases_adql(oid),
{
    let mut out = String::new();
    push_text(&mut out, "SELECT i.id FROM ident AS i WHERE i.oidref = ");
    push_signed(&mut out, oid);
    assert(out@ =~= aliases_adql(oid));
    out
}

/// The query for at most `limit` objects around a position, nearest first. The
/// coordinates and the radius are given in degrees, as decimal text.
pub fn position_query(ra: &str, dec: &str, radius: &str, limit: usize) -> (out: String)
    ensures
        out@ == position_adql(ra@, dec@, radius@, limit),
{
    let mut out = String::new();
    push_text(&mut out, "SELECT TOP ");
    push_decimal(&mut out, limit as u64);
    push_text(
        &mut out,
        " b.oid, b.main_id, b.ra, b.dec, b.otype_txt, f.V, b.galdim_majaxis, b.galdim_minaxis, b.galdim_angle, DISTANCE(POINT('ICRS', b.ra, b.dec), POINT('ICRS', ",
    );
    push_text(&mut out, ra);
    push_text(&mut out, ", ");
    push_text(&mut out, dec);
    push_text(
        &mut out,
        ")) AS dist FROM basic AS b LEFT OUTER JOIN allfluxes AS f ON f.oidref = b.oid WHERE CONTAINS(POINT('ICRS', b.ra, b.dec), CIRCLE('ICRS', ",
    );
    push_text(&mut out, ra);
    push_text(&mut out, ", ");
    push_text(&mut out, dec);
    push_text(&mut out, ", ");
    push_text(&mut out, radius);
    push_text(&mut out, ")) = 1 AND b.ra IS NOT NULL ORDER BY dist ASC");
    assert(out@ =~= position_adql(ra@, dec@, radius@, limit));
    out
}

// ── Requests and answers ─────────────────────────────────────────────────────

/// The text that bytes stand for, with every invalid part replaced: what
/// `String::from_utf8_lossy` gives.
pub uninterp spec fn lossy_text(bytes: Seq<u8>) -> Seq<char>;

/// `String::from_utf8_lossy`: bytes that are valid UTF-8 stand for their text;
/// nothing is claimed of how other bytes are replaced.
#[verifier::external_body]
pub(crate) fn text_from_bytes(bytes: &Vec<u8>) -> (s: String)
    ensures
        s@ == lossy_text(bytes@),
        valid_utf8(bytes@) ==> s@ == decode_utf8(bytes@),
{
    String::from_utf8_lossy(bytes).into_owned()
}

/// Whether an answer reports an error in the form of a VOTable.
pub open spec fn votable_error(body: Seq<char>) -> bool {
    has_infix(body, "<VOTABLE"@) && has_infix(body, "ERROR"@)
}

/// Whether an answer reports an error in the form of a VOTable, as the service
/// does under a successful status.
pub fn is_votable_error(body: &str) -> (r: bool)
    ensures
        r == votable_error(body@),
{
    contains(body, "<VOTABLE") && contains(body, "ERROR")
}

/// The text of an answer, or the error that it reports.
pub open spec fn checked_body(body: Seq<char>) -> Result<Seq<char>, ErrorView> {
    if votable_error(body) {
        Err(ErrorView::Parse("SIMBAD returned a VOTable error"@))
    } else {
        Ok(body)
    }
}

/// Let an answer pass unless it reports an error.
pub fn check_body(body: String) -> (r: Result<String, ResolveError>)
    ensures
        match r {
            Ok(text) => checked_body(body@) == Ok::<_, ErrorView>(text@),
            Err(e) => checked_body(body@) == Err::<Seq<char>, _>(e@),
        },
{
    if is_votable_error(body.as_str()) {
        Err(ResolveError::Parse("SIMBAD returned a VOTable error".to_owned()))
    } else {
        Ok(body)
    }
}

/// The complaint about an announced length above the bound.
pub open spec fn too_large(len: u64) -> ErrorView {
    ErrorView::Parse(
        "SIMBAD response too large ("@ + decimal(len as nat) + " bytes > "@ + decimal(
            MAX_RESPONSE_BYTES as nat,
        ) + " cap)"@,
    )
}

/// The complaint about an answer that turned out above the bound.
pub open spec fn exceeded() -> ErrorView {
    ErrorView::Parse(
        "SIMBAD response exceeded "@ + decimal(MAX_RESPONSE_BYTES as nat) + " byte cap"@,
    )
}

/// An answer that is being received, never more than [`MAX_RESPONSE_BYTES`].
pub struct ResponseBuffer {
    bytes: Vec<u8>,
}

impl View for ResponseBuffer {
    type V = Seq<u8>;

    closed spec fn view(&self) -> Seq<u8> {
        self.bytes@
    }
}

impl ResponseBuffer {
    /// Start receiving an answer whose length may have been announced; refuse
    /// one that is announced to be too long.
    pub fn start(announced: Option<u64>) -> (r: Result<Self, ResolveError>)
        ensures
            match r {
                Ok(b) => b@ == Seq::<u8>::empty() && (announced matches Some(len) ==> len
                    <= MAX_RESPONSE_BYTES),
                Err(e) => announced matches Some(len) && len > MAX_RESPONSE_BYTES && e@
                    == too_large(len),
            },
    {
        if let Some(len) = announced {
            if len > MAX_RESPONSE_BYTES {
                let mut m = String::new();
                push_text(&mut m, "SIMBAD response too large (");
                push_decimal(&mut m, len);
                push_text(&mut m, " bytes > ");
                push_decimal(&mut m, MAX_RESPONSE_BYTES);
                push_text(&mut m, " cap)");
                let e = ResolveError::Parse(m);
                proof {
                    let whole = "SIMBAD response too large ("@ + decimal(len as nat) + " bytes > "@
                        + decimal(MAX_RESPONSE_BYTES as nat) + " cap)"@;
                    assert(m@ =~= whole);
                }
                return Err(e);
            }
        }
        Ok(ResponseBuffer { bytes: Vec::new() })
    }

    /// Take in the next part of the answer; refuse it where the whole becomes
    /// too long.
    pub fn extend(&mut self, chunk: &[u8]) -> (r: Result<(), ResolveError>)
        requires
            old(self)@.len() <= MAX_RESPONSE_BYTES,
        ensures
            final(self)@.len() <= MAX_RESPONSE_BYTES,
            match r {
                Ok(_) => final(self)@ == old(self)@ + chunk@,
                Err(e) => {
                    &&& old(self)@.len() + chunk@.len() > MAX_RESPONSE_BYTES
                    &&& e@ == exceeded()
                    &&& final(self)@ == old(self)@
                },
            },
    {
        let total: u128 = self.bytes.len() as u128 + chunk.len() as u128;
        if total > MAX_RESPONSE_BYTES as u128 {
            let mut m = String::new();
            push_text(&mut m, "SIMBAD response exceeded ");
            push_decimal(&mut m, MAX_RESPONSE_BYTES);
            push_text(&mut m, " byte cap");
            proof {
                let whole = "SIMBAD response exceeded "@ + decimal(MAX_RESPONSE_BYTES as nat)
                    + " byte cap"@;
                assert(m@ =~= whole);
            }
            return Err(ResolveError::Parse(m));
        }
        let ghost start = self.bytes@;
        let mut i: usize = 0;
        assert(chunk@.take(0) =~= Seq::empty());
        while i < chunk.len()
            invariant
                i <= chunk@.len(),
                self.bytes@ == start + chunk@.take(i as int),
            decreases chunk@.len() - i,
        {
            self.bytes.push(chunk[i]);
            i += 1;
            proof {
                assert(chunk@.take(i as int) =~= chunk@.take(i - 1).push(chunk@[i - 1]));
            }
        }
        assert(chunk@.take(chunk@.len() as int) =~= chunk@);
        Ok(())
    }

    /// The text of the whole answer, or the error that it reports.
    pub fn finish(self) -> (r: Result<String, ResolveError>)
        ensures
            match r {
                Ok(text) => checked_body(lossy_text(self@)) == Ok::<_, ErrorView>(text@),
                Err(e) => checked_body(lossy_text(self@)) == Err::<Seq<char>, _>(e@),
            },
            valid_utf8(self@) ==> lossy_text(self@) == decode_utf8(self@),
    {
        check_body(text_from_bytes(&self.bytes))
    }
}

/// What a failed request comes to: a timeout, or a failure of the network.
pub fn classify_failure(timed_out: bool, message: String, timeout: Timeout) -> (r: ResolveError)
    ensures
        r@ == if timed_out {
            ErrorView::Timeout(timeout.secs)
        } else {
            ErrorView::Network(message@)
        },
{
    if timed_out {
        ResolveError::Timeout(timeout.secs)
    } else {
        ResolveError::Network(message)
    }
}

// ── Reading answers ──────────────────────────────────────────────────────────

/// The lines of `s` that are not blank.
pub open spec fn not_blank(s: Seq<Seq<char>>) -> Seq<Seq<char>>
    decreases s.len(),
{
    if s.len() == 0 {
        s
    } else if trimmed(s.last()).len() == 0 {
        not_blank(s.drop_last())
    } else {
        not_blank(s.drop_last()).push(s.last())
    }
}

/// The data lines of an answer: those after the header that are not blank.
pub open spec fn data_lines(body: Seq<char>) -> Seq<Seq<char>> {
    let all = lines(body);
    if all.len() == 0 {
        all
    } else {
        not_blank(all.skip(1))
    }
}

/// The data lines of an answer: those after the header that are not blank.
pub fn tsv_data_lines(body: &str) -> (out: Vec<String>)
    ensures
        texts(out@) == data_lines(body@),
{
    let all = lines_of(body);
    let ghost rest = if all@.len() == 0 {
        texts(all@)
    } else {
        texts(all@).skip(1)
    };
    let mut out: Vec<String> = Vec::new();
    assert(texts(out@) =~= Seq::empty());
    if all.len() == 0 {
        assert(texts(all@) =~= Seq::empty());
        return out;
    }
    let mut i: usize = 1;
    assert(rest.take(0) =~= Seq::empty());
    while i < all.len()
        invariant
            1 <= i <= all@.len(),
            rest == texts(all@).skip(1),
            texts(out@) == not_blank(rest.take(i - 1)),
        decreases all@.len() - i,
    {
        let ghost done = out@;
        proof {
            assert(rest.take(i as int).drop_last() =~= rest.take(i - 1));
            assert(rest.take(i as int).last() == all@[i as int]@);
        }
        if !trim(all[i].as_str()).as_str().is_empty() {
            let line = all[i].clone();
            out.push(line);
            assert(texts(out@) =~= texts(done).push(line@));
        }
        i += 1;
    }
    assert(rest.take(rest.len() as int) =~= rest);
    out
}

/// The numbers of line `i`; a line that none are given for has none.
pub open spec fn numbers_at(numbers: Seq<RowNumbers>, i: int) -> RowNumbers {
    if 0 <= i < numbers.len() {
        numbers[i]
    } else {
        RowNumbers::nothing()
    }
}

fn numbers_for(numbers: &Vec<RowNumbers>, i: usize) -> (r: RowNumbers)
    ensures
        r == numbers_at(numbers@, i as int),
{
    if i < numbers.len() {
        numbers[i]
    } else {
        RowNumbers { ra: None, dec: None, v_mag: None, majaxis: None, minaxis: None, dist: None }
    }
}

/// The rows of the first `n` of `data`; lines that are no rows are dropped.
pub open spec fn basic_rows(
    data: Seq<Seq<char>>,
    numbers: Seq<RowNumbers>,
    n: int,
) -> Seq<BasicView>
    decreases n,
{
    if n <= 0 {
        Seq::empty()
    } else {
        let front = basic_rows(data, numbers, n - 1);
        match basic_of(columns(data[n - 1]), numbers_at(numbers, n - 1)) {
            Some(row) => front.push(row),
            None => front,
        }
    }
}

/// The rows of an answer, given the numbers that each data line reads as. Lines
/// that are no rows are dropped.
pub fn parse_basic_rows(body: &str, numbers: &Vec<RowNumbers>) -> (out: Vec<BasicRow>)
    ensures
        views(out@) == basic_rows(
            data_lines(body@),
            numbers@,
            data_lines(body@).len() as int,
        ),
{
    let data = tsv_data_lines(body);
    let ghost all = data_lines(body@);
    let mut out: Vec<BasicRow> = Vec::new();
    let mut i: usize = 0;
    assert(views(out@) =~= Seq::empty());
    while i < data.len()
        invariant
            all == texts(data@),
            i <= data@.len(),
            views(out@) == basic_rows(all, numbers@, i as int),
        decreases data@.len() - i,
    {
        let ghost done = out@;
        assert(all[i as int] == data@[i as int]@);
        if let Some(row) = parse_basic_row(data[i].as_str(), &numbers_for(numbers, i)) {
            out.push(row);
            assert(views(out@) =~= views(done).push(row@));
        }
        i += 1;
    }
    out
}

/// The view of a [`PositionRow`].
#[verifier::ext_equal]
pub struct PositionRowView {
    pub row: BasicView,
    pub dist: Double,
}

/// A row of a cone search: a row, and its distance from the searched position.
#[derive(Debug, PartialEq)]
pub struct PositionRow {
    /// The row.
    pub row: BasicRow,
    /// The distance in degrees.
    pub dist: Double,
}

impl View for PositionRow {
    type V = PositionRowView;

    open spec fn view(&self) -> PositionRowView {
        PositionRowView { row: self.row@, dist: self.dist }
    }
}

/// The row of a line of a cone search: its first nine columns make up a row, and
/// the tenth is a distance, finite and not negative.
pub open spec fn position_of(line: Seq<char>, numbers: RowNumbers) -> Option<PositionRowView> {
    let c = columns(line);
    if c.len() < 10 {
        None
    } else {
        match (basic_of(c.take(9), numbers), numbers.dist) {
            (Some(row), Some(dist)) => if dist.separation() {
                Some(PositionRowView { row, dist })
            } else {
                None
            },
            _ => None,
        }
    }
}

/// Read a row of a cone search, given the numbers that it reads as.
pub fn parse_position_row(line: &str, numbers: &RowNumbers) -> (r: Option<PositionRow>)
    ensures
        match r {
            Some(row) => position_of(line@, *numbers) == Some(row@),
            None => position_of(line@, *numbers) is None,
        },
{
    let mut fields = split_at_char(line, '\t');
    let ghost c = columns(line@);
    if fields.len() < 10 {
        return None;
    }
    fields.truncate(9);
    assert(texts(fields@) =~= c.take(9));
    match (basic_row_of(&fields, numbers), numbers.dist) {
        (Some(row), Some(dist)) => if dist.is_separation() {
            Some(PositionRow { row, dist })
        } else {
            None
        },
        _ => None,
    }
}

/// The rows of the first `n` of the lines of a cone search.
pub open spec fn position_rows(
    data: Seq<Seq<char>>,
    numbers: Seq<RowNumbers>,
    n: int,
) -> Seq<PositionRowView>
    decreases n,
{
    if n <= 0 {
        Seq::empty()
    } else {
        let front = position_rows(data, numbers, n - 1);
        match position_of(data[n - 1], numbers_at(numbers, n - 1)) {
            Some(row) => front.push(row),
            None => front,
        }
    }
}

/// The rows of the answer to a cone search, given the numbers that each data
/// line reads as.
pub fn parse_position_rows(body: &str, numbers: &Vec<RowNumbers>) -> (out: Vec<PositionRow>)
    ensures
        views(out@) == position_rows(
            data_lines(body@),
            numbers@,
            data_lines(body@).len() as int,
        ),
{
    let data = tsv_data_lines(body);
    let ghost all = data_lines(body@);
    let mut out: Vec<PositionRow> = Vec::new();
    let mut i: usize = 0;
    assert(views(out@) =~= Seq::empty());
    while i < data.len()
        invariant
            all == texts(data@),
            i <= data@.len(),
            views(out@) == position_rows(all, numbers@, i as int),
        decreases data@.len() - i,
    {
        let ghost done = out@;
        assert(all[i as int] == data@[i as int]@);
        if let Some(row) = parse_position_row(data[i].as_str(), &numbers_for(numbers, i)) {
            out.push(row);
            assert(views(out@) =~= views(done).push(row@));
        }
        i += 1;
    }
    out
}

// ── Identities ───────────────────────────────────────────────────────────────

/// `s` with an alias added, unless it is empty or its display form is there.
pub open spec fn with_display(s: Seq<AliasView>, alias: Seq<char>, kind: AliasKind) -> Seq<
    AliasView,
> {
    if alias.len() == 0 || has_display(s, alias) {
        s
    } else {
        s.push(AliasView::of(alias, kind))
    }
}

/// Add an alias, unless it is empty or its display form is there already.
pub fn push_unique(out: &mut Vec<ResolvedAlias>, alias: &str, kind: AliasKind)
    ensures
        views(final(out)@) == with_display(views(old(out)@), alias@, kind),
{
    if alias.is_empty() || displays(out, alias) {
        return ;
    }
    let ghost had = out@;
    let item = ResolvedAlias::new(alias, kind);
    out.push(item);
    assert(views(out@) =~= views(had).push(item@));
}

/// The mark of an identifier that is a common name.
pub open spec fn name_mark() -> Seq<char> {
    "NAME "@
}

/// The aliases and the common name that the first `n` identifiers make up. An
/// identifier behind the mark is a common name, the first of which is *the*
/// common name; any other is a designation.
pub open spec fn alias_set(data: Seq<Seq<char>>, n: int) -> (Seq<AliasView>, Option<Seq<char>>)
    decreases n,
{
    if n <= 0 {
        (Seq::empty(), None)
    } else {
        let (front, common) = alias_set(data, n - 1);
        let id = unquoted(data[n - 1]);
        if id.len() == 0 {
            (front, common)
        } else if has_prefix(id, name_mark()) {
            let name = trimmed(id.skip(name_mark().len() as int));
            (
                with_display(front, name, AliasKind::CommonName),
                match common {
                    Some(c) => Some(c),
                    None => Some(name),
                },
            )
        } else {
            (with_display(front, collapsed(id), AliasKind::Designation), common)
        }
    }
}

/// The aliases and the common name in the answer to a query for identifiers.
pub fn assemble_aliases(body: &str) -> (r: (Vec<ResolvedAlias>, Option<String>))
    ensures
        (views(r.0@), opt_text(r.1)) == alias_set(
            data_lines(body@),
            data_lines(body@).len() as int,
        ),
{
    let data = tsv_data_lines(body);
    let ghost all = data_lines(body@);
    let mut aliases: Vec<ResolvedAlias> = Vec::new();
    let mut common_name: Option<String> = None;
    let mut i: usize = 0;
    assert(views(aliases@) =~= Seq::empty());
    while i < data.len()
        invariant
            all == texts(data@),
            i <= data@.len(),
            (views(aliases@), opt_text(common_name)) == alias_set(all, i as int),
        decreases data@.len() - i,
    {
        assert(all[i as int] == data@[i as int]@);
        let id = unquote(data[i].as_str());
        if !id.as_str().is_empty() {
            if starts_with(id.as_str(), "NAME ") {
                let chars = chars_of(id.as_str());
                let mark: usize = chars_of("NAME ").len();
                assert(chars@.subrange(mark as int, chars@.len() as int) =~= id@.skip(
                    mark as int,
                ));
                let name = trim(text_between(&chars, mark, chars.len()).as_str());
                if common_name.is_none() {
                    common_name = Some(name.clone());
                }
                push_unique(&mut aliases, name.as_str(), AliasKind::CommonName);
            } else {
                push_unique(
                    &mut aliases,
                    collapse_spaces(id.as_str()).as_str(),
                    AliasKind::Designation,
                );
            }
        }
        i += 1;
    }
    (aliases, common_name)
}

/// `s` with a designation added, unless it is empty or there as a designation.
pub open spec fn with_designation(s: Seq<AliasView>, alias: Seq<char>) -> Seq<AliasView> {
    if alias.len() == 0 || has_designation(s, alias) {
        s
    } else {
        s.push(AliasView::of(alias, AliasKind::Designation))
    }
}

/// The identity that a row makes up, with the given aliases and common name. Its
/// primary designation is always among the aliases as a designation, unless it is
/// empty.
pub open spec fn identity_of(
    row: BasicView,
    aliases: Seq<AliasView>,
    common_name: Option<Seq<char>>,
) -> IdentityView {
    let primary = collapsed(row.main_id);
    IdentityView {
        simbad_oid: Some(row.oid),
        primary_designation: primary,
        common_name,
        object_type: otype_of(trimmed(row.otype)),
        otype_raw: row.otype,
        ra_deg: row.ra,
        dec_deg: row.dec,
        v_mag: row.v_mag,
        galdim_majaxis_arcmin: row.galdim_majaxis,
        galdim_minaxis_arcmin: row.galdim_minaxis,
        galdim_angle_deg: row.galdim_angle,
        aliases: with_designation(aliases, primary),
        source: TargetSource::Resolved,
    }
}

/// Make an identity of a row, its aliases and its common name.
pub fn assemble_identity(
    row: &BasicRow,
    aliases: Vec<ResolvedAlias>,
    common_name: Option<String>,
) -> (r: ResolvedIdentity)
    ensures
        r@ == identity_of(row@, views(aliases@), opt_text(common_name)),
        r@.primary_designation.len() > 0 ==> has_designation(
            r@.aliases,
            r@.primary_designation,
        ),
{
    let primary_designation = collapse_spaces(row.main_id.as_str());
    let mut aliases = aliases;
    let ghost had = views(aliases@);
    if !primary_designation.as_str().is_empty() && !designates(
        &aliases,
        primary_designation.as_str(),
    ) {
        let ghost before = aliases@;
        let item = ResolvedAlias::new(primary_designation.as_str(), AliasKind::Designation);
        aliases.push(item);
        proof {
            assert(views(aliases@) =~= views(before).push(item@));
            assert(views(aliases@)[before.len() as int] == item@);
        }
    }
    assert(views(aliases@) == with_designation(had, primary_designation@));
    ResolvedIdentity {
        simbad_oid: Some(row.oid),
        primary_designation,
        common_name,
        object_type: map_otype(row.otype.as_str()),
        otype_raw: row.otype.clone(),
        ra_deg: row.ra,
        dec_deg: row.dec,
        v_mag: row.v_mag,
        galdim_majaxis_arcmin: row.galdim_majaxis,
        galdim_minaxis_arcmin: row.galdim_minaxis,
        galdim_angle_deg: row.galdim_angle,
        aliases,
        source: TargetSource::Resolved,
    }
}

/// The name to ask for: the query without outer white space; there is no object
/// of an empty name.
pub fn name_to_resolve(query: &str) -> (r: Result<String, ResolveError>)
    ensures
        match r {
            Ok(name) => name@ == trimmed(query@) && name@.len() > 0,
            Err(e) => trimmed(query@).len() == 0 && e@ == ErrorView::NotFound(Seq::empty()),
        },
{
    let name = trim(query);
    if name.as_str().is_empty() {
        let nothing = String::new();
        assert(nothing@ =~= Seq::empty());
        Err(ResolveError::NotFound(nothing))
    } else {
        Ok(name)
    }
}

/// The one object of a name; no object is an error, and so are several.
pub open spec fn one_object(name: Seq<char>, rows: Seq<BasicView>) -> Result<
    BasicView,
    ErrorView,
> {
    if rows.len() == 0 {
        Err(ErrorView::NotFound(name))
    } else if rows.len() == 1 {
        Ok(rows[0])
    } else {
        Err(ErrorView::Ambiguous { query: name, count: rows.len() as usize })
    }
}

/// The one object of a name; no object is an error, and so are several.
pub fn single_object(name: &str, rows: Vec<BasicRow>) -> (r: Result<BasicRow, ResolveError>)
    ensures
        match r {
            Ok(row) => one_object(name@, views(rows@)) == Ok::<_, ErrorView>(row@),
            Err(e) => one_object(name@, views(rows@)) == Err::<BasicView, _>(e@),
        },
{
    let mut rows = rows;
    let n: usize = rows.len();
    assert(views(rows@).len() == n);
    if n == 0 {
        Err(ResolveError::NotFound(name.to_owned()))
    } else if n == 1 {
        let row = rows.remove(0);
        Ok(row)
    } else {
        Err(ResolveError::Ambiguous { query: name.to_owned(), count: n })
    }
}

/// The hits that the first `n` rows of a cone search make up: identities whose
/// only alias is their primary designation.
pub open spec fn position_hits(rows: Seq<PositionRowView>, n: int) -> Seq<PositionView>
    decreases n,
{
    if n <= 0 {
        Seq::empty()
    } else {
        position_hits(rows, n - 1).push(
            PositionView {
                identity: identity_of(rows[n - 1].row, Seq::empty(), None),
                separation_deg: rows[n - 1].dist,
            },
        )
    }
}

/// The hits in the answer to a cone search, given the numbers that each data
/// line reads as.
pub fn position_matches(body: &str, numbers: &Vec<RowNumbers>) -> (out: Vec<PositionMatch>)
    ensures
        ({
            let data = data_lines(body@);
            let rows = position_rows(data, numbers@, data.len() as int);
            views(out@) == position_hits(rows, rows.len() as int)
        }),
{
    let rows = parse_position_rows(body, numbers);
    let ghost all = views(rows@);
    let mut out: Vec<PositionMatch> = Vec::new();
    let mut i: usize = 0;
    assert(views(out@) =~= Seq::empty());
    while i < rows.len()
        invariant
            all == views(rows@),
            i <= rows@.len(),
            views(out@) == position_hits(all, i as int),
        decreases rows@.len() - i,
    {
        let ghost done = out@;
        assert(all[i as int] == rows@[i as int]@);
        let none: Vec<ResolvedAlias> = Vec::new();
        assert(views(none@) =~= Seq::empty());
        let hit = PositionMatch {
            identity: assemble_identity(&rows[i].row, none, None),
            separation_deg: rows[i].dist,
        };
        out.push(hit);
        assert(views(out@) =~= views(done).push(hit@));
        i += 1;
    }
    out
}

// ── The service ──────────────────────────────────────────────────────────────

/// The view of a [`TapResolver`].
#[verifier::ext_equal]
pub struct TapView {
    pub endpoint: Seq<char>,
    pub timeout: Timeout,
    pub user_agent: Seq<char>,
}

/// A configured TAP service: where and how requests are sent.
#[derive(Debug, Eq, PartialEq)]
pub struct TapResolver {
    /// The URL of the service.
    pub endpoint: String,
    /// How long a request may take.
    pub timeout: Timeout,
    /// The identifying header sent with every request.
    pub user_agent: String,
}

impl View for TapResolver {
    type V = TapView;

    open spec fn view(&self) -> TapView {
        TapView {
            endpoint: self.endpoint@,
            timeout: self.timeout,
            user_agent: self.user_agent@,
        }
    }
}

/// The service of a configuration, given what its endpoint parses to.
pub open spec fn tap_service(
    config: ConfigView,
    endpoint: Result<Seq<char>, Seq<char>>,
    shown: Seq<char>,
) -> Result<TapView, ErrorView> {
    match endpoint {
        Ok(url) => Ok(
            TapView { endpoint: url, timeout: config.timeout, user_agent: config.user_agent },
        ),
        Err(message) => Err(
            ErrorView::Network("invalid TAP endpoint "@ + shown + ": "@ + message),
        ),
    }
}

/// The view of a service or of the error in its place.
pub open spec fn service_view(r: Result<TapResolver, ResolveError>) -> Result<TapView, ErrorView> {
    match r {
        Ok(service) => Ok(service@),
        Err(e) => Err(e@),
    }
}

impl TapResolver {
    /// The service of a configuration, given what its endpoint parses to and how
    /// the endpoint is shown in a message.
    pub fn with_endpoint(
        config: &SimbadConfig,
        endpoint: Result<String, String>,
        shown: &str,
    ) -> (r: Result<Self, ResolveError>)
        ensures
            service_view(r) == tap_service(
                config@,
                match endpoint {
                    Ok(url) => Ok(url@),
                    Err(message) => Err(message@),
                },
                shown@,
            ),
    {
        match endpoint {
            Ok(url) => Ok(
                TapResolver {
                    endpoint: url,
                    timeout: config.timeout,
                    user_agent: config.user_agent.clone(),
                },
            ),
            Err(message) => {
                let mut m = String::new();
                push_text(&mut m, "invalid TAP endpoint ");
                push_text(&mut m, shown);
                push_text(&mut m, ": ");
                push_text(&mut m, message.as_str());
                proof {
                    let whole = "invalid TAP endpoint "@ + shown@ + ": "@ + message@;
                    assert(m@ =~= whole);
                }
                Err(ResolveError::Network(m))
            },
        }
    }

    /// The service of a configuration; an error where its endpoint is no URL.
    pub fn new(config: &SimbadConfig) -> (r: Result<Self, ResolveError>)
        ensures
            service_view(r) == tap_service(
                config@,
                url_of(config@.endpoint),
                debug_form(config@.endpoint),
            ),
    {
        let endpoint = parse_url(config.endpoint.as_str());
        let shown = debug_text(config.endpoint.as_str());
        Self::with_endpoint(config, endpoint, shown.as_str())
    }

    /// The service of the default configuration.
    pub fn with_defaults() -> (r: Result<Self, ResolveError>)
        ensures
            service_view(r) == tap_service(
                (ConfigView {
                    endpoint: DEFAULT_TAP_ENDPOINT@,
                    timeout: (Timeout { secs: 10, nanos: 0 }),
                    user_agent: DEFAULT_USER_AGENT@,
                }),
                url_of(DEFAULT_TAP_ENDPOINT@),
                debug_form(DEFAULT_TAP_ENDPOINT@),
            ),
    {
        Self::new(&SimbadConfig::default())
    }
}

// ── The lookup of a name ─────────────────────────────────────────────────────

/// The view of a [`TapFlow`].
pub enum FlowView {
    Objects { name: Seq<char> },
    Aliases { row: BasicView },
}

/// A lookup that waits for an answer.
#[derive(Debug, PartialEq)]
pub enum TapFlow {
    /// It waits for the objects of a name.
    Objects {
        /// The name.
        name: String,
    },
    /// It waits for the identifiers of the one object found.
    Aliases {
        /// The object.
        row: BasicRow,
    },
}

impl View for TapFlow {
    type V = FlowView;

    open spec fn view(&self) -> FlowView {
        match self {
            TapFlow::Objects { name } => FlowView::Objects { name: name@ },
            TapFlow::Aliases { row } => FlowView::Aliases { row: row@ },
        }
    }
}

/// The view of a [`TapStep`].
pub enum StepView {
    Send { adql: Seq<char>, next: FlowView },
    Finish(Result<IdentityView, ErrorView>),
}

/// What a lookup does next.
#[derive(Debug, PartialEq)]
pub enum TapStep {
    /// Send a query, and go on with its answer.
    Send {
        /// The query.
        adql: String,
        /// The lookup, waiting for the answer.
        next: TapFlow,
    },
    /// The lookup is done.
    Finish(Result<ResolvedIdentity, ResolveError>),
}

impl View for TapStep {
    type V = StepView;

    open spec fn view(&self) -> StepView {
        match self {
            TapStep::Send { adql, next } => StepView::Send { adql: adql@, next: next@ },
            TapStep::Finish(r) => StepView::Finish(
                match r {
                    Ok(identity) => Ok(identity@),
                    Err(e) => Err(e@),
                },
            ),
        }
    }
}

/// The first step of a lookup: a blank name is not found, any other is asked
/// for.
pub open spec fn first_step(query: Seq<char>) -> StepView {
    let name = trimmed(query);
    if name.len() == 0 {
        StepView::Finish(Err(ErrorView::NotFound(Seq::empty())))
    } else {
        StepView::Send { adql: objects_adql(name), next: FlowView::Objects { name } }
    }
}

/// The step that follows the answer `body`, whose data lines read as `numbers`:
/// where one object was found, its identifiers are asked for; with those the
/// identity is complete.
pub open spec fn next_step(
    flow: FlowView,
    body: Seq<char>,
    numbers: Seq<RowNumbers>,
) -> StepView {
    let data = data_lines(body);
    match flow {
        FlowView::Objects { name } => match one_object(
            name,
            basic_rows(data, numbers, data.len() as int),
        ) {
            Ok(row) => StepView::Send {
                adql: aliases_adql(row.oid),
                next: FlowView::Aliases { row },
            },
            Err(e) => StepView::Finish(Err(e)),
        },
        FlowView::Aliases { row } => {
            let (aliases, common_name) = alias_set(data, data.len() as int);
            StepView::Finish(Ok(identity_of(row, aliases, common_name)))
        },
    }
}

impl TapFlow {
    /// Start the lookup of a name.
    pub fn start(query: &str) -> (step: TapStep)
        ensures
            step@ == first_step(query@),
    {
        match name_to_resolve(query) {
            Ok(name) => TapStep::Send {
                adql: objects_query(name.as_str()),
                next: TapFlow::Objects { name },
            },
            Err(e) => TapStep::Finish(Err(e)),
        }
    }

    /// Go on with an answer, given the numbers that its data lines read as.
    pub fn advance(self, body: &str, numbers: &Vec<RowNumbers>) -> (step: TapStep)
        ensures
            step@ == next_step(self@, body@, numbers@),
    {
        match self {
            TapFlow::Objects { name } => {
                let rows = parse_basic_rows(body, numbers);
                match single_object(name.as_str(), rows) {
                    Ok(row) => TapStep::Send {
                        adql: aliases_query(row.oid),
                        next: TapFlow::Aliases { row },
                    },
                    Err(e) => TapStep::Finish(Err(e)),
                }
            },
            TapFlow::Aliases { row } => {
                let (aliases, common_name) = assemble_aliases(body);
                TapStep::Finish(Ok(assemble_identity(&row, aliases, common_name)))
            },
        }
    }
}

} // verus!
