//! Reading the rows of a TAP answer.
//!
//! A row is a line of tab-separated columns: object id, main designation, right
//! ascension, declination, object type, V magnitude, major axis, minor axis and
//! position angle. String columns are quoted, numbers are not.
//!
//! Columns that hold decimal fractions are read in two steps. [`number_texts`]
//! gives their texts; the caller reads those as floating-point numbers and
//! hands the numbers to [`parse_basic_row`], which applies the rules of the
//! row.

use vstd::prelude::*;

use crate::float::Double;
use crate::number::{integer_value, parse_i16, parse_i64};
use crate::text::{collapse, collapsed, split, split_at_char, strip, texts, trim, trim_both, trimmed, Strip};

verus! {

/// A column without outer white space and without the quotes around it.
pub open spec fn unquoted(s: Seq<char>) -> Seq<char> {
    trim_both(trimmed(s), Strip::Quotes)
}

/// Strip outer white space, and then the quotes of a string column.
pub fn unquote(s: &str) -> (out: String)
    ensures
        out@ == unquoted(s@),
{
    strip(trim(s).as_str(), Strip::Quotes)
}

/// Collapse internal white-space runs to single spaces and trim, as in
/// `"M   31"` for `"M 31"`.
pub fn collapse_spaces(s: &str) -> (out: String)
    ensures
        out@ == collapsed(s@),
{
    collapse(s)
}

/// The 16-bit integer of an optional column.
pub open spec fn optional_i16(field: Seq<char>) -> Option<i16> {
    match integer_value(unquoted(field)) {
        Some(v) => if i16::MIN <= v <= i16::MAX {
            Some(v as i16)
        } else {
            None
        },
        None => None,
    }
}

/// Read an optional whole-number column: `None` where it is empty, no integer,
/// or out of range.
pub fn parse_optional_i16(field: &str) -> (r: Option<i16>)
    ensures
        r == optional_i16(field@),
{
    let s = unquote(field);
    parse_i16(s.as_str())
}

/// An optional number, where it is finite.
pub open spec fn finite_only(number: Option<Double>) -> Option<Double> {
    match number {
        Some(d) => if d.finite() {
            Some(d)
        } else {
            None
        },
        None => None,
    }
}

/// The value of an optional column of decimal fractions, given the number that
/// its unquoted text reads as: `None` where the column is empty, or where its
/// text is no number or not a finite one.
pub fn parse_optional_mag(field: &str, number: Option<Double>) -> (r: Option<Double>)
    ensures
        r == if unquoted(field@).len() == 0 {
            None
        } else {
            finite_only(number)
        },
{
    if unquote(field).as_str().is_empty() {
        return None;
    }
    match number {
        Some(d) => if d.is_finite() {
            Some(d)
        } else {
            None
        },
        None => None,
    }
}

/// The numbers that the columns of decimal fractions of a row read as; `None`
/// where a text is no number.
#[derive(Clone, Copy, Debug, PartialEq)]
pub struct RowNumbers {
    /// Right ascension.
    pub ra: Option<Double>,
    /// Declination.
    pub dec: Option<Double>,
    /// V magnitude.
    pub v_mag: Option<Double>,
    /// Major axis.
    pub majaxis: Option<Double>,
    /// Minor axis.
    pub minaxis: Option<Double>,
    /// Distance from a searched position, in a row that has one.
    pub dist: Option<Double>,
}

impl RowNumbers {
    /// A row of which nothing reads as a number.
    pub open spec fn nothing() -> Self {
        RowNumbers { ra: None, dec: None, v_mag: None, majaxis: None, minaxis: None, dist: None }
    }
}

/// The texts of the columns of decimal fractions of a row.
#[derive(Debug, Eq, PartialEq)]
pub struct NumberTexts {
    /// Right ascension.
    pub ra: String,
    /// Declination.
    pub dec: String,
    /// V magnitude.
    pub v_mag: String,
    /// Major axis.
    pub majaxis: String,
    /// Minor axis.
    pub minaxis: String,
    /// Distance from a searched position; empty in a row without that column.
    pub dist: String,
}

/// The columns of a line.
pub open spec fn columns(line: Seq<char>) -> Seq<Seq<char>> {
    split(line, '\t')
}

/// The texts to be read as numbers: the unquoted columns of decimal fractions.
/// `None` for a line with fewer than nine columns.
pub fn number_texts(line: &str) -> (r: Option<NumberTexts>)
    ensures
        match r {
            Some(t) => {
                let c = columns(line@);
                &&& c.len() >= 9
                &&& t.ra@ == unquoted(c[2])
                &&& t.dec@ == unquoted(c[3])
                &&& t.v_mag@ == unquoted(c[5])
                &&& t.majaxis@ == unquoted(c[6])
                &&& t.minaxis@ == unquoted(c[7])
                &&& t.dist@ == if c.len() >= 10 {
                    unquoted(c[9])
                } else {
                    Seq::empty()
                }
            },
            None => columns(line@).len() < 9,
        },
{
    let fields = split_at_char(line, '\t');
    let ghost c = columns(line@);
    assert(forall|i: int| 0 <= i < fields@.len() ==> c[i] == (#[trigger] fields@[i])@);
    if fields.len() < 9 {
        return None;
    }
    let dist = if fields.len() >= 10 {
        unquote(fields[9].as_str())
    } else {
        String::new()
    };
    Some(
        NumberTexts {
            ra: unquote(fields[2].as_str()),
            dec: unquote(fields[3].as_str()),
            v_mag: unquote(fields[5].as_str()),
            majaxis: unquote(fields[6].as_str()),
            minaxis: unquote(fields[7].as_str()),
            dist,
        },
    )
}

/// The view of a [`BasicRow`].
#[verifier::ext_equal]
pub struct BasicView {
    pub oid: i64,
    pub main_id: Seq<char>,
    pub ra: Double,
    pub dec: Double,
    pub otype: Seq<char>,
    pub v_mag: Option<Double>,
    pub galdim_majaxis: Option<Double>,
    pub galdim_minaxis: Option<Double>,
    pub galdim_angle: Option<i16>,
}

/// One row of an answer.
#[derive(Debug, PartialEq)]
pub struct BasicRow {
    /// SIMBAD physical-object id.
    pub oid: i64,
    /// Main designation, with the white space it came with.
    pub main_id: String,
    /// Right ascension in degrees.
    pub ra: Double,
    /// Declination in degrees.
    pub dec: Double,
    /// Object-type code.
    pub otype: String,
    /// V magnitude.
    pub v_mag: Option<Double>,
    /// Major axis in arcminutes.
    pub galdim_majaxis: Option<Double>,
    /// Minor axis in arcminutes.
    pub galdim_minaxis: Option<Double>,
    /// Position angle in degrees.
    pub galdim_angle: Option<i16>,
}

impl View for BasicRow {
    type V = BasicView;

    open spec fn view(&self) -> BasicView {
        BasicView {
            oid: self.oid,
            main_id: self.main_id@,
            ra: self.ra,
            dec: self.dec,
            otype: self.otype@,
            v_mag: self.v_mag,
            galdim_majaxis: self.galdim_majaxis,
            galdim_minaxis: self.galdim_minaxis,
            galdim_angle: self.galdim_angle,
        }
    }
}

/// An optional column of decimal fractions.
pub open spec fn optional_number(field: Seq<char>, number: Option<Double>) -> Option<Double> {
    if unquoted(field).len() == 0 {
        None
    } else {
        finite_only(number)
    }
}

/// The row that nine columns make up, given the numbers that they read as. There
/// is none where the object id is no 64-bit integer, or where a coordinate is no
/// number or out of range.
pub open spec fn basic_of(c: Seq<Seq<char>>, numbers: RowNumbers) -> Option<BasicView> {
    if c.len() < 9 {
        None
    } else {
        match (integer_value(unquoted(c[0])), numbers.ra, numbers.dec) {
            (Some(oid), Some(ra), Some(dec)) => if i64::MIN <= oid <= i64::MAX
                && ra.right_ascension() && dec.declination() {
                Some(
                    BasicView {
                        oid: oid as i64,
                        main_id: unquoted(c[1]),
                        ra,
                        dec,
                        otype: unquoted(c[4]),
                        v_mag: optional_number(c[5], numbers.v_mag),
                        galdim_majaxis: optional_number(c[6], numbers.majaxis),
                        galdim_minaxis: optional_number(c[7], numbers.minaxis),
                        galdim_angle: optional_i16(c[8]),
                    },
                )
            } else {
                None
            },
            _ => None,
        }
    }
}

/// The row of a list of columns.
pub(crate) fn basic_row_of(fields: &Vec<String>, numbers: &RowNumbers) -> (r: Option<BasicRow>)
    ensures
        match r {
            Some(row) => basic_of(texts(fields@), *numbers) == Some(row@),
            None => basic_of(texts(fields@), *numbers) is None,
        },
{
    let ghost c = texts(fields@);
    assert(forall|i: int| 0 <= i < fields@.len() ==> c[i] == (#[trigger] fields@[i])@);
    if fields.len() < 9 {
        return None;
    }
    let oid = parse_i64(unquote(fields[0].as_str()).as_str());
    match (oid, numbers.ra, numbers.dec) {
        (Some(oid), Some(ra), Some(dec)) => {
            if !ra.is_right_ascension() || !dec.is_declination() {
                return None;
            }
            Some(
                BasicRow {
                    oid,
                    main_id: unquote(fields[1].as_str()),
                    ra,
                    dec,
                    otype: unquote(fields[4].as_str()),
                    v_mag: parse_optional_mag(fields[5].as_str(), numbers.v_mag),
                    galdim_majaxis: parse_optional_mag(fields[6].as_str(), numbers.majaxis),
                    galdim_minaxis: parse_optional_mag(fields[7].as_str(), numbers.minaxis),
                    galdim_angle: parse_optional_i16(fields[8].as_str()),
                },
            )
        },
        _ => None,
    }
}

/// Read a row, given the numbers that its [`number_texts`] read as. A row with
/// fewer than nine columns, without an object id, or with a coordinate that is
/// missing or out of range is no row; a missing or unreadable value in any other
/// column is a missing value.
pub fn parse_basic_row(line: &str, numbers: &RowNumbers) -> (r: Option<BasicRow>)
    ensures
        match r {
            Some(row) => basic_of(columns(line@), *numbers) == Some(row@),
            None => basic_of(columns(line@), *numbers) is None,
        },
{
    basic_row_of(&split_at_char(line, '\t'), numbers)
}

/// Coordinates that a row was read with are always in range, and its optional
/// numbers finite.
pub proof fn rows_are_in_range(c: Seq<Seq<char>>, numbers: RowNumbers)
    ensures
        basic_of(c, numbers) matches Some(row) ==> {
            &&& row.ra.right_ascension()
            &&& row.dec.declination()
            &&& row.v_mag matches Some(v) ==> v.finite()
            &&& row.galdim_majaxis matches Some(v) ==> v.finite()
            &&& row.galdim_minaxis matches Some(v) ==> v.finite()
        },
{
}

} // verus!
