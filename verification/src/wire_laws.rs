//! What is read of the lines of an answer.

use vstd::prelude::*;

use crate::float::Double;
use crate::number::{integer_value, signed_decimal};
use crate::number_laws::signed_forms_are_read_back;
use crate::text::white_space;
use crate::text_laws::{
    a_text_without_separator_is_one_piece, all_quotes, all_white, lacks, separators_part_pieces,
    stripping_takes_the_outer_quotes, trimming_takes_the_outer_space,
};
use crate::wire::{basic_of, columns, optional_i16, optional_number, unquoted, RowNumbers};

verus! {

/// A tab parts the columns on its two sides, and a text without tabs is one
/// column.
pub proof fn tabs_part_columns(a: Seq<char>, b: Seq<char>)
    ensures
        columns(a + seq!['\t'] + b) == columns(a) + columns(b),
        lacks(a, '\t') ==> columns(a) == seq![a],
{
    separators_part_pieces(a, '\t', b);
    if lacks(a, '\t') {
        a_text_without_separator_is_one_piece(a, '\t');
    }
}

/// A text in quotes, with white space around the quotes, is read without both;
/// what stands inside the quotes is kept as it is, white space too.
pub proof fn quotes_and_outer_space_are_taken(
    a: Seq<char>,
    p: Seq<char>,
    m: Seq<char>,
    q: Seq<char>,
    b: Seq<char>,
)
    requires
        all_white(a),
        all_white(b),
        all_quotes(p),
        all_quotes(q),
        m.len() > 0 ==> m[0] != '"' && m.last() != '"',
        p.len() == 0 && m.len() > 0 ==> !white_space(m[0]),
        q.len() == 0 && m.len() > 0 ==> !white_space(m.last()),
    ensures
        unquoted(a + p + m + q + b) == m,
{
    let inner = p + m + q;
    assert(a + p + m + q + b =~= a + inner + b);
    if inner.len() > 0 {
        if p.len() > 0 {
            assert(p[0] == '"');
            assert(inner[0] == p[0]);
        } else if m.len() > 0 {
            assert(inner[0] == m[0]);
        } else {
            assert(q[0] == '"');
            assert(inner[0] == q[0]);
        }
        if q.len() > 0 {
            assert(q[q.len() - 1] == '"');
            assert(inner.last() == q[q.len() - 1]);
        } else if m.len() > 0 {
            assert(inner.last() == m.last());
        } else {
            assert(p[p.len() - 1] == '"');
            assert(inner.last() == p[p.len() - 1]);
        }
    }
    trimming_takes_the_outer_space(a, inner, b);
    stripping_takes_the_outer_quotes(p, m, q);
}

/// A line makes up a row where it has nine columns or more, the first is a whole
/// number of 64 bits, and the coordinates are given and in range; the row then has
/// the fields of its columns. A measurement whose column is empty, or whose number
/// is missing or not finite, is left out, and so is an angle that is no whole
/// number of 16 bits; neither costs the row.
pub proof fn readable_lines_are_rows(c: Seq<Seq<char>>, numbers: RowNumbers, oid: int)
    requires
        c.len() >= 9,
        integer_value(unquoted(c[0])) == Some(oid),
        -0x8000_0000_0000_0000 <= oid <= 0x7fff_ffff_ffff_ffff,
        numbers.ra matches Some(ra) && (ra.bits < 0x4076_8000_0000_0000 || ra.bits
            == 0x8000_0000_0000_0000),
        numbers.dec matches Some(dec) && (dec.bits <= 0x4056_8000_0000_0000
            || 0x8000_0000_0000_0000 <= dec.bits <= 0xc056_8000_0000_0000),
    ensures
        basic_of(c, numbers) matches Some(row) && {
            &&& row.oid == oid
            &&& row.main_id == unquoted(c[1])
            &&& Some(row.ra) == numbers.ra
            &&& Some(row.dec) == numbers.dec
            &&& row.otype == unquoted(c[4])
            &&& row.v_mag == optional_number(c[5], numbers.v_mag)
            &&& row.galdim_majaxis == optional_number(c[6], numbers.majaxis)
            &&& row.galdim_minaxis == optional_number(c[7], numbers.minaxis)
            &&& row.galdim_angle == optional_i16(c[8])
        },
{
}

/// No other line makes up a row.
pub proof fn other_lines_are_no_rows(c: Seq<Seq<char>>, numbers: RowNumbers)
    requires
        basic_of(c, numbers) is Some,
    ensures
        c.len() >= 9,
        integer_value(unquoted(c[0])) matches Some(oid) && -0x8000_0000_0000_0000 <= oid
            <= 0x7fff_ffff_ffff_ffff,
        numbers.ra matches Some(ra) && (ra.bits < 0x4076_8000_0000_0000 || ra.bits
            == 0x8000_0000_0000_0000),
        numbers.dec matches Some(dec) && (dec.bits <= 0x4056_8000_0000_0000
            || 0x8000_0000_0000_0000 <= dec.bits <= 0xc056_8000_0000_0000),
{
}

/// A measurement is kept where its column holds something and its number is given
/// and finite, of either sign and whatever its size.
pub proof fn finite_measurements_are_kept(field: Seq<char>, number: Option<Double>)
    ensures
        unquoted(field).len() == 0 ==> optional_number(field, number) is None,
        number is None ==> optional_number(field, number) is None,
        unquoted(field).len() > 0 ==> (number matches Some(d) ==> optional_number(
            field,
            number,
        ) == if d.bits < 0x7ff0_0000_0000_0000 || 0x8000_0000_0000_0000 <= d.bits
            < 0xfff0_0000_0000_0000 {
            Some(d)
        } else {
            None
        }),
{
}

/// An angle of 16 bits is read from its decimal form, in quotes or not, and from
/// nothing else.
pub proof fn angles_are_read_back(field: Seq<char>, angle: i16)
    ensures
        unquoted(field) == signed_decimal(angle as int) ==> optional_i16(field) == Some(angle),
        integer_value(unquoted(field)) == Some(angle as int) ==> optional_i16(field) == Some(
            angle,
        ),
        optional_i16(field) == Some(angle) ==> integer_value(unquoted(field)) == Some(
            angle as int,
        ),
{
    let n = if angle >= 0 {
        angle as int
    } else {
        -(angle as int)
    };
    signed_forms_are_read_back(n as nat);
}

} // verus!
