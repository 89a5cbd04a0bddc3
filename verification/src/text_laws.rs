//! What the operations on text do to texts put together from parts: trimming,
//! words, splitting, lines and searching.

use vstd::prelude::*;

use crate::text::{
    collapsed, has_infix, has_prefix, join, lines, occurs_at, split, trim_back, trim_both,
    trim_front, trimmed, white_space, words, Strip,
};

verus! {

/// Every character of `s` is white space.
pub open spec fn all_white(s: Seq<char>) -> bool {
    forall|i: int| 0 <= i < s.len() ==> white_space(#[trigger] s[i])
}

/// Every character of `s` is a double quote.
pub open spec fn all_quotes(s: Seq<char>) -> bool {
    forall|i: int| 0 <= i < s.len() ==> #[trigger] s[i] == '"'
}

/// `c` does not occur in `s`.
pub open spec fn lacks(s: Seq<char>, c: char) -> bool {
    forall|i: int| 0 <= i < s.len() ==> #[trigger] s[i] != c
}

// ── Trimming ─────────────────────────────────────────────────────────────────

/// Dropped characters in front are dropped.
proof fn lemma_trim_front(a: Seq<char>, r: Seq<char>, what: Strip)
    requires
        forall|i: int| 0 <= i < a.len() ==> what.drops(#[trigger] a[i]),
    ensures
        trim_front(a + r, what) == trim_front(r, what),
    decreases a.len(),
{
    if a.len() == 0 {
        assert(a + r =~= r);
    } else {
        assert(what.drops(a[0]));
        assert((a + r).drop_first() =~= a.drop_first() + r);
        lemma_trim_front(a.drop_first(), r, what);
    }
}

/// Dropped characters at the back are dropped.
proof fn lemma_trim_back(r: Seq<char>, b: Seq<char>, what: Strip)
    requires
        forall|i: int| 0 <= i < b.len() ==> what.drops(#[trigger] b[i]),
    ensures
        trim_back(r + b, what) == trim_back(r, what),
    decreases b.len(),
{
    if b.len() == 0 {
        assert(r + b =~= r);
    } else {
        assert(what.drops(b[b.len() - 1]));
        assert((r + b).drop_last() =~= r + b.drop_last());
        lemma_trim_back(r, b.drop_last(), what);
    }
}

/// What is trimmed is the text between the dropped characters around it.
proof fn lemma_trim_both(a: Seq<char>, m: Seq<char>, b: Seq<char>, what: Strip)
    requires
        forall|i: int| 0 <= i < a.len() ==> what.drops(#[trigger] a[i]),
        forall|i: int| 0 <= i < b.len() ==> what.drops(#[trigger] b[i]),
        m.len() > 0 ==> !what.drops(m[0]) && !what.drops(m.last()),
    ensures
        trim_both(a + m + b, what) == m,
{
    assert(a + m + b =~= a + (m + b));
    lemma_trim_front(a, m + b, what);
    if m.len() == 0 {
        assert(m + b =~= b + m);
        lemma_trim_front(b, m, what);
    } else {
        assert(trim_front(m + b, what) == m + b);
        lemma_trim_back(m, b, what);
    }
}

/// A text with white space around it is trimmed to itself, however much white
/// space there is; white space alone is trimmed to nothing.
pub proof fn trimming_takes_the_outer_space(a: Seq<char>, m: Seq<char>, b: Seq<char>)
    requires
        all_white(a),
        all_white(b),
        m.len() > 0 ==> !white_space(m[0]) && !white_space(m.last()),
    ensures
        trimmed(a + m + b) == m,
{
    lemma_trim_both(a, m, b, Strip::WhiteSpace);
}

/// A text with double quotes around it is stripped to itself.
pub proof fn stripping_takes_the_outer_quotes(a: Seq<char>, m: Seq<char>, b: Seq<char>)
    requires
        all_quotes(a),
        all_quotes(b),
        m.len() > 0 ==> m[0] != '"' && m.last() != '"',
    ensures
        trim_both(a + m + b, Strip::Quotes) == m,
{
    lemma_trim_both(a, m, b, Strip::Quotes);
}

/// Every text is its trimmed form with white space around it.
pub proof fn trimmed_texts_are_framed_by_space(s: Seq<char>) -> (frame: (Seq<char>, Seq<char>))
    ensures
        all_white(frame.0),
        all_white(frame.1),
        s == frame.0 + trimmed(s) + frame.1,
        trimmed(s).len() > 0 ==> !white_space(trimmed(s)[0]) && !white_space(trimmed(s).last()),
    decreases s.len(),
{
    if s.len() > 0 && white_space(s[0]) {
        let inner = trimmed_texts_are_framed_by_space(s.drop_first());
        let front = seq![s[0]] + inner.0;
        assert(front + trimmed(s) + inner.1 =~= seq![s[0]] + (inner.0 + trimmed(s) + inner.1));
        assert(s =~= seq![s[0]] + s.drop_first());
        (front, inner.1)
    } else {
        let back = lemma_back_frame(s);
        assert(Seq::<char>::empty() + trimmed(s) + back =~= s);
        (Seq::empty(), back)
    }
}

/// What is dropped at the back is white space.
proof fn lemma_back_frame(s: Seq<char>) -> (back: Seq<char>)
    ensures
        all_white(back),
        s == trim_back(s, Strip::WhiteSpace) + back,
        ({
            let t = trim_back(s, Strip::WhiteSpace);
            t.len() > 0 ==> t[0] == s[0] && !white_space(t.last())
        }),
    decreases s.len(),
{
    if s.len() > 0 && white_space(s.last()) {
        let inner = lemma_back_frame(s.drop_last());
        let back = inner.push(s.last());
        assert(trim_back(s, Strip::WhiteSpace) + back =~= (trim_back(s, Strip::WhiteSpace)
            + inner).push(s.last()));
        assert(s =~= s.drop_last().push(s.last()));
        back
    } else {
        assert(s + Seq::<char>::empty() =~= s);
        Seq::empty()
    }
}

// ── Words ────────────────────────────────────────────────────────────────────

/// A run of characters that are not white space is one word.
pub proof fn a_run_is_one_word(s: Seq<char>)
    requires
        s.len() > 0,
        forall|i: int| 0 <= i < s.len() ==> !white_space(#[trigger] s[i]),
    ensures
        words(s) == seq![s],
    decreases s.len(),
{
    assert(!white_space(s[s.len() - 1]));
    let front = s.drop_last();
    if s.len() == 1 {
        assert(words(front) =~= Seq::empty());
        assert(s =~= seq![s.last()]);
        assert(words(s) =~= seq![s]);
    } else {
        assert forall|i: int| 0 <= i < front.len() implies !white_space(#[trigger] front[i]) by {
            assert(front[i] == s[i]);
        }
        a_run_is_one_word(front);
        assert(!white_space(s[s.len() - 2]));
        assert(front.push(s.last()) =~= s);
        assert(words(s) =~= seq![s]);
    }
}

/// White space parts the words on its two sides and adds none: the words of
/// `a`, a white character and `b` are the words of `a` followed by those of `b`.
pub proof fn white_space_parts_words(a: Seq<char>, c: char, b: Seq<char>)
    requires
        white_space(c),
    ensures
        words(a + seq![c] + b) == words(a) + words(b),
    decreases b.len(),
{
    let s = a + seq![c] + b;
    if b.len() == 0 {
        assert(s.drop_last() =~= a);
        assert(words(b) =~= Seq::empty());
        assert(words(a) + words(b) =~= words(a));
    } else {
        let front = b.drop_last();
        assert(s.drop_last() =~= a + seq![c] + front);
        white_space_parts_words(a, c, front);
        assert(s.last() == b.last());
        if !white_space(b.last()) {
            if b.len() >= 2 && !white_space(b[b.len() - 2]) {
                assert(s[s.len() - 2] == b[b.len() - 2]);
                assert(front.last() == b[b.len() - 2]);
                assert(words(front).len() > 0);
                assert(words(s) =~= words(a) + words(b));
            } else {
                assert(white_space(s[s.len() - 2]));
                assert(words(s) =~= words(a) + words(b));
            }
        }
    }
}

/// Joined lists join with the separator between them.
pub proof fn joining_is_associative(a: Seq<Seq<char>>, b: Seq<Seq<char>>, sep: Seq<char>)
    requires
        a.len() > 0,
        b.len() > 0,
    ensures
        join(a + b, sep) == join(a, sep) + sep + join(b, sep),
    decreases b.len(),
{
    assert((a + b).last() == b.last());
    assert((a + b).drop_last() =~= a + b.drop_last());
    if b.len() == 1 {
        assert(a + b.drop_last() =~= a);
    } else {
        joining_is_associative(a, b.drop_last(), sep);
        assert(join(a + b, sep) =~= join(a, sep) + sep + join(b, sep));
    }
}

/// One text is joined to itself, and none to the empty text.
pub proof fn joining_one_or_none(part: Seq<char>, sep: Seq<char>)
    ensures
        join(seq![part], sep) == part,
        join(Seq::empty(), sep) == Seq::<char>::empty(),
{
}

/// Collapsing a text that has no white space leaves it as it is.
pub proof fn a_run_collapses_to_itself(s: Seq<char>)
    requires
        forall|i: int| 0 <= i < s.len() ==> !white_space(#[trigger] s[i]),
    ensures
        collapsed(s) == s,
{
    if s.len() > 0 {
        a_run_is_one_word(s);
        assert(join(words(s), seq![' ']) == words(s)[0]);
    } else {
        assert(words(s) =~= Seq::empty());
        assert(collapsed(s) =~= s);
    }
}

/// White space between two texts collapses to one space, and to none where
/// one of the two collapses to nothing.
pub proof fn inner_space_collapses_to_one(a: Seq<char>, c: char, b: Seq<char>)
    requires
        white_space(c),
    ensures
        collapsed(a).len() > 0 && collapsed(b).len() > 0 ==> collapsed(a + seq![c] + b)
            == collapsed(a) + seq![' '] + collapsed(b),
        collapsed(a).len() == 0 ==> collapsed(a + seq![c] + b) == collapsed(b),
        collapsed(b).len() == 0 ==> collapsed(a + seq![c] + b) == collapsed(a),
{
    white_space_parts_words(a, c, b);
    lemma_collapsed_empty(a);
    lemma_collapsed_empty(b);
    if words(a).len() == 0 {
        assert(words(a) + words(b) =~= words(b));
    } else if words(b).len() == 0 {
        assert(words(a) + words(b) =~= words(a));
    } else {
        joining_is_associative(words(a), words(b), seq![' ']);
    }
}

/// A text collapses to nothing exactly where it has no word.
proof fn lemma_collapsed_empty(s: Seq<char>)
    ensures
        collapsed(s).len() == 0 <==> words(s).len() == 0,
{
    lemma_words_not_empty(s);
    if words(s).len() > 0 {
        lemma_join_not_empty(words(s), seq![' ']);
    }
}

/// No word is empty.
proof fn lemma_words_not_empty(s: Seq<char>)
    ensures
        forall|i: int| 0 <= i < words(s).len() ==> (#[trigger] words(s)[i]).len() > 0,
    decreases s.len(),
{
    if s.len() > 0 {
        lemma_words_not_empty(s.drop_last());
        if s.len() >= 2 && !white_space(s[s.len() - 2]) {
            assert(s.drop_last().last() == s[s.len() - 2]);
            assert(words(s.drop_last()).len() > 0);
        }
    }
}

/// A list of texts that are not empty joins to a text that is not.
proof fn lemma_join_not_empty(parts: Seq<Seq<char>>, sep: Seq<char>)
    requires
        parts.len() > 0,
        forall|i: int| 0 <= i < parts.len() ==> (#[trigger] parts[i]).len() > 0,
    ensures
        join(parts, sep).len() > 0,
{
    assert(parts[0].len() > 0);
    assert(parts[parts.len() - 1].len() > 0);
}

// ── Splitting ────────────────────────────────────────────────────────────────

/// A text without the separator is one piece.
pub proof fn a_text_without_separator_is_one_piece(s: Seq<char>, sep: char)
    requires
        lacks(s, sep),
    ensures
        split(s, sep) == seq![s],
    decreases s.len(),
{
    if s.len() == 0 {
        assert(s =~= Seq::empty());
    } else {
        let front = s.drop_last();
        assert(s[s.len() - 1] != sep);
        assert forall|i: int| 0 <= i < front.len() implies #[trigger] front[i] != sep by {
            assert(front[i] == s[i]);
        }
        a_text_without_separator_is_one_piece(front, sep);
        assert(front.push(s.last()) =~= s);
        assert(split(s, sep) =~= seq![s]);
    }
}

/// Splitting never gives an empty list.
proof fn lemma_split_len(s: Seq<char>, sep: char)
    ensures
        split(s, sep).len() > 0,
    decreases s.len(),
{
    if s.len() > 0 {
        lemma_split_len(s.drop_last(), sep);
    }
}

/// The separator parts the pieces on its two sides: the pieces of `a`, the
/// separator and `b` are the pieces of `a` followed by those of `b`.
pub proof fn separators_part_pieces(a: Seq<char>, sep: char, b: Seq<char>)
    ensures
        split(a + seq![sep] + b, sep) == split(a, sep) + split(b, sep),
    decreases b.len(),
{
    let s = a + seq![sep] + b;
    lemma_split_len(a, sep);
    if b.len() == 0 {
        assert(s.drop_last() =~= a);
        assert(s.last() == sep);
        assert(split(b, sep) =~= seq![Seq::<char>::empty()]);
        assert(split(s, sep) =~= split(a, sep) + split(b, sep));
    } else {
        let front = b.drop_last();
        assert(s.drop_last() =~= a + seq![sep] + front);
        assert(s.last() == b.last());
        separators_part_pieces(a, sep, front);
        lemma_split_len(front, sep);
        assert(split(s, sep) =~= split(a, sep) + split(b, sep));
    }
}

/// Joining the pieces with the separator gives the text back, and no piece
/// holds the separator.
pub proof fn pieces_join_to_the_text(s: Seq<char>, sep: char)
    ensures
        join(split(s, sep), seq![sep]) == s,
        forall|i: int| 0 <= i < split(s, sep).len() ==> lacks(#[trigger] split(s, sep)[i], sep),
    decreases s.len(),
{
    if s.len() == 0 {
        assert(join(split(s, sep), seq![sep]) =~= s);
    } else {
        let front = s.drop_last();
        let pieces = split(front, sep);
        pieces_join_to_the_text(front, sep);
        lemma_split_len(front, sep);
        let whole = split(s, sep);
        if s.last() == sep {
            assert(whole.drop_last() =~= pieces);
            assert(join(whole, seq![sep]) =~= s);
        } else {
            assert(whole.drop_last() =~= pieces.drop_last());
            assert(whole.last() == pieces.last().push(s.last()));
            if pieces.len() == 1 {
                assert(join(pieces, seq![sep]) == pieces.last());
                assert(join(whole, seq![sep]) =~= s);
            } else {
                assert(join(whole, seq![sep]) =~= join(pieces, seq![sep]).push(s.last()));
                assert(front.push(s.last()) =~= s);
            }
            assert(lacks(pieces[pieces.len() - 1], sep));
            let last = pieces.last().push(s.last());
            assert forall|i: int| 0 <= i < last.len() implies #[trigger] last[i] != sep by {
                if i < pieces.last().len() {
                    assert(last[i] == pieces[pieces.len() - 1][i]);
                }
            }
        }
        assert forall|i: int| 0 <= i < whole.len() implies lacks(#[trigger] whole[i], sep) by {
            if i < pieces.len() {
                assert(lacks(pieces[i], sep));
            }
        }
    }
}

// ── Lines ────────────────────────────────────────────────────────────────────

/// A first line ends at the first line feed, which is no part of it; a
/// carriage return directly in front of the line feed is no part of it either.
pub proof fn a_line_ends_at_its_line_feed(first: Seq<char>, rest: Seq<char>)
    requires
        lacks(first, '\n'),
    ensures
        first.len() == 0 || first.last() != '\r' ==> lines(first + seq!['\n'] + rest)
            == seq![first] + lines(rest),
        lines(first.push('\r') + seq!['\n'] + rest) == seq![first] + lines(rest),
{
    lemma_first_line(first, rest);
    let long = first.push('\r');
    assert forall|i: int| 0 <= i < long.len() implies #[trigger] long[i] != '\n' by {
        if i < first.len() {
            assert(long[i] == first[i]);
        }
    }
    lemma_first_line(long, rest);
    assert(long.drop_last() =~= first);
}

/// The first of several lines, with what is dropped at its end.
proof fn lemma_first_line(first: Seq<char>, rest: Seq<char>)
    requires
        lacks(first, '\n'),
    ensures
        lines(first + seq!['\n'] + rest) == seq![
            if first.len() > 0 && first.last() == '\r' {
                first.drop_last()
            } else {
                first
            },
        ] + lines(rest),
{
    a_text_without_separator_is_one_piece(first, '\n');
    separators_part_pieces(first, '\n', rest);
    let pieces = split(rest, '\n');
    lemma_split_len(rest, '\n');
    assert((seq![first] + pieces).drop_last() =~= seq![first] + pieces.drop_last());
    assert(lines(first + seq!['\n'] + rest) =~= seq![
        if first.len() > 0 && first.last() == '\r' {
            first.drop_last()
        } else {
            first
        },
    ] + lines(rest));
}

/// A text without a line feed is one line, as it stands; the empty text has
/// no line.
pub proof fn the_last_line_needs_no_line_feed(s: Seq<char>)
    requires
        lacks(s, '\n'),
    ensures
        s.len() > 0 ==> lines(s) == seq![s],
        s.len() == 0 ==> lines(s) == Seq::<Seq<char>>::empty(),
{
    a_text_without_separator_is_one_piece(s, '\n');
    assert(seq![s].drop_last() =~= Seq::empty());
    if s.len() > 0 {
        assert(lines(s) =~= seq![s]);
    } else {
        assert(lines(s) =~= Seq::empty());
    }
}

// ── Searching ────────────────────────────────────────────────────────────────

/// A text occurs in another exactly where the other is that text with
/// something before and after it.
pub proof fn a_part_occurs_in_the_whole(a: Seq<char>, needle: Seq<char>, b: Seq<char>)
    ensures
        has_infix(a + needle + b, needle),
        occurs_at(a + needle + b, needle, a.len() as int),
        has_prefix(needle + b, needle),
{
    assert((a + needle + b).subrange(a.len() as int, (a.len() + needle.len()) as int) =~= needle);
    assert(occurs_at(a + needle + b, needle, a.len() as int));
    assert((needle + b).subrange(0, needle.len() as int) =~= needle);
}

/// Where a text occurs in another, the other is that text with something
/// before and after it; where it stands in front, with something after it.
pub proof fn an_occurrence_is_a_part(hay: Seq<char>, needle: Seq<char>)
    ensures
        has_infix(hay, needle) ==> exists|a: Seq<char>, b: Seq<char>|
            hay == #[trigger] (a + needle + b),
        has_prefix(hay, needle) ==> exists|b: Seq<char>| hay == #[trigger] (needle + b),
{
    if has_infix(hay, needle) {
        let at = choose|at: int| occurs_at(hay, needle, at);
        let a = hay.take(at);
        let b = hay.skip(at + needle.len());
        assert(hay =~= a + hay.subrange(at, at + needle.len()) + b);
        assert(hay == a + needle + b);
    }
    if has_prefix(hay, needle) {
        let b = hay.skip(needle.len() as int);
        assert(hay =~= hay.subrange(0, needle.len() as int) + b);
        assert(hay == needle + b);
    }
}

/// A text occurs at a place exactly where as many characters stand before it.
pub proof fn an_occurrence_has_its_place(hay: Seq<char>, needle: Seq<char>, at: int)
    ensures
        occurs_at(hay, needle, at) <==> exists|a: Seq<char>, b: Seq<char>|
            a.len() == at && hay == #[trigger] (a + needle + b),
{
    if occurs_at(hay, needle, at) {
        let a = hay.take(at);
        let b = hay.skip(at + needle.len());
        assert(hay =~= a + hay.subrange(at, at + needle.len()) + b);
        assert(a.len() == at && hay == a + needle + b);
    }
    if exists|a: Seq<char>, b: Seq<char>| a.len() == at && hay == #[trigger] (a + needle + b) {
        let (a, b) = choose|a: Seq<char>, b: Seq<char>|
            a.len() == at && hay == #[trigger] (a + needle + b);
        a_part_occurs_in_the_whole(a, needle, b);
    }
}

} // verus!
