//! How the normalized form of a text is made up of those of its parts.

use vstd::prelude::*;

use crate::normalize::{continues, is_letter, is_word, lower, normalized, tokens};
use crate::number::is_digit;
use crate::text::{white_space, words};
use crate::text_laws::{a_run_is_one_word, white_space_parts_words};

verus! {

/// Whether a character is an ASCII letter.
pub open spec fn ascii_letter(c: char) -> bool {
    'a' <= c <= 'z' || 'A' <= c <= 'Z'
}

/// Whether a character is part of a word: an ASCII letter or digit, or any
/// character beyond ASCII that is not white space.
pub open spec fn word_char(c: char) -> bool {
    ascii_letter(c) || '0' <= c <= '9' || (c as u32 > 0x7f && !white_space(c))
}

proof fn lemma_classes(c: char)
    ensures
        ascii_letter(c) <==> is_letter(c),
        word_char(c) <==> is_word(c),
        ('0' <= c <= '9') <==> is_digit(c),
{
}

/// A character that is part of a word is its own normalized form, in lower case
/// where it is an ASCII letter; any other normalizes to nothing.
pub proof fn single_characters_normalize(c: char)
    ensures
        !word_char(c) ==> normalized(seq![c]) == Seq::<char>::empty(),
        word_char(c) && !('A' <= c <= 'Z') ==> normalized(seq![c]) == seq![c],
        'A' <= c <= 'Z' ==> normalized(seq![c]).len() == 1 && normalized(seq![c])[0] as int
            == c as int + ('a' as int - 'A' as int),
{
    lemma_classes(c);
    let none = Seq::<char>::empty();
    assert(seq![c].drop_last() =~= none);
    assert(normalized(none) == none);
    if word_char(c) {
        assert(normalized(seq![c]) == seq![lower(c)]);
        if 'A' <= c <= 'Z' {
            let l = c as u32 + 0x20;
            assert(lower(c) as int == l);
        } else {
            assert(lower(c) == c);
        }
    }
}

/// Whether the characters on the two sides of a cut run on as one word.
pub open spec fn runs_on(x: char, y: char) -> bool {
    word_char(x) && word_char(y) && !(ascii_letter(x) && '0' <= y <= '9')
}

/// The normalized form of a text is put together from those of any two parts. They
/// run on where the cut is inside a word; else there is one space between them:
/// where a character at the cut is no part of a word, however many there are, and
/// where a letter stands before a digit. A part that normalizes to nothing adds
/// nothing.
pub proof fn normalized_parts_are_put_together(x: Seq<char>, y: Seq<char>)
    requires
        x.len() > 0,
        y.len() > 0,
    ensures
        normalized(x).len() == 0 ==> normalized(x + y) == normalized(y),
        normalized(y).len() == 0 ==> normalized(x + y) == normalized(x),
        normalized(x).len() > 0 && normalized(y).len() > 0 && runs_on(x.last(), y[0])
            ==> normalized(x + y) == normalized(x) + normalized(y),
        normalized(x).len() > 0 && normalized(y).len() > 0 && !runs_on(x.last(), y[0])
            ==> normalized(x + y) == normalized(x) + seq![' '] + normalized(y),
    decreases y.len(),
{
    let s = x + y;
    let c = y.last();
    let nx = normalized(x);
    lemma_classes(x.last());
    lemma_classes(y[0]);
    assert(s.last() == c);
    lemma_last_word(x);
    if y.len() == 1 {
        assert(s.drop_last() =~= x);
        assert(y =~= seq![c]);
        assert(y.drop_last() =~= Seq::empty());
        assert(normalized(y.drop_last()) == Seq::<char>::empty());
        assert(s[s.len() - 2] == x.last());
        if is_word(c) {
            assert(normalized(y) == seq![lower(c)]);
            if nx.len() > 0 {
                assert(continues(s) == runs_on(x.last(), y[0]));
                assert(normalized(s) =~= if runs_on(x.last(), y[0]) {
                    nx + normalized(y)
                } else {
                    nx + seq![' '] + normalized(y)
                });
            }
        }
    } else {
        let front = y.drop_last();
        assert(s.drop_last() =~= x + front);
        assert(front[0] == y[0]);
        normalized_parts_are_put_together(x, front);
        assert(s[s.len() - 2] == y[y.len() - 2]);
        assert(continues(s) == continues(y));
        lemma_first_word(front);
        lemma_last_word(front);
        assert(front.last() == y[y.len() - 2]);
        if is_word(c) && nx.len() > 0 {
            let nf = normalized(front);
            if nf.len() == 0 {
                assert(!continues(s));
                assert(!runs_on(x.last(), y[0]));
                assert(normalized(s) =~= nx + seq![' '] + normalized(y));
            } else if runs_on(x.last(), y[0]) {
                assert(normalized(s) =~= nx + normalized(y));
            } else {
                assert(normalized(s) =~= nx + seq![' '] + normalized(y));
            }
        }
    }
}

/// A text that ends in a part of a word has a normalized form.
proof fn lemma_last_word(s: Seq<char>)
    requires
        s.len() > 0,
    ensures
        is_word(s.last()) ==> normalized(s).len() > 0,
{
}

/// A text that begins with a part of a word has a normalized form.
proof fn lemma_first_word(s: Seq<char>)
    requires
        s.len() > 0,
    ensures
        is_word(s[0]) ==> normalized(s).len() > 0,
    decreases s.len(),
{
    if s.len() > 1 {
        lemma_first_word(s.drop_last());
    }
}

/// Letters match without regard to their case: a text normalizes as it does with
/// any of its ASCII letters in lower case.
pub proof fn case_is_ignored(s: Seq<char>, t: Seq<char>)
    requires
        s.len() == t.len(),
        forall|i: int|
            0 <= i < s.len() ==> #[trigger] s[i] == t[i] || ('A' <= s[i] <= 'Z' && s[i] as int
                + 0x20 == t[i] as int),
    ensures
        normalized(s) == normalized(t),
    decreases s.len(),
{
    if s.len() > 0 {
        let a = s.drop_last();
        let b = t.drop_last();
        assert forall|i: int| 0 <= i < a.len() implies #[trigger] a[i] == b[i] || ('A' <= a[i]
            <= 'Z' && a[i] as int + 0x20 == b[i] as int) by {
            assert(a[i] == s[i]);
        }
        case_is_ignored(a, b);
        assert(s[s.len() - 1] == s.last());
        lemma_case(s.last(), t.last());
        if s.len() >= 2 {
            lemma_case(s[s.len() - 2], t[s.len() - 2]);
        }
    }
}

proof fn lemma_case(x: char, y: char)
    requires
        x == y || ('A' <= x <= 'Z' && x as int + 0x20 == y as int),
    ensures
        is_word(x) == is_word(y),
        is_letter(x) == is_letter(y),
        is_digit(x) == is_digit(y),
        lower(x) == lower(y),
{
    if x != y {
        let l = x as u32 + 0x20;
        assert(lower(x) as int == l);
    }
}

/// The tokens of a text are those of its parts on the two sides of white space,
/// and a run without white space is one token.
pub proof fn white_space_parts_tokens(a: Seq<char>, c: char, b: Seq<char>)
    requires
        white_space(c),
    ensures
        tokens(a + seq![c] + b) == tokens(a).union(tokens(b)),
        (a.len() > 0 && forall|i: int| 0 <= i < a.len() ==> !white_space(#[trigger] a[i]))
            ==> tokens(a) == set![a],
{
    white_space_parts_words(a, c, b);
    let x = words(a);
    let y = words(b);
    assert forall|w: Seq<char>| (x + y).to_set().contains(w) <==> x.to_set().union(
        y.to_set(),
    ).contains(w) by {
        if (x + y).contains(w) {
            let i = choose|i: int| 0 <= i < (x + y).len() && (x + y)[i] == w;
            if i < x.len() {
                assert(x[i] == w);
            } else {
                assert(y[i - x.len()] == w);
            }
        }
        if x.contains(w) {
            let i = choose|i: int| 0 <= i < x.len() && x[i] == w;
            assert((x + y)[i] == w);
        }
        if y.contains(w) {
            let i = choose|i: int| 0 <= i < y.len() && y[i] == w;
            assert((x + y)[i + x.len()] == w);
        }
    }
    assert((x + y).to_set() =~= x.to_set().union(y.to_set()));
    if a.len() > 0 && forall|i: int| 0 <= i < a.len() ==> !white_space(#[trigger] a[i]) {
        a_run_is_one_word(a);
        assert forall|w: Seq<char>| seq![a].to_set().contains(w) <==> set![a].contains(w) by {
            assert(seq![a][0] == a);
        }
        assert(seq![a].to_set() =~= set![a]);
    }
}

} // verus!
