//! The matching form of names.
//!
//! Names are compared by a normalized form: ASCII letters in lower case, words
//! separated by single spaces, punctuation dropped, and a space between a letter
//! and a digit that follows it, so that `M31`, `m 31` and `M-31` all match.

use vstd::prelude::*;

use crate::number::is_digit;
use crate::text::{chars_of, is_white_space, same_text, split_words, texts, trim_back, trim_front, trimmed, white_space, words, Strip};

verus! {

/// Whether `c` is an ASCII letter.
pub open spec fn is_letter(c: char) -> bool {
    0x41 <= c as u32 <= 0x5a || 0x61 <= c as u32 <= 0x7a
}

/// Whether `c` is part of a word: an ASCII letter or digit, or any character
/// beyond ASCII that is no white space.
pub open spec fn is_word(c: char) -> bool {
    is_letter(c) || is_digit(c) || (c as u32 >= 0x80 && !white_space(c))
}

/// `c` in lower case, where it is an ASCII letter.
pub open spec fn lower(c: char) -> char {
    if 0x41 <= c as u32 <= 0x5a {
        (c as u32 + 0x20) as char
    } else {
        c
    }
}

/// The normalized form of `s`.
pub open spec fn normalized(s: Seq<char>) -> Seq<char>
    decreases s.len(),
{
    if s.len() == 0 {
        Seq::empty()
    } else {
        let front = normalized(s.drop_last());
        let c = s.last();
        if !is_word(c) {
            front
        } else if front.len() == 0 {
            seq![lower(c)]
        } else if continues(s) {
            front.push(lower(c))
        } else {
            front.push(' ').push(lower(c))
        }
    }
}

/// Whether the last character of `s` goes on with the word before it.
pub open spec fn continues(s: Seq<char>) -> bool {
    &&& s.len() >= 2
    &&& is_word(s[s.len() - 2])
    &&& !(is_letter(s[s.len() - 2]) && is_digit(s.last()))
}

fn word_char(c: char) -> (r: bool)
    ensures
        r == is_word(c),
{
    let u: u32 = c as u32;
    (0x41 <= u && u <= 0x5a) || (0x61 <= u && u <= 0x7a) || (0x30 <= u && u <= 0x39) || (u >= 0x80
        && !is_white_space(c))
}

fn lower_case(c: char) -> (r: char)
    ensures
        r == lower(c),
{
    let u: u32 = c as u32;
    if 0x41 <= u && u <= 0x5a {
        (u as u8 + 0x20) as char
    } else {
        c
    }
}

fn splits(last: char, c: char) -> (r: bool)
    ensures
        r == (is_letter(last) && is_digit(c)),
{
    let u: u32 = last as u32;
    let v: u32 = c as u32;
    ((0x41 <= u && u <= 0x5a) || (0x61 <= u && u <= 0x7a)) && 0x30 <= v && v <= 0x39
}

/// The normalized form of `s`.
pub fn normalize(s: &str) -> (out: String)
    ensures
        out@ == normalized(s@),
{
    let chars = chars_of(s);
    let mut out = String::new();
    let mut any: bool = false;
    let mut i: usize = 0;
    assert(chars@.take(0) =~= Seq::empty());
    while i < chars.len()
        invariant
            i <= chars@.len(),
            out@ == normalized(chars@.take(i as int)),
            any == (out@.len() > 0),
        decreases chars@.len() - i,
    {
        let c = chars[i];
        let ghost seen = chars@.take(i + 1);
        assert(seen.drop_last() =~= chars@.take(i as int));
        if word_char(c) {
            if any {
                assert(i > 0);
                assert(seen[seen.len() - 2] == chars@[i - 1]);
                if !word_char(chars[i - 1]) || splits(chars[i - 1], c) {
                    out.push(' ');
                }
            }
            out.push(lower_case(c));
            any = true;
        }
        i += 1;
    }
    assert(chars@.take(chars@.len() as int) =~= chars@);
    out
}

/// What the last character of a normalized form is.
proof fn lemma_last(s: Seq<char>)
    ensures
        normalized(s).len() > 0 ==> is_word(normalized(s).last()),
        s.len() > 0 && is_word(s.last()) ==> normalized(s).len() > 0 && normalized(s).last()
            == lower(s.last()),
    decreases s.len(),
{
    if s.len() > 0 {
        lemma_last(s.drop_last());
    }
}

/// Normalizing a normalized form changes nothing.
pub proof fn normalize_is_idempotent(s: Seq<char>)
    ensures
        normalized(normalized(s)) == normalized(s),
    decreases s.len(),
{
    if s.len() > 0 {
        let front = normalized(s.drop_last());
        let c = s.last();
        normalize_is_idempotent(s.drop_last());
        lemma_last(s.drop_last());
        if is_word(c) {
            let all = normalized(s);
            assert(all.last() == lower(c));
            assert(lower(lower(c)) == lower(c));
            if front.len() == 0 {
                assert(all.drop_last() =~= Seq::empty());
            } else if continues(s) {
                assert(s.drop_last().last() == s[s.len() - 2]);
                assert(all.drop_last() =~= front);
                assert(all[all.len() - 2] == front.last());
            } else {
                let spaced = front.push(' ');
                assert(all.drop_last() =~= spaced);
                assert(spaced.drop_last() =~= front);
                assert(!is_word(' '));
                assert(normalized(spaced) == front);
                assert(all[all.len() - 2] == ' ');
            }
        }
    }
}

/// White space in front changes no normalized form.
proof fn lemma_space_in_front(c: char, s: Seq<char>)
    requires
        white_space(c),
    ensures
        normalized(seq![c] + s) == normalized(s),
    decreases s.len(),
{
    let all = seq![c] + s;
    if s.len() == 0 {
        assert(all.drop_last() =~= Seq::empty());
        assert(normalized(all.drop_last()) == Seq::<char>::empty());
    } else {
        assert(all.drop_last() =~= seq![c] + s.drop_last());
        lemma_space_in_front(c, s.drop_last());
        assert(all.last() == s.last());
        if s.len() == 1 {
            assert(all[all.len() - 2] == c);
            assert(s.drop_last() =~= Seq::empty());
        } else {
            assert(all[all.len() - 2] == s[s.len() - 2]);
        }
    }
}

proof fn lemma_trim_front_normalizes(s: Seq<char>)
    ensures
        normalized(trim_front(s, Strip::WhiteSpace)) == normalized(s),
    decreases s.len(),
{
    if s.len() > 0 && Strip::WhiteSpace.drops(s[0]) {
        assert(s =~= seq![s[0]] + s.drop_first());
        lemma_space_in_front(s[0], s.drop_first());
        lemma_trim_front_normalizes(s.drop_first());
    }
}

/// White space at the back changes no normalized form.
pub proof fn lemma_trim_back_normalizes(s: Seq<char>)
    ensures
        normalized(trim_back(s, Strip::WhiteSpace)) == normalized(s),
    decreases s.len(),
{
    if s.len() > 0 && Strip::WhiteSpace.drops(s.last()) {
        lemma_trim_back_normalizes(s.drop_last());
    }
}

/// White space at either end changes no normalized form.
pub proof fn outer_space_is_ignored(s: Seq<char>)
    ensures
        normalized(trimmed(s)) == normalized(s),
{
    lemma_trim_front_normalizes(s);
    lemma_trim_back_normalizes(trim_front(s, Strip::WhiteSpace));
}

/// A text without letters, digits or characters beyond ASCII has an empty
/// normalized form.
pub proof fn punctuation_normalizes_to_nothing(s: Seq<char>)
    requires
        forall|i: int| 0 <= i < s.len() ==> !is_word(#[trigger] s[i]),
    ensures
        normalized(s).len() == 0,
    decreases s.len(),
{
    if s.len() > 0 {
        assert(!is_word(s[s.len() - 1]));
        assert forall|i: int| 0 <= i < s.drop_last().len() implies !is_word(
            #[trigger] s.drop_last()[i],
        ) by {
            assert(s.drop_last()[i] == s[i]);
        }
        punctuation_normalizes_to_nothing(s.drop_last());
    }
}

// ── Token sets ───────────────────────────────────────────────────────────────

/// The set of words of a text.
pub open spec fn tokens(s: Seq<char>) -> Set<Seq<char>> {
    words(s).to_set()
}

fn distinct(v: &Vec<String>) -> (out: Vec<String>)
    ensures
        texts(out@).no_duplicates(),
        texts(out@).to_set() == texts(v@).to_set(),
{
    let mut out: Vec<String> = Vec::new();
    let ghost all = texts(v@);
    let mut i: usize = 0;
    assert(texts(out@).to_set() =~= all.take(0).to_set());
    while i < v.len()
        invariant
            all == texts(v@),
            i <= v@.len(),
            texts(out@).no_duplicates(),
            texts(out@).to_set() == all.take(i as int).to_set(),
        decreases v@.len() - i,
    {
        let ghost seen = texts(out@);
        proof {
            assert(all.take(i + 1) =~= all.take(i as int).push(all[i as int]));
            all.take(i as int).lemma_push_to_set_commute(all[i as int]);
            seen.lemma_push_to_set_commute(all[i as int]);
        }
        if !has_text(&out, v[i].as_str()) {
            let item = v[i].clone();
            out.push(item);
            assert(texts(out@) =~= seen.push(all[i as int]));
        } else {
            assert(seen.to_set().contains(all[i as int]));
            assert(seen.to_set() =~= seen.to_set().insert(all[i as int]));
        }
        i += 1;
    }
    assert(all.take(v@.len() as int) =~= all);
    out
}

/// Whether `v` holds `s`.
pub fn has_text(v: &Vec<String>, s: &str) -> (r: bool)
    ensures
        r == texts(v@).contains(s@),
{
    let mut i: usize = 0;
    while i < v.len()
        invariant
            i <= v@.len(),
            forall|k: int| 0 <= k < i ==> texts(v@)[k] != s@,
        decreases v@.len() - i,
    {
        if same_text(v[i].as_str(), s) {
            assert(texts(v@)[i as int] == s@);
            return true;
        }
        i += 1;
    }
    false
}

/// The items of `x` that are in `y` too.
fn common(x: &Vec<String>, y: &Vec<String>) -> (out: Vec<String>)
    requires
        texts(x@).no_duplicates(),
    ensures
        texts(out@).no_duplicates(),
        texts(out@).to_set() == texts(x@).to_set().intersect(texts(y@).to_set()),
{
    let ghost p = texts(x@);
    let ghost q = texts(y@).to_set();
    let mut out: Vec<String> = Vec::new();
    let mut i: usize = 0;
    assert(texts(out@).to_set() =~= p.take(0).to_set().intersect(q));
    while i < x.len()
        invariant
            p == texts(x@),
            q == texts(y@).to_set(),
            p.no_duplicates(),
            i <= x@.len(),
            texts(out@).no_duplicates(),
            texts(out@).to_set() == p.take(i as int).to_set().intersect(q),
        decreases x@.len() - i,
    {
        let ghost sofar = texts(out@);
        let ghost item = p[i as int];
        proof {
            assert(p.take(i + 1) =~= p.take(i as int).push(item));
            p.take(i as int).lemma_push_to_set_commute(item);
            sofar.lemma_push_to_set_commute(item);
            assert(!p.take(i as int).to_set().contains(item));
            assert(!sofar.to_set().contains(item));
        }
        if has_text(y, x[i].as_str()) {
            let word = x[i].clone();
            out.push(word);
            proof {
                assert(texts(out@) =~= sofar.push(item));
                assert(texts(out@).to_set() =~= p.take(i + 1).to_set().intersect(q));
            }
        } else {
            assert(sofar.to_set() =~= p.take(i + 1).to_set().intersect(q));
        }
        i += 1;
    }
    assert(p.take(x@.len() as int) =~= p);
    out
}

/// How many words two texts share, and how many they have between them: the
/// numerator and the denominator of their token-set similarity.
pub fn token_overlap(a: &str, b: &str) -> (r: (u128, u128))
    ensures
        r.0 == tokens(a@).intersect(tokens(b@)).len(),
        r.1 == tokens(a@).union(tokens(b@)).len(),
{
    let x = distinct(&split_words(a));
    let y = distinct(&split_words(b));
    let shared = common(&x, &y);
    proof {
        texts(x@).unique_seq_to_set();
        texts(y@).unique_seq_to_set();
        texts(shared@).unique_seq_to_set();
        vstd::seq_lib::seq_to_set_is_finite(texts(x@));
        vstd::seq_lib::seq_to_set_is_finite(texts(y@));
        vstd::set_lib::lemma_set_intersect_union_lens(tokens(a@), tokens(b@));
    }
    let n: u128 = shared.len() as u128;
    (n, x.len() as u128 + y.len() as u128 - n)
}

} // verus!
