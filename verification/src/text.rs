//! Character-level text primitives.
//!
//! Every function of this crate that takes text apart or puts it together is
//! specified over the sequence of its characters. This module holds the shared
//! vocabulary: white space, trimming, splitting, searching, and the byte order
//! of strings.

use vstd::prelude::*;
use vstd::utf8::*;

verus! {

/// `String::push` appends one character at the end and changes nothing else.
pub assume_specification[ String::push ](s: &mut String, c: char)
    ensures
        final(s)@ == old(s)@.push(c),
;

// ── Characters and strings ───────────────────────────────────────────────────

/// The characters of `s`, in order.
pub fn chars_of(s: &str) -> (out: Vec<char>)
    ensures
        out@ == s@,
{
    let mut out: Vec<char> = Vec::new();
    for c in it: s.chars()
        invariant
            it.seq() == s@,
            out@ == s@.take(it.index()),
    {
        out.push(c);
        assert(s@.take(it.index() + 1) =~= s@.take(it.index()).push(c));
    }
    assert(s@.take(s@.len() as int) =~= s@);
    out
}

/// The string made of `chars[from..to]`.
pub fn text_between(chars: &Vec<char>, from: usize, to: usize) -> (out: String)
    requires
        from <= to <= chars@.len(),
    ensures
        out@ == chars@.subrange(from as int, to as int),
{
    let mut out = String::new();
    let mut i: usize = from;
    while i < to
        invariant
            from <= i <= to <= chars@.len(),
            out@ == chars@.subrange(from as int, i as int),
        decreases to - i,
    {
        out.push(chars[i]);
        i += 1;
        assert(chars@.subrange(from as int, i as int) =~= chars@.subrange(
            from as int,
            i - 1,
        ).push(chars@[i - 1]));
    }
    out
}

/// The string made of all of `chars`.
pub fn text_of(chars: &Vec<char>) -> (out: String)
    ensures
        out@ == chars@,
{
    assert(chars@.subrange(0, chars@.len() as int) =~= chars@);
    text_between(chars, 0, chars.len())
}

/// Append all of `more` to `out`.
pub fn push_text(out: &mut String, more: &str)
    ensures
        final(out)@ == old(out)@ + more@,
{
    out.append(more);
}

/// Whether `a` and `b` hold the same characters.
pub fn same_text(a: &str, b: &str) -> (r: bool)
    ensures
        r == (a@ == b@),
{
    let x = a.as_bytes();
    let y = b.as_bytes();
    proof {
        encode_utf8_decode_utf8(a@);
        encode_utf8_decode_utf8(b@);
    }
    if x.len() != y.len() {
        return false;
    }
    let mut i: usize = 0;
    while i < x.len()
        invariant
            x@ == encode_utf8(a@),
            y@ == encode_utf8(b@),
            x@.len() == y@.len(),
            i <= x@.len(),
            forall|k: int| 0 <= k < i ==> x@[k] == y@[k],
        decreases x@.len() - i,
    {
        if x[i] != y[i] {
            return false;
        }
        i += 1;
    }
    assert(x@ =~= y@);
    true
}

/// The number of bytes of the UTF-8 form of `s`: what `str::len` counts.
pub open spec fn byte_len(s: Seq<char>) -> usize {
    encode_utf8(s).len() as usize
}

// ── White space and trimming ─────────────────────────────────────────────────

/// The Unicode `White_Space` property, which `char::is_whitespace` tests.
pub open spec fn white_space(c: char) -> bool {
    let u = c as u32;
    ||| 0x9 <= u <= 0xd
    ||| u == 0x20
    ||| u == 0x85
    ||| u == 0xa0
    ||| u == 0x1680
    ||| 0x2000 <= u <= 0x200a
    ||| u == 0x2028
    ||| u == 0x2029
    ||| u == 0x202f
    ||| u == 0x205f
    ||| u == 0x3000
}

/// Whether `c` is white space.
pub fn is_white_space(c: char) -> (r: bool)
    ensures
        r == white_space(c),
{
    let u: u32 = c as u32;
    (0x9 <= u && u <= 0xd) || u == 0x20 || u == 0x85 || u == 0xa0 || u == 0x1680 || (0x2000 <= u
        && u <= 0x200a) || u == 0x2028 || u == 0x2029 || u == 0x202f || u == 0x205f || u == 0x3000
}

/// What a trim takes away from both ends.
#[derive(Clone, Copy, Debug, PartialEq, Eq, Structural)]
pub enum Strip {
    /// White space.
    WhiteSpace,
    /// Double quotes.
    Quotes,
}

impl Strip {
    /// Whether this trim takes `c` away.
    pub open spec fn drops(self, c: char) -> bool {
        match self {
            Strip::WhiteSpace => white_space(c),
            Strip::Quotes => c == '"',
        }
    }

    fn takes(self, c: char) -> (r: bool)
        ensures
            r == self.drops(c),
    {
        match self {
            Strip::WhiteSpace => is_white_space(c),
            Strip::Quotes => c == '"',
        }
    }
}

/// `s` without its leading run of dropped characters.
pub open spec fn trim_front(s: Seq<char>, what: Strip) -> Seq<char>
    decreases s.len(),
{
    if s.len() > 0 && what.drops(s[0]) {
        trim_front(s.drop_first(), what)
    } else {
        s
    }
}

/// `s` without its trailing run of dropped characters.
pub open spec fn trim_back(s: Seq<char>, what: Strip) -> Seq<char>
    decreases s.len(),
{
    if s.len() > 0 && what.drops(s.last()) {
        trim_back(s.drop_last(), what)
    } else {
        s
    }
}

/// `s` without the dropped characters at either end.
pub open spec fn trim_both(s: Seq<char>, what: Strip) -> Seq<char> {
    trim_back(trim_front(s, what), what)
}

/// `s` without the white space at either end.
pub open spec fn trimmed(s: Seq<char>) -> Seq<char> {
    trim_both(s, Strip::WhiteSpace)
}

/// `s` without the dropped characters at either end.
pub fn strip(s: &str, what: Strip) -> (out: String)
    ensures
        out@ == trim_both(s@, what),
{
    let chars = chars_of(s);
    let n: usize = chars.len();
    let mut from: usize = 0;
    assert(chars@.skip(0) =~= chars@);
    while from < n && what.takes(chars[from])
        invariant
            n == chars@.len(),
            from <= n,
            trim_front(chars@, what) == trim_front(chars@.skip(from as int), what),
        decreases n - from,
    {
        assert(chars@.skip(from as int).drop_first() =~= chars@.skip(from + 1));
        from += 1;
    }
    assert(trim_front(chars@, what) == chars@.skip(from as int));
    let mut to: usize = n;
    assert(chars@.subrange(from as int, n as int) =~= chars@.skip(from as int));
    while to > from && what.takes(chars[to - 1])
        invariant
            n == chars@.len(),
            from <= to <= n,
            trim_back(chars@.skip(from as int), what) == trim_back(
                chars@.subrange(from as int, to as int),
                what,
            ),
        decreases to,
    {
        assert(chars@.subrange(from as int, to as int).drop_last() =~= chars@.subrange(
            from as int,
            to - 1,
        ));
        to -= 1;
    }
    text_between(&chars, from, to)
}

/// `s` without the white space at either end.
pub fn trim(s: &str) -> (out: String)
    ensures
        out@ == trimmed(s@),
{
    strip(s, Strip::WhiteSpace)
}

// ── Words ────────────────────────────────────────────────────────────────────

/// The maximal runs of non-white-space characters of `s`, in order.
pub open spec fn words(s: Seq<char>) -> Seq<Seq<char>>
    decreases s.len(),
{
    if s.len() == 0 {
        Seq::empty()
    } else {
        let before = words(s.drop_last());
        let c = s.last();
        if white_space(c) {
            before
        } else if s.len() >= 2 && !white_space(s[s.len() - 2]) {
            before.drop_last().push(before.last().push(c))
        } else {
            before.push(seq![c])
        }
    }
}

/// The parts of `parts` in order, with `sep` between neighbours.
pub open spec fn join(parts: Seq<Seq<char>>, sep: Seq<char>) -> Seq<char>
    decreases parts.len(),
{
    if parts.len() == 0 {
        Seq::empty()
    } else if parts.len() == 1 {
        parts[0]
    } else {
        join(parts.drop_last(), sep) + sep + parts.last()
    }
}

/// A run of white space ends the current word: after a non-white character
/// there is at least one word.
proof fn lemma_words_nonempty(s: Seq<char>)
    requires
        s.len() > 0,
        !white_space(s.last()),
    ensures
        words(s).len() > 0,
{
}

/// Extending the last part extends the joined text.
proof fn lemma_join_extend(parts: Seq<Seq<char>>, sep: Seq<char>, c: char)
    requires
        parts.len() > 0,
    ensures
        join(parts.drop_last().push(parts.last().push(c)), sep) == join(parts, sep).push(c),
{
    let next = parts.drop_last().push(parts.last().push(c));
    assert(next.drop_last() =~= parts.drop_last());
    if parts.len() > 1 {
        assert(join(next, sep) =~= join(parts, sep).push(c));
    }
}

/// Adding a part adds the separator, unless it is the first part.
proof fn lemma_join_push(parts: Seq<Seq<char>>, sep: Seq<char>, part: Seq<char>)
    ensures
        join(parts.push(part), sep) == if parts.len() == 0 {
            part
        } else {
            join(parts, sep) + sep + part
        },
{
    assert(parts.push(part).drop_last() =~= parts);
}

/// The words of `s` with single spaces between them.
pub open spec fn collapsed(s: Seq<char>) -> Seq<char> {
    join(words(s), seq![' '])
}

/// Collapse internal white-space runs to single spaces and trim.
pub fn collapse(s: &str) -> (out: String)
    ensures
        out@ == collapsed(s@),
{
    let chars = chars_of(s);
    let mut out = String::new();
    let mut in_word: bool = false;
    let mut any: bool = false;
    let mut i: usize = 0;
    assert(chars@.take(0) =~= Seq::empty());
    while i < chars.len()
        invariant
            i <= chars@.len(),
            out@ == collapsed(chars@.take(i as int)),
            in_word == (i > 0 && !white_space(chars@[i - 1])),
            any == (words(chars@.take(i as int)).len() > 0),
        decreases chars@.len() - i,
    {
        let c = chars[i];
        let ghost before = chars@.take(i as int);
        let ghost after = chars@.take(i + 1);
        proof {
            assert(after.drop_last() =~= before);
            assert(after.last() == c);
            if in_word {
                assert(before.last() == chars@[i - 1]);
                lemma_words_nonempty(before);
                lemma_join_extend(words(before), seq![' '], c);
                assert(after[after.len() - 2] == chars@[i - 1]);
            }
            lemma_join_push(words(before), seq![' '], seq![c]);
        }
        if is_white_space(c) {
            in_word = false;
        } else {
            if !in_word && any {
                out.push(' ');
            }
            out.push(c);
            in_word = true;
            any = true;
            proof {
                if i > 0 {
                    assert(after[after.len() - 2] == chars@[i - 1]);
                }
                assert(out@ =~= collapsed(after));
            }
        }
        i += 1;
    }
    assert(chars@.take(chars@.len() as int) =~= chars@);
    out
}

/// The words of a text stay the same when it is collapsed, and so does its last
/// character, unless that is white space.
proof fn lemma_collapsed_words(s: Seq<char>)
    ensures
        words(collapsed(s)) == words(s),
        s.len() > 0 && !white_space(s.last()) ==> collapsed(s).len() > 0 && collapsed(s).last()
            == s.last(),
    decreases s.len(),
{
    if s.len() > 0 {
        let front = s.drop_last();
        let c = s.last();
        let w = words(front);
        let t = collapsed(front);
        lemma_collapsed_words(front);
        if white_space(c) {
        } else if s.len() >= 2 && !white_space(s[s.len() - 2]) {
            assert(front.last() == s[s.len() - 2]);
            lemma_words_nonempty(front);
            lemma_join_extend(w, seq![' '], c);
            assert(collapsed(s) == t.push(c));
            assert(t.push(c).drop_last() =~= t);
            assert(t.push(c)[t.len() - 1] == t.last());
            assert(words(t.push(c)) == w.drop_last().push(w.last().push(c)));
        } else {
            lemma_join_push(w, seq![' '], seq![c]);
            if w.len() == 0 {
                assert(collapsed(s) == seq![c]);
                assert(seq![c].drop_last() =~= Seq::empty());
                assert(words(seq![c]) =~= seq![seq![c]]);
                assert(words(s) =~= seq![seq![c]]);
            } else {
                let spaced = t.push(' ');
                let all = spaced.push(c);
                assert(collapsed(s) =~= all);
                assert(all.drop_last() =~= spaced);
                assert(spaced.drop_last() =~= t);
                assert(all[all.len() - 2] == ' ');
                assert(words(spaced) == words(t));
                assert(words(all) == words(spaced).push(seq![c]));
            }
        }
    }
}

/// Collapsing a text twice is collapsing it once.
pub proof fn collapse_is_idempotent(s: Seq<char>)
    ensures
        collapsed(collapsed(s)) == collapsed(s),
{
    lemma_collapsed_words(s);
}

/// The words of `s`.
pub fn split_words(s: &str) -> (out: Vec<String>)
    ensures
        texts(out@) == words(s@),
{
    let chars = chars_of(s);
    let mut out: Vec<String> = Vec::new();
    let mut current = String::new();
    let mut in_word: bool = false;
    let mut i: usize = 0;
    assert(chars@.take(0) =~= Seq::empty());
    assert(texts(out@) =~= Seq::empty());
    while i < chars.len()
        invariant
            i <= chars@.len(),
            in_word == (i > 0 && !white_space(chars@[i - 1])),
            words(chars@.take(i as int)) == if in_word {
                texts(out@).push(current@)
            } else {
                texts(out@)
            },
            !in_word ==> current@.len() == 0,
        decreases chars@.len() - i,
    {
        let c = chars[i];
        let ghost old_out = out@;
        let ghost old_current = current@;
        let ghost seen = chars@.take(i + 1);
        proof {
            assert(seen.drop_last() =~= chars@.take(i as int));
            if i > 0 {
                assert(seen[seen.len() - 2] == chars@[i - 1]);
            }
            assert(texts(old_out).push(old_current).drop_last() =~= texts(old_out));
        }
        if is_white_space(c) {
            if in_word {
                out.push(current);
                current = String::new();
                assert(texts(out@) =~= texts(old_out).push(old_current));
            }
            in_word = false;
        } else {
            current.push(c);
            in_word = true;
            assert(old_current.len() == 0 ==> current@ =~= seq![c]);
        }
        i += 1;
    }
    assert(chars@.take(chars@.len() as int) =~= chars@);
    let ghost old_out = out@;
    let ghost last = current@;
    if in_word {
        out.push(current);
        assert(texts(out@) =~= texts(old_out).push(last));
    }
    out
}

// ── Splitting ────────────────────────────────────────────────────────────────

/// The pieces of `s` between occurrences of `sep`; always at least one.
pub open spec fn split(s: Seq<char>, sep: char) -> Seq<Seq<char>>
    decreases s.len(),
{
    if s.len() == 0 {
        seq![Seq::empty()]
    } else {
        let before = split(s.drop_last(), sep);
        if s.last() == sep {
            before.push(Seq::empty())
        } else {
            before.drop_last().push(before.last().push(s.last()))
        }
    }
}

/// The texts of a list of strings.
pub open spec fn texts(v: Seq<String>) -> Seq<Seq<char>> {
    v.map_values(|s: String| s@)
}

/// Split `s` at every `sep`, as `str::split` does.
pub fn split_at_char(s: &str, sep: char) -> (out: Vec<String>)
    ensures
        texts(out@) == split(s@, sep),
        out@.len() > 0,
{
    let chars = chars_of(s);
    let mut out: Vec<String> = Vec::new();
    let mut current = String::new();
    let mut i: usize = 0;
    assert(chars@.take(0) =~= Seq::empty());
    assert(texts(out@).push(current@) =~= split(chars@.take(0), sep));
    while i < chars.len()
        invariant
            i <= chars@.len(),
            texts(out@).push(current@) == split(chars@.take(i as int), sep),
        decreases chars@.len() - i,
    {
        let c = chars[i];
        let ghost before = chars@.take(i as int);
        let ghost after = chars@.take(i + 1);
        let ghost old_out = out@;
        let ghost old_current = current@;
        assert(after.drop_last() =~= before);
        assert(texts(old_out).push(old_current).drop_last() =~= texts(old_out));
        if c == sep {
            out.push(current);
            current = String::new();
            assert(texts(out@) =~= texts(old_out).push(old_current));
        } else {
            current.push(c);
        }
        assert(texts(out@).push(current@) =~= split(after, sep));
        i += 1;
    }
    assert(chars@.take(chars@.len() as int) =~= chars@);
    let ghost old_out = out@;
    let ghost last = current@;
    out.push(current);
    assert(texts(out@) =~= texts(old_out).push(last));
    out
}

/// `s` without one trailing carriage return.
pub open spec fn without_cr(s: Seq<char>) -> Seq<char> {
    if s.len() > 0 && s.last() == '\r' {
        s.drop_last()
    } else {
        s
    }
}

/// The lines of `s`, as `str::lines` gives them: terminated by a line feed or
/// by a carriage return and a line feed; the text after the last terminator is
/// a line of its own unless it is empty.
pub open spec fn lines(s: Seq<char>) -> Seq<Seq<char>> {
    let pieces = split(s, '\n');
    let ended = pieces.drop_last().map_values(|p: Seq<char>| without_cr(p));
    if pieces.last().len() == 0 {
        ended
    } else {
        ended.push(pieces.last())
    }
}

fn drop_cr(s: &str) -> (out: String)
    ensures
        out@ == without_cr(s@),
{
    let chars = chars_of(s);
    let n: usize = chars.len();
    if n > 0 && chars[n - 1] == '\r' {
        assert(chars@.subrange(0, n - 1) =~= s@.drop_last());
        text_between(&chars, 0, n - 1)
    } else {
        text_of(&chars)
    }
}

/// The lines of `s`.
pub fn lines_of(s: &str) -> (out: Vec<String>)
    ensures
        texts(out@) == lines(s@),
{
    let pieces = split_at_char(s, '\n');
    let n: usize = pieces.len() - 1;
    let ghost all = texts(pieces@);
    let mut out: Vec<String> = Vec::new();
    let mut i: usize = 0;
    while i < n
        invariant
            i <= n,
            n + 1 == pieces@.len(),
            all == texts(pieces@),
            texts(out@) == all.take(i as int).map_values(|p: Seq<char>| without_cr(p)),
        decreases n - i,
    {
        let ghost done = out@;
        let line = drop_cr(pieces[i].as_str());
        out.push(line);
        proof {
            assert(texts(out@) =~= texts(done).push(line@));
            assert(texts(out@) =~= all.take(i + 1).map_values(|p: Seq<char>| without_cr(p)));
        }
        i += 1;
    }
    assert(all.take(n as int) =~= all.drop_last());
    let ghost done = out@;
    let last = &pieces[n];
    assert(all.last() == last@);
    if last.as_str().is_empty() {
        assert(last@.len() == 0);
    } else {
        assert(last@.len() > 0);
        let line = last.clone();
        out.push(line);
        assert(texts(out@) =~= texts(done).push(line@));
    }
    out
}

// ── Searching ────────────────────────────────────────────────────────────────

/// Whether `needle` stands in `hay` at position `at`.
pub open spec fn occurs_at(hay: Seq<char>, needle: Seq<char>, at: int) -> bool {
    &&& 0 <= at
    &&& at + needle.len() <= hay.len()
    &&& hay.subrange(at, at + needle.len()) == needle
}

/// Whether `needle` stands somewhere in `hay`.
pub open spec fn has_infix(hay: Seq<char>, needle: Seq<char>) -> bool {
    exists|at: int| occurs_at(hay, needle, at)
}

/// Whether `hay` begins with `needle`.
pub open spec fn has_prefix(hay: Seq<char>, needle: Seq<char>) -> bool {
    occurs_at(hay, needle, 0)
}

/// Whether `needle` stands in `hay` at position `at`.
pub fn matches_at(hay: &Vec<char>, needle: &Vec<char>, at: usize) -> (r: bool)
    ensures
        r == occurs_at(hay@, needle@, at as int),
{
    let n: usize = hay.len();
    if at > n || needle.len() > n - at {
        return false;
    }
    let mut i: usize = 0;
    while i < needle.len()
        invariant
            n == hay@.len(),
            at + needle@.len() <= n,
            i <= needle@.len(),
            forall|k: int| 0 <= k < i ==> hay@[at + k] == needle@[k],
        decreases needle@.len() - i,
    {
        if hay[at + i] != needle[i] {
            proof {
                let part = hay@.subrange(at as int, at + needle@.len());
                assert(part[i as int] != needle@[i as int]);
            }
            return false;
        }
        i += 1;
    }
    assert(hay@.subrange(at as int, at + needle@.len()) =~= needle@);
    true
}

/// Whether `hay` begins with `needle`.
pub fn starts_with(hay: &str, needle: &str) -> (r: bool)
    ensures
        r == has_prefix(hay@, needle@),
{
    matches_at(&chars_of(hay), &chars_of(needle), 0)
}

/// The first position at or after `from` at which `needle` stands in `hay`.
pub fn find_from(hay: &Vec<char>, needle: &Vec<char>, from: usize) -> (r: Option<usize>)
    ensures
        match r {
            Some(at) => from <= at && occurs_at(hay@, needle@, at as int) && forall|k: int|
                from <= k < at ==> !occurs_at(hay@, needle@, k),
            None => forall|k: int| from <= k ==> !occurs_at(hay@, needle@, k),
        },
{
    let mut at: usize = from;
    while at <= hay.len()
        invariant
            from <= at,
            forall|k: int| from <= k < at ==> !occurs_at(hay@, needle@, k),
        decreases hay@.len() + 1 - at,
    {
        if matches_at(hay, needle, at) {
            return Some(at);
        }
        if at == hay.len() {
            return None;
        }
        at += 1;
    }
    None
}

/// Whether `needle` stands somewhere in `hay`.
pub fn contains(hay: &str, needle: &str) -> (r: bool)
    ensures
        r == has_infix(hay@, needle@),
{
    let found = find_from(&chars_of(hay), &chars_of(needle), 0);
    match found {
        Some(at) => {
            assert(occurs_at(hay@, needle@, at as int));
            true
        },
        None => {
            assert forall|k: int| !occurs_at(hay@, needle@, k) by {}
            false
        },
    }
}

} // verus!
