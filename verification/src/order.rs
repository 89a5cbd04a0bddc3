//! The order of strings, and stable sorting by it.
//!
//! Strings are compared as std compares them: lexicographically by the bytes of
//! their UTF-8 form. [`sort_stably`] sorts any list whose items say which of two
//! goes after the other.

use vstd::prelude::*;
use vstd::utf8::*;

verus! {

// ── Byte order ───────────────────────────────────────────────────────────────

/// Strict lexicographic order of byte strings.
pub open spec fn bytes_before(a: Seq<u8>, b: Seq<u8>) -> bool
    decreases a.len(),
{
    if b.len() == 0 {
        false
    } else if a.len() == 0 {
        true
    } else if a[0] != b[0] {
        a[0] < b[0]
    } else {
        bytes_before(a.drop_first(), b.drop_first())
    }
}

/// Strict order of texts: the byte order of their UTF-8 forms.
pub open spec fn before(a: Seq<char>, b: Seq<char>) -> bool {
    bytes_before(encode_utf8(a), encode_utf8(b))
}

proof fn lemma_bytes_irreflexive(a: Seq<u8>)
    ensures
        !bytes_before(a, a),
    decreases a.len(),
{
    if a.len() > 0 {
        lemma_bytes_irreflexive(a.drop_first());
    }
}

proof fn lemma_bytes_transitive(a: Seq<u8>, b: Seq<u8>, c: Seq<u8>)
    requires
        bytes_before(a, b),
        bytes_before(b, c),
    ensures
        bytes_before(a, c),
    decreases a.len(),
{
    if a.len() > 0 && a[0] == b[0] && b[0] == c[0] {
        lemma_bytes_transitive(a.drop_first(), b.drop_first(), c.drop_first());
    }
}

proof fn lemma_bytes_total(a: Seq<u8>, b: Seq<u8>)
    ensures
        bytes_before(a, b) || bytes_before(b, a) || a == b,
    decreases a.len(),
{
    if a.len() > 0 && b.len() > 0 && a[0] == b[0] {
        lemma_bytes_total(a.drop_first(), b.drop_first());
        if a.drop_first() == b.drop_first() {
            assert(a =~= seq![a[0]] + a.drop_first());
            assert(b =~= seq![b[0]] + b.drop_first());
        }
    } else if a.len() == 0 && b.len() == 0 {
        assert(a =~= b);
    }
}

/// No text goes before itself.
pub proof fn lemma_irreflexive(a: Seq<char>)
    ensures
        !before(a, a),
{
    lemma_bytes_irreflexive(encode_utf8(a));
}

/// The order of texts is transitive.
pub proof fn lemma_transitive(a: Seq<char>, b: Seq<char>, c: Seq<char>)
    requires
        before(a, b),
        before(b, c),
    ensures
        before(a, c),
{
    lemma_bytes_transitive(encode_utf8(a), encode_utf8(b), encode_utf8(c));
}

/// Of two different texts one goes before the other.
pub proof fn lemma_total(a: Seq<char>, b: Seq<char>)
    ensures
        before(a, b) || before(b, a) || a == b,
{
    lemma_bytes_total(encode_utf8(a), encode_utf8(b));
    encode_utf8_decode_utf8(a);
    encode_utf8_decode_utf8(b);
}

/// Of two texts at most one goes before the other.
pub proof fn lemma_asymmetric(a: Seq<char>, b: Seq<char>)
    requires
        before(a, b),
    ensures
        !before(b, a),
{
    if before(b, a) {
        lemma_transitive(a, b, a);
        lemma_irreflexive(a);
    }
}

/// Bytes that agree at the front are ordered by the rest.
proof fn lemma_common_front(a: Seq<u8>, b: Seq<u8>, k: int)
    requires
        0 <= k <= a.len(),
        k <= b.len(),
        forall|i: int| 0 <= i < k ==> a[i] == b[i],
    ensures
        bytes_before(a, b) == bytes_before(a.skip(k), b.skip(k)),
    decreases k,
{
    if k == 0 {
        assert(a.skip(0) =~= a);
        assert(b.skip(0) =~= b);
    } else {
        lemma_common_front(a.drop_first(), b.drop_first(), k - 1);
        assert(a.drop_first().skip(k - 1) =~= a.skip(k));
        assert(b.drop_first().skip(k - 1) =~= b.skip(k));
    }
}

/// Whether `a` goes before `b`.
pub fn goes_before(a: &str, b: &str) -> (r: bool)
    ensures
        r == before(a@, b@),
{
    let x = a.as_bytes();
    let y = b.as_bytes();
    let mut i: usize = 0;
    while i < x.len() && i < y.len() && x[i] == y[i]
        invariant
            x@ == encode_utf8(a@),
            y@ == encode_utf8(b@),
            i <= x@.len(),
            i <= y@.len(),
            forall|k: int| 0 <= k < i ==> x@[k] == y@[k],
        decreases x@.len() - i,
    {
        i += 1;
    }
    proof {
        lemma_common_front(x@, y@, i as int);
    }
    if i == y.len() {
        false
    } else if i == x.len() {
        true
    } else {
        x[i] < y[i]
    }
}

// ── Stable sorting ───────────────────────────────────────────────────────────

/// An item of a list that can be sorted.
pub trait Sortable: View + Sized {
    /// Whether `a` goes strictly after `b`.
    spec fn after(a: Self::V, b: Self::V) -> bool;

    /// Nothing goes after itself.
    proof fn lemma_after_irreflexive(a: Self::V)
        ensures
            !Self::after(a, a),
    ;

    /// If `a` does not go after `b`, nor `b` after `c`, then `a` does not go
    /// after `c`.
    proof fn lemma_not_after_transitive(a: Self::V, b: Self::V, c: Self::V)
        requires
            !Self::after(a, b),
            !Self::after(b, c),
        ensures
            !Self::after(a, c),
    ;

    /// Of two items at most one goes after the other.
    proof fn lemma_after_asymmetric(a: Self::V, b: Self::V)
        requires
            Self::after(a, b),
        ensures
            !Self::after(b, a),
    ;

    /// Whether `self` goes strictly after `other`.
    fn is_after(&self, other: &Self) -> (r: bool)
        ensures
            r == Self::after(self@, other@),
    ;
}

/// The views of a list of items.
pub open spec fn views<T: View>(v: Seq<T>) -> Seq<T::V> {
    v.map_values(|t: T| t@)
}

/// `s` with `x` placed after everything that does not go after `x`, searching
/// from the end.
pub open spec fn place<T: Sortable>(s: Seq<T::V>, x: T::V) -> Seq<T::V>
    decreases s.len(),
{
    if s.len() > 0 && T::after(s.last(), x) {
        place::<T>(s.drop_last(), x).push(s.last())
    } else {
        s.push(x)
    }
}

/// `s` sorted stably: its items placed one after the other.
pub open spec fn sorted<T: Sortable>(s: Seq<T::V>) -> Seq<T::V>
    decreases s.len(),
{
    if s.len() == 0 {
        Seq::empty()
    } else {
        place::<T>(sorted::<T>(s.drop_last()), s.last())
    }
}

/// Whether nothing in `s` goes after a later item.
pub open spec fn in_order<T: Sortable>(s: Seq<T::V>) -> bool {
    forall|i: int, j: int| 0 <= i < j < s.len() ==> !T::after(#[trigger] s[i], #[trigger] s[j])
}

proof fn lemma_place_at<T: Sortable>(s: Seq<T::V>, x: T::V, at: int)
    requires
        0 <= at <= s.len(),
        forall|k: int| at <= k < s.len() ==> T::after(s[k], x),
        at > 0 ==> !T::after(s[at - 1], x),
    ensures
        place::<T>(s, x) == s.insert(at, x),
    decreases s.len(),
{
    if at < s.len() {
        lemma_place_at::<T>(s.drop_last(), x, at);
        assert(s.drop_last().insert(at, x).push(s.last()) =~= s.insert(at, x));
    } else {
        assert(s.push(x) =~= s.insert(at, x));
    }
}

fn place_item<T: Sortable>(v: &mut Vec<T>, x: T)
    ensures
        views(final(v)@) == place::<T>(views(old(v)@), x@),
{
    let ghost s = views(v@);
    let mut at: usize = v.len();
    while at > 0 && v[at - 1].is_after(&x)
        invariant
            s == views(v@),
            at <= v@.len(),
            forall|k: int| at <= k < s.len() ==> T::after(s[k], x@),
        decreases at,
    {
        at -= 1;
    }
    let ghost whole = v@;
    v.insert(at, x);
    proof {
        lemma_place_at::<T>(s, x@, at as int);
        assert(views(v@) =~= s.insert(at as int, x@));
    }
}

/// The items of `v`, sorted stably.
pub fn sort_stably<T: Sortable>(v: Vec<T>) -> (out: Vec<T>)
    ensures
        views(out@) == sorted::<T>(views(v@)),
{
    let ghost s = views(v@);
    let mut rest = v;
    let mut reversed: Vec<T> = Vec::new();
    while rest.len() > 0
        invariant
            views(rest@) + views(reversed@).reverse() == s,
        decreases rest@.len(),
    {
        let ghost r0 = rest@;
        let ghost v0 = reversed@;
        let item = rest.pop();
        match item {
            Some(x) => {
                reversed.push(x);
                proof {
                    assert(views(r0) =~= views(rest@).push(x@));
                    assert(views(reversed@) =~= views(v0).push(x@));
                    assert(views(rest@) + views(reversed@).reverse() =~= views(r0) + views(
                        v0,
                    ).reverse());
                }
            },
            None => {},
        }
    }
    assert(views(reversed@).reverse() =~= s);
    let mut out: Vec<T> = Vec::new();
    let ghost mut done: int = 0;
    assert(s.take(0) =~= Seq::empty());
    assert(views(out@) =~= Seq::empty());
    while reversed.len() > 0
        invariant
            0 <= done <= s.len(),
            done + reversed@.len() == s.len(),
            views(reversed@).reverse() == s.skip(done),
            views(out@) == sorted::<T>(s.take(done)),
        decreases reversed@.len(),
    {
        let ghost v0 = reversed@;
        let item = reversed.pop();
        match item {
            Some(x) => {
                place_item(&mut out, x);
                proof {
                    assert(views(v0) =~= views(reversed@).push(x@));
                    assert(views(v0).reverse()[0] == x@);
                    assert(s.skip(done)[0] == x@);
                    assert(s.take(done + 1).drop_last() =~= s.take(done));
                    assert(s.skip(done + 1) =~= s.skip(done).drop_first());
                    assert(views(reversed@).reverse() =~= views(v0).reverse().drop_first());
                    done = done + 1;
                }
            },
            None => {},
        }
    }
    assert(s.take(done) =~= s);
    out
}

/// Placing an item keeps a list in order.
proof fn lemma_place_in_order<T: Sortable>(s: Seq<T::V>, x: T::V)
    requires
        in_order::<T>(s),
    ensures
        in_order::<T>(place::<T>(s, x)),
        place::<T>(s, x).len() == s.len() + 1,
        forall|i: int|
            0 <= i < place::<T>(s, x).len() ==> #[trigger] place::<T>(s, x)[i] == x || s.contains(
                place::<T>(s, x)[i],
            ),
    decreases s.len(),
{
    if s.len() > 0 && T::after(s.last(), x) {
        lemma_place_in_order::<T>(s.drop_last(), x);
        let front = place::<T>(s.drop_last(), x);
        let all = place::<T>(s, x);
        assert forall|i: int, j: int| 0 <= i < j < all.len() implies !T::after(
            #[trigger] all[i],
            #[trigger] all[j],
        ) by {
            if j == all.len() - 1 {
                assert(all[i] == front[i]);
                if front[i] == x {
                    T::lemma_after_asymmetric(s.last(), x);
                } else {
                    let k = choose|k: int|
                        0 <= k < s.drop_last().len() && s.drop_last()[k] == front[i];
                    assert(!T::after(s[k], s[s.len() - 1]));
                }
            }
        }
        assert forall|i: int| 0 <= i < all.len() implies #[trigger] all[i] == x || s.contains(
            all[i],
        ) by {
            if i < all.len() - 1 {
                assert(all[i] == front[i]);
                if front[i] != x {
                    let k = choose|k: int|
                        0 <= k < s.drop_last().len() && s.drop_last()[k] == front[i];
                    assert(s[k] == front[i]);
                }
            } else {
                assert(s[s.len() - 1] == all[i]);
            }
        }
    } else {
        let all = s.push(x);
        assert forall|i: int, j: int| 0 <= i < j < all.len() implies !T::after(
            #[trigger] all[i],
            #[trigger] all[j],
        ) by {
            if j == all.len() - 1 && i < s.len() - 1 {
                assert(!T::after(s[i], s[s.len() - 1]));
                T::lemma_not_after_transitive(s[i], s.last(), x);
            }
        }
        assert forall|i: int| 0 <= i < all.len() implies #[trigger] all[i] == x || s.contains(
            all[i],
        ) by {
            if i < s.len() {
                assert(s[i] == all[i]);
            }
        }
    }
}

/// Placing an item adds it to the items of the list.
proof fn lemma_place_multiset<T: Sortable>(s: Seq<T::V>, x: T::V)
    ensures
        place::<T>(s, x).to_multiset() == s.to_multiset().insert(x),
    decreases s.len(),
{
    broadcast use vstd::seq_lib::group_to_multiset_ensures;

    if s.len() > 0 && T::after(s.last(), x) {
        lemma_place_multiset::<T>(s.drop_last(), x);
        assert(s =~= s.drop_last().push(s.last()));
        let front = place::<T>(s.drop_last(), x);
        assert(front.push(s.last()).to_multiset() =~= front.to_multiset().insert(s.last()));
        assert(s.to_multiset() =~= s.drop_last().to_multiset().insert(s.last()));
        assert(place::<T>(s, x).to_multiset() =~= s.to_multiset().insert(x));
    }
}

/// Sorting keeps the items and puts them in order.
pub proof fn lemma_sorted<T: Sortable>(s: Seq<T::V>)
    ensures
        in_order::<T>(sorted::<T>(s)),
        sorted::<T>(s).len() == s.len(),
        sorted::<T>(s).to_multiset() == s.to_multiset(),
    decreases s.len(),
{
    broadcast use vstd::seq_lib::group_to_multiset_ensures;

    if s.len() > 0 {
        lemma_sorted::<T>(s.drop_last());
        lemma_place_in_order::<T>(sorted::<T>(s.drop_last()), s.last());
        lemma_place_multiset::<T>(sorted::<T>(s.drop_last()), s.last());
        assert(s =~= s.drop_last().push(s.last()));
        assert(s.to_multiset() =~= s.drop_last().to_multiset().insert(s.last()));
    } else {
        assert(s =~= Seq::empty());
    }
}

/// Sorting neither adds nor drops items.
pub proof fn lemma_sorted_contains<T: Sortable>(s: Seq<T::V>, x: T::V)
    ensures
        sorted::<T>(s).contains(x) == s.contains(x),
{
    broadcast use vstd::seq_lib::group_to_multiset_ensures;

    lemma_sorted::<T>(s);
    assert(s.contains(x) <==> s.to_multiset().count(x) > 0);
    assert(sorted::<T>(s).contains(x) <==> sorted::<T>(s).to_multiset().count(x) > 0);
}

/// Where no two elements of `b` agree in `f`, no two of a list with the same
/// elements do.
pub proof fn lemma_same_elements_differ<A, K>(a: Seq<A>, b: Seq<A>, f: spec_fn(A) -> K)
    requires
        a.to_multiset() == b.to_multiset(),
        forall|i: int, j: int| 0 <= i < j < b.len() ==> f(#[trigger] b[i]) != f(#[trigger] b[j]),
    ensures
        forall|i: int, j: int| 0 <= i < j < a.len() ==> f(#[trigger] a[i]) != f(#[trigger] a[j]),
{
    broadcast use vstd::seq_lib::group_to_multiset_ensures;

    assert(b.no_duplicates());
    b.lemma_multiset_has_no_duplicates();
    a.lemma_multiset_has_no_duplicates_conv();
    assert forall|i: int, j: int| 0 <= i < j < a.len() implies f(#[trigger] a[i]) != f(
        #[trigger] a[j],
    ) by {
        assert(a[i] != a[j]);
        assert(a.contains(a[i]) && a.contains(a[j]));
        assert(b.to_multiset().count(a[i]) > 0 && b.to_multiset().count(a[j]) > 0);
        assert(b.contains(a[i]) && b.contains(a[j]));
        let k = choose|k: int| 0 <= k < b.len() && b[k] == a[i];
        let l = choose|l: int| 0 <= l < b.len() && b[l] == a[j];
        assert(k != l);
    }
}

} // verus!
