//! Which of two texts comes first.

use vstd::prelude::*;
use vstd::utf8::*;

use crate::order::{before, bytes_before, in_order, lemma_sorted, place, sorted, Sortable};

verus! {

/// A front that two byte strings share has no say in their order.
proof fn lemma_shared_front(p: Seq<u8>, a: Seq<u8>, b: Seq<u8>)
    ensures
        bytes_before(p + a, p + b) == bytes_before(a, b),
    decreases p.len(),
{
    if p.len() == 0 {
        assert(p + a =~= a);
        assert(p + b =~= b);
    } else if a.len() + b.len() == 0 {
        assert(p + a =~= p + b);
        lemma_shared_front(p.drop_first(), a, b);
        assert((p + a).drop_first() =~= p.drop_first() + a);
        assert((p + b).drop_first() =~= p.drop_first() + b);
    } else {
        assert((p + a).drop_first() =~= p.drop_first() + a);
        assert((p + b).drop_first() =~= p.drop_first() + b);
        lemma_shared_front(p.drop_first(), a, b);
    }
}

/// The first byte in which two texts differ decides, the lower coming first,
/// whatever stands behind it; where one text ends before that, it comes first.
pub proof fn the_first_difference_decides(p: Seq<u8>, x: u8, a: Seq<u8>, y: u8, b: Seq<u8>)
    ensures
        x != y ==> (bytes_before(p + seq![x] + a, p + seq![y] + b) <==> x < y),
        bytes_before(p, p + seq![y] + b),
        !bytes_before(p + seq![y] + b, p),
        !bytes_before(p, p),
{
    let none = Seq::<u8>::empty();
    assert(p + seq![x] + a =~= p + (seq![x] + a));
    assert(p + seq![y] + b =~= p + (seq![y] + b));
    assert(p + none =~= p);
    lemma_shared_front(p, seq![x] + a, seq![y] + b);
    lemma_shared_front(p, none, seq![y] + b);
    lemma_shared_front(p, seq![y] + b, none);
    lemma_shared_front(p, none, none);
}

/// Texts are ordered as their UTF-8 forms are.
pub proof fn texts_are_ordered_by_their_bytes(a: Seq<char>, b: Seq<char>)
    ensures
        before(a, b) <==> bytes_before(encode_utf8(a), encode_utf8(b)),
{
}

/// Placing an item behind its equals.
proof fn lemma_place_keeps_equals<T: Sortable>(s: Seq<T::V>, l: T::V, x: T::V)
    requires
        in_order::<T>(s),
    ensures
        place::<T>(s, l).filter(|y: T::V| !T::after(y, x) && !T::after(x, y)) == s.push(
            l,
        ).filter(|y: T::V| !T::after(y, x) && !T::after(x, y)),
    decreases s.len(),
{
    let p = |y: T::V| !T::after(y, x) && !T::after(x, y);
    reveal(Seq::filter);
    assert(s.push(l).drop_last() =~= s);
    if s.len() > 0 && T::after(s.last(), l) {
        let front = s.drop_last();
        lemma_place_keeps_equals::<T>(front, l, x);
        let all = place::<T>(s, l);
        assert(all.drop_last() =~= place::<T>(front, l));
        assert(front.push(l).drop_last() =~= front);
        if p(l) && p(s.last()) {
            T::lemma_not_after_transitive(s.last(), x, l);
        }
        assert(all.last() == s.last());
        assert(all.filter(p) == if p(s.last()) {
            all.drop_last().filter(p).push(s.last())
        } else {
            all.drop_last().filter(p)
        });
        assert(front.push(l).filter(p) == if p(l) {
            front.filter(p).push(l)
        } else {
            front.filter(p)
        });
        assert(s.filter(p) == if p(s.last()) {
            front.filter(p).push(s.last())
        } else {
            front.filter(p)
        });
        assert(s.push(l).filter(p) == if p(l) {
            s.filter(p).push(l)
        } else {
            s.filter(p)
        });
    }
}

/// Sorting is stable: of items that go neither before nor after a given one, all
/// are there, in the order that they had.
pub proof fn sorting_keeps_the_order_of_equals<T: Sortable>(s: Seq<T::V>, x: T::V)
    ensures
        sorted::<T>(s).filter(|y: T::V| !T::after(y, x) && !T::after(x, y)) == s.filter(
            |y: T::V| !T::after(y, x) && !T::after(x, y),
        ),
    decreases s.len(),
{
    let p = |y: T::V| !T::after(y, x) && !T::after(x, y);
    reveal(Seq::filter);
    if s.len() > 0 {
        let front = s.drop_last();
        sorting_keeps_the_order_of_equals::<T>(front, x);
        lemma_sorted::<T>(front);
        lemma_place_keeps_equals::<T>(sorted::<T>(front), s.last(), x);
        assert(sorted::<T>(front).push(s.last()).drop_last() =~= sorted::<T>(front));
    } else {
        assert(s.filter(p) =~= Seq::empty());
    }
}

} // verus!
