//! Ordered tables: rows sorted by a text key, each key at most once.
//!
//! This is the shape in which a key-value store with sorted keys holds its data
//! and walks it.

use vstd::prelude::*;

use crate::order::{before, goes_before, lemma_asymmetric, lemma_irreflexive, lemma_total, lemma_transitive, views};
use crate::text::same_text;

verus! {

/// A row of an ordered table.
pub trait Row: View + Sized {
    /// The key of a row.
    spec fn key_of(v: Self::V) -> Seq<char>;

    /// The key of this row.
    fn key(&self) -> (k: &str)
        ensures
            k@ == Self::key_of(self@),
    ;

    /// A copy of this row.
    fn copy(&self) -> (r: Self)
        ensures
            r@ == self@,
    ;
}

/// Whether the keys of `s` are strictly ascending.
pub open spec fn ascending<R: Row>(s: Seq<R::V>) -> bool {
    forall|i: int, j: int|
        0 <= i < j < s.len() ==> before(R::key_of(#[trigger] s[i]), R::key_of(#[trigger] s[j]))
}

/// Whether row `i` of `s` has the key `k`.
pub open spec fn keyed_at<R: Row>(s: Seq<R::V>, k: Seq<char>, i: int) -> bool {
    0 <= i < s.len() && R::key_of(s[i]) == k
}

/// Whether `s` has a row with the key `k`.
pub open spec fn has_key<R: Row>(s: Seq<R::V>, k: Seq<char>) -> bool {
    exists|i: int| keyed_at::<R>(s, k, i)
}

/// The row of `s` with the key `k`.
pub open spec fn lookup<R: Row>(s: Seq<R::V>, k: Seq<char>) -> Option<R::V> {
    if has_key::<R>(s, k) {
        Some(s[choose|i: int| keyed_at::<R>(s, k, i)])
    } else {
        None
    }
}

/// `s` with the row `v` under its key, in place of the row that had it.
pub open spec fn put<R: Row>(s: Seq<R::V>, v: R::V) -> Seq<R::V>
    decreases s.len(),
{
    if s.len() == 0 {
        seq![v]
    } else if R::key_of(s.last()) == R::key_of(v) {
        s.drop_last().push(v)
    } else if before(R::key_of(v), R::key_of(s.last())) {
        put::<R>(s.drop_last(), v).push(s.last())
    } else {
        s.push(v)
    }
}

/// `s` without the rows that have the key `k`.
pub open spec fn remove<R: Row>(s: Seq<R::V>, k: Seq<char>) -> Seq<R::V>
    decreases s.len(),
{
    if s.len() == 0 {
        s
    } else if R::key_of(s.last()) == k {
        remove::<R>(s.drop_last(), k)
    } else {
        remove::<R>(s.drop_last(), k).push(s.last())
    }
}

// ── Lemmas ───────────────────────────────────────────────────────────────────

/// In a table of ascending keys a key stands in one place only.
pub proof fn lemma_key_unique<R: Row>(s: Seq<R::V>, i: int, j: int)
    requires
        ascending::<R>(s),
        0 <= i < s.len(),
        0 <= j < s.len(),
        R::key_of(s[i]) == R::key_of(s[j]),
    ensures
        i == j,
{
    lemma_irreflexive(R::key_of(s[i]));
}

/// A row of the table is what its key looks up.
pub proof fn lemma_lookup_at<R: Row>(s: Seq<R::V>, i: int)
    requires
        ascending::<R>(s),
        0 <= i < s.len(),
    ensures
        lookup::<R>(s, R::key_of(s[i])) == Some(s[i]),
        has_key::<R>(s, R::key_of(s[i])),
{
    let k = R::key_of(s[i]);
    assert(keyed_at::<R>(s, k, i));
    let j = choose|j: int| keyed_at::<R>(s, k, j);
    lemma_key_unique::<R>(s, i, j);
}

/// What a lookup finds has the key and stands in the table.
pub proof fn lemma_lookup_found<R: Row>(s: Seq<R::V>, k: Seq<char>)
    ensures
        lookup::<R>(s, k) matches Some(v) ==> R::key_of(v) == k && s.contains(v),
{
    if has_key::<R>(s, k) {
        let j = choose|j: int| keyed_at::<R>(s, k, j);
        assert(keyed_at::<R>(s, k, j));
        assert(s.contains(s[j]));
    }
}

/// A row is what its key looks up if and only if it stands in the table.
pub proof fn lemma_lookup_iff<R: Row>(s: Seq<R::V>, x: R::V)
    requires
        ascending::<R>(s),
    ensures
        s.contains(x) <==> lookup::<R>(s, R::key_of(x)) == Some(x),
{
    lemma_lookup_found::<R>(s, R::key_of(x));
    if s.contains(x) {
        let i = choose|i: int| 0 <= i < s.len() && s[i] == x;
        lemma_lookup_at::<R>(s, i);
    }
}

/// The rows of a table after a `put` are the new row and those with other keys.
pub proof fn lemma_put_rows<R: Row>(s: Seq<R::V>, v: R::V)
    requires
        ascending::<R>(s),
    ensures
        ascending::<R>(put::<R>(s, v)),
        forall|x: R::V|
            put::<R>(s, v).contains(x) <==> (x == v || (s.contains(x) && R::key_of(x)
                != R::key_of(v))),
    decreases s.len(),
{
    let p = put::<R>(s, v);
    if s.len() == 0 {
        assert(p[0] == v);
        assert(p.len() == 1);
    } else {
        let last = s.last();
        let front = s.drop_last();
        assert(s =~= front.push(last));
        assert forall|x: R::V| s.contains(x) <==> (front.contains(x) || x == last) by {
            vstd::seq_lib::lemma_seq_contains_after_push(front, last, x);
        }
        assert forall|x: R::V| front.contains(x) implies before(R::key_of(x), R::key_of(last)) by {
            let i = choose|i: int| 0 <= i < front.len() && front[i] == x;
            assert(s[i] == x);
        }
        if R::key_of(last) == R::key_of(v) {
            assert forall|x: R::V| p.contains(x) <==> (front.contains(x) || x == v) by {
                vstd::seq_lib::lemma_seq_contains_after_push(front, v, x);
            }
            lemma_irreflexive(R::key_of(v));
            assert forall|x: R::V| front.contains(x) implies R::key_of(x) != R::key_of(v) by {}
            assert forall|i: int, j: int| 0 <= i < j < p.len() implies before(
                R::key_of(#[trigger] p[i]),
                R::key_of(#[trigger] p[j]),
            ) by {
                assert(s[i] == p[i]);
                assert(before(R::key_of(s[i]), R::key_of(s[j])));
            }
        } else if before(R::key_of(v), R::key_of(last)) {
            lemma_put_rows::<R>(front, v);
            let q = put::<R>(front, v);
            assert forall|x: R::V| p.contains(x) <==> (q.contains(x) || x == last) by {
                vstd::seq_lib::lemma_seq_contains_after_push(q, last, x);
            }
            assert forall|i: int, j: int| 0 <= i < j < p.len() implies before(
                R::key_of(#[trigger] p[i]),
                R::key_of(#[trigger] p[j]),
            ) by {
                assert(p[i] == q[i]);
                if j == p.len() - 1 {
                    assert(q.contains(q[i]));
                }
            }
        } else {
            lemma_total(R::key_of(v), R::key_of(last));
            assert forall|x: R::V| p.contains(x) <==> (s.contains(x) || x == v) by {
                vstd::seq_lib::lemma_seq_contains_after_push(s, v, x);
            }
            assert forall|x: R::V| s.contains(x) implies before(R::key_of(x), R::key_of(v)) by {
                if x != last {
                    lemma_transitive(R::key_of(x), R::key_of(last), R::key_of(v));
                }
            }
            lemma_irreflexive(R::key_of(v));
            assert forall|i: int, j: int| 0 <= i < j < p.len() implies before(
                R::key_of(#[trigger] p[i]),
                R::key_of(#[trigger] p[j]),
            ) by {
                assert(p[i] == s[i]);
                if j == p.len() - 1 {
                    assert(s.contains(s[i]));
                }
            }
        }
    }
}

/// A lookup after a `put`.
pub proof fn lemma_put_lookup<R: Row>(s: Seq<R::V>, v: R::V, k: Seq<char>)
    requires
        ascending::<R>(s),
    ensures
        lookup::<R>(put::<R>(s, v), k) == if k == R::key_of(v) {
            Some(v)
        } else {
            lookup::<R>(s, k)
        },
{
    lemma_put_rows::<R>(s, v);
    let p = put::<R>(s, v);
    if k == R::key_of(v) {
        assert(p.contains(v));
        let i = choose|i: int| 0 <= i < p.len() && p[i] == v;
        lemma_lookup_at::<R>(p, i);
    } else if has_key::<R>(s, k) {
        lemma_lookup_found::<R>(s, k);
        let x = lookup::<R>(s, k)->Some_0;
        assert(p.contains(x));
        let i = choose|i: int| 0 <= i < p.len() && p[i] == x;
        lemma_lookup_at::<R>(p, i);
    } else if has_key::<R>(p, k) {
        lemma_lookup_found::<R>(p, k);
        let x = lookup::<R>(p, k)->Some_0;
        assert(s.contains(x));
        let i = choose|i: int| 0 <= i < s.len() && s[i] == x;
        assert(keyed_at::<R>(s, k, i));
    }
}

/// The rows of a table after a `remove` are those with other keys.
pub proof fn lemma_remove_rows<R: Row>(s: Seq<R::V>, k: Seq<char>)
    requires
        ascending::<R>(s),
    ensures
        ascending::<R>(remove::<R>(s, k)),
        forall|x: R::V|
            remove::<R>(s, k).contains(x) <==> (s.contains(x) && R::key_of(x) != k),
    decreases s.len(),
{
    if s.len() > 0 {
        let last = s.last();
        let front = s.drop_last();
        assert(s =~= front.push(last));
        assert forall|x: R::V| s.contains(x) <==> (front.contains(x) || x == last) by {
            vstd::seq_lib::lemma_seq_contains_after_push(front, last, x);
        }
        lemma_remove_rows::<R>(front, k);
        let q = remove::<R>(front, k);
        let p = remove::<R>(s, k);
        if R::key_of(last) != k {
            assert forall|x: R::V| p.contains(x) <==> (q.contains(x) || x == last) by {
                vstd::seq_lib::lemma_seq_contains_after_push(q, last, x);
            }
            assert forall|i: int, j: int| 0 <= i < j < p.len() implies before(
                R::key_of(#[trigger] p[i]),
                R::key_of(#[trigger] p[j]),
            ) by {
                assert(p[i] == q[i]);
                if j == p.len() - 1 {
                    assert(q.contains(q[i]));
                    let m = choose|m: int| 0 <= m < front.len() && front[m] == q[i];
                    assert(s[m] == q[i]);
                    assert(before(R::key_of(s[m]), R::key_of(s[s.len() - 1])));
                }
            }
        }
    }
}

/// Two tables with the same rows are the same.
pub proof fn lemma_same_rows<R: Row>(a: Seq<R::V>, b: Seq<R::V>)
    requires
        ascending::<R>(a),
        ascending::<R>(b),
        forall|x: R::V| a.contains(x) <==> b.contains(x),
    ensures
        a == b,
    decreases a.len(),
{
    if a.len() == 0 {
        if b.len() > 0 {
            assert(b.contains(b[0]));
        }
        assert(a =~= b);
    } else {
        let x = a.last();
        assert(a.contains(x));
        assert(b.contains(x));
        let y = b.last();
        assert(b.contains(y));
        assert(a.contains(y));
        let i = choose|i: int| 0 <= i < b.len() && b[i] == x;
        let j = choose|j: int| 0 <= j < a.len() && a[j] == y;
        if i < b.len() - 1 && j < a.len() - 1 {
            assert(before(R::key_of(b[i]), R::key_of(b[b.len() - 1])));
            assert(before(R::key_of(a[j]), R::key_of(a[a.len() - 1])));
            lemma_asymmetric(R::key_of(x), R::key_of(y));
        }
        assert(x == y);
        let c = a.drop_last();
        let d = b.drop_last();
        assert forall|z: R::V| c.contains(z) <==> d.contains(z) by {
            lemma_irreflexive(R::key_of(x));
            if c.contains(z) {
                let k = choose|k: int| 0 <= k < c.len() && c[k] == z;
                assert(a[k] == z);
                assert(b.contains(z));
                assert(before(R::key_of(a[k]), R::key_of(a[a.len() - 1])));
                let m = choose|m: int| 0 <= m < b.len() && b[m] == z;
                assert(m != b.len() - 1);
                assert(d[m] == z);
            }
            if d.contains(z) {
                let k = choose|k: int| 0 <= k < d.len() && d[k] == z;
                assert(b[k] == z);
                assert(a.contains(z));
                assert(before(R::key_of(b[k]), R::key_of(b[b.len() - 1])));
                let m = choose|m: int| 0 <= m < a.len() && a[m] == z;
                assert(m != a.len() - 1);
                assert(c[m] == z);
            }
        }
        lemma_same_rows::<R>(c, d);
        assert(a =~= c.push(x));
        assert(b =~= d.push(y));
    }
}

/// `s` with the first `n` of `rows` put into it, in order.
pub open spec fn put_rows<R: Row>(s: Seq<R::V>, rows: Seq<R::V>, n: int) -> Seq<R::V>
    decreases n,
{
    if n <= 0 {
        s
    } else {
        put::<R>(put_rows::<R>(s, rows, n - 1), rows[n - 1])
    }
}

/// Rows that are in key order already make up the table as they stand.
pub proof fn lemma_put_rows_in_order<R: Row>(rows: Seq<R::V>, n: int)
    requires
        ascending::<R>(rows),
        0 <= n <= rows.len(),
    ensures
        put_rows::<R>(Seq::empty(), rows, n) == rows.take(n),
    decreases n,
{
    if n > 0 {
        lemma_put_rows_in_order::<R>(rows, n - 1);
        let front = rows.take(n - 1);
        if n > 1 {
            assert(before(R::key_of(rows[n - 2]), R::key_of(rows[n - 1])));
        }
        lemma_put_at::<R>(front, rows[n - 1], n - 1);
        assert(front.insert(n - 1, rows[n - 1]) =~= rows.take(n));
    } else {
        assert(rows.take(0) =~= Seq::empty());
    }
}

proof fn lemma_put_at<R: Row>(s: Seq<R::V>, v: R::V, at: int)
    requires
        0 <= at <= s.len(),
        forall|i: int| at <= i < s.len() ==> before(R::key_of(v), R::key_of(#[trigger] s[i])),
        at > 0 ==> before(R::key_of(s[at - 1]), R::key_of(v)),
    ensures
        put::<R>(s, v) == s.insert(at, v),
    decreases s.len(),
{
    if at == s.len() {
        if s.len() > 0 {
            lemma_asymmetric(R::key_of(s.last()), R::key_of(v));
            lemma_irreflexive(R::key_of(v));
        }
        assert(s.insert(at, v) =~= s.push(v));
    } else {
        lemma_irreflexive(R::key_of(v));
        lemma_put_at::<R>(s.drop_last(), v, at);
        assert(s.drop_last().insert(at, v).push(s.last()) =~= s.insert(at, v));
    }
}

proof fn lemma_put_over<R: Row>(s: Seq<R::V>, v: R::V, at: int)
    requires
        0 <= at < s.len(),
        R::key_of(s[at]) == R::key_of(v),
        forall|i: int| at < i < s.len() ==> before(R::key_of(v), R::key_of(#[trigger] s[i])),
    ensures
        put::<R>(s, v) == s.update(at, v),
    decreases s.len(),
{
    if at == s.len() - 1 {
        assert(s.update(at, v) =~= s.drop_last().push(v));
    } else {
        lemma_irreflexive(R::key_of(v));
        lemma_put_over::<R>(s.drop_last(), v, at);
        assert(s.drop_last().update(at, v).push(s.last()) =~= s.update(at, v));
    }
}

/// Removing a key that is not there changes nothing.
pub proof fn lemma_remove_absent<R: Row>(s: Seq<R::V>, k: Seq<char>)
    requires
        forall|i: int| 0 <= i < s.len() ==> R::key_of(#[trigger] s[i]) != k,
    ensures
        remove::<R>(s, k) == s,
    decreases s.len(),
{
    if s.len() > 0 {
        assert forall|i: int| 0 <= i < s.drop_last().len() implies R::key_of(
            #[trigger] s.drop_last()[i],
        ) != k by {
            assert(s.drop_last()[i] == s[i]);
        }
        assert(R::key_of(s[s.len() - 1]) != k);
        lemma_remove_absent::<R>(s.drop_last(), k);
        assert(s.drop_last().push(s.last()) =~= s);
    }
}

proof fn lemma_remove_at<R: Row>(s: Seq<R::V>, at: int)
    requires
        ascending::<R>(s),
        0 <= at < s.len(),
    ensures
        remove::<R>(s, R::key_of(s[at])) == s.remove(at),
    decreases s.len(),
{
    let k = R::key_of(s[at]);
    if at == s.len() - 1 {
        assert forall|i: int| 0 <= i < s.drop_last().len() implies R::key_of(
            #[trigger] s.drop_last()[i],
        ) != k by {
            if R::key_of(s[i]) == k {
                lemma_key_unique::<R>(s, i, at);
            }
        }
        lemma_remove_absent::<R>(s.drop_last(), k);
        assert(s.remove(at) =~= s.drop_last());
    } else {
        if R::key_of(s.last()) == k {
            lemma_key_unique::<R>(s, at, s.len() - 1);
        }
        assert(s.drop_last()[at] == s[at]);
        lemma_remove_at::<R>(s.drop_last(), at);
        assert(s.drop_last().remove(at).push(s.last()) =~= s.remove(at));
    }
}

// ── The table ────────────────────────────────────────────────────────────────

/// A table of rows, sorted by key.
pub struct Table<R> {
    rows: Vec<R>,
}

impl<R: Row> View for Table<R> {
    type V = Seq<R::V>;

    closed spec fn view(&self) -> Seq<R::V> {
        views(self.rows@)
    }
}

impl<R: Row> Table<R> {
    /// Whether the keys are strictly ascending.
    pub open spec fn wf(&self) -> bool {
        ascending::<R>(self@)
    }

    /// An empty table.
    pub fn new() -> (t: Self)
        ensures
            t.wf(),
            t@ == Seq::<R::V>::empty(),
    {
        let t = Table { rows: Vec::new() };
        assert(t@ =~= Seq::empty());
        t
    }

    /// The number of rows.
    pub fn len(&self) -> (n: usize)
        ensures
            n == self@.len(),
    {
        self.rows.len()
    }

    /// Row `i` in key order.
    pub fn row(&self, i: usize) -> (r: &R)
        requires
            i < self@.len(),
        ensures
            r@ == self@[i as int],
    {
        &self.rows[i]
    }

    /// The first place whose key does not go before `k`, and whether it has the
    /// key `k`.
    fn seek(&self, k: &str) -> (r: (usize, bool))
        requires
            self.wf(),
        ensures
            r.0 <= self@.len(),
            forall|i: int| 0 <= i < r.0 ==> before(R::key_of(#[trigger] self@[i]), k@),
            r.1 ==> r.0 < self@.len() && R::key_of(self@[r.0 as int]) == k@,
            forall|i: int|
                (if r.1 {
                    r.0 + 1
                } else {
                    r.0 as int
                }) <= i < self@.len() ==> before(k@, R::key_of(#[trigger] self@[i])),
    {
        let mut lo: usize = 0;
        let mut hi: usize = self.rows.len();
        let ghost s = self@;
        while lo < hi
            invariant
                s == self@,
                ascending::<R>(s),
                lo <= hi <= s.len(),
                s.len() == self.rows@.len(),
                forall|i: int| 0 <= i < lo ==> before(R::key_of(#[trigger] s[i]), k@),
                forall|i: int| hi <= i < s.len() ==> !before(R::key_of(#[trigger] s[i]), k@),
            decreases hi - lo,
        {
            let mid: usize = lo + (hi - lo) / 2;
            let row = &self.rows[mid];
            assert(row@ == s[mid as int]);
            if goes_before(row.key(), k) {
                assert forall|i: int| 0 <= i < mid + 1 implies before(
                    R::key_of(#[trigger] s[i]),
                    k@,
                ) by {
                    if i < mid {
                        lemma_transitive(R::key_of(s[i]), R::key_of(s[mid as int]), k@);
                    }
                }
                lo = mid + 1;
            } else {
                assert forall|i: int| mid <= i < s.len() implies !before(
                    R::key_of(#[trigger] s[i]),
                    k@,
                ) by {
                    if i > mid && before(R::key_of(s[i]), k@) {
                        lemma_transitive(R::key_of(s[mid as int]), R::key_of(s[i]), k@);
                    }
                }
                hi = mid;
            }
        }
        let found = lo < self.rows.len() && same_text(self.rows[lo].key(), k);
        proof {
            if lo < s.len() {
                lemma_total(R::key_of(s[lo as int]), k@);
                assert forall|i: int| lo < i < s.len() implies before(
                    k@,
                    R::key_of(#[trigger] s[i]),
                ) by {
                    assert(before(R::key_of(s[lo as int]), R::key_of(s[i])));
                    if before(k@, R::key_of(s[lo as int])) {
                        lemma_transitive(k@, R::key_of(s[lo as int]), R::key_of(s[i]));
                    }
                }
            }
        }
        (lo, found)
    }

    /// The row with the key `k`.
    pub fn get(&self, k: &str) -> (r: Option<&R>)
        requires
            self.wf(),
        ensures
            match r {
                Some(row) => lookup::<R>(self@, k@) == Some(row@),
                None => lookup::<R>(self@, k@) is None,
            },
    {
        let (at, found) = self.seek(k);
        if found {
            proof {
                lemma_lookup_at::<R>(self@, at as int);
            }
            Some(&self.rows[at])
        } else {
            proof {
                if has_key::<R>(self@, k@) {
                    let i = choose|i: int| keyed_at::<R>(self@, k@, i);
                    assert(keyed_at::<R>(self@, k@, i));
                    lemma_irreflexive(k@);
                    assert(self@[i] == self@[i]);
                }
            }
            None
        }
    }

    /// Put `row` under its key, in place of the row that had it.
    pub fn put(&mut self, row: R)
        requires
            old(self).wf(),
        ensures
            final(self).wf(),
            final(self)@ == put::<R>(old(self)@, row@),
    {
        let ghost s = self@;
        let ghost v = row@;
        let (at, found) = self.seek(row.key());
        proof {
            lemma_put_rows::<R>(s, v);
        }
        if found {
            proof {
                lemma_put_over::<R>(s, v, at as int);
            }
            self.rows.set(at, row);
            assert(self@ =~= s.update(at as int, v));
        } else {
            proof {
                lemma_put_at::<R>(s, v, at as int);
            }
            self.rows.insert(at, row);
            assert(self@ =~= s.insert(at as int, v));
        }
    }

    /// Remove the row with the key `k`, if there is one.
    pub fn remove(&mut self, k: &str)
        requires
            old(self).wf(),
        ensures
            final(self).wf(),
            final(self)@ == remove::<R>(old(self)@, k@),
    {
        let ghost s = self@;
        let (at, found) = self.seek(k);
        proof {
            lemma_remove_rows::<R>(s, k@);
        }
        if found {
            proof {
                lemma_remove_at::<R>(s, at as int);
            }
            self.rows.remove(at);
            assert(self@ =~= s.remove(at as int));
        } else {
            proof {
                lemma_irreflexive(k@);
                assert forall|i: int| 0 <= i < s.len() implies R::key_of(#[trigger] s[i])
                    != k@ by {}
                lemma_remove_absent::<R>(s, k@);
            }
        }
    }

    /// The table of `rows`; of two rows with one key the later stays.
    pub fn from_rows(rows: Vec<R>) -> (t: Self)
        ensures
            t.wf(),
            t@ == put_rows::<R>(Seq::empty(), views(rows@), rows@.len() as int),
    {
        let ghost all = views(rows@);
        let mut t = Table::new();
        let mut i: usize = 0;
        while i < rows.len()
            invariant
                all == views(rows@),
                i <= rows@.len(),
                t.wf(),
                t@ == put_rows::<R>(Seq::empty(), all, i as int),
            decreases rows@.len() - i,
        {
            let row = rows[i].copy();
            assert(row@ == all[i as int]);
            t.put(row);
            i += 1;
        }
        t
    }

    /// A copy of the table.
    pub fn copy(&self) -> (t: Self)
        ensures
            t@ == self@,
    {
        let mut rows: Vec<R> = Vec::new();
        let mut i: usize = 0;
        while i < self.rows.len()
            invariant
                i <= self.rows@.len(),
                views(rows@) == views(self.rows@).take(i as int),
            decreases self.rows@.len() - i,
        {
            let ghost done = rows@;
            let item = self.rows[i].copy();
            rows.push(item);
            proof {
                assert(views(rows@) =~= views(done).push(item@));
                assert(views(self.rows@).take(i + 1) =~= views(self.rows@).take(i as int).push(
                    item@,
                ));
            }
            i += 1;
        }
        assert(views(self.rows@).take(self.rows@.len() as int) =~= views(self.rows@));
        Table { rows }
    }
}

} // verus!
