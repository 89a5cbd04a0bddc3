//! Ranked search over the aliases.

use vstd::prelude::*;

use crate::cache::state::{AliasRowView, CacheView};
use crate::cache::tables::CacheTables;
use crate::cache::{CacheError, HitView, SearchHit, RANK_EXACT, RANK_PREFIX, RANK_SUBSTRING};
use crate::normalize::{normalize, normalized};
use crate::order::{before, goes_before, lemma_asymmetric, lemma_irreflexive, lemma_total, lemma_transitive, sort_stably, sorted, views, Sortable};
use crate::table::{lookup, put, Row, Table};
use crate::text::{byte_len, contains, has_infix, has_prefix, same_text, starts_with};

verus! {

/// How the normalized form `form` matches the normalized query `q`.
pub open spec fn rank_of(form: Seq<char>, q: Seq<char>) -> Option<u8> {
    if form == q {
        Some(RANK_EXACT)
    } else if has_prefix(form, q) {
        Some(RANK_PREFIX)
    } else if has_infix(form, q) {
        Some(RANK_SUBSTRING)
    } else {
        None
    }
}

fn match_rank(form: &str, q: &str) -> (r: Option<u8>)
    ensures
        r == rank_of(form@, q@),
{
    if same_text(form, q) {
        Some(RANK_EXACT)
    } else if starts_with(form, q) {
        Some(RANK_PREFIX)
    } else if contains(form, q) {
        Some(RANK_SUBSTRING)
    } else {
        None
    }
}

/// The view of a [`Best`].
#[verifier::ext_equal]
pub struct BestView {
    pub target_id: Seq<char>,
    pub alias: Seq<char>,
    pub normalized_len: usize,
    pub rank: u8,
}

impl BestView {
    /// A lower rank wins; ties break on the shorter alias.
    pub open spec fn better_than(self, other: Self) -> bool {
        self.rank < other.rank || (self.rank == other.rank && self.normalized_len
            < other.normalized_len)
    }

    /// The candidate that an alias row is, with the given rank.
    pub open spec fn of(row: AliasRowView, rank: u8) -> Self {
        BestView {
            target_id: row.target_id,
            alias: row.alias.alias,
            normalized_len: byte_len(row.alias.normalized),
            rank,
        }
    }
}

/// The best match seen so far for one target.
pub struct Best {
    target_id: String,
    alias: String,
    normalized_len: usize,
    rank: u8,
}

impl View for Best {
    type V = BestView;

    closed spec fn view(&self) -> BestView {
        BestView {
            target_id: self.target_id@,
            alias: self.alias@,
            normalized_len: self.normalized_len,
            rank: self.rank,
        }
    }
}

impl Best {
    /// A lower rank wins; ties break on the shorter alias.
    fn is_better_than(&self, other: &Self) -> (r: bool)
        ensures
            r == self@.better_than(other@),
    {
        self.rank < other.rank || (self.rank == other.rank && self.normalized_len
            < other.normalized_len)
    }
}

impl Row for Best {
    open spec fn key_of(v: BestView) -> Seq<char> {
        v.target_id
    }

    fn key(&self) -> (k: &str) {
        self.target_id.as_str()
    }

    fn copy(&self) -> (r: Self) {
        Best {
            target_id: self.target_id.clone(),
            alias: self.alias.clone(),
            normalized_len: self.normalized_len,
            rank: self.rank,
        }
    }
}

/// Matches are ordered by rank, then by the length of the alias, then by the
/// alias itself.
impl Sortable for Best {
    open spec fn after(a: BestView, b: BestView) -> bool {
        b.better_than(a) || (a.rank == b.rank && a.normalized_len == b.normalized_len && before(
            b.alias,
            a.alias,
        ))
    }

    proof fn lemma_after_irreflexive(a: BestView) {
        lemma_irreflexive(a.alias);
    }

    proof fn lemma_not_after_transitive(a: BestView, b: BestView, c: BestView) {
        lemma_total(a.alias, b.alias);
        if before(c.alias, a.alias) && before(a.alias, b.alias) {
            lemma_transitive(c.alias, a.alias, b.alias);
        }
    }

    proof fn lemma_after_asymmetric(a: BestView, b: BestView) {
        if before(b.alias, a.alias) {
            lemma_asymmetric(b.alias, a.alias);
        }
    }

    fn is_after(&self, other: &Self) -> (r: bool) {
        other.is_better_than(self) || (self.rank == other.rank && self.normalized_len
            == other.normalized_len && goes_before(other.alias.as_str(), self.alias.as_str()))
    }
}

/// The best match of every target that has one, by target: of two equally good
/// matches the one whose alias row comes first.
pub open spec fn bests(s: Seq<AliasRowView>, q: Seq<char>) -> Seq<BestView>
    decreases s.len(),
{
    if s.len() == 0 {
        Seq::empty()
    } else {
        let front = bests(s.drop_last(), q);
        let row = s.last();
        match rank_of(row.alias.normalized, q) {
            None => front,
            Some(rank) => {
                let candidate = BestView::of(row, rank);
                match lookup::<Best>(front, row.target_id) {
                    Some(best) => if candidate.better_than(best) {
                        put::<Best>(front, candidate)
                    } else {
                        front
                    },
                    None => put::<Best>(front, candidate),
                }
            },
        }
    }
}

/// The best matches, in the order in which they are shown.
pub open spec fn ranked(s: Seq<AliasRowView>, q: Seq<char>) -> Seq<BestView> {
    sorted::<Best>(bests(s, q))
}

impl CacheView {
    /// The hits of the first `n` of `list`: those whose target is stored; an
    /// error at the first target id that is no UUID.
    pub open spec fn hits(self, list: Seq<BestView>, n: int) -> Result<Seq<HitView>, Seq<char>>
        decreases n,
    {
        if n <= 0 {
            Ok(Seq::empty())
        } else {
            match self.hits(list, n - 1) {
                Err(key) => Err(key),
                Ok(front) => {
                    let best = list[n - 1];
                    match self.by_key(best.target_id) {
                        Err(key) => Err(key),
                        Ok(None) => Ok(front),
                        Ok(Some(target)) => Ok(
                            front.push(
                                HitView { target, matched_alias: best.alias, rank: best.rank },
                            ),
                        ),
                    }
                },
            }
        }
    }

    /// What a search for `query` finds, at most `limit` hits.
    pub open spec fn found(self, query: Seq<char>, limit: int) -> Result<
        Seq<HitView>,
        Seq<char>,
    > {
        let q = normalized(query);
        if q.len() == 0 || limit <= 0 {
            Ok(Seq::empty())
        } else {
            let list = ranked(self.aliases, q);
            let n = if limit < list.len() {
                limit
            } else {
                list.len() as int
            };
            self.hits(list, n)
        }
    }
}

proof fn lemma_hits_stop(state: CacheView, list: Seq<BestView>, n: int, m: int)
    requires
        n <= m,
        state.hits(list, n) is Err,
    ensures
        state.hits(list, m) == state.hits(list, n),
    decreases m - n,
{
    if n < m {
        lemma_hits_stop(state, list, n, m - 1);
    }
}

impl CacheTables {
    /// The best match of every target, by target.
    fn best_matches(&self, q: &str) -> (best: Table<Best>)
        requires
            self.wf(),
        ensures
            best.wf(),
            best@ == bests(self@.aliases, q@),
    {
        let table = self.aliases();
        let ghost s = self@.aliases;
        let mut best: Table<Best> = Table::new();
        let mut i: usize = 0;
        assert(s.take(0) =~= Seq::empty());
        while i < table.len()
            invariant
                s == table@,
                i <= s.len(),
                best.wf(),
                best@ == bests(s.take(i as int), q@),
            decreases s.len() - i,
        {
            let row = table.row(i);
            proof {
                assert(s.take(i + 1).drop_last() =~= s.take(i as int));
                assert(s.take(i + 1).last() == row@);
            }
            if let Some(rank) = match_rank(row.alias.normalized.as_str(), q) {
                let candidate = Best {
                    target_id: row.target_id.clone(),
                    alias: row.alias.alias.clone(),
                    normalized_len: row.alias.normalized.as_str().len(),
                    rank,
                };
                assert(candidate@ == BestView::of(row@, rank));
                let wins = match best.get(row.target_id.as_str()) {
                    Some(other) => candidate.is_better_than(other),
                    None => true,
                };
                if wins {
                    best.put(candidate);
                }
            }
            i += 1;
        }
        assert(s.take(s.len() as int) =~= s);
        best
    }

    /// Ranked search over the aliases: exact matches, then prefixes, then parts;
    /// one hit for each target, at most `limit`. A blank query finds nothing.
    pub fn search(&self, query: &str, limit: usize) -> (r: Result<Vec<SearchHit>, CacheError>)
        requires
            self.wf(),
        ensures
            match r {
                Ok(hits) => self@.found(query@, limit as int) == Ok::<_, Seq<char>>(views(hits@)),
                Err(e) => e matches CacheError::InvalidUuid(key, _) && self@.found(
                    query@,
                    limit as int,
                ) == Err::<Seq<HitView>, _>(key@),
            },
    {
        let q = normalize(query);
        let mut hits: Vec<SearchHit> = Vec::new();
        assert(views(hits@) =~= Seq::empty());
        if q.as_str().is_empty() || limit == 0 {
            return Ok(hits);
        }
        let best = self.best_matches(q.as_str());
        let mut rows: Vec<Best> = Vec::new();
        let mut j: usize = 0;
        assert(views(rows@) =~= best@.take(0));
        while j < best.len()
            invariant
                j <= best@.len(),
                views(rows@) == best@.take(j as int),
            decreases best@.len() - j,
        {
            let ghost done = rows@;
            let row = best.row(j).copy();
            rows.push(row);
            proof {
                assert(views(rows@) =~= views(done).push(row@));
                assert(best@.take(j + 1) =~= best@.take(j as int).push(row@));
            }
            j += 1;
        }
        assert(best@.take(best@.len() as int) =~= best@);
        let list = sort_stably(rows);
        let ghost shown = ranked(self@.aliases, q@);
        let n: usize = if limit < list.len() {
            limit
        } else {
            list.len()
        };
        assert(views(list@).len() == list@.len());
        let mut i: usize = 0;
        while i < n
            invariant
                self.wf(),
                i <= n <= list@.len(),
                views(list@) == shown,
                self@.found(query@, limit as int) == self@.hits(shown, n as int),
                self@.hits(shown, i as int) == Ok::<_, Seq<char>>(views(hits@)),
            decreases n - i,
        {
            let entry = &list[i];
            let ghost done = hits@;
            assert(entry@ == shown[i as int]);
            match self.get_by_key(entry.target_id.as_str()) {
                Err(e) => {
                    proof {
                        lemma_hits_stop(self@, shown, i + 1, n as int);
                    }
                    return Err(e);
                },
                Ok(Some(target)) => {
                    let hit = SearchHit {
                        target,
                        matched_alias: entry.alias.clone(),
                        rank: entry.rank,
                    };
                    hits.push(hit);
                    assert(views(hits@) =~= views(done).push(hit@));
                },
                Ok(None) => {},
            }
            i += 1;
        }
        Ok(hits)
    }
}

} // verus!
