//! Reading targets back.

use vstd::prelude::*;

use crate::cache::state::{first_with_oid, AliasRowView, CacheView, TargetRow, TargetRowView};
use crate::cache::tables::CacheTables;
use crate::cache::{CacheError, CachedTarget, CachedView};
use crate::identity::{hyphenated, id_of_text, id_text, parse_id};
use crate::order::{sort_stably, sorted, views};
use crate::table::{has_key, keyed_at, lemma_lookup_found, lemma_put_lookup, lookup, Row, Table};
use crate::text::same_text;
use crate::types::{copy_aliases, AliasView, ResolvedAlias};

verus! {

/// The aliases that `target` owns, in the order of their keys.
pub open spec fn aliases_of(s: Seq<AliasRowView>, target: Seq<char>) -> Seq<AliasView>
    decreases s.len(),
{
    if s.len() == 0 {
        Seq::empty()
    } else if s.last().target_id == target {
        aliases_of(s.drop_last(), target).push(s.last().alias)
    } else {
        aliases_of(s.drop_last(), target)
    }
}

/// The first alias row, in key order, with the normalized form `form`.
pub open spec fn first_with_form(s: Seq<AliasRowView>, form: Seq<char>) -> Option<AliasRowView>
    decreases s.len(),
{
    if s.len() == 0 {
        None
    } else {
        match first_with_form(s.drop_last(), form) {
            Some(row) => Some(row),
            None => if s.last().alias.normalized == form {
                Some(s.last())
            } else {
                None
            },
        }
    }
}

impl CacheView {
    /// A target row as it is read back: with its aliases, sorted by display
    /// form.
    pub open spec fn read_row(self, row: TargetRowView, id: u128) -> CachedView {
        row.target(id, sorted::<ResolvedAlias>(aliases_of(self.aliases, row.id)))
    }

    /// The target with the id `id`.
    pub open spec fn by_id(self, id: u128) -> Option<CachedView> {
        match lookup::<TargetRow>(self.targets, hyphenated(id)) {
            Some(row) => Some(self.read_row(row, id)),
            None => None,
        }
    }

    /// The target under a stored key; an error where the key is no UUID.
    pub open spec fn by_key(self, key: Seq<char>) -> Result<Option<CachedView>, Seq<char>> {
        match id_of_text(key) {
            Some(id) => Ok(self.by_id(id)),
            None => Err(key),
        }
    }

    /// The target with the SIMBAD object id `oid`.
    pub open spec fn by_oid(self, oid: i64) -> Result<Option<CachedView>, Seq<char>> {
        match first_with_oid(self.targets, oid) {
            Some(row) => self.by_key(row.id),
            None => Ok(None),
        }
    }

    /// The target that has an alias with the normalized form `form`.
    pub open spec fn by_form(self, form: Seq<char>) -> Result<Option<CachedView>, Seq<char>> {
        match first_with_form(self.aliases, form) {
            Some(row) => self.by_key(row.target_id),
            None => Ok(None),
        }
    }

    /// The first `n` targets in key order; an error at the first key that is no
    /// UUID.
    pub open spec fn read_targets(self, n: int) -> Result<Seq<CachedView>, Seq<char>>
        decreases n,
    {
        if n <= 0 {
            Ok(Seq::empty())
        } else {
            match self.read_targets(n - 1) {
                Err(key) => Err(key),
                Ok(front) => {
                    let row = self.targets[n - 1];
                    match id_of_text(row.id) {
                        Some(id) => Ok(front.push(self.read_row(row, id))),
                        None => Err(row.id),
                    }
                },
            }
        }
    }

    /// All targets, by primary designation.
    pub open spec fn listed(self) -> Result<Seq<CachedView>, Seq<char>> {
        match self.read_targets(self.targets.len() as int) {
            Ok(all) => Ok(sorted::<CachedTarget>(all)),
            Err(key) => Err(key),
        }
    }
}

/// Whether a read came out as specified: the target, or the key that is no UUID.
pub open spec fn read_as(
    r: Result<Option<CachedTarget>, CacheError>,
    s: Result<Option<CachedView>, Seq<char>>,
) -> bool {
    match r {
        Ok(Some(t)) => s == Ok::<_, Seq<char>>(Some(t@)),
        Ok(None) => s == Ok::<Option<CachedView>, Seq<char>>(None),
        Err(e) => e matches CacheError::InvalidUuid(key, _) && s == Err::<Option<CachedView>, _>(
            key@,
        ),
    }
}

/// Once reading targets has stopped, it stays stopped.
proof fn lemma_read_stops(state: CacheView, n: int, m: int)
    requires
        n <= m,
        state.read_targets(n) is Err,
    ensures
        state.read_targets(m) == state.read_targets(n),
    decreases m - n,
{
    if n < m {
        lemma_read_stops(state, n, m - 1);
    }
}

/// The view of an [`AliasGroup`].
#[verifier::ext_equal]
pub struct GroupView {
    pub target_id: Seq<char>,
    pub aliases: Seq<AliasView>,
}

/// The aliases of one target.
pub struct AliasGroup {
    target_id: String,
    aliases: Vec<ResolvedAlias>,
}

impl View for AliasGroup {
    type V = GroupView;

    closed spec fn view(&self) -> GroupView {
        GroupView { target_id: self.target_id@, aliases: views(self.aliases@) }
    }
}

impl Row for AliasGroup {
    open spec fn key_of(v: GroupView) -> Seq<char> {
        v.target_id
    }

    fn key(&self) -> (k: &str) {
        self.target_id.as_str()
    }

    fn copy(&self) -> (r: Self) {
        AliasGroup { target_id: self.target_id.clone(), aliases: copy_aliases(&self.aliases) }
    }
}

/// The aliases that a grouping has for `target`.
spec fn group_of(groups: Seq<GroupView>, target: Seq<char>) -> Seq<AliasView> {
    match lookup::<AliasGroup>(groups, target) {
        Some(g) => g.aliases,
        None => Seq::empty(),
    }
}

impl CacheTables {
    /// The aliases of `target`, sorted by display form.
    fn aliases_for(&self, target: &str) -> (out: Vec<ResolvedAlias>)
        requires
            self.wf(),
        ensures
            views(out@) == sorted::<ResolvedAlias>(aliases_of(self@.aliases, target@)),
    {
        let table = self.aliases();
        let ghost s = self@.aliases;
        let mut found: Vec<ResolvedAlias> = Vec::new();
        let mut i: usize = 0;
        assert(s.take(0) =~= Seq::empty());
        assert(views(found@) =~= Seq::empty());
        while i < table.len()
            invariant
                s == table@,
                i <= s.len(),
                views(found@) == aliases_of(s.take(i as int), target@),
            decreases s.len() - i,
        {
            let row = table.row(i);
            let ghost done = found@;
            proof {
                assert(s.take(i + 1).drop_last() =~= s.take(i as int));
                assert(s.take(i + 1).last() == row@);
            }
            if same_text(row.target_id.as_str(), target) {
                let alias = row.alias.clone();
                found.push(alias);
                assert(views(found@) =~= views(done).push(alias@));
            }
            i += 1;
        }
        assert(s.take(s.len() as int) =~= s);
        sort_stably(found)
    }

    /// The target with the id `id`.
    pub fn get_by_id(&self, id: u128) -> (r: Option<CachedTarget>)
        requires
            self.wf(),
        ensures
            match r {
                Some(t) => self@.by_id(id) == Some(t@),
                None => self@.by_id(id) is None,
            },
    {
        let key = id_text(id);
        match self.targets().get(key.as_str()) {
            Some(row) => {
                proof {
                    lemma_lookup_found::<TargetRow>(self@.targets, key@);
                }
                let aliases = self.aliases_for(key.as_str());
                Some(row.to_target(id, aliases))
            },
            None => None,
        }
    }

    /// The target under a stored key.
    pub(crate) fn get_by_key(&self, key: &str) -> (r: Result<Option<CachedTarget>, CacheError>)
        requires
            self.wf(),
        ensures
            read_as(r, self@.by_key(key@)),
    {
        match parse_id(key) {
            Ok(id) => Ok(self.get_by_id(id)),
            Err(e) => Err(CacheError::InvalidUuid(key.to_owned(), e)),
        }
    }

    /// The target with the SIMBAD object id `oid`.
    pub fn get_by_simbad_oid(&self, oid: i64) -> (r: Result<Option<CachedTarget>, CacheError>)
        requires
            self.wf(),
        ensures
            read_as(r, self@.by_oid(oid)),
    {
        match self.row_with_oid(oid) {
            Some(i) => {
                let key = self.targets().row(i).id.as_str();
                self.get_by_key(key)
            },
            None => Ok(None),
        }
    }

    /// The target that has an alias with the normalized form `normalized`.
    pub fn get_by_normalized(&self, normalized: &str) -> (r: Result<
        Option<CachedTarget>,
        CacheError,
    >)
        requires
            self.wf(),
        ensures
            read_as(r, self@.by_form(normalized@)),
    {
        let table = self.aliases();
        let ghost s = self@.aliases;
        let mut i: usize = 0;
        assert(s.take(0) =~= Seq::empty());
        while i < table.len()
            invariant
                self.wf(),
                s == table@,
                s == self@.aliases,
                i <= s.len(),
                first_with_form(s.take(i as int), normalized@) is None,
            decreases s.len() - i,
        {
            let row = table.row(i);
            proof {
                assert(s.take(i + 1).drop_last() =~= s.take(i as int));
                assert(s.take(i + 1).last() == row@);
            }
            if same_text(row.alias.normalized.as_str(), normalized) {
                proof {
                    lemma_first_form_stays(s, normalized@, i + 1);
                }
                return self.get_by_key(row.target_id.as_str());
            }
            i += 1;
        }
        assert(s.take(s.len() as int) =~= s);
        Ok(None)
    }

    /// The aliases of every target, each list in key order.
    fn group_aliases(&self) -> (groups: Table<AliasGroup>)
        requires
            self.wf(),
        ensures
            groups.wf(),
            forall|t: Seq<char>| #[trigger]
                group_of(groups@, t) == aliases_of(self@.aliases, t),
    {
        let table = self.aliases();
        let ghost s = self@.aliases;
        let mut groups: Table<AliasGroup> = Table::new();
        let mut i: usize = 0;
        proof {
            assert(s.take(0) =~= Seq::empty());
            assert forall|t: Seq<char>| #[trigger]
                group_of(groups@, t) == aliases_of(s.take(0), t) by {
                if has_key::<AliasGroup>(groups@, t) {
                    let j = choose|j: int| keyed_at::<AliasGroup>(groups@, t, j);
                    assert(keyed_at::<AliasGroup>(groups@, t, j));
                }
            }
        }
        while i < table.len()
            invariant
                s == table@,
                i <= s.len(),
                groups.wf(),
                forall|t: Seq<char>| #[trigger]
                    group_of(groups@, t) == aliases_of(s.take(i as int), t),
            decreases s.len() - i,
        {
            let row = table.row(i);
            let ghost start = groups@;
            let mut list: Vec<ResolvedAlias> = match groups.get(row.target_id.as_str()) {
                Some(g) => copy_aliases(&g.aliases),
                None => Vec::new(),
            };
            let ghost had = list@;
            assert(views(had) =~= group_of(start, row@.target_id));
            let alias = row.alias.clone();
            list.push(alias);
            assert(views(list@) =~= views(had).push(alias@));
            let group = AliasGroup { target_id: row.target_id.clone(), aliases: list };
            let ghost v = group@;
            groups.put(group);
            proof {
                assert(s.take(i + 1).drop_last() =~= s.take(i as int));
                assert(s.take(i + 1).last() == row@);
                assert forall|t: Seq<char>| #[trigger]
                    group_of(groups@, t) == aliases_of(s.take(i + 1), t) by {
                    lemma_put_lookup::<AliasGroup>(start, v, t);
                    assert(group_of(start, t) == aliases_of(s.take(i as int), t));
                }
            }
            i += 1;
        }
        assert(s.take(s.len() as int) =~= s);
        groups
    }

    /// All targets, by primary designation; an error where the key of a row is
    /// no UUID.
    pub fn list(&self) -> (r: Result<Vec<CachedTarget>, CacheError>)
        requires
            self.wf(),
        ensures
            match r {
                Ok(all) => self@.listed() == Ok::<_, Seq<char>>(views(all@)),
                Err(e) => e matches CacheError::InvalidUuid(key, _) && self@.listed() == Err::<
                    Seq<CachedView>,
                    _,
                >(key@),
            },
    {
        let groups = self.group_aliases();
        let table = self.targets();
        let mut out: Vec<CachedTarget> = Vec::new();
        let mut i: usize = 0;
        assert(views(out@) =~= Seq::empty());
        while i < table.len()
            invariant
                self.wf(),
                table@ == self@.targets,
                i <= table@.len(),
                groups.wf(),
                forall|t: Seq<char>| #[trigger]
                    group_of(groups@, t) == aliases_of(self@.aliases, t),
                self@.read_targets(i as int) == Ok::<_, Seq<char>>(views(out@)),
            decreases table@.len() - i,
        {
            let row = table.row(i);
            let ghost done = out@;
            match parse_id(row.id.as_str()) {
                Err(e) => {
                    proof {
                        lemma_read_stops(self@, i + 1, table@.len() as int);
                    }
                    return Err(CacheError::InvalidUuid(row.id.clone(), e));
                },
                Ok(id) => {
                    let owned: Vec<ResolvedAlias> = match groups.get(row.id.as_str()) {
                        Some(g) => copy_aliases(&g.aliases),
                        None => Vec::new(),
                    };
                    assert(views(owned@) =~= group_of(groups@, row@.id));
                    let target = row.to_target(id, sort_stably(owned));
                    assert(target@ == self@.read_row(row@, id));
                    out.push(target);
                    assert(views(out@) =~= views(done).push(target@));
                },
            }
            i += 1;
        }
        Ok(sort_stably(out))
    }
}

/// What a prefix of the alias table finds first, the whole table finds.
proof fn lemma_first_form_stays(s: Seq<AliasRowView>, form: Seq<char>, n: int)
    requires
        0 <= n <= s.len(),
        first_with_form(s.take(n), form) is Some,
    ensures
        first_with_form(s, form) == first_with_form(s.take(n), form),
    decreases s.len() - n,
{
    if n < s.len() {
        assert(s.take(n + 1).drop_last() =~= s.take(n));
        lemma_first_form_stays(s, form, n + 1);
    } else {
        assert(s.take(n) =~= s);
    }
}

} // verus!
