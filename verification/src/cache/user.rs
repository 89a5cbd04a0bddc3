//! Aliases that the user adds and removes.

use vstd::prelude::*;

use crate::cache::state::{AliasRow, AliasRowView, CacheView};
use crate::cache::tables::{lemma_logs_self, lemma_logs_step, CacheTables, ChangeView};
use crate::identity::{hyphenated, id_text, is_id_text, random_ids};
use crate::normalize::{normalize, normalized};
use crate::table::{lookup, put, remove};
use crate::text::{same_text, texts};
use crate::types::{AliasKind, AliasView, ResolvedAlias};

verus! {

/// Whether `target` owns an alias with the normalized form `form`.
pub open spec fn owns_form(s: Seq<AliasRowView>, target: Seq<char>, form: Seq<char>) -> bool {
    exists|i: int|
        0 <= i < s.len() && (#[trigger] s[i]).target_id == target && s[i].alias.normalized == form
}

impl CacheView {
    /// Whether adding `alias` to `target` adds anything: it does unless its
    /// normalized form is empty or the target has it already.
    pub open spec fn takes_alias(self, target: u128, alias: Seq<char>) -> bool {
        &&& normalized(alias).len() > 0
        &&& !owns_form(self.aliases, hyphenated(target), normalized(alias))
    }

    /// The state after `alias` was added to `target` under the key `key`.
    pub open spec fn with_user_alias(self, target: u128, alias: Seq<char>, key: Seq<char>) -> Self {
        if self.takes_alias(target, alias) {
            CacheView {
                targets: self.targets,
                aliases: put::<AliasRow>(
                    self.aliases,
                    AliasRowView {
                        alias_id: key,
                        target_id: hyphenated(target),
                        alias: AliasView::of(alias, AliasKind::User),
                    },
                ),
            }
        } else {
            self
        }
    }

    /// Whether the alias row under `key` is one that the user added.
    pub open spec fn is_user_alias(self, key: Seq<char>) -> bool {
        lookup::<AliasRow>(self.aliases, key) matches Some(row) && row.alias.kind
            == AliasKind::User
    }

    /// The state after the user alias under `key` was removed.
    pub open spec fn without_user_alias(self, key: Seq<char>) -> Self {
        if self.is_user_alias(key) {
            CacheView {
                targets: self.targets,
                aliases: remove::<AliasRow>(self.aliases, key),
            }
        } else {
            self
        }
    }
}

impl CacheTables {
    /// Add a user alias to a target, under the given key. Returns whether it was
    /// added: not where it is blank, nor where the target has it already.
    pub fn add_user_alias_with(&mut self, target_id: u128, alias: &str, alias_id: &str) -> (r: bool)
        requires
            old(self).wf(),
        ensures
            final(self).wf(),
            final(self).logs_since(old(self)),
            r == old(self)@.takes_alias(target_id, alias@),
            final(self)@ == old(self)@.with_user_alias(target_id, alias@, alias_id@),
    {
        let ghost start = *self;
        proof {
            lemma_logs_self(start);
        }
        let form = normalize(alias);
        if form.as_str().is_empty() {
            return false;
        }
        let target = id_text(target_id);
        let mut i: usize = 0;
        while i < self.aliases().len()
            invariant
                self.wf(),
                *self == start,
                *self == *old(self),
                start.logs_since(&start),
                form@ == normalized(alias@),
                target@ == hyphenated(target_id),
                i <= start@.aliases.len(),
                forall|j: int|
                    0 <= j < i ==> !((#[trigger] start@.aliases[j]).target_id == target@
                        && start@.aliases[j].alias.normalized == form@),
            decreases start@.aliases.len() - i,
        {
            let row = self.aliases().row(i);
            if same_text(row.target_id.as_str(), target.as_str()) && same_text(
                row.alias.normalized.as_str(),
                form.as_str(),
            ) {
                assert(start@.aliases[i as int].target_id == target@);
                return false;
            }
            i += 1;
        }
        let row = AliasRow {
            alias_id: alias_id.to_owned(),
            target_id: target,
            alias: ResolvedAlias::new(alias, AliasKind::User),
        };
        let ghost v = row@;
        self.put_alias(row);
        proof {
            lemma_logs_step(start, start, *self, ChangeView::PutAlias(v));
        }
        true
    }

    /// Add a user alias to a target, under a random key. Returns whether it was
    /// added.
    pub fn add_user_alias(&mut self, target_id: u128, alias: &str) -> (r: bool)
        requires
            old(self).wf(),
        ensures
            final(self).wf(),
            final(self).logs_since(old(self)),
            r == old(self)@.takes_alias(target_id, alias@),
            exists|key: Seq<char>|
                is_id_text(key) && final(self)@ == #[trigger] old(self)@.with_user_alias(
                    target_id,
                    alias@,
                    key,
                ),
    {
        let ids = random_ids(1);
        assert(is_id_text(texts(ids@)[0]));
        self.add_user_alias_with(target_id, alias, ids[0].as_str())
    }

    /// Remove the alias with the key `alias_id`, if the user added it. Returns
    /// whether it was removed.
    pub fn remove_user_alias(&mut self, alias_id: &str) -> (r: bool)
        requires
            old(self).wf(),
        ensures
            final(self).wf(),
            final(self).logs_since(old(self)),
            r == old(self)@.is_user_alias(alias_id@),
            final(self)@ == old(self)@.without_user_alias(alias_id@),
    {
        let ghost start = *self;
        proof {
            lemma_logs_self(start);
        }
        let found = match self.aliases().get(alias_id) {
            Some(row) => row.alias.kind == AliasKind::User,
            None => false,
        };
        if found {
            self.remove_alias(alias_id);
            proof {
                lemma_logs_step(start, start, *self, ChangeView::RemoveAlias(alias_id@));
            }
        }
        found
    }
}

} // verus!
