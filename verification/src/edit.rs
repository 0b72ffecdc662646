//! In-place edits of the three text-bearing rows.
//!
//! The caller reads the current text, hands it to an interactive editor
//! outside this crate, and brings the replacement back here.  An empty
//! replacement is a cancellation: nothing is written and the `updated`
//! timestamp keeps its old value.  A non-empty replacement rewrites
//! exactly the target row's text and refreshes its `updated` timestamp,
//! leaving every other row untouched.

use vstd::prelude::*;

use crate::facts::lemma_table_map_same_ids;
use crate::store::{
    clone_alias, AliasModel, AliasRow, RelationSnippetModel, RelationSnippetRow, SnippetModel,
    SnippetRow, Store, StoreModel,
};

verus! {

/// How an edit ended.
#[derive(Debug, Clone, Copy, PartialEq, Eq, Structural)]
pub enum EditOutcome {
    /// The row exists and the new text was written.
    Updated,
    /// The replacement text was empty; nothing was written.
    Cancelled,
    /// No row carries the given id; nothing was written.
    NotFound,
}

/// The rewrite applied to an alias row when the target id matches.
pub open spec fn alias_with_text(id: u32, text: Seq<char>, now: u64) -> spec_fn(
    AliasModel,
) -> AliasModel {
    |a: AliasModel|
        if a.id == id {
            AliasModel { name: text, updated: now, ..a }
        } else {
            a
        }
}

/// The rewrite applied to a snippet row when the target id matches.
pub open spec fn snippet_with_text(id: u32, text: Seq<char>, now: u64) -> spec_fn(
    SnippetModel,
) -> SnippetModel {
    |s: SnippetModel|
        if s.id == id {
            SnippetModel { data: text, updated: now, ..s }
        } else {
            s
        }
}

/// The rewrite applied to a relation snippet row when the target id
/// matches.
pub open spec fn relation_snippet_with_text(id: u32, text: Seq<char>, now: u64) -> spec_fn(
    RelationSnippetModel,
) -> RelationSnippetModel {
    |r: RelationSnippetModel|
        if r.id == id {
            RelationSnippetModel { data: text, updated: now, ..r }
        } else {
            r
        }
}

impl StoreModel {
    /// The store after the alias with the given id gets new text.
    pub open spec fn edit_alias(self, id: u32, text: Seq<char>, now: u64) -> StoreModel {
        StoreModel { aliases: self.aliases.map_values(alias_with_text(id, text, now)), ..self }
    }

    /// The store after the snippet with the given id gets new text.
    pub open spec fn edit_snippet(self, id: u32, text: Seq<char>, now: u64) -> StoreModel {
        StoreModel { snippets: self.snippets.map_values(snippet_with_text(id, text, now)), ..self }
    }

    /// The store after the relation snippet with the given id gets new
    /// text.
    pub open spec fn edit_relation_snippet(self, id: u32, text: Seq<char>, now: u64) -> StoreModel {
        StoreModel {
            relation_snippets: self.relation_snippets.map_values(
                relation_snippet_with_text(id, text, now),
            ),
            ..self
        }
    }
}

impl Store {
    /// The current text of the alias with the given id, for handing to an
    /// editor; nothing when the id names no alias.
    pub fn alias_text(&self, id: u32) -> (r: Option<String>)
        ensures
            match r {
                Some(t) => exists|i: int|
                    0 <= i < self@.aliases.len() && (#[trigger] self@.aliases[i]).id == id && t@
                        == self@.aliases[i].name,
                None => !self@.has_alias(id),
            },
    {
        let n = self.aliases.len();
        let mut k: usize = 0;
        while k < n
            invariant
                n == self.aliases.len(),
                k <= n,
                forall|i: int| 0 <= i < k ==> (#[trigger] self.aliases@[i]).id != id,
            decreases n - k,
        {
            if self.aliases[k].id == id {
                let t = self.aliases[k].name.clone();
                proof {
                    assert((#[trigger] self@.aliases[k as int]).id == id && t@
                        == self@.aliases[k as int].name);
                }
                return Some(t);
            }
            k += 1;
        }
        proof {
            if self@.has_alias(id) {
                let i = choose|i: int|
                    0 <= i < self@.aliases.len() && (#[trigger] self@.aliases[i]).id == id;
                assert(self.aliases@[i].id == id);
            }
        }
        None
    }

    /// The current text of the snippet with the given id.
    pub fn snippet_text(&self, id: u32) -> (r: Option<String>)
        ensures
            match r {
                Some(t) => exists|i: int|
                    0 <= i < self@.snippets.len() && (#[trigger] self@.snippets[i]).id == id && t@
                        == self@.snippets[i].data,
                None => !self@.has_snippet(id),
            },
    {
        let n = self.snippets.len();
        let mut k: usize = 0;
        while k < n
            invariant
                n == self.snippets.len(),
                k <= n,
                forall|i: int| 0 <= i < k ==> (#[trigger] self.snippets@[i]).id != id,
            decreases n - k,
        {
            if self.snippets[k].id == id {
                let t = self.snippets[k].data.clone();
                proof {
                    assert((#[trigger] self@.snippets[k as int]).id == id && t@
                        == self@.snippets[k as int].data);
                }
                return Some(t);
            }
            k += 1;
        }
        proof {
            if self@.has_snippet(id) {
                let i = choose|i: int|
                    0 <= i < self@.snippets.len() && (#[trigger] self@.snippets[i]).id == id;
                assert(self.snippets@[i].id == id);
            }
        }
        None
    }

    /// The current text of the relation snippet with the given id.
    pub fn relation_snippet_text(&self, id: u32) -> (r: Option<String>)
        ensures
            match r {
                Some(t) => exists|i: int|
                    0 <= i < self@.relation_snippets.len() && (
                    #[trigger] self@.relation_snippets[i]).id == id && t@
                        == self@.relation_snippets[i].data,
                None => !self@.has_relation_snippet(id),
            },
    {
        let n = self.relation_snippets.len();
        let mut k: usize = 0;
        while k < n
            invariant
                n == self.relation_snippets.len(),
                k <= n,
                forall|i: int| 0 <= i < k ==> (#[trigger] self.relation_snippets@[i]).id != id,
            decreases n - k,
        {
            if self.relation_snippets[k].id == id {
                let t = self.relation_snippets[k].data.clone();
                proof {
                    assert((#[trigger] self@.relation_snippets[k as int]).id == id && t@
                        == self@.relation_snippets[k as int].data);
                }
                return Some(t);
            }
            k += 1;
        }
        proof {
            if self@.has_relation_snippet(id) {
                let i = choose|i: int|
                    0 <= i < self@.relation_snippets.len() && (
                    #[trigger] self@.relation_snippets[i]).id == id;
                assert(self.relation_snippets@[i].id == id);
            }
        }
        None
    }

    /// Writes replacement text into the alias with the given id.  An
    /// empty replacement cancels the edit; otherwise exactly that row's
    /// name and `updated` timestamp change.
    pub fn edit_alias(&mut self, id: u32, replacement: &str, now: u64) -> (r: EditOutcome)
        requires
            old(self).wf(),
        ensures
            final(self).wf(),
            replacement@.len() == 0 ==> r == EditOutcome::Cancelled && final(self)@ == old(self)@,
            replacement@.len() > 0 && !old(self)@.has_alias(id) ==> r == EditOutcome::NotFound
                && final(self)@ == old(self)@,
            replacement@.len() > 0 && old(self)@.has_alias(id) ==> r == EditOutcome::Updated
                && final(self)@ == old(self)@.edit_alias(id, replacement@, now),
    {
        if replacement.unicode_len() == 0 {
            return EditOutcome::Cancelled;
        }
        let ghost m = self@.aliases;
        let ghost f = alias_with_text(id, replacement@, now);
        let n = self.aliases.len();
        let mut out: Vec<AliasRow> = Vec::new();
        let mut found = false;
        let mut k: usize = 0;
        while k < n
            invariant
                n == self.aliases.len(),
                k <= n,
                *self == *old(self),
                m == self@.aliases,
                f == alias_with_text(id, replacement@, now),
                out@.map_values(|a: AliasRow| a@) =~= m.subrange(0, k as int).map_values(f),
                found == exists|i: int| 0 <= i < k && (#[trigger] m[i]).id == id,
            decreases n - k,
        {
            proof {
                assert(m[k as int] == self.aliases@[k as int]@);
            }
            if self.aliases[k].id == id {
                let row = AliasRow {
                    id: self.aliases[k].id,
                    entity_id: self.aliases[k].entity_id,
                    name: replacement.to_owned(),
                    created: self.aliases[k].created,
                    updated: now,
                };
                proof {
                    assert(row@ =~= f(m[k as int]));
                    assert((#[trigger] m[k as int]).id == id);
                }
                out.push(row);
                found = true;
            } else {
                let row = clone_alias(&self.aliases[k]);
                proof {
                    assert(row@ =~= f(m[k as int]));
                }
                out.push(row);
            }
            proof {
                assert(m.subrange(0, k as int + 1) =~= m.subrange(0, k as int).push(m[k as int]));
                assert(m.subrange(0, k as int + 1).map_values(f) =~= m.subrange(
                    0,
                    k as int,
                ).map_values(f).push(f(m[k as int])));
                assert(out@.map_values(|a: AliasRow| a@) =~= out@.drop_last().map_values(
                    |a: AliasRow| a@,
                ).push(out@.last()@));
            }
            k += 1;
        }
        if !found {
            proof {
                if old(self)@.has_alias(id) {
                    let i = choose|i: int|
                        0 <= i < m.len() && (#[trigger] m[i]).id == id;
                    assert(false);
                }
            }
            return EditOutcome::NotFound;
        }
        self.aliases = out;
        proof {
            assert(m.subrange(0, n as int) =~= m);
            let mapped = m.map_values(f);
            assert(self@.aliases =~= mapped);
            assert(self@ =~~= old(self)@.edit_alias(id, replacement@, now));
            assert forall|i: int| 0 <= i < m.len() implies (#[trigger] mapped[i]).id
                == m[i].id by {
                assert(mapped[i] == f(m[i]));
            }
            lemma_table_map_same_ids(
                m,
                mapped,
                |a: AliasModel| a.id,
                old(self)@.next_alias_id,
            );
        }
        EditOutcome::Updated
    }

    /// Writes replacement text into the snippet with the given id, with
    /// the same cancellation rule as alias edits.
    pub fn edit_snippet(&mut self, id: u32, replacement: &str, now: u64) -> (r: EditOutcome)
        requires
            old(self).wf(),
        ensures
            final(self).wf(),
            replacement@.len() == 0 ==> r == EditOutcome::Cancelled && final(self)@ == old(self)@,
            replacement@.len() > 0 && !old(self)@.has_snippet(id) ==> r == EditOutcome::NotFound
                && final(self)@ == old(self)@,
            replacement@.len() > 0 && old(self)@.has_snippet(id) ==> r == EditOutcome::Updated
                && final(self)@ == old(self)@.edit_snippet(id, replacement@, now),
    {
        if replacement.unicode_len() == 0 {
            return EditOutcome::Cancelled;
        }
        let ghost m = self@.snippets;
        let ghost f = snippet_with_text(id, replacement@, now);
        let n = self.snippets.len();
        let mut out: Vec<SnippetRow> = Vec::new();
        let mut found = false;
        let mut k: usize = 0;
        while k < n
            invariant
                n == self.snippets.len(),
                k <= n,
                *self == *old(self),
                m == self@.snippets,
                f == snippet_with_text(id, replacement@, now),
                out@.map_values(|s: SnippetRow| s@) =~= m.subrange(0, k as int).map_values(f),
                found == exists|i: int| 0 <= i < k && (#[trigger] m[i]).id == id,
            decreases n - k,
        {
            proof {
                assert(m[k as int] == self.snippets@[k as int]@);
            }
            if self.snippets[k].id == id {
                let row = SnippetRow {
                    id: self.snippets[k].id,
                    entity_id: self.snippets[k].entity_id,
                    data: replacement.to_owned(),
                    created: self.snippets[k].created,
                    updated: now,
                };
                proof {
                    assert(row@ =~= f(m[k as int]));
                    assert((#[trigger] m[k as int]).id == id);
                }
                out.push(row);
                found = true;
            } else {
                let row = crate::store::clone_snippet(&self.snippets[k]);
                proof {
                    assert(row@ =~= f(m[k as int]));
                }
                out.push(row);
            }
            proof {
                assert(m.subrange(0, k as int + 1) =~= m.subrange(0, k as int).push(m[k as int]));
                assert(m.subrange(0, k as int + 1).map_values(f) =~= m.subrange(
                    0,
                    k as int,
                ).map_values(f).push(f(m[k as int])));
                assert(out@.map_values(|s: SnippetRow| s@) =~= out@.drop_last().map_values(
                    |s: SnippetRow| s@,
                ).push(out@.last()@));
            }
            k += 1;
        }
        if !found {
            proof {
                if old(self)@.has_snippet(id) {
                    let i = choose|i: int|
                        0 <= i < m.len() && (#[trigger] m[i]).id == id;
                    assert(false);
                }
            }
            return EditOutcome::NotFound;
        }
        self.snippets = out;
        proof {
            assert(m.subrange(0, n as int) =~= m);
            let mapped = m.map_values(f);
            assert(self@.snippets =~= mapped);
            assert(self@ =~~= old(self)@.edit_snippet(id, replacement@, now));
            assert forall|i: int| 0 <= i < m.len() implies (#[trigger] mapped[i]).id
                == m[i].id by {
                assert(mapped[i] == f(m[i]));
            }
            lemma_table_map_same_ids(
                m,
                mapped,
                |s: SnippetModel| s.id,
                old(self)@.next_snippet_id,
            );
        }
        EditOutcome::Updated
    }

    /// Writes replacement text into the relation snippet with the given
    /// id, with the same cancellation rule as alias edits.
    pub fn edit_relation_snippet(&mut self, id: u32, replacement: &str, now: u64) -> (r:
        EditOutcome)
        requires
            old(self).wf(),
        ensures
            final(self).wf(),
            replacement@.len() == 0 ==> r == EditOutcome::Cancelled && final(self)@ == old(self)@,
            replacement@.len() > 0 && !old(self)@.has_relation_snippet(id) ==> r
                == EditOutcome::NotFound && final(self)@ == old(self)@,
            replacement@.len() > 0 && old(self)@.has_relation_snippet(id) ==> r
                == EditOutcome::Updated && final(self)@ == old(self)@.edit_relation_snippet(
                id,
                replacement@,
                now,
            ),
    {
        if replacement.unicode_len() == 0 {
            return EditOutcome::Cancelled;
        }
        let ghost m = self@.relation_snippets;
        let ghost f = relation_snippet_with_text(id, replacement@, now);
        let n = self.relation_snippets.len();
        let mut out: Vec<RelationSnippetRow> = Vec::new();
        let mut found = false;
        let mut k: usize = 0;
        while k < n
            invariant
                n == self.relation_snippets.len(),
                k <= n,
                *self == *old(self),
                m == self@.relation_snippets,
                f == relation_snippet_with_text(id, replacement@, now),
                out@.map_values(|s: RelationSnippetRow| s@) =~= m.subrange(0, k as int).map_values(
                    f,
                ),
                found == exists|i: int| 0 <= i < k && (#[trigger] m[i]).id == id,
            decreases n - k,
        {
            proof {
                assert(m[k as int] == self.relation_snippets@[k as int]@);
            }
            if self.relation_snippets[k].id == id {
                let row = RelationSnippetRow {
                    id: self.relation_snippets[k].id,
                    relation_id: self.relation_snippets[k].relation_id,
                    data: replacement.to_owned(),
                    created: self.relation_snippets[k].created,
                    updated: now,
                };
                proof {
                    assert(row@ =~= f(m[k as int]));
                    assert((#[trigger] m[k as int]).id == id);
                }
                out.push(row);
                found = true;
            } else {
                let row = crate::store::clone_relation_snippet(&self.relation_snippets[k]);
                proof {
                    assert(row@ =~= f(m[k as int]));
                }
                out.push(row);
            }
            proof {
                assert(m.subrange(0, k as int + 1) =~= m.subrange(0, k as int).push(m[k as int]));
                assert(m.subrange(0, k as int + 1).map_values(f) =~= m.subrange(
                    0,
                    k as int,
                ).map_values(f).push(f(m[k as int])));
                assert(out@.map_values(|s: RelationSnippetRow| s@) =~= out@.drop_last().map_values(
                    |s: RelationSnippetRow| s@,
                ).push(out@.last()@));
            }
            k += 1;
        }
        if !found {
            proof {
                if old(self)@.has_relation_snippet(id) {
                    let i = choose|i: int|
                        0 <= i < m.len() && (#[trigger] m[i]).id == id;
                    assert(false);
                }
            }
            return EditOutcome::NotFound;
        }
        self.relation_snippets = out;
        proof {
            assert(m.subrange(0, n as int) =~= m);
            let mapped = m.map_values(f);
            assert(self@.relation_snippets =~= mapped);
            assert(self@ =~~= old(self)@.edit_relation_snippet(id, replacement@, now));
            assert forall|i: int| 0 <= i < m.len() implies (#[trigger] mapped[i]).id
                == m[i].id by {
                assert(mapped[i] == f(m[i]));
            }
            lemma_table_map_same_ids(
                m,
                mapped,
                |r: RelationSnippetModel| r.id,
                old(self)@.next_relation_snippet_id,
            );
        }
        EditOutcome::Updated
    }
}

} // verus!
