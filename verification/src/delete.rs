//! Deletion paths.
//!
//! A plain delete removes exactly one row by id and reports "not found"
//! as a normal outcome; it never cleans dependents, so it can leave
//! orphaned rows behind, which is accepted behaviour.  The cascading
//! ("force") paths clean dependents first, in a fixed order, and report
//! the affected row count of every step.

use vstd::prelude::*;

use crate::facts::{lemma_filter_identity, lemma_filter_push, lemma_table_filter};
use crate::store::{
    clone_alias, clone_relation_snippet, clone_snippet, AliasModel, AliasRow, EntityRow,
    RelationRow, RelationSnippetModel, RelationSnippetRow, SnippetModel, SnippetRow, Store,
    StoreModel,
};

verus! {

/// Whether the relation has the entity as either endpoint.
pub open spec fn touches(r: RelationRow, entity_id: u32) -> bool {
    r.entity_id_a == entity_id || r.entity_id_b == entity_id
}

/// Whether some relation in `rels` has id `relation_id` and touches
/// `entity_id`.
pub open spec fn some_relation_touches(
    rels: Seq<RelationRow>,
    relation_id: u32,
    entity_id: u32,
) -> bool {
    exists|i: int|
        0 <= i < rels.len() && (#[trigger] rels[i]).id == relation_id && touches(
            rels[i],
            entity_id,
        )
}

// The row predicates that the deletion paths keep rows by.  Each is a
// named value so that every statement about one of them speaks of the
// same function.

pub open spec fn entity_keeps(id: u32) -> spec_fn(EntityRow) -> bool {
    |e: EntityRow| e.id != id
}

pub open spec fn alias_keeps(id: u32) -> spec_fn(AliasModel) -> bool {
    |a: AliasModel| a.id != id
}

pub open spec fn snippet_keeps(id: u32) -> spec_fn(SnippetModel) -> bool {
    |s: SnippetModel| s.id != id
}

pub open spec fn relation_keeps(id: u32) -> spec_fn(RelationRow) -> bool {
    |r: RelationRow| r.id != id
}

pub open spec fn relation_snippet_keeps(id: u32) -> spec_fn(RelationSnippetModel) -> bool {
    |r: RelationSnippetModel| r.id != id
}

pub open spec fn alias_keeps_entity(entity_id: u32) -> spec_fn(AliasModel) -> bool {
    |a: AliasModel| a.entity_id != entity_id
}

pub open spec fn snippet_keeps_entity(entity_id: u32) -> spec_fn(SnippetModel) -> bool {
    |s: SnippetModel| s.entity_id != entity_id
}

pub open spec fn relation_keeps_entity(entity_id: u32) -> spec_fn(RelationRow) -> bool {
    |r: RelationRow| !touches(r, entity_id)
}

pub open spec fn relation_snippet_keeps_relation(relation_id: u32) -> spec_fn(
    RelationSnippetModel,
) -> bool {
    |r: RelationSnippetModel| r.relation_id != relation_id
}

pub open spec fn relation_snippet_keeps_entity(rels: Seq<RelationRow>, entity_id: u32) -> spec_fn(
    RelationSnippetModel,
) -> bool {
    |r: RelationSnippetModel| !some_relation_touches(rels, r.relation_id, entity_id)
}

impl StoreModel {
    /// The store after a plain delete of one entity row.
    pub open spec fn delete_entity(self, id: u32) -> StoreModel {
        StoreModel { entities: self.entities.filter(entity_keeps(id)), ..self }
    }

    /// The store after a plain delete of one alias row.
    pub open spec fn delete_alias(self, id: u32) -> StoreModel {
        StoreModel { aliases: self.aliases.filter(alias_keeps(id)), ..self }
    }

    /// The store after a plain delete of one snippet row.
    pub open spec fn delete_snippet(self, id: u32) -> StoreModel {
        StoreModel { snippets: self.snippets.filter(snippet_keeps(id)), ..self }
    }

    /// The store after a plain delete of one relation row; its relation
    /// snippets stay behind as orphans.
    pub open spec fn delete_relation(self, id: u32) -> StoreModel {
        StoreModel { relations: self.relations.filter(relation_keeps(id)), ..self }
    }

    /// The store after a plain delete of one relation snippet row.
    pub open spec fn delete_relation_snippet(self, id: u32) -> StoreModel {
        StoreModel {
            relation_snippets: self.relation_snippets.filter(relation_snippet_keeps(id)),
            ..self
        }
    }

    /// The store after a cascading delete of a relation: first its
    /// relation snippets, then the relation itself.
    pub open spec fn force_delete_relation(self, id: u32) -> StoreModel {
        StoreModel {
            relation_snippets: self.relation_snippets.filter(relation_snippet_keeps_relation(id)),
            relations: self.relations.filter(relation_keeps(id)),
            ..self
        }
    }

    /// The store after a cascading delete of an entity: relation snippets
    /// of relations touching it, those relations, its snippets, its
    /// aliases, and finally the entity row itself.
    pub open spec fn force_delete_entity(self, id: u32) -> StoreModel {
        StoreModel {
            relation_snippets: self.relation_snippets.filter(
                relation_snippet_keeps_entity(self.relations, id),
            ),
            relations: self.relations.filter(relation_keeps_entity(id)),
            snippets: self.snippets.filter(snippet_keeps_entity(id)),
            aliases: self.aliases.filter(alias_keeps_entity(id)),
            entities: self.entities.filter(entity_keeps(id)),
            ..self
        }
    }
}

/// Whether a single-row delete found its row.
#[derive(Debug, Clone, Copy, PartialEq, Eq, Structural)]
pub enum DeleteOutcome {
    Deleted,
    NotFound,
}

/// The per-step affected-row counts of a cascading entity delete.
#[derive(Debug, Clone, Copy, PartialEq, Eq, Structural)]
pub struct ForceDeleteEntityReport {
    pub relation_snippets_deleted: usize,
    pub relations_deleted: usize,
    pub snippets_deleted: usize,
    pub aliases_deleted: usize,
    pub entity: DeleteOutcome,
}

/// The per-step affected-row counts of a cascading relation delete.
#[derive(Debug, Clone, Copy, PartialEq, Eq, Structural)]
pub struct ForceDeleteRelationReport {
    pub relation_snippets_deleted: usize,
    pub relation: DeleteOutcome,
}

fn retain_entities(v: &mut Vec<EntityRow>, id: u32)
    ensures
        final(v)@ == old(v)@.filter(entity_keeps(id)),
{
    let n = v.len();
    let mut kept: Vec<EntityRow> = Vec::new();
    let mut k: usize = 0;
    while k < n
        invariant
            n == v.len(),
            k <= n,
            v@ == old(v)@,
            kept@ == v@.subrange(0, k as int).filter(entity_keeps(id)),
        decreases n - k,
    {
        proof {
            assert(v@.subrange(0, k as int + 1) =~= v@.subrange(0, k as int).push(v@[k as int]));
            lemma_filter_push(v@.subrange(0, k as int), v@[k as int], entity_keeps(id));
        }
        if v[k].id != id {
            kept.push(v[k]);
        }
        k += 1;
    }
    proof {
        assert(v@.subrange(0, n as int) =~= v@);
    }
    *v = kept;
}

fn retain_relations(v: &mut Vec<RelationRow>, pred_id: u32, by_touch: bool)
    ensures
        by_touch ==> final(v)@ == old(v)@.filter(relation_keeps_entity(pred_id)),
        !by_touch ==> final(v)@ == old(v)@.filter(relation_keeps(pred_id)),
{
    let n = v.len();
    let mut kept: Vec<RelationRow> = Vec::new();
    let mut k: usize = 0;
    while k < n
        invariant
            n == v.len(),
            k <= n,
            v@ == old(v)@,
            by_touch ==> kept@ == v@.subrange(0, k as int).filter(relation_keeps_entity(pred_id)),
            !by_touch ==> kept@ == v@.subrange(0, k as int).filter(relation_keeps(pred_id)),
        decreases n - k,
    {
        proof {
            assert(v@.subrange(0, k as int + 1) =~= v@.subrange(0, k as int).push(v@[k as int]));
            lemma_filter_push(v@.subrange(0, k as int), v@[k as int], relation_keeps_entity(pred_id));
            lemma_filter_push(v@.subrange(0, k as int), v@[k as int], relation_keeps(pred_id));
        }
        let keep = if by_touch {
            !(v[k].entity_id_a == pred_id || v[k].entity_id_b == pred_id)
        } else {
            v[k].id != pred_id
        };
        if keep {
            kept.push(v[k]);
        }
        k += 1;
    }
    proof {
        assert(v@.subrange(0, n as int) =~= v@);
    }
    *v = kept;
}




fn retain_aliases(v: &mut Vec<AliasRow>, pred_id: u32, by_entity: bool)
    ensures
        by_entity ==> final(v)@.map_values(|a: AliasRow| a@) == old(v)@.map_values(
            |a: AliasRow| a@,
        ).filter(alias_keeps_entity(pred_id)),
        !by_entity ==> final(v)@.map_values(|a: AliasRow| a@) == old(v)@.map_values(
            |a: AliasRow| a@,
        ).filter(alias_keeps(pred_id)),
{
    let ghost m = v@.map_values(|a: AliasRow| a@);
    let n = v.len();
    let mut kept: Vec<AliasRow> = Vec::new();
    let mut k: usize = 0;
    while k < n
        invariant
            n == v.len(),
            k <= n,
            v@ == old(v)@,
            m == v@.map_values(|a: AliasRow| a@),
            by_entity ==> kept@.map_values(|a: AliasRow| a@) == m.subrange(0, k as int).filter(
                alias_keeps_entity(pred_id),
            ),
            !by_entity ==> kept@.map_values(|a: AliasRow| a@) == m.subrange(0, k as int).filter(
                alias_keeps(pred_id),
            ),
        decreases n - k,
    {
        proof {
            assert(m.subrange(0, k as int + 1) =~= m.subrange(0, k as int).push(m[k as int]));
            lemma_filter_push(m.subrange(0, k as int), m[k as int], alias_keeps_entity(pred_id));
            lemma_filter_push(m.subrange(0, k as int), m[k as int], alias_keeps(pred_id));
        }
        let keep = if by_entity {
            v[k].entity_id != pred_id
        } else {
            v[k].id != pred_id
        };
        if keep {
            let row = clone_alias(&v[k]);
            kept.push(row);
            proof {
                assert(kept@.map_values(|a: AliasRow| a@) =~= kept@.map_values(
                    |a: AliasRow| a@,
                ).subrange(0, kept@.len() - 1).push(row@));
                assert(kept@.map_values(|a: AliasRow| a@).subrange(0, kept@.len() - 1)
                    =~= kept@.subrange(0, kept@.len() - 1).map_values(|a: AliasRow| a@));
                assert(kept@.subrange(0, kept@.len() - 1) =~= kept@.drop_last());
            }
        }
        k += 1;
        proof {
            assert(m[k - 1 as int] == v@[k - 1 as int]@);
        }
    }
    proof {
        assert(m.subrange(0, n as int) =~= m);
    }
    *v = kept;
}

fn retain_snippets(v: &mut Vec<SnippetRow>, entity_id: u32, by_entity: bool)
    ensures
        by_entity ==> final(v)@.map_values(|s: SnippetRow| s@) == old(v)@.map_values(
            |s: SnippetRow| s@,
        ).filter(snippet_keeps_entity(entity_id)),
        !by_entity ==> final(v)@.map_values(|s: SnippetRow| s@) == old(v)@.map_values(
            |s: SnippetRow| s@,
        ).filter(snippet_keeps(entity_id)),
{
    let ghost m = v@.map_values(|s: SnippetRow| s@);
    let n = v.len();
    let mut kept: Vec<SnippetRow> = Vec::new();
    let mut k: usize = 0;
    while k < n
        invariant
            n == v.len(),
            k <= n,
            v@ == old(v)@,
            m == v@.map_values(|s: SnippetRow| s@),
            by_entity ==> kept@.map_values(|s: SnippetRow| s@) == m.subrange(0, k as int).filter(
                snippet_keeps_entity(entity_id),
            ),
            !by_entity ==> kept@.map_values(|s: SnippetRow| s@) == m.subrange(0, k as int).filter(
                snippet_keeps(entity_id),
            ),
        decreases n - k,
    {
        proof {
            assert(m.subrange(0, k as int + 1) =~= m.subrange(0, k as int).push(m[k as int]));
            lemma_filter_push(m.subrange(0, k as int), m[k as int], snippet_keeps_entity(entity_id));
            lemma_filter_push(m.subrange(0, k as int), m[k as int], snippet_keeps(entity_id));
        }
        let keep = if by_entity {
            v[k].entity_id != entity_id
        } else {
            v[k].id != entity_id
        };
        if keep {
            let row = clone_snippet(&v[k]);
            kept.push(row);
            proof {
                assert(kept@.map_values(|s: SnippetRow| s@) =~= kept@.map_values(
                    |s: SnippetRow| s@,
                ).subrange(0, kept@.len() - 1).push(row@));
                assert(kept@.map_values(|s: SnippetRow| s@).subrange(0, kept@.len() - 1)
                    =~= kept@.subrange(0, kept@.len() - 1).map_values(|s: SnippetRow| s@));
                assert(kept@.subrange(0, kept@.len() - 1) =~= kept@.drop_last());
            }
        }
        k += 1;
        proof {
            assert(m[k - 1 as int] == v@[k - 1 as int]@);
        }
    }
    proof {
        assert(m.subrange(0, n as int) =~= m);
    }
    *v = kept;
}

/// Whether some relation in `rels` has the given id and touches the
/// entity; the executable side of `some_relation_touches`.
pub(crate) fn relation_with_id_touches(rels: &Vec<RelationRow>, relation_id: u32, entity_id: u32) -> (b: bool)
    ensures
        b == some_relation_touches(rels@, relation_id, entity_id),
{
    let n = rels.len();
    let mut k: usize = 0;
    while k < n
        invariant
            n == rels.len(),
            k <= n,
            forall|i: int|
                0 <= i < k ==> !((#[trigger] rels@[i]).id == relation_id && touches(
                    rels@[i],
                    entity_id,
                )),
        decreases n - k,
    {
        if rels[k].id == relation_id && (rels[k].entity_id_a == entity_id || rels[k].entity_id_b
            == entity_id) {
            assert(rels@[k as int].id == relation_id && touches(rels@[k as int], entity_id));
            return true;
        }
        k += 1;
    }
    false
}

/// The selection mode for dropping relation snippet rows.
enum RelationSnippetDrop<'a> {
    ById(u32),
    ByRelation(u32),
    ByEntity(&'a Vec<RelationRow>, u32),
}

fn retain_relation_snippets(v: &mut Vec<RelationSnippetRow>, mode: RelationSnippetDrop<'_>)
    ensures
        match mode {
            RelationSnippetDrop::ById(id) => final(v)@.map_values(|r: RelationSnippetRow| r@)
                == old(v)@.map_values(|r: RelationSnippetRow| r@).filter(
                relation_snippet_keeps(id),
            ),
            RelationSnippetDrop::ByRelation(id) => final(v)@.map_values(
                |r: RelationSnippetRow| r@,
            ) == old(v)@.map_values(|r: RelationSnippetRow| r@).filter(
                relation_snippet_keeps_relation(id),
            ),
            RelationSnippetDrop::ByEntity(rels, id) => final(v)@.map_values(
                |r: RelationSnippetRow| r@,
            ) == old(v)@.map_values(|r: RelationSnippetRow| r@).filter(
                relation_snippet_keeps_entity(rels@, id),
            ),
        },
{
    let ghost m = v@.map_values(|r: RelationSnippetRow| r@);
    let n = v.len();
    let mut kept: Vec<RelationSnippetRow> = Vec::new();
    let mut k: usize = 0;
    while k < n
        invariant
            n == v.len(),
            k <= n,
            v@ == old(v)@,
            m == v@.map_values(|r: RelationSnippetRow| r@),
            match mode {
                RelationSnippetDrop::ById(id) => kept@.map_values(|r: RelationSnippetRow| r@)
                    == m.subrange(0, k as int).filter(relation_snippet_keeps(id)),
                RelationSnippetDrop::ByRelation(id) => kept@.map_values(
                    |r: RelationSnippetRow| r@,
                ) == m.subrange(0, k as int).filter(relation_snippet_keeps_relation(id)),
                RelationSnippetDrop::ByEntity(rels, id) => kept@.map_values(
                    |r: RelationSnippetRow| r@,
                ) == m.subrange(0, k as int).filter(relation_snippet_keeps_entity(rels@, id)),
            },
        decreases n - k,
    {
        let keep = match &mode {
            RelationSnippetDrop::ById(id) => v[k].id != *id,
            RelationSnippetDrop::ByRelation(id) => v[k].relation_id != *id,
            RelationSnippetDrop::ByEntity(rels, id) => !relation_with_id_touches(
                rels,
                v[k].relation_id,
                *id,
            ),
        };
        proof {
            assert(m.subrange(0, k as int + 1) =~= m.subrange(0, k as int).push(m[k as int]));
            match mode {
                RelationSnippetDrop::ById(id) => lemma_filter_push(
                    m.subrange(0, k as int),
                    m[k as int],
                    relation_snippet_keeps(id),
                ),
                RelationSnippetDrop::ByRelation(id) => lemma_filter_push(
                    m.subrange(0, k as int),
                    m[k as int],
                    relation_snippet_keeps_relation(id),
                ),
                RelationSnippetDrop::ByEntity(rels, id) => lemma_filter_push(
                    m.subrange(0, k as int),
                    m[k as int],
                    relation_snippet_keeps_entity(rels@, id),
                ),
            }
        }
        if keep {
            let row = clone_relation_snippet(&v[k]);
            kept.push(row);
            proof {
                assert(kept@.map_values(|r: RelationSnippetRow| r@) =~= kept@.map_values(
                    |r: RelationSnippetRow| r@,
                ).subrange(0, kept@.len() - 1).push(row@));
                assert(kept@.map_values(|r: RelationSnippetRow| r@).subrange(0, kept@.len() - 1)
                    =~= kept@.subrange(0, kept@.len() - 1).map_values(|r: RelationSnippetRow| r@));
                assert(kept@.subrange(0, kept@.len() - 1) =~= kept@.drop_last());
            }
        }
        k += 1;
        proof {
            assert(m[k - 1 as int] == v@[k - 1 as int]@);
        }
    }
    proof {
        assert(m.subrange(0, n as int) =~= m);
    }
    *v = kept;
}

impl Store {
    /// Deletes one entity row by id.  Dependent aliases, snippets and
    /// relations are left untouched, even if this orphans them.
    pub fn delete_entity(&mut self, id: u32) -> (r: DeleteOutcome)
        requires
            old(self).wf(),
        ensures
            final(self).wf(),
            final(self)@ == old(self)@.delete_entity(id),
            !old(self)@.has_entity(id) ==> final(self)@ == old(self)@,
            r == if old(self)@.has_entity(id) {
                DeleteOutcome::Deleted
            } else {
                DeleteOutcome::NotFound
            },
    {
        let found = self.contains_entity(id);
        retain_entities(&mut self.entities, id);
        proof {
            assert(self@ =~~= old(self)@.delete_entity(id));
            if !old(self)@.has_entity(id) {
                assert forall|i: int| 0 <= i < old(self)@.entities.len() implies entity_keeps(id)(
                    #[trigger] old(self)@.entities[i],
                ) by {}
                lemma_filter_identity(old(self)@.entities, entity_keeps(id));
                assert(self@ =~~= old(self)@);
            }
            lemma_table_filter(
                old(self)@.entities,
                |e: EntityRow| e.id,
                old(self)@.next_entity_id,
                entity_keeps(id),
            );
        }
        if found {
            DeleteOutcome::Deleted
        } else {
            DeleteOutcome::NotFound
        }
    }

    /// Deletes one alias row by id.
    pub fn delete_alias(&mut self, id: u32) -> (r: DeleteOutcome)
        requires
            old(self).wf(),
        ensures
            final(self).wf(),
            final(self)@ == old(self)@.delete_alias(id),
            !old(self)@.has_alias(id) ==> final(self)@ == old(self)@,
            r == if old(self)@.has_alias(id) {
                DeleteOutcome::Deleted
            } else {
                DeleteOutcome::NotFound
            },
    {
        let found = contains_alias_row(&self.aliases, id);
        proof {
            let rows = old(self).aliases@;
            let ms = old(self)@.aliases;
            if alias_rows_have_id(rows, id) {
                let i = choose|i: int| 0 <= i < rows.len() && (#[trigger] rows[i]).id == id;
                assert(ms[i].id == id);
            }
            if old(self)@.has_alias(id) {
                let i = choose|i: int| 0 <= i < ms.len() && (#[trigger] ms[i]).id == id;
                assert(rows[i].id == id);
            }
        }
        retain_aliases(&mut self.aliases, id, false);
        proof {
            assert(self@ =~~= old(self)@.delete_alias(id));
            if !old(self)@.has_alias(id) {
                assert forall|i: int| 0 <= i < old(self)@.aliases.len() implies alias_keeps(id)(
                    #[trigger] old(self)@.aliases[i],
                ) by {}
                lemma_filter_identity(old(self)@.aliases, alias_keeps(id));
                assert(self@ =~~= old(self)@);
            }
            lemma_table_filter(
                old(self)@.aliases,
                |a: AliasModel| a.id,
                old(self)@.next_alias_id,
                alias_keeps(id),
            );
        }
        if found {
            DeleteOutcome::Deleted
        } else {
            DeleteOutcome::NotFound
        }
    }

    /// Deletes one snippet row by id.
    pub fn delete_snippet(&mut self, id: u32) -> (r: DeleteOutcome)
        requires
            old(self).wf(),
        ensures
            final(self).wf(),
            final(self)@ == old(self)@.delete_snippet(id),
            !old(self)@.has_snippet(id) ==> final(self)@ == old(self)@,
            r == if old(self)@.has_snippet(id) {
                DeleteOutcome::Deleted
            } else {
                DeleteOutcome::NotFound
            },
    {
        let found = contains_snippet_row(&self.snippets, id);
        proof {
            let rows = old(self).snippets@;
            let ms = old(self)@.snippets;
            if snippet_rows_have_id(rows, id) {
                let i = choose|i: int| 0 <= i < rows.len() && (#[trigger] rows[i]).id == id;
                assert(ms[i].id == id);
            }
            if old(self)@.has_snippet(id) {
                let i = choose|i: int| 0 <= i < ms.len() && (#[trigger] ms[i]).id == id;
                assert(rows[i].id == id);
            }
        }
        retain_snippets(&mut self.snippets, id, false);
        proof {
            assert(self@ =~~= old(self)@.delete_snippet(id));
            if !old(self)@.has_snippet(id) {
                assert forall|i: int| 0 <= i < old(self)@.snippets.len() implies snippet_keeps(id)(
                    #[trigger] old(self)@.snippets[i],
                ) by {}
                lemma_filter_identity(old(self)@.snippets, snippet_keeps(id));
                assert(self@ =~~= old(self)@);
            }
            lemma_table_filter(
                old(self)@.snippets,
                |s: SnippetModel| s.id,
                old(self)@.next_snippet_id,
                snippet_keeps(id),
            );
        }
        if found {
            DeleteOutcome::Deleted
        } else {
            DeleteOutcome::NotFound
        }
    }

    /// Deletes one relation row by id.  Its relation snippets are left in
    /// the store as orphans; only the cascading path removes them.
    pub fn delete_relation(&mut self, id: u32) -> (r: DeleteOutcome)
        requires
            old(self).wf(),
        ensures
            final(self).wf(),
            final(self)@ == old(self)@.delete_relation(id),
            !old(self)@.has_relation(id) ==> final(self)@ == old(self)@,
            r == if old(self)@.has_relation(id) {
                DeleteOutcome::Deleted
            } else {
                DeleteOutcome::NotFound
            },
    {
        let found = self.contains_relation(id);
        retain_relations(&mut self.relations, id, false);
        proof {
            assert(self@ =~~= old(self)@.delete_relation(id));
            if !old(self)@.has_relation(id) {
                assert forall|i: int| 0 <= i < old(self)@.relations.len() implies relation_keeps(id)(
                    #[trigger] old(self)@.relations[i],
                ) by {}
                lemma_filter_identity(old(self)@.relations, relation_keeps(id));
                assert(self@ =~~= old(self)@);
            }
            lemma_table_filter(
                old(self)@.relations,
                |r: RelationRow| r.id,
                old(self)@.next_relation_id,
                relation_keeps(id),
            );
        }
        if found {
            DeleteOutcome::Deleted
        } else {
            DeleteOutcome::NotFound
        }
    }

    /// Deletes one relation snippet row by id.
    pub fn delete_relation_snippet(&mut self, id: u32) -> (r: DeleteOutcome)
        requires
            old(self).wf(),
        ensures
            final(self).wf(),
            final(self)@ == old(self)@.delete_relation_snippet(id),
            !old(self)@.has_relation_snippet(id) ==> final(self)@ == old(self)@,
            r == if old(self)@.has_relation_snippet(id) {
                DeleteOutcome::Deleted
            } else {
                DeleteOutcome::NotFound
            },
    {
        let found = contains_relation_snippet_row(&self.relation_snippets, id);
        proof {
            let rows = old(self).relation_snippets@;
            let ms = old(self)@.relation_snippets;
            if relation_snippet_rows_have_id(rows, id) {
                let i = choose|i: int| 0 <= i < rows.len() && (#[trigger] rows[i]).id == id;
                assert(ms[i].id == id);
            }
            if old(self)@.has_relation_snippet(id) {
                let i = choose|i: int| 0 <= i < ms.len() && (#[trigger] ms[i]).id == id;
                assert(rows[i].id == id);
            }
        }
        retain_relation_snippets(&mut self.relation_snippets, RelationSnippetDrop::ById(id));
        proof {
            assert(self@ =~~= old(self)@.delete_relation_snippet(id));
            if !old(self)@.has_relation_snippet(id) {
                assert forall|i: int| 0 <= i < old(self)@.relation_snippets.len() implies relation_snippet_keeps(id)(
                    #[trigger] old(self)@.relation_snippets[i],
                ) by {}
                lemma_filter_identity(old(self)@.relation_snippets, relation_snippet_keeps(id));
                assert(self@ =~~= old(self)@);
            }
            lemma_table_filter(
                old(self)@.relation_snippets,
                |r: RelationSnippetModel| r.id,
                old(self)@.next_relation_snippet_id,
                relation_snippet_keeps(id),
            );
        }
        if found {
            DeleteOutcome::Deleted
        } else {
            DeleteOutcome::NotFound
        }
    }

    /// Cascading delete of an entity: removes, in order, the relation
    /// snippets of every relation touching it, those relations, its own
    /// snippets, its aliases, and finally the entity row, reporting the
    /// affected row count of each step.
    pub fn force_delete_entity(&mut self, id: u32) -> (r: ForceDeleteEntityReport)
        requires
            old(self).wf(),
        ensures
            final(self).wf(),
            final(self)@ == old(self)@.force_delete_entity(id),
            r.relation_snippets_deleted == old(self)@.relation_snippets.len()
                - final(self)@.relation_snippets.len(),
            r.relations_deleted == old(self)@.relations.len() - final(self)@.relations.len(),
            r.snippets_deleted == old(self)@.snippets.len() - final(self)@.snippets.len(),
            r.aliases_deleted == old(self)@.aliases.len() - final(self)@.aliases.len(),
            r.entity == if old(self)@.has_entity(id) {
                DeleteOutcome::Deleted
            } else {
                DeleteOutcome::NotFound
            },
    {
        proof {
            old(self)@.relation_snippets.lemma_filter_len(
                relation_snippet_keeps_entity(old(self)@.relations, id),
            );
            old(self)@.relations.lemma_filter_len(relation_keeps_entity(id));
            old(self)@.snippets.lemma_filter_len(snippet_keeps_entity(id));
            old(self)@.aliases.lemma_filter_len(alias_keeps_entity(id));
        }
        let rs_before = self.relation_snippets.len();
        retain_relation_snippets(
            &mut self.relation_snippets,
            RelationSnippetDrop::ByEntity(&self.relations, id),
        );
        let relation_snippets_deleted = rs_before - self.relation_snippets.len();

        let rel_before = self.relations.len();
        retain_relations(&mut self.relations, id, true);
        let relations_deleted = rel_before - self.relations.len();

        let sn_before = self.snippets.len();
        retain_snippets(&mut self.snippets, id, true);
        let snippets_deleted = sn_before - self.snippets.len();

        let al_before = self.aliases.len();
        retain_aliases(&mut self.aliases, id, true);
        let aliases_deleted = al_before - self.aliases.len();

        proof {
            lemma_table_filter(
                old(self)@.relation_snippets,
                |r: RelationSnippetModel| r.id,
                old(self)@.next_relation_snippet_id,
                relation_snippet_keeps_entity(old(self)@.relations, id),
            );
            lemma_table_filter(
                old(self)@.relations,
                |r: RelationRow| r.id,
                old(self)@.next_relation_id,
                relation_keeps_entity(id),
            );
            lemma_table_filter(
                old(self)@.snippets,
                |s: SnippetModel| s.id,
                old(self)@.next_snippet_id,
                snippet_keeps_entity(id),
            );
            lemma_table_filter(
                old(self)@.aliases,
                |a: AliasModel| a.id,
                old(self)@.next_alias_id,
                alias_keeps_entity(id),
            );
            assert(self.wf());
        }
        let entity = self.delete_entity(id);
        proof {
            assert(self@ =~~= old(self)@.force_delete_entity(id));
        }
        ForceDeleteEntityReport {
            relation_snippets_deleted,
            relations_deleted,
            snippets_deleted,
            aliases_deleted,
            entity,
        }
    }

    /// Cascading delete of a relation: removes its relation snippets,
    /// then the relation row itself.
    pub fn force_delete_relation(&mut self, id: u32) -> (r: ForceDeleteRelationReport)
        requires
            old(self).wf(),
        ensures
            final(self).wf(),
            final(self)@ == old(self)@.force_delete_relation(id),
            r.relation_snippets_deleted == old(self)@.relation_snippets.len()
                - final(self)@.relation_snippets.len(),
            r.relation == if old(self)@.has_relation(id) {
                DeleteOutcome::Deleted
            } else {
                DeleteOutcome::NotFound
            },
    {
        proof {
            old(self)@.relation_snippets.lemma_filter_len(relation_snippet_keeps_relation(id));
        }
        let rs_before = self.relation_snippets.len();
        retain_relation_snippets(&mut self.relation_snippets, RelationSnippetDrop::ByRelation(id));
        let relation_snippets_deleted = rs_before - self.relation_snippets.len();
        proof {
            lemma_table_filter(
                old(self)@.relation_snippets,
                |r: RelationSnippetModel| r.id,
                old(self)@.next_relation_snippet_id,
                relation_snippet_keeps_relation(id),
            );
            assert(self.wf());
        }
        let relation = self.delete_relation(id);
        proof {
            assert(self@ =~~= old(self)@.force_delete_relation(id));
        }
        ForceDeleteRelationReport { relation_snippets_deleted, relation }
    }
}

pub open spec fn alias_rows_have_id(v: Seq<AliasRow>, id: u32) -> bool {
    exists|i: int| 0 <= i < v.len() && (#[trigger] v[i]).id == id
}

pub open spec fn snippet_rows_have_id(v: Seq<SnippetRow>, id: u32) -> bool {
    exists|i: int| 0 <= i < v.len() && (#[trigger] v[i]).id == id
}

pub open spec fn relation_snippet_rows_have_id(v: Seq<RelationSnippetRow>, id: u32) -> bool {
    exists|i: int| 0 <= i < v.len() && (#[trigger] v[i]).id == id
}

fn contains_alias_row(v: &Vec<AliasRow>, id: u32) -> (b: bool)
    ensures
        b == alias_rows_have_id(v@, id),
{
    let n = v.len();
    let mut k: usize = 0;
    while k < n
        invariant
            n == v.len(),
            k <= n,
            forall|i: int| 0 <= i < k ==> (#[trigger] v@[i]).id != id,
        decreases n - k,
    {
        if v[k].id == id {
            assert(v@[k as int].id == id);
            return true;
        }
        k += 1;
    }
    false
}

fn contains_snippet_row(v: &Vec<SnippetRow>, id: u32) -> (b: bool)
    ensures
        b == snippet_rows_have_id(v@, id),
{
    let n = v.len();
    let mut k: usize = 0;
    while k < n
        invariant
            n == v.len(),
            k <= n,
            forall|i: int| 0 <= i < k ==> (#[trigger] v@[i]).id != id,
        decreases n - k,
    {
        if v[k].id == id {
            assert(v@[k as int].id == id);
            return true;
        }
        k += 1;
    }
    false
}

fn contains_relation_snippet_row(v: &Vec<RelationSnippetRow>, id: u32) -> (b: bool)
    ensures
        b == relation_snippet_rows_have_id(v@, id),
{
    let n = v.len();
    let mut k: usize = 0;
    while k < n
        invariant
            n == v.len(),
            k <= n,
            forall|i: int| 0 <= i < k ==> (#[trigger] v@[i]).id != id,
        decreases n - k,
    {
        if v[k].id == id {
            assert(v@[k as int].id == id);
            return true;
        }
        k += 1;
    }
    false
}

/// Force-deleting an entity leaves nothing that references it: no alias
/// or snippet owned by it, no relation touching it, no relation snippet
/// of such a relation, and no entity row with its id.
pub proof fn lemma_force_delete_entity_cleans(m: StoreModel, id: u32)
    ensures
        !m.force_delete_entity(id).has_entity(id),
        forall|i: int|
            0 <= i < m.force_delete_entity(id).aliases.len() ==> (#[trigger] m.force_delete_entity(
                id,
            ).aliases[i]).entity_id != id,
        forall|i: int|
            0 <= i < m.force_delete_entity(id).snippets.len() ==> (
            #[trigger] m.force_delete_entity(id).snippets[i]).entity_id != id,
        forall|i: int|
            0 <= i < m.force_delete_entity(id).relations.len() ==> !touches(
                #[trigger] m.force_delete_entity(id).relations[i],
                id,
            ),
        forall|i: int|
            0 <= i < m.force_delete_entity(id).relation_snippets.len()
                ==> !some_relation_touches(
                m.relations,
                (#[trigger] m.force_delete_entity(id).relation_snippets[i]).relation_id,
                id,
            ),
{
    let m1 = m.force_delete_entity(id);
    assert forall|i: int| 0 <= i < m1.entities.len() implies (#[trigger] m1.entities[i]).id
        != id by {
        m.entities.lemma_filter_pred(entity_keeps(id), i);
    }
    assert forall|i: int| 0 <= i < m1.aliases.len() implies (#[trigger] m1.aliases[i]).entity_id
        != id by {
        m.aliases.lemma_filter_pred(alias_keeps_entity(id), i);
    }
    assert forall|i: int| 0 <= i < m1.snippets.len() implies (#[trigger] m1.snippets[i]).entity_id
        != id by {
        m.snippets.lemma_filter_pred(snippet_keeps_entity(id), i);
    }
    assert forall|i: int| 0 <= i < m1.relations.len() implies !touches(
        #[trigger] m1.relations[i],
        id,
    ) by {
        m.relations.lemma_filter_pred(relation_keeps_entity(id), i);
    }
    assert forall|i: int| 0 <= i < m1.relation_snippets.len() implies !some_relation_touches(
        m.relations,
        (#[trigger] m1.relation_snippets[i]).relation_id,
        id,
    ) by {
        m.relation_snippets.lemma_filter_pred(relation_snippet_keeps_entity(m.relations, id), i);
    }
}

/// Running the cascading entity delete twice changes nothing the second
/// time: every step of the second run finds no row to remove.
pub proof fn lemma_force_delete_entity_idempotent(m: StoreModel, id: u32)
    ensures
        m.force_delete_entity(id).force_delete_entity(id) == m.force_delete_entity(id),
{
    let m1 = m.force_delete_entity(id);
    lemma_force_delete_entity_cleans(m, id);
    assert forall|i: int| 0 <= i < m1.entities.len() implies entity_keeps(id)(
        #[trigger] m1.entities[i],
    ) by {
        m.entities.lemma_filter_pred(entity_keeps(id), i);
    }
    lemma_filter_identity(m1.entities, entity_keeps(id));
    assert forall|i: int| 0 <= i < m1.aliases.len() implies alias_keeps_entity(id)(
        #[trigger] m1.aliases[i],
    ) by {
        m.aliases.lemma_filter_pred(alias_keeps_entity(id), i);
    }
    lemma_filter_identity(m1.aliases, alias_keeps_entity(id));
    assert forall|i: int| 0 <= i < m1.snippets.len() implies snippet_keeps_entity(id)(
        #[trigger] m1.snippets[i],
    ) by {
        m.snippets.lemma_filter_pred(snippet_keeps_entity(id), i);
    }
    lemma_filter_identity(m1.snippets, snippet_keeps_entity(id));
    assert forall|i: int| 0 <= i < m1.relations.len() implies relation_keeps_entity(id)(
        #[trigger] m1.relations[i],
    ) by {
        m.relations.lemma_filter_pred(relation_keeps_entity(id), i);
    }
    lemma_filter_identity(m1.relations, relation_keeps_entity(id));
    assert forall|i: int| 0 <= i < m1.relation_snippets.len() implies relation_snippet_keeps_entity(
        m1.relations,
        id,
    )(#[trigger] m1.relation_snippets[i]) by {
        let rs = m1.relation_snippets[i];
        if some_relation_touches(m1.relations, rs.relation_id, id) {
            let k = choose|k: int|
                0 <= k < m1.relations.len() && (#[trigger] m1.relations[k]).id == rs.relation_id
                    && touches(m1.relations[k], id);
            m.relations.lemma_filter_pred(relation_keeps_entity(id), k);
        }
    }
    lemma_filter_identity(m1.relation_snippets, relation_snippet_keeps_entity(m1.relations, id));
    assert(m1.force_delete_entity(id) =~~= m1);
}

/// Running the cascading relation delete twice changes nothing the
/// second time.
pub proof fn lemma_force_delete_relation_idempotent(m: StoreModel, id: u32)
    ensures
        m.force_delete_relation(id).force_delete_relation(id) == m.force_delete_relation(id),
        !m.force_delete_relation(id).has_relation(id),
{
    let m1 = m.force_delete_relation(id);
    assert forall|i: int| 0 <= i < m1.relations.len() implies relation_keeps(id)(
        #[trigger] m1.relations[i],
    ) by {
        m.relations.lemma_filter_pred(relation_keeps(id), i);
    }
    lemma_filter_identity(m1.relations, relation_keeps(id));
    assert forall|i: int| 0 <= i < m1.relation_snippets.len()
        implies relation_snippet_keeps_relation(id)(#[trigger] m1.relation_snippets[i]) by {
        m.relation_snippets.lemma_filter_pred(relation_snippet_keeps_relation(id), i);
    }
    lemma_filter_identity(m1.relation_snippets, relation_snippet_keeps_relation(id));
    assert(m1.force_delete_relation(id) =~~= m1);
    assert forall|i: int| 0 <= i < m1.relations.len() implies (#[trigger] m1.relations[i]).id
        != id by {
        m.relations.lemma_filter_pred(relation_keeps(id), i);
    }
}

} // verus!
