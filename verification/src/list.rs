//! The listing side of the query layer: the three verbosity tiers of an
//! entity, per-owner listings of aliases, snippets and relation
//! snippets, single-relation lookups, and the table-count summary.

use vstd::prelude::*;

use crate::delete::some_relation_touches;
use crate::facts::{lemma_filter_push, lemma_table_len_bound};
use crate::find::{relation_long_of, relation_touching, sort_by_name};
use crate::item::{
    alias_list_of, alias_list_string, alias_of_entity, Alias, AliasViewModel, Entity, EntityLong,
    EntityLongModel, EntityLongLong, EntityLongLongModel, DetailKind, Relation, RelationLong,
    RelationLongModel, RelationSnippet, SnippetViewModel, Snippet, Stats,
};
use crate::store::{
    clone_alias, AliasModel, AliasRow, EntityRow, RelationRow, RelationSnippetModel, SnippetModel,
    Store, StoreModel,
};
use crate::text::dec_digits;

verus! {

/// Keeps the entity row with the given id.
pub open spec fn entity_with_id(id: u32) -> spec_fn(EntityRow) -> bool {
    |e: EntityRow| e.id == id
}

/// Keeps the relation row with the given id.
pub open spec fn relation_with_id(id: u32) -> spec_fn(RelationRow) -> bool {
    |r: RelationRow| r.id == id
}

/// Keeps the snippet rows owned by the given entity.
pub open spec fn snippet_of_entity(entity_id: u32) -> spec_fn(SnippetModel) -> bool {
    |s: SnippetModel| s.entity_id == entity_id
}

/// Keeps the relation snippet rows owned by the given relation.
pub open spec fn relation_snippet_of_relation(relation_id: u32) -> spec_fn(
    RelationSnippetModel,
) -> bool {
    |r: RelationSnippetModel| r.relation_id == relation_id
}

/// Keeps the relation snippet rows whose relation touches the given
/// entity.
pub open spec fn relation_snippet_touching(rels: Seq<RelationRow>, entity_id: u32) -> spec_fn(
    RelationSnippetModel,
) -> bool {
    |r: RelationSnippetModel| some_relation_touches(rels, r.relation_id, entity_id)
}

/// The tier-one summary row of an entity: up to four alias names and
/// the exact alias and snippet counts.
pub open spec fn entity_long_of(aliases: Seq<AliasModel>, snippets: Seq<SnippetModel>) -> spec_fn(
    EntityRow,
) -> EntityLongModel {
    |e: EntityRow|
        EntityLongModel {
            id: e.id,
            alias_list: alias_list_of(aliases, e.id),
            alias_count: aliases.filter(alias_of_entity(e.id)).len() as u32,
            snippet_count: snippets.filter(snippet_of_entity(e.id)).len() as u32,
            created: e.created,
        }
}

impl StoreModel {
    /// Tier zero: the entity row itself, or nothing.
    pub open spec fn entity_plain(self, id: u32) -> Seq<Entity> {
        self.entities.filter(entity_with_id(id)).map_values(
            |e: EntityRow| Entity { id: e.id, created: e.created },
        )
    }

    /// Tier one for a single entity.
    pub open spec fn entity_long(self, id: u32) -> Seq<EntityLongModel> {
        self.entities.filter(entity_with_id(id)).map_values(
            entity_long_of(self.aliases, self.snippets),
        )
    }

    /// Tier one for every entity, in id order.
    pub open spec fn entities_long(self) -> Seq<EntityLongModel> {
        self.entities.map_values(entity_long_of(self.aliases, self.snippets))
    }

    /// The aliases of one entity, ordered by name.
    pub open spec fn list_alias(self, entity_id: u32) -> Seq<AliasViewModel> {
        sort_by_name(self.aliases.filter(alias_of_entity(entity_id))).map_values(
            |a: AliasModel| AliasViewModel { id: a.id, name: a.name, updated: a.updated },
        )
    }

    /// The snippets of one entity, in insertion order.
    pub open spec fn list_snippet(self, entity_id: u32) -> Seq<SnippetViewModel> {
        self.snippets.filter(snippet_of_entity(entity_id)).map_values(
            |s: SnippetModel| SnippetViewModel { id: s.id, data: s.data, updated: s.updated },
        )
    }

    /// The relation with the given id, or nothing.
    pub open spec fn list_relation(self, id: u32) -> Seq<Relation> {
        self.relations.filter(relation_with_id(id)).map_values(
            |r: RelationRow|
                Relation {
                    id: r.id,
                    entity_id_a: r.entity_id_a,
                    entity_id_b: r.entity_id_b,
                    updated: r.updated,
                },
        )
    }

    /// The relation with the given id, endpoints' alias lists resolved.
    pub open spec fn list_relation_verbose(self, id: u32) -> Seq<RelationLongModel> {
        self.relations.filter(relation_with_id(id)).map_values(relation_long_of(self.aliases))
    }

    /// The relation snippets of one relation, in insertion order.
    pub open spec fn list_relation_snippet(self, relation_id: u32) -> Seq<SnippetViewModel> {
        self.relation_snippets.filter(relation_snippet_of_relation(relation_id)).map_values(
            |r: RelationSnippetModel|
                SnippetViewModel { id: r.id, data: r.data, updated: r.updated },
        )
    }
}

impl Store {
    /// Tier zero for one entity: its id and creation time, or an empty
    /// listing when the id names no entity.
    pub fn list_entity_plain(&self, id: u32) -> (r: Vec<Entity>)
        ensures
            r@ == self@.entity_plain(id),
    {
        let ghost m = self@.entities;
        let n = self.entities.len();
        let mut out: Vec<Entity> = Vec::new();
        let mut k: usize = 0;
        while k < n
            invariant
                n == self.entities.len(),
                m == self@.entities,
                k <= n,
                out@ =~= m.subrange(0, k as int).filter(entity_with_id(id)).map_values(
                    |e: EntityRow| Entity { id: e.id, created: e.created },
                ),
            decreases n - k,
        {
            proof {
                assert(m.subrange(0, k as int + 1) =~= m.subrange(0, k as int).push(m[k as int]));
                lemma_filter_push(m.subrange(0, k as int), m[k as int], entity_with_id(id));
            }
            if self.entities[k].id == id {
                let e = self.entities[k];
                out.push(Entity { id: e.id, created: e.created });
                proof {
                    let pre = m.subrange(0, k as int).filter(entity_with_id(id));
                    assert(pre.push(m[k as int]).map_values(
                        |e: EntityRow| Entity { id: e.id, created: e.created },
                    ) =~= pre.map_values(|e: EntityRow| Entity { id: e.id, created: e.created }).push(
                        out@.last(),
                    ));
                }
            }
            k += 1;
        }
        proof {
            assert(m.subrange(0, n as int) =~= m);
        }
        out
    }

    pub(crate) fn entity_long_row(&self, e: EntityRow) -> (r: EntityLong)
        requires
            self.wf(),
        ensures
            r@ == entity_long_of(self@.aliases, self@.snippets)(e),
    {
        let alias_list = alias_list_string(&self.aliases, e.id);
        let alias_count = count_aliases_of(&self.aliases, e.id);
        let snippet_count = count_snippets_of(&self.snippets, e.id);
        proof {
            lemma_table_len_bound(self@.aliases, |a: AliasModel| a.id, self@.next_alias_id);
            self@.aliases.lemma_filter_len(alias_of_entity(e.id));
            lemma_table_len_bound(self@.snippets, |s: SnippetModel| s.id, self@.next_snippet_id);
            self@.snippets.lemma_filter_len(snippet_of_entity(e.id));
        }
        let row = EntityLong {
            id: e.id,
            alias_list,
            alias_count: alias_count as u32,
            snippet_count: snippet_count as u32,
            created: e.created,
        };
        proof {
            assert(row@ =~= entity_long_of(self@.aliases, self@.snippets)(e));
        }
        row
    }

    /// Tier one for one entity: the summary row with its alias list and
    /// the exact alias and snippet counts, or an empty listing.  The
    /// counts equal the number of alias and snippet rows owned by the
    /// entity.
    pub fn list_entity_long(&self, id: u32) -> (r: Vec<EntityLong>)
        requires
            self.wf(),
        ensures
            r@.map_values(|e: EntityLong| e@) == self@.entity_long(id),
            forall|i: int|
                0 <= i < r@.len() ==> (#[trigger] r@[i]).alias_count == self@.aliases.filter(
                    alias_of_entity(r@[i].id),
                ).len() && r@[i].snippet_count == self@.snippets.filter(
                    snippet_of_entity(r@[i].id),
                ).len(),
    {
        let ghost m = self@.entities;
        let ghost f = entity_long_of(self@.aliases, self@.snippets);
        let n = self.entities.len();
        let mut out: Vec<EntityLong> = Vec::new();
        let mut k: usize = 0;
        while k < n
            invariant
                self.wf(),
                n == self.entities.len(),
                m == self@.entities,
                f == entity_long_of(self@.aliases, self@.snippets),
                k <= n,
                out@.map_values(|e: EntityLong| e@) =~= m.subrange(0, k as int).filter(
                    entity_with_id(id),
                ).map_values(f),
            decreases n - k,
        {
            proof {
                assert(m.subrange(0, k as int + 1) =~= m.subrange(0, k as int).push(m[k as int]));
                lemma_filter_push(m.subrange(0, k as int), m[k as int], entity_with_id(id));
            }
            if self.entities[k].id == id {
                let row = self.entity_long_row(self.entities[k]);
                out.push(row);
                proof {
                    let pre = m.subrange(0, k as int).filter(entity_with_id(id));
                    assert(pre.push(m[k as int]).map_values(f) =~= pre.map_values(f).push(
                        f(m[k as int]),
                    ));
                    assert(out@.map_values(|e: EntityLong| e@) =~= out@.drop_last().map_values(
                        |e: EntityLong| e@,
                    ).push(out@.last()@));
                }
            }
            k += 1;
        }
        proof {
            assert(m.subrange(0, n as int) =~= m);
            lemma_table_len_bound(self@.aliases, |a: AliasModel| a.id, self@.next_alias_id);
            lemma_table_len_bound(self@.snippets, |s: SnippetModel| s.id, self@.next_snippet_id);
            assert forall|i: int| 0 <= i < out@.len() implies (#[trigger] out@[i]).alias_count
                == self@.aliases.filter(alias_of_entity(out@[i].id)).len() && out@[i].snippet_count
                == self@.snippets.filter(snippet_of_entity(out@[i].id)).len() by {
                let fm = m.filter(entity_with_id(id));
                assert(out@[i]@ == fm.map_values(f)[i]);
                assert(fm.map_values(f)[i] == f(fm[i]));
                self@.aliases.lemma_filter_len(alias_of_entity(fm[i].id));
                self@.snippets.lemma_filter_len(snippet_of_entity(fm[i].id));
            }
        }
        out
    }

    /// Tier one for every entity, in id order, with exact alias and
    /// snippet counts.
    pub fn list_verbose(&self) -> (r: Vec<EntityLong>)
        requires
            self.wf(),
        ensures
            r@.map_values(|e: EntityLong| e@) == self@.entities_long(),
            forall|i: int|
                0 <= i < r@.len() ==> (#[trigger] r@[i]).alias_count == self@.aliases.filter(
                    alias_of_entity(r@[i].id),
                ).len() && r@[i].snippet_count == self@.snippets.filter(
                    snippet_of_entity(r@[i].id),
                ).len(),
    {
        let ghost m = self@.entities;
        let ghost f = entity_long_of(self@.aliases, self@.snippets);
        let n = self.entities.len();
        let mut out: Vec<EntityLong> = Vec::new();
        let mut k: usize = 0;
        while k < n
            invariant
                self.wf(),
                n == self.entities.len(),
                m == self@.entities,
                f == entity_long_of(self@.aliases, self@.snippets),
                k <= n,
                out@.map_values(|e: EntityLong| e@) =~= m.subrange(0, k as int).map_values(f),
            decreases n - k,
        {
            let row = self.entity_long_row(self.entities[k]);
            out.push(row);
            proof {
                assert(m.subrange(0, k as int + 1) =~= m.subrange(0, k as int).push(m[k as int]));
                assert(m.subrange(0, k as int + 1).map_values(f) =~= m.subrange(
                    0,
                    k as int,
                ).map_values(f).push(f(m[k as int])));
                assert(out@.map_values(|e: EntityLong| e@) =~= out@.drop_last().map_values(
                    |e: EntityLong| e@,
                ).push(out@.last()@));
            }
            k += 1;
        }
        proof {
            assert(m.subrange(0, n as int) =~= m);
            lemma_table_len_bound(self@.aliases, |a: AliasModel| a.id, self@.next_alias_id);
            lemma_table_len_bound(self@.snippets, |s: SnippetModel| s.id, self@.next_snippet_id);
            assert forall|i: int| 0 <= i < out@.len() implies (#[trigger] out@[i]).alias_count
                == self@.aliases.filter(alias_of_entity(out@[i].id)).len() && out@[i].snippet_count
                == self@.snippets.filter(snippet_of_entity(out@[i].id)).len() by {
                assert(out@[i]@ == m.map_values(f)[i]);
                assert(m.map_values(f)[i] == f(m[i]));
                self@.aliases.lemma_filter_len(alias_of_entity(m[i].id));
                self@.snippets.lemma_filter_len(snippet_of_entity(m[i].id));
            }
        }
        out
    }

    /// The aliases of one entity, ordered by name.
    pub fn list_alias(&self, entity_id: u32) -> (r: Vec<Alias>)
        ensures
            r@.map_values(|a: Alias| a@) == self@.list_alias(entity_id),
    {
        let matched = collect_aliases_of(&self.aliases, entity_id);
        let sorted = crate::find::sort_aliases(matched);
        let ghost sm = sorted@.map_values(|a: AliasRow| a@);
        let n = sorted.len();
        let mut out: Vec<Alias> = Vec::new();
        let mut k: usize = 0;
        while k < n
            invariant
                n == sorted.len(),
                sm == sorted@.map_values(|a: AliasRow| a@),
                k <= n,
                out@.map_values(|a: Alias| a@) =~= sm.take(k as int).map_values(
                    |a: AliasModel| AliasViewModel { id: a.id, name: a.name, updated: a.updated },
                ),
            decreases n - k,
        {
            let row = Alias {
                id: sorted[k].id,
                name: sorted[k].name.clone(),
                updated: sorted[k].updated,
            };
            proof {
                assert(sm[k as int] == sorted@[k as int]@);
            }
            out.push(row);
            proof {
                assert(sm.take(k as int + 1) =~= sm.take(k as int).push(sm[k as int]));
                assert(sm.take(k as int + 1).map_values(
                    |a: AliasModel| AliasViewModel { id: a.id, name: a.name, updated: a.updated },
                ) =~= sm.take(k as int).map_values(
                    |a: AliasModel| AliasViewModel { id: a.id, name: a.name, updated: a.updated },
                ).push(row@));
                assert(out@.map_values(|a: Alias| a@) =~= out@.drop_last().map_values(
                    |a: Alias| a@,
                ).push(out@.last()@));
            }
            k += 1;
        }
        proof {
            assert(sm.take(n as int) =~= sm);
        }
        out
    }

    /// The snippets of one entity, in insertion order.
    pub fn list_snippet(&self, entity_id: u32) -> (r: Vec<Snippet>)
        ensures
            r@.map_values(|s: Snippet| s@) == self@.list_snippet(entity_id),
    {
        let ghost m = self@.snippets;
        let n = self.snippets.len();
        let mut out: Vec<Snippet> = Vec::new();
        let mut k: usize = 0;
        while k < n
            invariant
                n == self.snippets.len(),
                m == self@.snippets,
                k <= n,
                out@.map_values(|s: Snippet| s@) =~= m.subrange(0, k as int).filter(
                    snippet_of_entity(entity_id),
                ).map_values(
                    |s: SnippetModel|
                        SnippetViewModel { id: s.id, data: s.data, updated: s.updated },
                ),
            decreases n - k,
        {
            proof {
                assert(m.subrange(0, k as int + 1) =~= m.subrange(0, k as int).push(m[k as int]));
                lemma_filter_push(m.subrange(0, k as int), m[k as int], snippet_of_entity(entity_id));
                assert(m[k as int] == self.snippets@[k as int]@);
            }
            if self.snippets[k].entity_id == entity_id {
                let row = Snippet {
                    id: self.snippets[k].id,
                    data: self.snippets[k].data.clone(),
                    updated: self.snippets[k].updated,
                };
                out.push(row);
                proof {
                    let pre = m.subrange(0, k as int).filter(snippet_of_entity(entity_id));
                    assert(pre.push(m[k as int]).map_values(
                        |s: SnippetModel|
                            SnippetViewModel { id: s.id, data: s.data, updated: s.updated },
                    ) =~= pre.map_values(
                        |s: SnippetModel|
                            SnippetViewModel { id: s.id, data: s.data, updated: s.updated },
                    ).push(out@.last()@));
                    assert(out@.map_values(|s: Snippet| s@) =~= out@.drop_last().map_values(
                        |s: Snippet| s@,
                    ).push(out@.last()@));
                }
            }
            k += 1;
        }
        proof {
            assert(m.subrange(0, n as int) =~= m);
        }
        out
    }

    /// The relation with the given id, or an empty listing.
    pub fn list_relation(&self, id: u32) -> (r: Vec<Relation>)
        ensures
            r@ == self@.list_relation(id),
    {
        let ghost m = self@.relations;
        let n = self.relations.len();
        let mut out: Vec<Relation> = Vec::new();
        let mut k: usize = 0;
        while k < n
            invariant
                n == self.relations.len(),
                m == self@.relations,
                k <= n,
                out@ =~= m.subrange(0, k as int).filter(relation_with_id(id)).map_values(
                    |r: RelationRow|
                        Relation {
                            id: r.id,
                            entity_id_a: r.entity_id_a,
                            entity_id_b: r.entity_id_b,
                            updated: r.updated,
                        },
                ),
            decreases n - k,
        {
            proof {
                assert(m.subrange(0, k as int + 1) =~= m.subrange(0, k as int).push(m[k as int]));
                lemma_filter_push(m.subrange(0, k as int), m[k as int], relation_with_id(id));
            }
            if self.relations[k].id == id {
                let rel = self.relations[k];
                out.push(
                    Relation {
                        id: rel.id,
                        entity_id_a: rel.entity_id_a,
                        entity_id_b: rel.entity_id_b,
                        updated: rel.updated,
                    },
                );
                proof {
                    let pre = m.subrange(0, k as int).filter(relation_with_id(id));
                    assert(pre.push(m[k as int]).map_values(
                        |r: RelationRow|
                            Relation {
                                id: r.id,
                                entity_id_a: r.entity_id_a,
                                entity_id_b: r.entity_id_b,
                                updated: r.updated,
                            },
                    ) =~= pre.map_values(
                        |r: RelationRow|
                            Relation {
                                id: r.id,
                                entity_id_a: r.entity_id_a,
                                entity_id_b: r.entity_id_b,
                                updated: r.updated,
                            },
                    ).push(out@.last()));
                }
            }
            k += 1;
        }
        proof {
            assert(m.subrange(0, n as int) =~= m);
        }
        out
    }

    /// The relation with the given id, endpoints' alias lists resolved.
    pub fn list_relation_verbose(&self, id: u32) -> (r: Vec<RelationLong>)
        ensures
            r@.map_values(|e: RelationLong| e@) == self@.list_relation_verbose(id),
    {
        let ghost m = self@.relations;
        let ghost f = relation_long_of(self@.aliases);
        let n = self.relations.len();
        let mut out: Vec<RelationLong> = Vec::new();
        let mut k: usize = 0;
        while k < n
            invariant
                n == self.relations.len(),
                m == self@.relations,
                f == relation_long_of(self@.aliases),
                k <= n,
                out@.map_values(|e: RelationLong| e@) =~= m.subrange(0, k as int).filter(
                    relation_with_id(id),
                ).map_values(f),
            decreases n - k,
        {
            proof {
                assert(m.subrange(0, k as int + 1) =~= m.subrange(0, k as int).push(m[k as int]));
                lemma_filter_push(m.subrange(0, k as int), m[k as int], relation_with_id(id));
            }
            if self.relations[k].id == id {
                let rel = self.relations[k];
                let list_a = alias_list_string(&self.aliases, rel.entity_id_a);
                let list_b = alias_list_string(&self.aliases, rel.entity_id_b);
                let row = RelationLong {
                    id: rel.id,
                    entity_id_a: rel.entity_id_a,
                    alias_list_a: list_a,
                    entity_id_b: rel.entity_id_b,
                    alias_list_b: list_b,
                    updated: rel.updated,
                };
                proof {
                    assert(row@ =~= f(m[k as int]));
                }
                out.push(row);
                proof {
                    let pre = m.subrange(0, k as int).filter(relation_with_id(id));
                    assert(pre.push(m[k as int]).map_values(f) =~= pre.map_values(f).push(
                        f(m[k as int]),
                    ));
                    assert(out@.map_values(|e: RelationLong| e@) =~= out@.drop_last().map_values(
                        |e: RelationLong| e@,
                    ).push(out@.last()@));
                }
            }
            k += 1;
        }
        proof {
            assert(m.subrange(0, n as int) =~= m);
        }
        out
    }

    /// The relation snippets of one relation, in insertion order.
    pub fn list_relation_snippet(&self, relation_id: u32) -> (r: Vec<RelationSnippet>)
        ensures
            r@.map_values(|s: RelationSnippet| s@) == self@.list_relation_snippet(relation_id),
    {
        let ghost m = self@.relation_snippets;
        let n = self.relation_snippets.len();
        let mut out: Vec<RelationSnippet> = Vec::new();
        let mut k: usize = 0;
        while k < n
            invariant
                n == self.relation_snippets.len(),
                m == self@.relation_snippets,
                k <= n,
                out@.map_values(|s: RelationSnippet| s@) =~= m.subrange(0, k as int).filter(
                    relation_snippet_of_relation(relation_id),
                ).map_values(
                    |r: RelationSnippetModel|
                        SnippetViewModel { id: r.id, data: r.data, updated: r.updated },
                ),
            decreases n - k,
        {
            proof {
                assert(m.subrange(0, k as int + 1) =~= m.subrange(0, k as int).push(m[k as int]));
                lemma_filter_push(
                    m.subrange(0, k as int),
                    m[k as int],
                    relation_snippet_of_relation(relation_id),
                );
                assert(m[k as int] == self.relation_snippets@[k as int]@);
            }
            if self.relation_snippets[k].relation_id == relation_id {
                let row = RelationSnippet {
                    id: self.relation_snippets[k].id,
                    data: self.relation_snippets[k].data.clone(),
                    updated: self.relation_snippets[k].updated,
                };
                out.push(row);
                proof {
                    let pre = m.subrange(0, k as int).filter(
                        relation_snippet_of_relation(relation_id),
                    );
                    assert(pre.push(m[k as int]).map_values(
                        |r: RelationSnippetModel|
                            SnippetViewModel { id: r.id, data: r.data, updated: r.updated },
                    ) =~= pre.map_values(
                        |r: RelationSnippetModel|
                            SnippetViewModel { id: r.id, data: r.data, updated: r.updated },
                    ).push(out@.last()@));
                    assert(out@.map_values(|s: RelationSnippet| s@)
                        =~= out@.drop_last().map_values(|s: RelationSnippet| s@).push(
                        out@.last()@,
                    ));
                }
            }
            k += 1;
        }
        proof {
            assert(m.subrange(0, n as int) =~= m);
        }
        out
    }

    /// The table-count summary: one row per table, in the schema's
    /// order, each count exact.
    pub fn list_stats(&self) -> (r: Vec<Stats>)
        requires
            self.wf(),
        ensures
            r@.len() == 5,
            r@[0]@.stat_type == "Entities"@ && r@[0]@.count == self@.entities.len(),
            r@[1]@.stat_type == "Aliases"@ && r@[1]@.count == self@.aliases.len(),
            r@[2]@.stat_type == "Snippets"@ && r@[2]@.count == self@.snippets.len(),
            r@[3]@.stat_type == "Relations"@ && r@[3]@.count == self@.relations.len(),
            r@[4]@.stat_type == "Relation Snippets"@ && r@[4]@.count
                == self@.relation_snippets.len(),
    {
        proof {
            lemma_table_len_bound(self@.entities, |e: EntityRow| e.id, self@.next_entity_id);
            lemma_table_len_bound(self@.aliases, |a: AliasModel| a.id, self@.next_alias_id);
            lemma_table_len_bound(self@.snippets, |s: SnippetModel| s.id, self@.next_snippet_id);
            lemma_table_len_bound(self@.relations, |r: RelationRow| r.id, self@.next_relation_id);
            lemma_table_len_bound(
                self@.relation_snippets,
                |r: RelationSnippetModel| r.id,
                self@.next_relation_snippet_id,
            );
        }
        let mut out: Vec<Stats> = Vec::new();
        out.push(
            Stats { stat_type: String::from_str("Entities"), count: self.entities.len() as u32 },
        );
        out.push(
            Stats { stat_type: String::from_str("Aliases"), count: self.aliases.len() as u32 },
        );
        out.push(
            Stats { stat_type: String::from_str("Snippets"), count: self.snippets.len() as u32 },
        );
        out.push(
            Stats { stat_type: String::from_str("Relations"), count: self.relations.len() as u32 },
        );
        out.push(
            Stats {
                stat_type: String::from_str("Relation Snippets"),
                count: self.relation_snippets.len() as u32,
            },
        );
        out
    }
}

fn collect_aliases_of(aliases: &Vec<AliasRow>, entity_id: u32) -> (r: Vec<AliasRow>)
    ensures
        r@.map_values(|a: AliasRow| a@) == aliases@.map_values(|a: AliasRow| a@).filter(
            alias_of_entity(entity_id),
        ),
{
    let ghost m = aliases@.map_values(|a: AliasRow| a@);
    let n = aliases.len();
    let mut out: Vec<AliasRow> = Vec::new();
    let mut k: usize = 0;
    while k < n
        invariant
            n == aliases.len(),
            k <= n,
            m == aliases@.map_values(|a: AliasRow| a@),
            out@.map_values(|a: AliasRow| a@) =~= m.subrange(0, k as int).filter(
                alias_of_entity(entity_id),
            ),
        decreases n - k,
    {
        proof {
            assert(m.subrange(0, k as int + 1) =~= m.subrange(0, k as int).push(m[k as int]));
            lemma_filter_push(m.subrange(0, k as int), m[k as int], alias_of_entity(entity_id));
            assert(m[k as int] == aliases@[k as int]@);
        }
        if aliases[k].entity_id == entity_id {
            let row = clone_alias(&aliases[k]);
            out.push(row);
            proof {
                assert(out@.map_values(|a: AliasRow| a@) =~= out@.drop_last().map_values(
                    |a: AliasRow| a@,
                ).push(out@.last()@));
            }
        }
        k += 1;
    }
    proof {
        assert(m.subrange(0, n as int) =~= m);
    }
    out
}

fn count_aliases_of(aliases: &Vec<AliasRow>, entity_id: u32) -> (r: usize)
    ensures
        r == aliases@.map_values(|a: AliasRow| a@).filter(alias_of_entity(entity_id)).len(),
{
    let ghost m = aliases@.map_values(|a: AliasRow| a@);
    let n = aliases.len();
    let mut count: usize = 0;
    let mut k: usize = 0;
    while k < n
        invariant
            n == aliases.len(),
            k <= n,
            m == aliases@.map_values(|a: AliasRow| a@),
            count == m.subrange(0, k as int).filter(alias_of_entity(entity_id)).len(),
            count <= k,
        decreases n - k,
    {
        proof {
            assert(m.subrange(0, k as int + 1) =~= m.subrange(0, k as int).push(m[k as int]));
            lemma_filter_push(m.subrange(0, k as int), m[k as int], alias_of_entity(entity_id));
            assert(m[k as int] == aliases@[k as int]@);
            m.subrange(0, k as int).lemma_filter_len(alias_of_entity(entity_id));
        }
        if aliases[k].entity_id == entity_id {
            count += 1;
        }
        k += 1;
    }
    proof {
        assert(m.subrange(0, n as int) =~= m);
    }
    count
}

fn count_snippets_of(snippets: &Vec<crate::store::SnippetRow>, entity_id: u32) -> (r: usize)
    ensures
        r == snippets@.map_values(|s: crate::store::SnippetRow| s@).filter(
            snippet_of_entity(entity_id),
        ).len(),
{
    let ghost m = snippets@.map_values(|s: crate::store::SnippetRow| s@);
    let n = snippets.len();
    let mut count: usize = 0;
    let mut k: usize = 0;
    while k < n
        invariant
            n == snippets.len(),
            k <= n,
            m == snippets@.map_values(|s: crate::store::SnippetRow| s@),
            count == m.subrange(0, k as int).filter(snippet_of_entity(entity_id)).len(),
            count <= k,
        decreases n - k,
    {
        proof {
            assert(m.subrange(0, k as int + 1) =~= m.subrange(0, k as int).push(m[k as int]));
            lemma_filter_push(m.subrange(0, k as int), m[k as int], snippet_of_entity(entity_id));
            assert(m[k as int] == snippets@[k as int]@);
            m.subrange(0, k as int).lemma_filter_len(snippet_of_entity(entity_id));
        }
        if snippets[k].entity_id == entity_id {
            count += 1;
        }
        k += 1;
    }
    proof {
        assert(m.subrange(0, n as int) =~= m);
    }
    count
}

/// The log row of an alias: tagged with its kind, carrying the name.
pub open spec fn detail_alias_row() -> spec_fn(AliasModel) -> EntityLongLongModel {
    |a: AliasModel|
        EntityLongLongModel {
            id: a.id,
            data_type: DetailKind::Alias,
            data: a.name,
            last_modified: a.updated,
        }
}

/// The log row of the entity itself, carrying its id as decimal text.
pub open spec fn detail_entity_row() -> spec_fn(EntityRow) -> EntityLongLongModel {
    |e: EntityRow|
        EntityLongLongModel {
            id: e.id,
            data_type: DetailKind::Entity,
            data: dec_digits(e.id as nat),
            last_modified: e.created,
        }
}

/// The log row of a relation, carrying both endpoint ids as text.
pub open spec fn detail_relation_row() -> spec_fn(RelationRow) -> EntityLongLongModel {
    |r: RelationRow|
        EntityLongLongModel {
            id: r.id,
            data_type: DetailKind::Relation,
            data: dec_digits(r.entity_id_a as nat) + " | "@ + dec_digits(r.entity_id_b as nat),
            last_modified: r.updated,
        }
}

/// The log row of a relation snippet, carrying its content.
pub open spec fn detail_relation_snippet_row() -> spec_fn(
    RelationSnippetModel,
) -> EntityLongLongModel {
    |r: RelationSnippetModel|
        EntityLongLongModel {
            id: r.id,
            data_type: DetailKind::RelationSnippet,
            data: r.data,
            last_modified: r.updated,
        }
}

/// The log row of a snippet, carrying its content.
pub open spec fn detail_snippet_row() -> spec_fn(SnippetModel) -> EntityLongLongModel {
    |s: SnippetModel|
        EntityLongLongModel {
            id: s.id,
            data_type: DetailKind::Snippet,
            data: s.data,
            last_modified: s.updated,
        }
}

impl StoreModel {
    /// Tier two: the unified event log of one entity.  Its aliases, the
    /// entity row itself, the relations touching it, the snippets of
    /// those relations, and its own snippets, each segment in id order
    /// and the segments in the kind order of the log.  An unknown id
    /// yields an empty log.
    pub open spec fn detail_log(self, id: u32) -> Seq<EntityLongLongModel> {
        self.aliases.filter(alias_of_entity(id)).map_values(detail_alias_row())
            + self.entities.filter(entity_with_id(id)).map_values(detail_entity_row())
            + self.relations.filter(relation_touching(id)).map_values(detail_relation_row())
            + self.relation_snippets.filter(
            relation_snippet_touching(self.relations, id),
        ).map_values(detail_relation_snippet_row()) + self.snippets.filter(
            snippet_of_entity(id),
        ).map_values(detail_snippet_row())
    }
}

impl Store {
    fn detail_alias_rows(&self, id: u32) -> (r: Vec<EntityLongLong>)
        ensures
            r@.map_values(|e: EntityLongLong| e@) == self@.aliases.filter(
                alias_of_entity(id),
            ).map_values(detail_alias_row()),
    {
        let ghost m = self@.aliases;
        let ghost f = detail_alias_row();
        let n = self.aliases.len();
        let mut out: Vec<EntityLongLong> = Vec::new();
        let mut k: usize = 0;
        while k < n
            invariant
                n == self.aliases.len(),
                m == self@.aliases,
                f == detail_alias_row(),
                k <= n,
                out@.map_values(|e: EntityLongLong| e@) =~= m.subrange(0, k as int).filter(
                    alias_of_entity(id),
                ).map_values(f),
            decreases n - k,
        {
            proof {
                assert(m.subrange(0, k as int + 1) =~= m.subrange(0, k as int).push(m[k as int]));
                lemma_filter_push(m.subrange(0, k as int), m[k as int], alias_of_entity(id));
                assert(m[k as int] == self.aliases@[k as int]@);
            }
            if self.aliases[k].entity_id == id {
                let row = EntityLongLong {
                    id: self.aliases[k].id,
                    data_type: DetailKind::Alias,
                    data: self.aliases[k].name.clone(),
                    last_modified: self.aliases[k].updated,
                };
                proof {
                    assert(row@ =~= f(m[k as int]));
                }
                out.push(row);
                proof {
                    let pre = m.subrange(0, k as int).filter(alias_of_entity(id));
                    assert(pre.push(m[k as int]).map_values(f) =~= pre.map_values(f).push(
                        f(m[k as int]),
                    ));
                    assert(out@.map_values(|e: EntityLongLong| e@) =~= out@.drop_last().map_values(
                        |e: EntityLongLong| e@,
                    ).push(out@.last()@));
                }
            }
            k += 1;
        }
        proof {
            assert(m.subrange(0, n as int) =~= m);
        }
        out
    }

    fn detail_entity_rows(&self, id: u32) -> (r: Vec<EntityLongLong>)
        ensures
            r@.map_values(|e: EntityLongLong| e@) == self@.entities.filter(
                entity_with_id(id),
            ).map_values(detail_entity_row()),
    {
        let ghost m = self@.entities;
        let ghost f = detail_entity_row();
        let n = self.entities.len();
        let mut out: Vec<EntityLongLong> = Vec::new();
        let mut k: usize = 0;
        while k < n
            invariant
                n == self.entities.len(),
                m == self@.entities,
                f == detail_entity_row(),
                k <= n,
                out@.map_values(|e: EntityLongLong| e@) =~= m.subrange(0, k as int).filter(
                    entity_with_id(id),
                ).map_values(f),
            decreases n - k,
        {
            proof {
                assert(m.subrange(0, k as int + 1) =~= m.subrange(0, k as int).push(m[k as int]));
                lemma_filter_push(m.subrange(0, k as int), m[k as int], entity_with_id(id));
            }
            if self.entities[k].id == id {
                let e = self.entities[k];
                let row = EntityLongLong {
                    id: e.id,
                    data_type: DetailKind::Entity,
                    data: crate::text::u32_to_dec_string(e.id),
                    last_modified: e.created,
                };
                proof {
                    assert(row@ =~= f(m[k as int]));
                }
                out.push(row);
                proof {
                    let pre = m.subrange(0, k as int).filter(entity_with_id(id));
                    assert(pre.push(m[k as int]).map_values(f) =~= pre.map_values(f).push(
                        f(m[k as int]),
                    ));
                    assert(out@.map_values(|e: EntityLongLong| e@) =~= out@.drop_last().map_values(
                        |e: EntityLongLong| e@,
                    ).push(out@.last()@));
                }
            }
            k += 1;
        }
        proof {
            assert(m.subrange(0, n as int) =~= m);
        }
        out
    }

    fn detail_relation_rows(&self, id: u32) -> (r: Vec<EntityLongLong>)
        ensures
            r@.map_values(|e: EntityLongLong| e@) == self@.relations.filter(
                relation_touching(id),
            ).map_values(detail_relation_row()),
    {
        let ghost m = self@.relations;
        let ghost f = detail_relation_row();
        let n = self.relations.len();
        let mut out: Vec<EntityLongLong> = Vec::new();
        let mut k: usize = 0;
        while k < n
            invariant
                n == self.relations.len(),
                m == self@.relations,
                f == detail_relation_row(),
                k <= n,
                out@.map_values(|e: EntityLongLong| e@) =~= m.subrange(0, k as int).filter(
                    relation_touching(id),
                ).map_values(f),
            decreases n - k,
        {
            proof {
                assert(m.subrange(0, k as int + 1) =~= m.subrange(0, k as int).push(m[k as int]));
                lemma_filter_push(m.subrange(0, k as int), m[k as int], relation_touching(id));
            }
            if self.relations[k].entity_id_a == id || self.relations[k].entity_id_b == id {
                let rel = self.relations[k];
                let mut data = crate::text::u32_to_dec_string(rel.entity_id_a);
                data.append(" | ");
                let b_text = crate::text::u32_to_dec_string(rel.entity_id_b);
                data.append(b_text.as_str());
                let row = EntityLongLong {
                    id: rel.id,
                    data_type: DetailKind::Relation,
                    data,
                    last_modified: rel.updated,
                };
                proof {
                    assert(row@ =~= f(m[k as int]));
                }
                out.push(row);
                proof {
                    let pre = m.subrange(0, k as int).filter(relation_touching(id));
                    assert(pre.push(m[k as int]).map_values(f) =~= pre.map_values(f).push(
                        f(m[k as int]),
                    ));
                    assert(out@.map_values(|e: EntityLongLong| e@) =~= out@.drop_last().map_values(
                        |e: EntityLongLong| e@,
                    ).push(out@.last()@));
                }
            }
            k += 1;
        }
        proof {
            assert(m.subrange(0, n as int) =~= m);
        }
        out
    }

    fn detail_relation_snippet_rows(&self, id: u32) -> (r: Vec<EntityLongLong>)
        ensures
            r@.map_values(|e: EntityLongLong| e@) == self@.relation_snippets.filter(
                relation_snippet_touching(self@.relations, id),
            ).map_values(detail_relation_snippet_row()),
    {
        let ghost m = self@.relation_snippets;
        let ghost f = detail_relation_snippet_row();
        let n = self.relation_snippets.len();
        let mut out: Vec<EntityLongLong> = Vec::new();
        let mut k: usize = 0;
        while k < n
            invariant
                n == self.relation_snippets.len(),
                m == self@.relation_snippets,
                f == detail_relation_snippet_row(),
                k <= n,
                out@.map_values(|e: EntityLongLong| e@) =~= m.subrange(0, k as int).filter(
                    relation_snippet_touching(self@.relations, id),
                ).map_values(f),
            decreases n - k,
        {
            proof {
                assert(m.subrange(0, k as int + 1) =~= m.subrange(0, k as int).push(m[k as int]));
                lemma_filter_push(
                    m.subrange(0, k as int),
                    m[k as int],
                    relation_snippet_touching(self@.relations, id),
                );
                assert(m[k as int] == self.relation_snippets@[k as int]@);
            }
            if crate::delete::relation_with_id_touches(
                &self.relations,
                self.relation_snippets[k].relation_id,
                id,
            ) {
                let row = EntityLongLong {
                    id: self.relation_snippets[k].id,
                    data_type: DetailKind::RelationSnippet,
                    data: self.relation_snippets[k].data.clone(),
                    last_modified: self.relation_snippets[k].updated,
                };
                proof {
                    assert(row@ =~= f(m[k as int]));
                }
                out.push(row);
                proof {
                    let pre = m.subrange(0, k as int).filter(
                        relation_snippet_touching(self@.relations, id),
                    );
                    assert(pre.push(m[k as int]).map_values(f) =~= pre.map_values(f).push(
                        f(m[k as int]),
                    ));
                    assert(out@.map_values(|e: EntityLongLong| e@) =~= out@.drop_last().map_values(
                        |e: EntityLongLong| e@,
                    ).push(out@.last()@));
                }
            }
            k += 1;
        }
        proof {
            assert(m.subrange(0, n as int) =~= m);
        }
        out
    }

    fn detail_snippet_rows(&self, id: u32) -> (r: Vec<EntityLongLong>)
        ensures
            r@.map_values(|e: EntityLongLong| e@) == self@.snippets.filter(
                snippet_of_entity(id),
            ).map_values(detail_snippet_row()),
    {
        let ghost m = self@.snippets;
        let ghost f = detail_snippet_row();
        let n = self.snippets.len();
        let mut out: Vec<EntityLongLong> = Vec::new();
        let mut k: usize = 0;
        while k < n
            invariant
                n == self.snippets.len(),
                m == self@.snippets,
                f == detail_snippet_row(),
                k <= n,
                out@.map_values(|e: EntityLongLong| e@) =~= m.subrange(0, k as int).filter(
                    snippet_of_entity(id),
                ).map_values(f),
            decreases n - k,
        {
            proof {
                assert(m.subrange(0, k as int + 1) =~= m.subrange(0, k as int).push(m[k as int]));
                lemma_filter_push(m.subrange(0, k as int), m[k as int], snippet_of_entity(id));
                assert(m[k as int] == self.snippets@[k as int]@);
            }
            if self.snippets[k].entity_id == id {
                let row = EntityLongLong {
                    id: self.snippets[k].id,
                    data_type: DetailKind::Snippet,
                    data: self.snippets[k].data.clone(),
                    last_modified: self.snippets[k].updated,
                };
                proof {
                    assert(row@ =~= f(m[k as int]));
                }
                out.push(row);
                proof {
                    let pre = m.subrange(0, k as int).filter(snippet_of_entity(id));
                    assert(pre.push(m[k as int]).map_values(f) =~= pre.map_values(f).push(
                        f(m[k as int]),
                    ));
                    assert(out@.map_values(|e: EntityLongLong| e@) =~= out@.drop_last().map_values(
                        |e: EntityLongLong| e@,
                    ).push(out@.last()@));
                }
            }
            k += 1;
        }
        proof {
            assert(m.subrange(0, n as int) =~= m);
        }
        out
    }

    /// Tier two for one entity: the unified, kind-tagged event log, each
    /// segment in id order.
    pub fn list_entity_detail(&self, id: u32) -> (r: Vec<EntityLongLong>)
        ensures
            r@.map_values(|e: EntityLongLong| e@) == self@.detail_log(id),
    {
        let mut out = self.detail_alias_rows(id);
        let ghost v1 = out@.map_values(|e: EntityLongLong| e@);
        let mut part2 = self.detail_entity_rows(id);
        let ghost v2 = part2@.map_values(|e: EntityLongLong| e@);
        let ghost rows1 = out@;
        let ghost rows2 = part2@;
        out.append(&mut part2);
        proof {
            assert forall|i: int| 0 <= i < out@.len() implies out@.map_values(
                |e: EntityLongLong| e@,
            )[i] == (v1 + v2)[i] by {
                if i < rows1.len() {
                    assert(out@[i] == rows1[i]);
                } else {
                    assert(out@[i] == rows2[i - rows1.len()]);
                }
            }
            assert(out@.map_values(|e: EntityLongLong| e@) =~= v1 + v2);
        }
        let ghost v12 = v1 + v2;
        let ghost rows12 = out@;
        let mut part3 = self.detail_relation_rows(id);
        let ghost v3 = part3@.map_values(|e: EntityLongLong| e@);
        let ghost rows3 = part3@;
        out.append(&mut part3);
        proof {
            assert forall|i: int| 0 <= i < out@.len() implies out@.map_values(
                |e: EntityLongLong| e@,
            )[i] == (v12 + v3)[i] by {
                if i < rows12.len() {
                    assert(out@[i] == rows12[i]);
                } else {
                    assert(out@[i] == rows3[i - rows12.len()]);
                }
            }
            assert(out@.map_values(|e: EntityLongLong| e@) =~= v12 + v3);
        }
        let ghost v123 = v12 + v3;
        let ghost rows123 = out@;
        let mut part4 = self.detail_relation_snippet_rows(id);
        let ghost v4 = part4@.map_values(|e: EntityLongLong| e@);
        let ghost rows4 = part4@;
        out.append(&mut part4);
        proof {
            assert forall|i: int| 0 <= i < out@.len() implies out@.map_values(
                |e: EntityLongLong| e@,
            )[i] == (v123 + v4)[i] by {
                if i < rows123.len() {
                    assert(out@[i] == rows123[i]);
                } else {
                    assert(out@[i] == rows4[i - rows123.len()]);
                }
            }
            assert(out@.map_values(|e: EntityLongLong| e@) =~= v123 + v4);
        }
        let ghost v1234 = v123 + v4;
        let ghost rows1234 = out@;
        let mut part5 = self.detail_snippet_rows(id);
        let ghost v5 = part5@.map_values(|e: EntityLongLong| e@);
        let ghost rows5 = part5@;
        out.append(&mut part5);
        proof {
            assert forall|i: int| 0 <= i < out@.len() implies out@.map_values(
                |e: EntityLongLong| e@,
            )[i] == (v1234 + v5)[i] by {
                if i < rows1234.len() {
                    assert(out@[i] == rows1234[i]);
                } else {
                    assert(out@[i] == rows5[i - rows1234.len()]);
                }
            }
            assert(out@.map_values(|e: EntityLongLong| e@) =~= v1234 + v5);
            assert(v1234 + v5 =~= self@.detail_log(id));
        }
        out
    }
}

/// One entity listing, at whichever verbosity tier the caller asked
/// for.
#[derive(Debug)]
pub enum EntityListing {
    Plain(Vec<Entity>),
    Long(Vec<EntityLong>),
    Detail(Vec<EntityLongLong>),
}

impl Store {
    /// The entity listing for the requested verbosity: the plain row at
    /// zero, the summary row at one, the unified log above that.
    pub fn list_entity(&self, id: u32, verbosity: u64) -> (r: EntityListing)
        requires
            self.wf(),
        ensures
            match r {
                EntityListing::Plain(v) => verbosity == 0 && v@ == self@.entity_plain(id),
                EntityListing::Long(v) => verbosity == 1 && v@.map_values(|e: EntityLong| e@)
                    == self@.entity_long(id),
                EntityListing::Detail(v) => verbosity >= 2 && v@.map_values(
                    |e: EntityLongLong| e@,
                ) == self@.detail_log(id),
            },
    {
        if verbosity == 0 {
            EntityListing::Plain(self.list_entity_plain(id))
        } else if verbosity == 1 {
            EntityListing::Long(self.list_entity_long(id))
        } else {
            EntityListing::Detail(self.list_entity_detail(id))
        }
    }
}

/// The unified log is sorted by kind tag first and id second: the
/// segments are laid out in exactly the order the tags sort in, and
/// every segment inherits the store's id order.
pub proof fn lemma_detail_log_sorted(m: StoreModel, id: u32)
    requires
        m.wf(),
    ensures
        forall|i: int, j: int|
            0 <= i < j < m.detail_log(id).len() ==> crate::item::detail_rank(
                (#[trigger] m.detail_log(id)[i]).data_type,
            ) < crate::item::detail_rank((#[trigger] m.detail_log(id)[j]).data_type) || (
            crate::item::detail_rank(m.detail_log(id)[i].data_type) == crate::item::detail_rank(
                m.detail_log(id)[j].data_type,
            ) && m.detail_log(id)[i].id < m.detail_log(id)[j].id),
{
    let log = m.detail_log(id);
    let fa = m.aliases.filter(alias_of_entity(id));
    let fe = m.entities.filter(entity_with_id(id));
    let fr = m.relations.filter(relation_touching(id));
    let fq = m.relation_snippets.filter(relation_snippet_touching(m.relations, id));
    let fs = m.snippets.filter(snippet_of_entity(id));
    crate::facts::lemma_table_filter(
        m.aliases,
        |a: AliasModel| a.id,
        m.next_alias_id,
        alias_of_entity(id),
    );
    crate::facts::lemma_table_filter(
        m.entities,
        |e: EntityRow| e.id,
        m.next_entity_id,
        entity_with_id(id),
    );
    crate::facts::lemma_table_filter(
        m.relations,
        |r: RelationRow| r.id,
        m.next_relation_id,
        relation_touching(id),
    );
    crate::facts::lemma_table_filter(
        m.relation_snippets,
        |r: RelationSnippetModel| r.id,
        m.next_relation_snippet_id,
        relation_snippet_touching(m.relations, id),
    );
    crate::facts::lemma_table_filter(
        m.snippets,
        |s: SnippetModel| s.id,
        m.next_snippet_id,
        snippet_of_entity(id),
    );
    let l1 = fa.len() as int;
    let l2 = fe.len() as int;
    let l3 = fr.len() as int;
    let l4 = fq.len() as int;
    assert forall|t: int| 0 <= t < log.len() implies (#[trigger] log[t]).data_type == (if t < l1 {
        DetailKind::Alias
    } else if t < l1 + l2 {
        DetailKind::Entity
    } else if t < l1 + l2 + l3 {
        DetailKind::Relation
    } else if t < l1 + l2 + l3 + l4 {
        DetailKind::RelationSnippet
    } else {
        DetailKind::Snippet
    }) && log[t].id == (if t < l1 {
        fa[t].id
    } else if t < l1 + l2 {
        fe[t - l1].id
    } else if t < l1 + l2 + l3 {
        fr[t - l1 - l2].id
    } else if t < l1 + l2 + l3 + l4 {
        fq[t - l1 - l2 - l3].id
    } else {
        fs[t - l1 - l2 - l3 - l4].id
    }) by {
        if t < l1 {
            assert(log[t] == fa.map_values(detail_alias_row())[t]);
        } else if t < l1 + l2 {
            assert(log[t] == fe.map_values(detail_entity_row())[t - l1]);
        } else if t < l1 + l2 + l3 {
            assert(log[t] == fr.map_values(detail_relation_row())[t - l1 - l2]);
        } else if t < l1 + l2 + l3 + l4 {
            assert(log[t] == fq.map_values(detail_relation_snippet_row())[t - l1 - l2 - l3]);
        } else {
            assert(log[t] == fs.map_values(detail_snippet_row())[t - l1 - l2 - l3 - l4]);
        }
    }
    assert forall|i: int, j: int| 0 <= i < j < log.len() implies crate::item::detail_rank(
        (#[trigger] log[i]).data_type,
    ) < crate::item::detail_rank((#[trigger] log[j]).data_type) || (crate::item::detail_rank(
        log[i].data_type,
    ) == crate::item::detail_rank(log[j].data_type) && log[i].id < log[j].id) by {
        if j < l1 {
            assert(fa[i].id < fa[j].id);
        } else if l1 <= i && j < l1 + l2 {
            assert(fe[i - l1].id < fe[j - l1].id);
        } else if l1 + l2 <= i && j < l1 + l2 + l3 {
            assert(fr[i - l1 - l2].id < fr[j - l1 - l2].id);
        } else if l1 + l2 + l3 <= i && j < l1 + l2 + l3 + l4 {
            assert(fq[i - l1 - l2 - l3].id < fq[j - l1 - l2 - l3].id);
        } else if l1 + l2 + l3 + l4 <= i {
            assert(fs[i - l1 - l2 - l3 - l4].id < fs[j - l1 - l2 - l3 - l4].id);
        }
    }
}

} // verus!
