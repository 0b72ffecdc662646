//! The store: five relational tables (entity, alias, snippet, relation,
//! relation snippet) held in memory, with explicit id assignment.
//!
//! Ids are positive, handed out in increasing order per table, and never
//! reused after a deletion.  Timestamps are opaque clock values supplied
//! by the caller; `created` is set once, `updated` changes only on an
//! explicit edit.  Referential integrity is enforced at insertion time
//! only: deleting a row may leave dependents behind unless the cascading
//! deletion path is used.

use vstd::prelude::*;

use crate::facts::{lemma_adjacent_increasing, lemma_table_push, table_ok};

verus! {

/// A root node of the note graph; it carries no name of its own.
#[derive(Debug, Clone, Copy, PartialEq, Eq, Structural)]
pub struct EntityRow {
    pub id: u32,
    pub created: u64,
}

/// A human-readable name bound to one entity.
#[derive(Debug, PartialEq, Eq)]
pub struct AliasRow {
    pub id: u32,
    pub entity_id: u32,
    pub name: String,
    pub created: u64,
    pub updated: u64,
}

/// Free-text content attached to one entity.
#[derive(Debug, PartialEq, Eq)]
pub struct SnippetRow {
    pub id: u32,
    pub entity_id: u32,
    pub data: String,
    pub created: u64,
    pub updated: u64,
}

/// An edge between two entities; a self-relation is allowed and the same
/// pair may be related more than once.
#[derive(Debug, Clone, Copy, PartialEq, Eq, Structural)]
pub struct RelationRow {
    pub id: u32,
    pub entity_id_a: u32,
    pub entity_id_b: u32,
    pub created: u64,
    pub updated: u64,
}

/// Free-text content attached to one relation.
#[derive(Debug, PartialEq, Eq)]
pub struct RelationSnippetRow {
    pub id: u32,
    pub relation_id: u32,
    pub data: String,
    pub created: u64,
    pub updated: u64,
}

/// The mathematical value of an alias row.
#[verifier::ext_equal]
pub struct AliasModel {
    pub id: u32,
    pub entity_id: u32,
    pub name: Seq<char>,
    pub created: u64,
    pub updated: u64,
}

/// The mathematical value of a snippet row.
#[verifier::ext_equal]
pub struct SnippetModel {
    pub id: u32,
    pub entity_id: u32,
    pub data: Seq<char>,
    pub created: u64,
    pub updated: u64,
}

/// The mathematical value of a relation snippet row.
#[verifier::ext_equal]
pub struct RelationSnippetModel {
    pub id: u32,
    pub relation_id: u32,
    pub data: Seq<char>,
    pub created: u64,
    pub updated: u64,
}

impl View for AliasRow {
    type V = AliasModel;

    open spec fn view(&self) -> AliasModel {
        AliasModel {
            id: self.id,
            entity_id: self.entity_id,
            name: self.name@,
            created: self.created,
            updated: self.updated,
        }
    }
}

impl View for SnippetRow {
    type V = SnippetModel;

    open spec fn view(&self) -> SnippetModel {
        SnippetModel {
            id: self.id,
            entity_id: self.entity_id,
            data: self.data@,
            created: self.created,
            updated: self.updated,
        }
    }
}

impl View for RelationSnippetRow {
    type V = RelationSnippetModel;

    open spec fn view(&self) -> RelationSnippetModel {
        RelationSnippetModel {
            id: self.id,
            relation_id: self.relation_id,
            data: self.data@,
            created: self.created,
            updated: self.updated,
        }
    }
}

/// The mathematical value of the whole store.
#[verifier::ext_equal]
pub struct StoreModel {
    pub entities: Seq<EntityRow>,
    pub aliases: Seq<AliasModel>,
    pub snippets: Seq<SnippetModel>,
    pub relations: Seq<RelationRow>,
    pub relation_snippets: Seq<RelationSnippetModel>,
    pub next_entity_id: u32,
    pub next_alias_id: u32,
    pub next_snippet_id: u32,
    pub next_relation_id: u32,
    pub next_relation_snippet_id: u32,
}

impl StoreModel {
    /// A fresh store: no rows, every id counter at one.
    pub open spec fn init() -> StoreModel {
        StoreModel {
            entities: Seq::empty(),
            aliases: Seq::empty(),
            snippets: Seq::empty(),
            relations: Seq::empty(),
            relation_snippets: Seq::empty(),
            next_entity_id: 1,
            next_alias_id: 1,
            next_snippet_id: 1,
            next_relation_id: 1,
            next_relation_snippet_id: 1,
        }
    }

    /// Every table has positive, strictly increasing ids below its next
    /// free id.
    pub open spec fn wf(self) -> bool {
        &&& table_ok(self.entities, |e: EntityRow| e.id, self.next_entity_id)
        &&& table_ok(self.aliases, |a: AliasModel| a.id, self.next_alias_id)
        &&& table_ok(self.snippets, |s: SnippetModel| s.id, self.next_snippet_id)
        &&& table_ok(self.relations, |r: RelationRow| r.id, self.next_relation_id)
        &&& table_ok(
            self.relation_snippets,
            |r: RelationSnippetModel| r.id,
            self.next_relation_snippet_id,
        )
    }

    pub open spec fn has_entity(self, id: u32) -> bool {
        exists|i: int| 0 <= i < self.entities.len() && (#[trigger] self.entities[i]).id == id
    }

    pub open spec fn has_alias(self, id: u32) -> bool {
        exists|i: int| 0 <= i < self.aliases.len() && (#[trigger] self.aliases[i]).id == id
    }

    pub open spec fn has_snippet(self, id: u32) -> bool {
        exists|i: int| 0 <= i < self.snippets.len() && (#[trigger] self.snippets[i]).id == id
    }

    pub open spec fn has_relation(self, id: u32) -> bool {
        exists|i: int| 0 <= i < self.relations.len() && (#[trigger] self.relations[i]).id == id
    }

    pub open spec fn has_relation_snippet(self, id: u32) -> bool {
        exists|i: int|
            0 <= i < self.relation_snippets.len() && (#[trigger] self.relation_snippets[i]).id
                == id
    }

    /// The store after a new entity row is inserted.
    pub open spec fn insert_entity(self, now: u64) -> StoreModel {
        StoreModel {
            entities: self.entities.push(EntityRow { id: self.next_entity_id, created: now }),
            next_entity_id: (self.next_entity_id + 1) as u32,
            ..self
        }
    }

    /// The store after a new alias row is inserted.
    pub open spec fn insert_alias(self, entity_id: u32, name: Seq<char>, now: u64) -> StoreModel {
        StoreModel {
            aliases: self.aliases.push(
                AliasModel {
                    id: self.next_alias_id,
                    entity_id,
                    name,
                    created: now,
                    updated: now,
                },
            ),
            next_alias_id: (self.next_alias_id + 1) as u32,
            ..self
        }
    }

    /// The store after a new snippet row is inserted.
    pub open spec fn insert_snippet(self, entity_id: u32, data: Seq<char>, now: u64) -> StoreModel {
        StoreModel {
            snippets: self.snippets.push(
                SnippetModel {
                    id: self.next_snippet_id,
                    entity_id,
                    data,
                    created: now,
                    updated: now,
                },
            ),
            next_snippet_id: (self.next_snippet_id + 1) as u32,
            ..self
        }
    }

    /// The store after a new relation row is inserted.
    pub open spec fn insert_relation(self, entity_id_a: u32, entity_id_b: u32, now: u64) -> StoreModel {
        StoreModel {
            relations: self.relations.push(
                RelationRow {
                    id: self.next_relation_id,
                    entity_id_a,
                    entity_id_b,
                    created: now,
                    updated: now,
                },
            ),
            next_relation_id: (self.next_relation_id + 1) as u32,
            ..self
        }
    }

    /// The store after a new relation snippet row is inserted.
    pub open spec fn insert_relation_snippet(self, relation_id: u32, data: Seq<char>, now: u64) -> StoreModel {
        StoreModel {
            relation_snippets: self.relation_snippets.push(
                RelationSnippetModel {
                    id: self.next_relation_snippet_id,
                    relation_id,
                    data,
                    created: now,
                    updated: now,
                },
            ),
            next_relation_snippet_id: (self.next_relation_snippet_id + 1) as u32,
            ..self
        }
    }
}

/// Why a mutation was refused before touching any table.
#[derive(Debug, Clone, Copy, PartialEq, Eq, Structural)]
pub enum StoreError {
    /// The owner id that the new row would reference names no existing row.
    MissingOwner,
}

/// The store itself: the five tables and the next free id of each.
pub struct Store {
    pub entities: Vec<EntityRow>,
    pub aliases: Vec<AliasRow>,
    pub snippets: Vec<SnippetRow>,
    pub relations: Vec<RelationRow>,
    pub relation_snippets: Vec<RelationSnippetRow>,
    pub next_entity_id: u32,
    pub next_alias_id: u32,
    pub next_snippet_id: u32,
    pub next_relation_id: u32,
    pub next_relation_snippet_id: u32,
}

impl View for Store {
    type V = StoreModel;

    open spec fn view(&self) -> StoreModel {
        StoreModel {
            entities: self.entities@,
            aliases: self.aliases@.map_values(|a: AliasRow| a@),
            snippets: self.snippets@.map_values(|s: SnippetRow| s@),
            relations: self.relations@,
            relation_snippets: self.relation_snippets@.map_values(|r: RelationSnippetRow| r@),
            next_entity_id: self.next_entity_id,
            next_alias_id: self.next_alias_id,
            next_snippet_id: self.next_snippet_id,
            next_relation_id: self.next_relation_id,
            next_relation_snippet_id: self.next_relation_snippet_id,
        }
    }
}

impl Store {
    pub open spec fn wf(&self) -> bool {
        self@.wf()
    }

    /// A fresh, empty store.  The persistent schema behind it is created
    /// elsewhere, once; this is the in-memory counterpart.
    pub fn new() -> (s: Store)
        ensures
            s@ == StoreModel::init(),
            s.wf(),
    {
        let s = Store {
            entities: Vec::new(),
            aliases: Vec::new(),
            snippets: Vec::new(),
            relations: Vec::new(),
            relation_snippets: Vec::new(),
            next_entity_id: 1,
            next_alias_id: 1,
            next_snippet_id: 1,
            next_relation_id: 1,
            next_relation_snippet_id: 1,
        };
        proof {
            assert(s@ =~~= StoreModel::init());
        }
        s
    }

    /// Whether an entity row with the given id exists.
    pub fn contains_entity(&self, id: u32) -> (b: bool)
        ensures
            b == self@.has_entity(id),
    {
        let n = self.entities.len();
        let mut k: usize = 0;
        while k < n
            invariant
                n == self.entities.len(),
                k <= n,
                forall|i: int| 0 <= i < k ==> (#[trigger] self.entities@[i]).id != id,
            decreases n - k,
        {
            if self.entities[k].id == id {
                assert(self@.entities[k as int].id == id);
                return true;
            }
            k += 1;
        }
        false
    }

    /// Whether a relation row with the given id exists.
    pub fn contains_relation(&self, id: u32) -> (b: bool)
        ensures
            b == self@.has_relation(id),
    {
        let n = self.relations.len();
        let mut k: usize = 0;
        while k < n
            invariant
                n == self.relations.len(),
                k <= n,
                forall|i: int| 0 <= i < k ==> (#[trigger] self.relations@[i]).id != id,
            decreases n - k,
        {
            if self.relations[k].id == id {
                assert(self@.relations[k as int].id == id);
                return true;
            }
            k += 1;
        }
        false
    }

    /// Inserts a new entity row and returns its freshly assigned id.
    pub fn insert_entity(&mut self, now: u64) -> (r: u32)
        requires
            old(self).wf(),
            old(self)@.next_entity_id < u32::MAX,
        ensures
            final(self).wf(),
            r == old(self)@.next_entity_id,
            final(self)@ == old(self)@.insert_entity(now),
    {
        let id = self.next_entity_id;
        self.entities.push(EntityRow { id, created: now });
        self.next_entity_id = id + 1;
        proof {
            assert(self@ =~~= old(self)@.insert_entity(now));
            lemma_table_push(
                old(self)@.entities,
                |e: EntityRow| e.id,
                old(self)@.next_entity_id,
                EntityRow { id, created: now },
            );
        }
        id
    }

    /// Inserts an alias for the given entity; refused when the entity does
    /// not exist.
    pub fn insert_alias(&mut self, entity_id: u32, name: &str, now: u64) -> (r: Result<
        u32,
        StoreError,
    >)
        requires
            old(self).wf(),
            old(self)@.next_alias_id < u32::MAX,
        ensures
            final(self).wf(),
            match r {
                Ok(id) => old(self)@.has_entity(entity_id) && id == old(self)@.next_alias_id
                    && final(self)@ == old(self)@.insert_alias(entity_id, name@, now),
                Err(e) => !old(self)@.has_entity(entity_id) && e == StoreError::MissingOwner
                    && final(self)@ == old(self)@,
            },
    {
        if !self.contains_entity(entity_id) {
            return Err(StoreError::MissingOwner);
        }
        let id = self.next_alias_id;
        self.aliases.push(
            AliasRow { id, entity_id, name: name.to_owned(), created: now, updated: now },
        );
        self.next_alias_id = id + 1;
        proof {
            assert(self@ =~~= old(self)@.insert_alias(entity_id, name@, now));
            lemma_table_push(
                old(self)@.aliases,
                |a: AliasModel| a.id,
                old(self)@.next_alias_id,
                AliasModel { id, entity_id, name: name@, created: now, updated: now },
            );
        }
        Ok(id)
    }

    /// Inserts a snippet for the given entity; refused when the entity
    /// does not exist.
    pub fn insert_snippet(&mut self, entity_id: u32, data: &str, now: u64) -> (r: Result<
        u32,
        StoreError,
    >)
        requires
            old(self).wf(),
            old(self)@.next_snippet_id < u32::MAX,
        ensures
            final(self).wf(),
            match r {
                Ok(id) => old(self)@.has_entity(entity_id) && id == old(self)@.next_snippet_id
                    && final(self)@ == old(self)@.insert_snippet(entity_id, data@, now),
                Err(e) => !old(self)@.has_entity(entity_id) && e == StoreError::MissingOwner
                    && final(self)@ == old(self)@,
            },
    {
        if !self.contains_entity(entity_id) {
            return Err(StoreError::MissingOwner);
        }
        let id = self.next_snippet_id;
        self.snippets.push(
            SnippetRow { id, entity_id, data: data.to_owned(), created: now, updated: now },
        );
        self.next_snippet_id = id + 1;
        proof {
            assert(self@ =~~= old(self)@.insert_snippet(entity_id, data@, now));
            lemma_table_push(
                old(self)@.snippets,
                |s: SnippetModel| s.id,
                old(self)@.next_snippet_id,
                SnippetModel { id, entity_id, data: data@, created: now, updated: now },
            );
        }
        Ok(id)
    }

    /// Inserts a relation between two entities; refused when either
    /// endpoint does not exist.  A self-relation is allowed.
    pub fn insert_relation(&mut self, entity_id_a: u32, entity_id_b: u32, now: u64) -> (r: Result<
        u32,
        StoreError,
    >)
        requires
            old(self).wf(),
            old(self)@.next_relation_id < u32::MAX,
        ensures
            final(self).wf(),
            match r {
                Ok(id) => old(self)@.has_entity(entity_id_a) && old(self)@.has_entity(entity_id_b)
                    && id == old(self)@.next_relation_id && final(self)@ == old(self)@.insert_relation(
                    entity_id_a,
                    entity_id_b,
                    now,
                ),
                Err(e) => !(old(self)@.has_entity(entity_id_a) && old(self)@.has_entity(
                    entity_id_b,
                )) && e == StoreError::MissingOwner && final(self)@ == old(self)@,
            },
    {
        if !self.contains_entity(entity_id_a) || !self.contains_entity(entity_id_b) {
            return Err(StoreError::MissingOwner);
        }
        let id = self.next_relation_id;
        self.relations.push(
            RelationRow { id, entity_id_a, entity_id_b, created: now, updated: now },
        );
        self.next_relation_id = id + 1;
        proof {
            assert(self@ =~~= old(self)@.insert_relation(entity_id_a, entity_id_b, now));
            lemma_table_push(
                old(self)@.relations,
                |r: RelationRow| r.id,
                old(self)@.next_relation_id,
                RelationRow { id, entity_id_a, entity_id_b, created: now, updated: now },
            );
        }
        Ok(id)
    }

    /// Inserts a snippet for the given relation; refused when the relation
    /// does not exist.
    pub fn insert_relation_snippet(&mut self, relation_id: u32, data: &str, now: u64) -> (r: Result<
        u32,
        StoreError,
    >)
        requires
            old(self).wf(),
            old(self)@.next_relation_snippet_id < u32::MAX,
        ensures
            final(self).wf(),
            match r {
                Ok(id) => old(self)@.has_relation(relation_id) && id == old(
                    self,
                )@.next_relation_snippet_id && final(self)@ == old(self)@.insert_relation_snippet(
                    relation_id,
                    data@,
                    now,
                ),
                Err(e) => !old(self)@.has_relation(relation_id) && e == StoreError::MissingOwner
                    && final(self)@ == old(self)@,
            },
    {
        if !self.contains_relation(relation_id) {
            return Err(StoreError::MissingOwner);
        }
        let id = self.next_relation_snippet_id;
        self.relation_snippets.push(
            RelationSnippetRow { id, relation_id, data: data.to_owned(), created: now, updated: now },
        );
        self.next_relation_snippet_id = id + 1;
        proof {
            assert(self@ =~~= old(self)@.insert_relation_snippet(relation_id, data@, now));
            lemma_table_push(
                old(self)@.relation_snippets,
                |r: RelationSnippetModel| r.id,
                old(self)@.next_relation_snippet_id,
                RelationSnippetModel { id, relation_id, data: data@, created: now, updated: now },
            );
        }
        Ok(id)
    }

    /// Adds a new entity together with its first alias and returns the
    /// entity's id.
    pub fn add_entity(&mut self, name: &str, now: u64) -> (r: u32)
        requires
            old(self).wf(),
            old(self)@.next_entity_id < u32::MAX,
            old(self)@.next_alias_id < u32::MAX,
        ensures
            final(self).wf(),
            r == old(self)@.next_entity_id,
            final(self)@ == old(self)@.insert_entity(now).insert_alias(
                old(self)@.next_entity_id,
                name@,
                now,
            ),
    {
        let id = self.insert_entity(now);
        proof {
            let mid = old(self)@.insert_entity(now);
            assert(mid.entities[mid.entities.len() - 1].id == id);
        }
        match self.insert_alias(id, name, now) {
            Ok(_) => id,
            Err(_) => vstd::pervasive::unreached(),
        }
    }

    /// The most recently assigned entity id, tracked even after the row
    /// itself is deleted; nothing before the first insertion.
    pub fn latest_entity_id(&self) -> (r: Option<u32>)
        requires
            self.wf(),
        ensures
            r == if self@.next_entity_id == 1 {
                Option::<u32>::None
            } else {
                Option::Some((self@.next_entity_id - 1) as u32)
            },
    {
        if self.next_entity_id == 1 {
            None
        } else {
            Some(self.next_entity_id - 1)
        }
    }

    /// The largest id among the relation rows that still exist, which is
    /// the id of the most recently inserted one.
    pub fn latest_relation_id(&self) -> (r: Option<u32>)
        requires
            self.wf(),
        ensures
            match r {
                Some(id) => self@.relations.len() > 0 && id == self@.relations.last().id
                    && forall|i: int|
                        0 <= i < self@.relations.len() ==> (#[trigger] self@.relations[i]).id
                            <= id,
                None => self@.relations.len() == 0,
            },
    {
        let n = self.relations.len();
        if n == 0 {
            None
        } else {
            Some(self.relations[n - 1].id)
        }
    }
}


/// A field-for-field copy of an alias row.
pub(crate) fn clone_alias(a: &AliasRow) -> (r: AliasRow)
    ensures
        r@ == a@,
{
    AliasRow {
        id: a.id,
        entity_id: a.entity_id,
        name: a.name.clone(),
        created: a.created,
        updated: a.updated,
    }
}

/// A field-for-field copy of a snippet row.
pub(crate) fn clone_snippet(s: &SnippetRow) -> (r: SnippetRow)
    ensures
        r@ == s@,
{
    SnippetRow {
        id: s.id,
        entity_id: s.entity_id,
        data: s.data.clone(),
        created: s.created,
        updated: s.updated,
    }
}

/// A field-for-field copy of a relation snippet row.
pub(crate) fn clone_relation_snippet(s: &RelationSnippetRow) -> (r: RelationSnippetRow)
    ensures
        r@ == s@,
{
    RelationSnippetRow {
        id: s.id,
        relation_id: s.relation_id,
        data: s.data.clone(),
        created: s.created,
        updated: s.updated,
    }
}

fn check_entity_table(v: &Vec<EntityRow>, next: u32) -> (b: bool)
    ensures
        b == table_ok(v@, |e: EntityRow| e.id, next),
{
    if next < 1 {
        return false;
    }
    let n = v.len();
    let mut k: usize = 0;
    while k < n
        invariant
            n == v.len(),
            k <= n,
            forall|t: int| 0 <= t < k ==> 1 <= (#[trigger] v@[t]).id < next,
            forall|t: int| 0 <= t < k - 1 ==> (#[trigger] v@[t]).id < v@[t + 1].id,
        decreases n - k,
    {
        if !(1 <= v[k].id && v[k].id < next) {
            assert(!(1 <= (v@[k as int]).id < next));
            return false;
        }
        if k > 0 && !(v[k - 1].id < v[k].id) {
            assert(!((v@[k as int - 1]).id < v@[k as int].id));
            return false;
        }
        k += 1;
    }
    proof {
        lemma_adjacent_increasing(v@, |e: EntityRow| e.id);
    }
    true
}

fn check_relation_table(v: &Vec<RelationRow>, next: u32) -> (b: bool)
    ensures
        b == table_ok(v@, |r: RelationRow| r.id, next),
{
    if next < 1 {
        return false;
    }
    let n = v.len();
    let mut k: usize = 0;
    while k < n
        invariant
            n == v.len(),
            k <= n,
            forall|t: int| 0 <= t < k ==> 1 <= (#[trigger] v@[t]).id < next,
            forall|t: int| 0 <= t < k - 1 ==> (#[trigger] v@[t]).id < v@[t + 1].id,
        decreases n - k,
    {
        if !(1 <= v[k].id && v[k].id < next) {
            assert(!(1 <= (v@[k as int]).id < next));
            return false;
        }
        if k > 0 && !(v[k - 1].id < v[k].id) {
            assert(!((v@[k as int - 1]).id < v@[k as int].id));
            return false;
        }
        k += 1;
    }
    proof {
        lemma_adjacent_increasing(v@, |r: RelationRow| r.id);
    }
    true
}

fn check_alias_table(v: &Vec<AliasRow>, next: u32) -> (b: bool)
    ensures
        b == table_ok(v@.map_values(|a: AliasRow| a@), |a: AliasModel| a.id, next),
{
    let ghost m = v@.map_values(|a: AliasRow| a@);
    if next < 1 {
        return false;
    }
    let n = v.len();
    let mut k: usize = 0;
    while k < n
        invariant
            n == v.len(),
            m == v@.map_values(|a: AliasRow| a@),
            k <= n,
            forall|t: int| 0 <= t < k ==> 1 <= (#[trigger] m[t]).id < next,
            forall|t: int| 0 <= t < k - 1 ==> (#[trigger] m[t]).id < m[t + 1].id,
        decreases n - k,
    {
        proof {
            assert(m[k as int] == v@[k as int]@);
        }
        if !(1 <= v[k].id && v[k].id < next) {
            assert(!(1 <= (m[k as int]).id < next));
            return false;
        }
        if k > 0 && !(v[k - 1].id < v[k].id) {
            proof {
                assert(m[k as int - 1] == v@[k as int - 1]@);
            }
            assert(!((m[k as int - 1]).id < m[k as int].id));
            return false;
        }
        proof {
            if k > 0 {
                assert(m[k as int - 1] == v@[k as int - 1]@);
            }
        }
        k += 1;
    }
    proof {
        lemma_adjacent_increasing(m, |a: AliasModel| a.id);
    }
    true
}

fn check_snippet_table(v: &Vec<SnippetRow>, next: u32) -> (b: bool)
    ensures
        b == table_ok(v@.map_values(|s: SnippetRow| s@), |s: SnippetModel| s.id, next),
{
    let ghost m = v@.map_values(|s: SnippetRow| s@);
    if next < 1 {
        return false;
    }
    let n = v.len();
    let mut k: usize = 0;
    while k < n
        invariant
            n == v.len(),
            m == v@.map_values(|s: SnippetRow| s@),
            k <= n,
            forall|t: int| 0 <= t < k ==> 1 <= (#[trigger] m[t]).id < next,
            forall|t: int| 0 <= t < k - 1 ==> (#[trigger] m[t]).id < m[t + 1].id,
        decreases n - k,
    {
        proof {
            assert(m[k as int] == v@[k as int]@);
        }
        if !(1 <= v[k].id && v[k].id < next) {
            assert(!(1 <= (m[k as int]).id < next));
            return false;
        }
        if k > 0 && !(v[k - 1].id < v[k].id) {
            proof {
                assert(m[k as int - 1] == v@[k as int - 1]@);
            }
            assert(!((m[k as int - 1]).id < m[k as int].id));
            return false;
        }
        proof {
            if k > 0 {
                assert(m[k as int - 1] == v@[k as int - 1]@);
            }
        }
        k += 1;
    }
    proof {
        lemma_adjacent_increasing(m, |s: SnippetModel| s.id);
    }
    true
}

fn check_relation_snippet_table(v: &Vec<RelationSnippetRow>, next: u32) -> (b: bool)
    ensures
        b == table_ok(
            v@.map_values(|r: RelationSnippetRow| r@),
            |r: RelationSnippetModel| r.id,
            next,
        ),
{
    let ghost m = v@.map_values(|r: RelationSnippetRow| r@);
    if next < 1 {
        return false;
    }
    let n = v.len();
    let mut k: usize = 0;
    while k < n
        invariant
            n == v.len(),
            m == v@.map_values(|r: RelationSnippetRow| r@),
            k <= n,
            forall|t: int| 0 <= t < k ==> 1 <= (#[trigger] m[t]).id < next,
            forall|t: int| 0 <= t < k - 1 ==> (#[trigger] m[t]).id < m[t + 1].id,
        decreases n - k,
    {
        proof {
            assert(m[k as int] == v@[k as int]@);
        }
        if !(1 <= v[k].id && v[k].id < next) {
            assert(!(1 <= (m[k as int]).id < next));
            return false;
        }
        if k > 0 && !(v[k - 1].id < v[k].id) {
            proof {
                assert(m[k as int - 1] == v@[k as int - 1]@);
            }
            assert(!((m[k as int - 1]).id < m[k as int].id));
            return false;
        }
        proof {
            if k > 0 {
                assert(m[k as int - 1] == v@[k as int - 1]@);
            }
        }
        k += 1;
    }
    proof {
        lemma_adjacent_increasing(m, |r: RelationSnippetModel| r.id);
    }
    true
}

impl Store {
    /// Assembles a store from rows a caller loaded elsewhere, after
    /// validating the store's shape: each table's ids positive, strictly
    /// increasing, and below that table's next free id.  Rows that do
    /// not fit that shape are refused.
    pub fn from_rows(
        entities: Vec<EntityRow>,
        aliases: Vec<AliasRow>,
        snippets: Vec<SnippetRow>,
        relations: Vec<RelationRow>,
        relation_snippets: Vec<RelationSnippetRow>,
        next_entity_id: u32,
        next_alias_id: u32,
        next_snippet_id: u32,
        next_relation_id: u32,
        next_relation_snippet_id: u32,
    ) -> (r: Option<Store>)
        ensures
            ({
                let m = StoreModel {
                    entities: entities@,
                    aliases: aliases@.map_values(|a: AliasRow| a@),
                    snippets: snippets@.map_values(|s: SnippetRow| s@),
                    relations: relations@,
                    relation_snippets: relation_snippets@.map_values(
                        |x: RelationSnippetRow| x@,
                    ),
                    next_entity_id,
                    next_alias_id,
                    next_snippet_id,
                    next_relation_id,
                    next_relation_snippet_id,
                };
                match r {
                    Some(s) => s.wf() && s@ == m,
                    None => !m.wf(),
                }
            }),
    {
        let ok = check_entity_table(&entities, next_entity_id) && check_alias_table(
            &aliases,
            next_alias_id,
        ) && check_snippet_table(&snippets, next_snippet_id) && check_relation_table(
            &relations,
            next_relation_id,
        ) && check_relation_snippet_table(&relation_snippets, next_relation_snippet_id);
        if ok {
            let s = Store {
                entities,
                aliases,
                snippets,
                relations,
                relation_snippets,
                next_entity_id,
                next_alias_id,
                next_snippet_id,
                next_relation_id,
                next_relation_snippet_id,
            };
            proof {
                assert(s@ =~~= StoreModel {
                    entities: s.entities@,
                    aliases: s.aliases@.map_values(|a: AliasRow| a@),
                    snippets: s.snippets@.map_values(|x: SnippetRow| x@),
                    relations: s.relations@,
                    relation_snippets: s.relation_snippets@.map_values(
                        |x: RelationSnippetRow| x@,
                    ),
                    next_entity_id,
                    next_alias_id,
                    next_snippet_id,
                    next_relation_id,
                    next_relation_snippet_id,
                });
            }
            Some(s)
        } else {
            None
        }
    }
}

/// The next free id of each table names no existing row: a fresh id can
/// never collide with one already handed out, and since deletion leaves
/// the counters alone, an id is never reused after its row is deleted.
pub proof fn lemma_next_ids_are_fresh(m: StoreModel)
    requires
        m.wf(),
    ensures
        !m.has_entity(m.next_entity_id),
        !m.has_alias(m.next_alias_id),
        !m.has_snippet(m.next_snippet_id),
        !m.has_relation(m.next_relation_id),
        !m.has_relation_snippet(m.next_relation_snippet_id),
{
    if m.has_entity(m.next_entity_id) {
        let i = choose|i: int|
            0 <= i < m.entities.len() && (#[trigger] m.entities[i]).id == m.next_entity_id;
    }
    if m.has_alias(m.next_alias_id) {
        let i = choose|i: int|
            0 <= i < m.aliases.len() && (#[trigger] m.aliases[i]).id == m.next_alias_id;
    }
    if m.has_snippet(m.next_snippet_id) {
        let i = choose|i: int|
            0 <= i < m.snippets.len() && (#[trigger] m.snippets[i]).id == m.next_snippet_id;
    }
    if m.has_relation(m.next_relation_id) {
        let i = choose|i: int|
            0 <= i < m.relations.len() && (#[trigger] m.relations[i]).id == m.next_relation_id;
    }
    if m.has_relation_snippet(m.next_relation_snippet_id) {
        let i = choose|i: int|
            0 <= i < m.relation_snippets.len() && (#[trigger] m.relation_snippets[i]).id
                == m.next_relation_snippet_id;
    }
}

} // verus!
