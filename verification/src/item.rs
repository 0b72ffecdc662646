//! The result rows that the query layer hands to a renderer, one shape
//! per verbosity tier or lookup, together with their mathematical values
//! and the semicolon-joined alias lists several of them carry.

use vstd::prelude::*;

use crate::facts::lemma_filter_push;
use crate::store::{AliasModel, AliasRow};
use crate::text::{join_names, join_with_semicolons};

verus! {

/// The plain (tier-zero) view of an entity: id and creation time.
#[derive(Debug, Clone, Copy, PartialEq, Eq, Structural)]
pub struct Entity {
    pub id: u32,
    pub created: u64,
}

/// The summary (tier-one) view of an entity: a list of up to four alias
/// names and the exact alias and snippet counts.
#[derive(Debug, PartialEq, Eq)]
pub struct EntityLong {
    pub id: u32,
    pub alias_list: String,
    pub alias_count: u32,
    pub snippet_count: u32,
    pub created: u64,
}

/// The kind tag of a row in the unified (tier-two) event log, in the
/// order the log sorts them.
#[derive(Debug, Clone, Copy, PartialEq, Eq, Structural)]
pub enum DetailKind {
    Alias,
    Entity,
    Relation,
    RelationSnippet,
    Snippet,
}

/// The position of a kind in the log's sort order.
pub open spec fn detail_rank(k: DetailKind) -> int {
    match k {
        DetailKind::Alias => 0,
        DetailKind::Entity => 1,
        DetailKind::Relation => 2,
        DetailKind::RelationSnippet => 3,
        DetailKind::Snippet => 4,
    }
}

/// One row of the unified (tier-two) event log of an entity.
#[derive(Debug, PartialEq, Eq)]
pub struct EntityLongLong {
    pub id: u32,
    pub data_type: DetailKind,
    pub data: String,
    pub last_modified: u64,
}

/// One alias row as a listing shows it.
#[derive(Debug, PartialEq, Eq)]
pub struct Alias {
    pub id: u32,
    pub name: String,
    pub updated: u64,
}

/// One snippet row as a listing shows it.
#[derive(Debug, PartialEq, Eq)]
pub struct Snippet {
    pub id: u32,
    pub data: String,
    pub updated: u64,
}

/// One relation row as a listing shows it.
#[derive(Debug, Clone, Copy, PartialEq, Eq, Structural)]
pub struct Relation {
    pub id: u32,
    pub entity_id_a: u32,
    pub entity_id_b: u32,
    pub updated: u64,
}

/// One relation row with the endpoints' alias lists resolved.
#[derive(Debug, PartialEq, Eq)]
pub struct RelationLong {
    pub id: u32,
    pub entity_id_a: u32,
    pub alias_list_a: String,
    pub entity_id_b: u32,
    pub alias_list_b: String,
    pub updated: u64,
}

/// One relation snippet row as a listing shows it.
#[derive(Debug, PartialEq, Eq)]
pub struct RelationSnippet {
    pub id: u32,
    pub data: String,
    pub updated: u64,
}

/// One alias matched by a name search.
#[derive(Debug, PartialEq, Eq)]
pub struct EntityFound {
    pub id: u32,
    pub name: String,
    pub entity_id: u32,
    pub updated: u64,
}

/// One alias matched by a name search, with the other aliases of the
/// same entity joined beside it.
#[derive(Debug, PartialEq, Eq)]
pub struct EntityFoundLong {
    pub id: u32,
    pub name: String,
    pub entity_id: u32,
    pub other_alias: String,
    pub updated: u64,
}

/// One snippet matched by a content search.
#[derive(Debug, PartialEq, Eq)]
pub struct SnippetFound {
    pub id: u32,
    pub data: String,
    pub entity_id: u32,
    pub updated: u64,
}

/// One relation snippet matched by a content search.
#[derive(Debug, PartialEq, Eq)]
pub struct RelationSnippetFound {
    pub id: u32,
    pub data: String,
    pub relation_id: u32,
    pub updated: u64,
}

/// One row of the table-count summary.
#[derive(Debug, PartialEq, Eq)]
pub struct Stats {
    pub stat_type: String,
    pub count: u32,
}

/// A sequence of result rows ready for a renderer.
#[derive(Debug, PartialEq, Eq)]
pub struct ComfyStruct<T> {
    pub data: Vec<T>,
}

/// The mathematical value of a tier-one row.
#[verifier::ext_equal]
pub struct EntityLongModel {
    pub id: u32,
    pub alias_list: Seq<char>,
    pub alias_count: u32,
    pub snippet_count: u32,
    pub created: u64,
}

/// The mathematical value of a tier-two log row.
#[verifier::ext_equal]
pub struct EntityLongLongModel {
    pub id: u32,
    pub data_type: DetailKind,
    pub data: Seq<char>,
    pub last_modified: u64,
}

/// The mathematical value of an alias listing row.
#[verifier::ext_equal]
pub struct AliasViewModel {
    pub id: u32,
    pub name: Seq<char>,
    pub updated: u64,
}

/// The mathematical value of a snippet listing row.
#[verifier::ext_equal]
pub struct SnippetViewModel {
    pub id: u32,
    pub data: Seq<char>,
    pub updated: u64,
}

/// The mathematical value of a resolved relation row.
#[verifier::ext_equal]
pub struct RelationLongModel {
    pub id: u32,
    pub entity_id_a: u32,
    pub alias_list_a: Seq<char>,
    pub entity_id_b: u32,
    pub alias_list_b: Seq<char>,
    pub updated: u64,
}

/// The mathematical value of a name-search row.
#[verifier::ext_equal]
pub struct EntityFoundModel {
    pub id: u32,
    pub name: Seq<char>,
    pub entity_id: u32,
    pub updated: u64,
}

/// The mathematical value of a verbose name-search row.
#[verifier::ext_equal]
pub struct EntityFoundLongModel {
    pub id: u32,
    pub name: Seq<char>,
    pub entity_id: u32,
    pub other_alias: Seq<char>,
    pub updated: u64,
}

/// The mathematical value of a snippet-search row.
#[verifier::ext_equal]
pub struct SnippetFoundModel {
    pub id: u32,
    pub data: Seq<char>,
    pub entity_id: u32,
    pub updated: u64,
}

/// The mathematical value of a relation-snippet-search row.
#[verifier::ext_equal]
pub struct RelationSnippetFoundModel {
    pub id: u32,
    pub data: Seq<char>,
    pub relation_id: u32,
    pub updated: u64,
}

/// The mathematical value of a table-count row.
#[verifier::ext_equal]
pub struct StatsModel {
    pub stat_type: Seq<char>,
    pub count: u32,
}

impl View for EntityLong {
    type V = EntityLongModel;

    open spec fn view(&self) -> EntityLongModel {
        EntityLongModel {
            id: self.id,
            alias_list: self.alias_list@,
            alias_count: self.alias_count,
            snippet_count: self.snippet_count,
            created: self.created,
        }
    }
}

impl View for EntityLongLong {
    type V = EntityLongLongModel;

    open spec fn view(&self) -> EntityLongLongModel {
        EntityLongLongModel {
            id: self.id,
            data_type: self.data_type,
            data: self.data@,
            last_modified: self.last_modified,
        }
    }
}

impl View for Alias {
    type V = AliasViewModel;

    open spec fn view(&self) -> AliasViewModel {
        AliasViewModel { id: self.id, name: self.name@, updated: self.updated }
    }
}

impl View for Snippet {
    type V = SnippetViewModel;

    open spec fn view(&self) -> SnippetViewModel {
        SnippetViewModel { id: self.id, data: self.data@, updated: self.updated }
    }
}

impl View for RelationLong {
    type V = RelationLongModel;

    open spec fn view(&self) -> RelationLongModel {
        RelationLongModel {
            id: self.id,
            entity_id_a: self.entity_id_a,
            alias_list_a: self.alias_list_a@,
            entity_id_b: self.entity_id_b,
            alias_list_b: self.alias_list_b@,
            updated: self.updated,
        }
    }
}

impl View for EntityFound {
    type V = EntityFoundModel;

    open spec fn view(&self) -> EntityFoundModel {
        EntityFoundModel {
            id: self.id,
            name: self.name@,
            entity_id: self.entity_id,
            updated: self.updated,
        }
    }
}

impl View for EntityFoundLong {
    type V = EntityFoundLongModel;

    open spec fn view(&self) -> EntityFoundLongModel {
        EntityFoundLongModel {
            id: self.id,
            name: self.name@,
            entity_id: self.entity_id,
            other_alias: self.other_alias@,
            updated: self.updated,
        }
    }
}

impl View for SnippetFound {
    type V = SnippetFoundModel;

    open spec fn view(&self) -> SnippetFoundModel {
        SnippetFoundModel {
            id: self.id,
            data: self.data@,
            entity_id: self.entity_id,
            updated: self.updated,
        }
    }
}

impl View for RelationSnippetFound {
    type V = RelationSnippetFoundModel;

    open spec fn view(&self) -> RelationSnippetFoundModel {
        RelationSnippetFoundModel {
            id: self.id,
            data: self.data@,
            relation_id: self.relation_id,
            updated: self.updated,
        }
    }
}

impl View for RelationSnippet {
    type V = SnippetViewModel;

    open spec fn view(&self) -> SnippetViewModel {
        SnippetViewModel { id: self.id, data: self.data@, updated: self.updated }
    }
}

impl View for Stats {
    type V = StatsModel;

    open spec fn view(&self) -> StatsModel {
        StatsModel { stat_type: self.stat_type@, count: self.count }
    }
}

/// Keeps the alias rows owned by the given entity.
pub open spec fn alias_of_entity(entity_id: u32) -> spec_fn(AliasModel) -> bool {
    |a: AliasModel| a.entity_id == entity_id
}

/// Keeps the alias rows that share the given entity but are not the row
/// itself.
pub open spec fn alias_sibling_of(entity_id: u32, id: u32) -> spec_fn(AliasModel) -> bool {
    |a: AliasModel| a.entity_id == entity_id && a.id != id
}

/// At most the first four elements.
pub open spec fn first_four<A>(s: Seq<A>) -> Seq<A> {
    if s.len() <= 4 {
        s
    } else {
        s.take(4)
    }
}

/// The names of the entity's aliases, in insertion order.
pub open spec fn alias_names_of(aliases: Seq<AliasModel>, entity_id: u32) -> Seq<Seq<char>> {
    aliases.filter(alias_of_entity(entity_id)).map_values(|a: AliasModel| a.name)
}

/// Up to four of the entity's alias names, joined with `"; "`: the
/// summary listings' alias list.
pub open spec fn alias_list_of(aliases: Seq<AliasModel>, entity_id: u32) -> Seq<char> {
    join_names(first_four(alias_names_of(aliases, entity_id)))
}

/// Every other alias name of the same entity, joined with `"; "`: the
/// verbose name search's "other alias" column.
pub open spec fn other_aliases_of(aliases: Seq<AliasModel>, entity_id: u32, id: u32) -> Seq<
    char,
> {
    join_names(aliases.filter(alias_sibling_of(entity_id, id)).map_values(|a: AliasModel| a.name))
}

fn collect_names_of_entity(aliases: &Vec<AliasRow>, entity_id: u32) -> (r: Vec<String>)
    ensures
        r@.map_values(|s: String| s@) == alias_names_of(
            aliases@.map_values(|a: AliasRow| a@),
            entity_id,
        ),
{
    let ghost m = aliases@.map_values(|a: AliasRow| a@);
    let n = aliases.len();
    let mut names: Vec<String> = Vec::new();
    let mut k: usize = 0;
    while k < n
        invariant
            n == aliases.len(),
            k <= n,
            m == aliases@.map_values(|a: AliasRow| a@),
            names@.map_values(|s: String| s@) =~= m.subrange(0, k as int).filter(
                alias_of_entity(entity_id),
            ).map_values(|a: AliasModel| a.name),
        decreases n - k,
    {
        proof {
            assert(m.subrange(0, k as int + 1) =~= m.subrange(0, k as int).push(m[k as int]));
            lemma_filter_push(m.subrange(0, k as int), m[k as int], alias_of_entity(entity_id));
            assert(m[k as int] == aliases@[k as int]@);
        }
        if aliases[k].entity_id == entity_id {
            let name = aliases[k].name.clone();
            names.push(name);
            proof {
                let pre = m.subrange(0, k as int).filter(alias_of_entity(entity_id));
                assert(pre.push(m[k as int]).map_values(|a: AliasModel| a.name) =~= pre.map_values(
                    |a: AliasModel| a.name,
                ).push(m[k as int].name));
                assert(names@.map_values(|s: String| s@) =~= names@.drop_last().map_values(
                    |s: String| s@,
                ).push(names@.last()@));
            }
        }
        k += 1;
    }
    proof {
        assert(m.subrange(0, n as int) =~= m);
    }
    names
}

fn collect_sibling_names(aliases: &Vec<AliasRow>, entity_id: u32, id: u32) -> (r: Vec<String>)
    ensures
        r@.map_values(|s: String| s@) == aliases@.map_values(|a: AliasRow| a@).filter(
            alias_sibling_of(entity_id, id),
        ).map_values(|a: AliasModel| a.name),
{
    let ghost m = aliases@.map_values(|a: AliasRow| a@);
    let n = aliases.len();
    let mut names: Vec<String> = Vec::new();
    let mut k: usize = 0;
    while k < n
        invariant
            n == aliases.len(),
            k <= n,
            m == aliases@.map_values(|a: AliasRow| a@),
            names@.map_values(|s: String| s@) =~= m.subrange(0, k as int).filter(
                alias_sibling_of(entity_id, id),
            ).map_values(|a: AliasModel| a.name),
        decreases n - k,
    {
        proof {
            assert(m.subrange(0, k as int + 1) =~= m.subrange(0, k as int).push(m[k as int]));
            lemma_filter_push(m.subrange(0, k as int), m[k as int], alias_sibling_of(entity_id, id));
            assert(m[k as int] == aliases@[k as int]@);
        }
        if aliases[k].entity_id == entity_id && aliases[k].id != id {
            let name = aliases[k].name.clone();
            names.push(name);
            proof {
                let pre = m.subrange(0, k as int).filter(alias_sibling_of(entity_id, id));
                assert(pre.push(m[k as int]).map_values(|a: AliasModel| a.name) =~= pre.map_values(
                    |a: AliasModel| a.name,
                ).push(m[k as int].name));
                assert(names@.map_values(|s: String| s@) =~= names@.drop_last().map_values(
                    |s: String| s@,
                ).push(names@.last()@));
            }
        }
        k += 1;
    }
    proof {
        assert(m.subrange(0, n as int) =~= m);
    }
    names
}

/// Up to four of the entity's alias names joined with `"; "`; the
/// executable side of `alias_list_of`.
pub fn alias_list_string(aliases: &Vec<AliasRow>, entity_id: u32) -> (r: String)
    ensures
        r@ == alias_list_of(aliases@.map_values(|a: AliasRow| a@), entity_id),
{
    let mut names = collect_names_of_entity(aliases, entity_id);
    let ghost all = names@.map_values(|s: String| s@);
    names.truncate(4);
    proof {
        if all.len() <= 4 {
            assert(names@.map_values(|s: String| s@) =~= first_four(all));
        } else {
            assert(names@.map_values(|s: String| s@) =~= all.take(4));
        }
    }
    join_with_semicolons(&names)
}

/// Every other alias of the entity joined with `"; "`; the executable
/// side of `other_aliases_of`.
pub fn other_aliases_string(aliases: &Vec<AliasRow>, entity_id: u32, id: u32) -> (r: String)
    ensures
        r@ == other_aliases_of(aliases@.map_values(|a: AliasRow| a@), entity_id, id),
{
    let names = collect_sibling_names(aliases, entity_id, id);
    join_with_semicolons(&names)
}

} // verus!
