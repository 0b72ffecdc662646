//! Fuzzy lookups: case-sensitive substring search over alias names and
//! snippet contents, and relation lookup by endpoint, each returning the
//! rows a renderer shows.  Name matches come back ordered by name, which
//! a verified insertion sort establishes.

use vstd::prelude::*;

use crate::delete::touches;
use crate::facts::lemma_filter_push;
use crate::item::{
    alias_list_of, alias_list_string, other_aliases_of, other_aliases_string, EntityFound,
    EntityFoundLong, EntityFoundLongModel, EntityFoundModel, Relation, RelationLong,
    RelationLongModel, RelationSnippetFound, RelationSnippetFoundModel, SnippetFound,
    SnippetFoundModel,
};
use crate::store::{
    clone_alias, AliasModel, AliasRow, RelationRow, RelationSnippetModel, SnippetModel, Store,
    StoreModel,
};
use crate::text::{contains_substring, contains_text, str_le, str_lt, str_lt_exec};

verus! {

/// Keeps the alias rows whose name contains the search text.
pub open spec fn alias_name_contains(sub: Seq<char>) -> spec_fn(AliasModel) -> bool {
    |a: AliasModel| contains_text(a.name, sub)
}

/// Keeps the snippet rows whose content contains the search text.
pub open spec fn snippet_contains(sub: Seq<char>) -> spec_fn(SnippetModel) -> bool {
    |s: SnippetModel| contains_text(s.data, sub)
}

/// Keeps the relation snippet rows whose content contains the search
/// text.
pub open spec fn relation_snippet_contains(sub: Seq<char>) -> spec_fn(
    RelationSnippetModel,
) -> bool {
    |r: RelationSnippetModel| contains_text(r.data, sub)
}

/// Keeps the relation rows that have the entity as either endpoint.
pub open spec fn relation_touching(entity_id: u32) -> spec_fn(RelationRow) -> bool {
    |r: RelationRow| touches(r, entity_id)
}

/// Inserts an alias row into a name-ordered sequence, after every row
/// whose name does not order strictly after it.
pub open spec fn insert_by_name(x: AliasModel, s: Seq<AliasModel>) -> Seq<AliasModel>
    decreases s.len(),
{
    if s.len() == 0 {
        seq![x]
    } else if str_lt(x.name, s[0].name) {
        seq![x] + s
    } else {
        seq![s[0]] + insert_by_name(x, s.drop_first())
    }
}

/// Insertion sort by alias name; rows with equal names keep their
/// relative order.
pub open spec fn sort_by_name(s: Seq<AliasModel>) -> Seq<AliasModel>
    decreases s.len(),
{
    if s.len() == 0 {
        s
    } else {
        insert_by_name(s.last(), sort_by_name(s.drop_last()))
    }
}

/// Names appear in ascending order.
pub open spec fn sorted_by_name(s: Seq<AliasModel>) -> bool {
    forall|i: int, j: int|
        0 <= i < j < s.len() ==> str_le((#[trigger] s[i]).name, (#[trigger] s[j]).name)
}

/// A text never orders strictly before itself, and two texts never
/// order strictly before each other.
proof fn lemma_str_lt_asym(a: Seq<char>, b: Seq<char>)
    requires
        str_lt(a, b),
    ensures
        !str_lt(b, a),
    decreases a.len(),
{
    if a.len() != 0 && b.len() != 0 && a[0] == b[0] {
        lemma_str_lt_asym(a.drop_first(), b.drop_first());
    }
}

/// Ordering strictly before something not smaller than a third text
/// keeps the first not larger than the third.
proof fn lemma_str_lt_le(a: Seq<char>, b: Seq<char>, c: Seq<char>)
    requires
        str_lt(a, b),
        str_le(b, c),
    ensures
        str_le(a, c),
{
    if str_lt(c, a) {
        crate::text::lemma_str_lt_trans(c, a, b);
    }
}

/// Where the insertion lands when `j` is the first position whose name
/// orders strictly after the new row's.
proof fn lemma_insert_by_name_at(x: AliasModel, s: Seq<AliasModel>, j: int)
    requires
        0 <= j <= s.len(),
        forall|t: int| 0 <= t < j ==> !str_lt(x.name, (#[trigger] s[t]).name),
        j < s.len() ==> str_lt(x.name, s[j].name),
    ensures
        insert_by_name(x, s) == s.take(j) + seq![x] + s.skip(j),
    decreases s.len(),
{
    if s.len() == 0 {
        assert(insert_by_name(x, s) =~= s.take(j) + seq![x] + s.skip(j));
    } else if j == 0 {
        assert(str_lt(x.name, s[0].name));
        assert(insert_by_name(x, s) =~= s.take(0) + seq![x] + s.skip(0));
    } else {
        assert(!str_lt(x.name, s[0].name));
        let rest = s.drop_first();
        assert forall|t: int| 0 <= t < j - 1 implies !str_lt(x.name, (#[trigger] rest[t]).name) by {
            assert(rest[t] == s[t + 1]);
        }
        assert(j - 1 < rest.len() ==> str_lt(x.name, rest[j - 1].name));
        lemma_insert_by_name_at(x, rest, j - 1);
        assert(seq![s[0]] + (rest.take(j - 1) + seq![x] + rest.skip(j - 1)) =~= s.take(j)
            + seq![x] + s.skip(j));
    }
}

/// Every row of an insertion result is the inserted row or one of the
/// originals.
proof fn lemma_insert_by_name_elems(x: AliasModel, s: Seq<AliasModel>)
    ensures
        insert_by_name(x, s).len() == s.len() + 1,
        forall|i: int|
            0 <= i < insert_by_name(x, s).len() ==> (#[trigger] insert_by_name(x, s)[i] == x
                || s.contains(insert_by_name(x, s)[i])),
    decreases s.len(),
{
    let ins = insert_by_name(x, s);
    if s.len() == 0 {
    } else if str_lt(x.name, s[0].name) {
        assert forall|i: int| 0 <= i < ins.len() implies (#[trigger] ins[i] == x || s.contains(
            ins[i],
        )) by {
            if i > 0 {
                assert(ins[i] == s[i - 1]);
            }
        }
    } else {
        let rest = s.drop_first();
        lemma_insert_by_name_elems(x, rest);
        let sub = insert_by_name(x, rest);
        assert forall|i: int| 0 <= i < ins.len() implies (#[trigger] ins[i] == x || s.contains(
            ins[i],
        )) by {
            if i == 0 {
                assert(ins[0] == s[0]);
            } else {
                assert(ins[i] == sub[i - 1]);
                if sub[i - 1] != x {
                    let w = choose|w: int| 0 <= w < rest.len() && rest[w] == sub[i - 1];
                    assert(s[w + 1] == sub[i - 1]);
                }
            }
        }
    }
}

/// Inserting keeps every original row and adds the new one.
proof fn lemma_insert_by_name_keeps(x: AliasModel, s: Seq<AliasModel>)
    ensures
        insert_by_name(x, s).contains(x),
        forall|t: int|
            0 <= t < s.len() ==> insert_by_name(x, s).contains(#[trigger] s[t]),
    decreases s.len(),
{
    let ins = insert_by_name(x, s);
    if s.len() == 0 {
        assert(ins[0] == x);
    } else if str_lt(x.name, s[0].name) {
        assert(ins[0] == x);
        assert forall|t: int| 0 <= t < s.len() implies ins.contains(#[trigger] s[t]) by {
            assert(ins[t + 1] == s[t]);
        }
    } else {
        let rest = s.drop_first();
        lemma_insert_by_name_keeps(x, rest);
        let sub = insert_by_name(x, rest);
        let wx = choose|w: int| 0 <= w < sub.len() && sub[w] == x;
        assert(ins[wx + 1] == x);
        assert forall|t: int| 0 <= t < s.len() implies ins.contains(#[trigger] s[t]) by {
            if t == 0 {
                assert(ins[0] == s[0]);
            } else {
                assert(rest[t - 1] == s[t]);
                assert(sub.contains(rest[t - 1]));
                let w = choose|w: int| 0 <= w < sub.len() && sub[w] == rest[t - 1];
                assert(ins[w + 1] == s[t]);
            }
        }
    }
}

/// Inserting into a name-ordered sequence keeps it ordered.
proof fn lemma_insert_by_name_sorted(x: AliasModel, s: Seq<AliasModel>)
    requires
        sorted_by_name(s),
    ensures
        sorted_by_name(insert_by_name(x, s)),
    decreases s.len(),
{
    let ins = insert_by_name(x, s);
    if s.len() == 0 {
    } else if str_lt(x.name, s[0].name) {
        assert forall|i: int, j: int| 0 <= i < j < ins.len() implies str_le(
            (#[trigger] ins[i]).name,
            (#[trigger] ins[j]).name,
        ) by {
            if i == 0 {
                lemma_str_lt_asym(x.name, s[0].name);
                if j > 1 {
                    assert(str_le(s[0].name, s[j - 1].name));
                    lemma_str_lt_le(x.name, s[0].name, s[j - 1].name);
                }
                assert(ins[j] == s[j - 1]);
            } else {
                assert(ins[i] == s[i - 1] && ins[j] == s[j - 1]);
                assert(str_le(s[i - 1].name, s[j - 1].name));
            }
        }
    } else {
        let rest = s.drop_first();
        assert forall|i: int, j: int| 0 <= i < j < rest.len() implies str_le(
            (#[trigger] rest[i]).name,
            (#[trigger] rest[j]).name,
        ) by {
            assert(rest[i] == s[i + 1] && rest[j] == s[j + 1]);
        }
        lemma_insert_by_name_sorted(x, rest);
        lemma_insert_by_name_elems(x, rest);
        let sub = insert_by_name(x, rest);
        assert forall|i: int, j: int| 0 <= i < j < ins.len() implies str_le(
            (#[trigger] ins[i]).name,
            (#[trigger] ins[j]).name,
        ) by {
            if i == 0 {
                assert(ins[j] == sub[j - 1]);
                if sub[j - 1] == x {
                    assert(str_le(s[0].name, x.name));
                } else {
                    let w = choose|w: int| 0 <= w < rest.len() && rest[w] == sub[j - 1];
                    assert(rest[w] == s[w + 1]);
                    assert(str_le(s[0].name, s[w + 1].name));
                }
            } else {
                assert(ins[i] == sub[i - 1] && ins[j] == sub[j - 1]);
                assert(str_le(sub[i - 1].name, sub[j - 1].name));
            }
        }
    }
}

/// The insertion sort leaves names in ascending order.
pub proof fn lemma_sort_by_name_sorted(s: Seq<AliasModel>)
    ensures
        sorted_by_name(sort_by_name(s)),
    decreases s.len(),
{
    if s.len() > 0 {
        lemma_sort_by_name_sorted(s.drop_last());
        lemma_insert_by_name_sorted(s.last(), sort_by_name(s.drop_last()));
    }
}

/// The insertion sort keeps exactly the rows it was given.
pub proof fn lemma_sort_by_name_contains(s: Seq<AliasModel>)
    ensures
        sort_by_name(s).len() == s.len(),
        forall|t: int| 0 <= t < s.len() ==> sort_by_name(s).contains(#[trigger] s[t]),
        forall|i: int|
            0 <= i < s.len() ==> s.contains(#[trigger] sort_by_name(s)[i]),
    decreases s.len(),
{
    if s.len() > 0 {
        let rest = s.drop_last();
        lemma_sort_by_name_contains(rest);
        let sorted_rest = sort_by_name(rest);
        lemma_insert_by_name_elems(s.last(), sorted_rest);
        lemma_insert_by_name_keeps(s.last(), sorted_rest);
        let ins = sort_by_name(s);
        assert forall|t: int| 0 <= t < s.len() implies ins.contains(#[trigger] s[t]) by {
            if t == s.len() - 1 {
                assert(ins.contains(s.last()));
            } else {
                assert(rest[t] == s[t]);
                assert(sorted_rest.contains(rest[t]));
                let w = choose|w: int| 0 <= w < sorted_rest.len() && sorted_rest[w] == rest[t];
                assert(ins.contains(sorted_rest[w]));
            }
        }
        assert forall|i: int| 0 <= i < s.len() implies s.contains(#[trigger] ins[i]) by {
            if ins[i] == s.last() {
                assert(s[s.len() - 1] == s.last());
            } else {
                assert(sorted_rest.contains(ins[i]));
                let w = choose|w: int| 0 <= w < sorted_rest.len() && sorted_rest[w] == ins[i];
                assert(rest.contains(sorted_rest[w]));
                let v = choose|v: int| 0 <= v < rest.len() && rest[v] == ins[i];
                assert(s[v] == ins[i]);
            }
        }
    }
}

fn find_insert_pos(out: &Vec<AliasRow>, row: &AliasRow) -> (j: usize)
    ensures
        j <= out@.len(),
        forall|t: int| 0 <= t < j ==> !str_lt(row@.name, (#[trigger] out@[t])@.name),
        j < out@.len() ==> str_lt(row@.name, out@[j as int]@.name),
{
    let n = out.len();
    let mut j: usize = 0;
    while j < n
        invariant
            n == out.len(),
            j <= n,
            forall|t: int| 0 <= t < j ==> !str_lt(row@.name, (#[trigger] out@[t])@.name),
        decreases n - j,
    {
        if str_lt_exec(row.name.as_str(), out[j].name.as_str()) {
            return j;
        }
        j += 1;
    }
    j
}

/// Orders alias rows by name with an insertion sort; the executable side
/// of `sort_by_name`.
pub(crate) fn sort_aliases(v: Vec<AliasRow>) -> (r: Vec<AliasRow>)
    ensures
        r@.map_values(|a: AliasRow| a@) == sort_by_name(v@.map_values(|a: AliasRow| a@)),
{
    let ghost m = v@.map_values(|a: AliasRow| a@);
    let n = v.len();
    let mut out: Vec<AliasRow> = Vec::new();
    let mut k: usize = 0;
    while k < n
        invariant
            n == v.len(),
            k <= n,
            m == v@.map_values(|a: AliasRow| a@),
            out@.map_values(|a: AliasRow| a@) == sort_by_name(m.take(k as int)),
        decreases n - k,
    {
        let row = clone_alias(&v[k]);
        let ghost x = m[k as int];
        let ghost s_out = out@.map_values(|a: AliasRow| a@);
        proof {
            assert(row@ == x);
        }
        let j = find_insert_pos(&out, &row);
        let ghost rows0 = out@;
        out.insert(j, row);
        proof {
            assert forall|t: int| 0 <= t < j implies !str_lt(
                x.name,
                (#[trigger] s_out[t]).name,
            ) by {
                assert(s_out[t] == rows0[t]@);
            }
            assert(j < s_out.len() ==> str_lt(x.name, s_out[j as int].name));
            lemma_insert_by_name_at(x, s_out, j as int);
            rows0.insert_ensures(j as int, row);
            let target = s_out.take(j as int) + seq![x] + s_out.skip(j as int);
            assert forall|i: int| 0 <= i < out@.len() implies out@.map_values(|a: AliasRow| a@)[i]
                == target[i] by {
                if i < j {
                    assert(out@[i] == rows0[i]);
                    assert(rows0[i]@ == s_out[i]);
                } else if i == j {
                    assert(out@[i] == row);
                } else {
                    assert(out@[i] == rows0[i - 1]);
                    assert(rows0[i - 1]@ == s_out[i - 1]);
                }
            }
            assert(out@.map_values(|a: AliasRow| a@) =~= target);
            assert(m.take(k as int + 1).drop_last() =~= m.take(k as int));
            assert(m.take(k as int + 1).last() == x);
        }
        k += 1;
    }
    proof {
        assert(m.take(n as int) =~= m);
    }
    out
}


/// The verbose name-search row built from an alias row, with the other
/// aliases of its entity joined beside it.
pub open spec fn entity_found_long_of(aliases: Seq<AliasModel>) -> spec_fn(
    AliasModel,
) -> EntityFoundLongModel {
    |a: AliasModel|
        EntityFoundLongModel {
            id: a.id,
            name: a.name,
            entity_id: a.entity_id,
            other_alias: other_aliases_of(aliases, a.entity_id, a.id),
            updated: a.updated,
        }
}

/// The resolved relation row built from a relation, with up to four
/// alias names per endpoint.
pub open spec fn relation_long_of(aliases: Seq<AliasModel>) -> spec_fn(
    RelationRow,
) -> RelationLongModel {
    |r: RelationRow|
        RelationLongModel {
            id: r.id,
            entity_id_a: r.entity_id_a,
            alias_list_a: alias_list_of(aliases, r.entity_id_a),
            entity_id_b: r.entity_id_b,
            alias_list_b: alias_list_of(aliases, r.entity_id_b),
            updated: r.updated,
        }
}

impl StoreModel {
    /// Name search: the aliases whose name contains the text, ordered by
    /// name.
    pub open spec fn find_alias(self, sub: Seq<char>) -> Seq<EntityFoundModel> {
        sort_by_name(self.aliases.filter(alias_name_contains(sub))).map_values(
            |a: AliasModel|
                EntityFoundModel {
                    id: a.id,
                    name: a.name,
                    entity_id: a.entity_id,
                    updated: a.updated,
                },
        )
    }

    /// Verbose name search: every match also lists the other aliases of
    /// its entity.
    pub open spec fn find_alias_verbose(self, sub: Seq<char>) -> Seq<EntityFoundLongModel> {
        sort_by_name(self.aliases.filter(alias_name_contains(sub))).map_values(
            entity_found_long_of(self.aliases),
        )
    }

    /// The relations that have the entity as either endpoint, in
    /// insertion order.
    pub open spec fn find_relation(self, entity_id: u32) -> Seq<Relation> {
        self.relations.filter(relation_touching(entity_id)).map_values(
            |r: RelationRow|
                Relation {
                    id: r.id,
                    entity_id_a: r.entity_id_a,
                    entity_id_b: r.entity_id_b,
                    updated: r.updated,
                },
        )
    }

    /// The touching relations with both endpoints' alias lists resolved.
    pub open spec fn find_relation_verbose(self, entity_id: u32) -> Seq<RelationLongModel> {
        self.relations.filter(relation_touching(entity_id)).map_values(
            relation_long_of(self.aliases),
        )
    }

    /// Content search over snippets, in insertion order.
    pub open spec fn find_snippet(self, sub: Seq<char>) -> Seq<SnippetFoundModel> {
        self.snippets.filter(snippet_contains(sub)).map_values(
            |s: SnippetModel|
                SnippetFoundModel {
                    id: s.id,
                    data: s.data,
                    entity_id: s.entity_id,
                    updated: s.updated,
                },
        )
    }

    /// Content search over relation snippets, in insertion order.
    pub open spec fn find_relation_snippet(self, sub: Seq<char>) -> Seq<
        RelationSnippetFoundModel,
    > {
        self.relation_snippets.filter(relation_snippet_contains(sub)).map_values(
            |r: RelationSnippetModel|
                RelationSnippetFoundModel {
                    id: r.id,
                    data: r.data,
                    relation_id: r.relation_id,
                    updated: r.updated,
                },
        )
    }
}

fn collect_matching_aliases(aliases: &Vec<AliasRow>, sub: &str) -> (r: Vec<AliasRow>)
    ensures
        r@.map_values(|a: AliasRow| a@) == aliases@.map_values(|a: AliasRow| a@).filter(
            alias_name_contains(sub@),
        ),
{
    let ghost m = aliases@.map_values(|a: AliasRow| a@);
    let n = aliases.len();
    let mut out: Vec<AliasRow> = Vec::new();
    let mut k: usize = 0;
    while k < n
        invariant
            n == aliases.len(),
            k <= n,
            m == aliases@.map_values(|a: AliasRow| a@),
            out@.map_values(|a: AliasRow| a@) =~= m.subrange(0, k as int).filter(
                alias_name_contains(sub@),
            ),
        decreases n - k,
    {
        proof {
            assert(m.subrange(0, k as int + 1) =~= m.subrange(0, k as int).push(m[k as int]));
            lemma_filter_push(m.subrange(0, k as int), m[k as int], alias_name_contains(sub@));
            assert(m[k as int] == aliases@[k as int]@);
        }
        if contains_substring(aliases[k].name.as_str(), sub) {
            let row = clone_alias(&aliases[k]);
            out.push(row);
            proof {
                assert(out@.map_values(|a: AliasRow| a@) =~= out@.drop_last().map_values(
                    |a: AliasRow| a@,
                ).push(out@.last()@));
            }
        }
        k += 1;
    }
    proof {
        assert(m.subrange(0, n as int) =~= m);
    }
    out
}

impl Store {
    /// Case-sensitive substring search over alias names, ordered by
    /// name.
    pub fn find_alias(&self, sub: &str) -> (r: Vec<EntityFound>)
        ensures
            r@.map_values(|e: EntityFound| e@) == self@.find_alias(sub@),
    {
        let matched = collect_matching_aliases(&self.aliases, sub);
        let sorted = sort_aliases(matched);
        let ghost sm = sorted@.map_values(|a: AliasRow| a@);
        let n = sorted.len();
        let mut out: Vec<EntityFound> = Vec::new();
        let mut k: usize = 0;
        while k < n
            invariant
                n == sorted.len(),
                k <= n,
                sm == sorted@.map_values(|a: AliasRow| a@),
                out@.map_values(|e: EntityFound| e@) =~= sm.take(k as int).map_values(
                    |a: AliasModel|
                        EntityFoundModel {
                            id: a.id,
                            name: a.name,
                            entity_id: a.entity_id,
                            updated: a.updated,
                        },
                ),
            decreases n - k,
        {
            let row = EntityFound {
                id: sorted[k].id,
                name: sorted[k].name.clone(),
                entity_id: sorted[k].entity_id,
                updated: sorted[k].updated,
            };
            proof {
                assert(sm[k as int] == sorted@[k as int]@);
            }
            out.push(row);
            proof {
                assert(sm.take(k as int + 1) =~= sm.take(k as int).push(sm[k as int]));
                assert(out@.map_values(|e: EntityFound| e@) =~= out@.drop_last().map_values(
                    |e: EntityFound| e@,
                ).push(out@.last()@));
                assert(sm.take(k as int + 1).map_values(
                    |a: AliasModel|
                        EntityFoundModel {
                            id: a.id,
                            name: a.name,
                            entity_id: a.entity_id,
                            updated: a.updated,
                        },
                ) =~= sm.take(k as int).map_values(
                    |a: AliasModel|
                        EntityFoundModel {
                            id: a.id,
                            name: a.name,
                            entity_id: a.entity_id,
                            updated: a.updated,
                        },
                ).push(row@));
            }
            k += 1;
        }
        proof {
            assert(sm.take(n as int) =~= sm);
        }
        out
    }

    /// Verbose name search: each match carries the other aliases of its
    /// entity, joined with `"; "`.
    pub fn find_alias_verbose(&self, sub: &str) -> (r: Vec<EntityFoundLong>)
        ensures
            r@.map_values(|e: EntityFoundLong| e@) == self@.find_alias_verbose(sub@),
    {
        let matched = collect_matching_aliases(&self.aliases, sub);
        let sorted = sort_aliases(matched);
        let ghost sm = sorted@.map_values(|a: AliasRow| a@);
        let ghost f = entity_found_long_of(self@.aliases);
        let n = sorted.len();
        let mut out: Vec<EntityFoundLong> = Vec::new();
        let mut k: usize = 0;
        while k < n
            invariant
                n == sorted.len(),
                k <= n,
                sm == sorted@.map_values(|a: AliasRow| a@),
                f == entity_found_long_of(self@.aliases),
                out@.map_values(|e: EntityFoundLong| e@) =~= sm.take(k as int).map_values(f),
            decreases n - k,
        {
            let other = other_aliases_string(&self.aliases, sorted[k].entity_id, sorted[k].id);
            let row = EntityFoundLong {
                id: sorted[k].id,
                name: sorted[k].name.clone(),
                entity_id: sorted[k].entity_id,
                other_alias: other,
                updated: sorted[k].updated,
            };
            proof {
                assert(sm[k as int] == sorted@[k as int]@);
                assert(row@ =~= f(sm[k as int]));
            }
            out.push(row);
            proof {
                assert(sm.take(k as int + 1) =~= sm.take(k as int).push(sm[k as int]));
                assert(out@.map_values(|e: EntityFoundLong| e@) =~= out@.drop_last().map_values(
                    |e: EntityFoundLong| e@,
                ).push(out@.last()@));
                assert(sm.take(k as int + 1).map_values(f) =~= sm.take(k as int).map_values(
                    f,
                ).push(f(sm[k as int])));
            }
            k += 1;
        }
        proof {
            assert(sm.take(n as int) =~= sm);
        }
        out
    }

    /// The relations that have the given entity as either endpoint.
    pub fn find_relation(&self, entity_id: u32) -> (r: Vec<Relation>)
        ensures
            r@ == self@.find_relation(entity_id),
    {
        let ghost m = self@.relations;
        let n = self.relations.len();
        let mut out: Vec<Relation> = Vec::new();
        let mut k: usize = 0;
        while k < n
            invariant
                n == self.relations.len(),
                m == self@.relations,
                k <= n,
                out@ =~= m.subrange(0, k as int).filter(relation_touching(entity_id)).map_values(
                    |r: RelationRow|
                        Relation {
                            id: r.id,
                            entity_id_a: r.entity_id_a,
                            entity_id_b: r.entity_id_b,
                            updated: r.updated,
                        },
                ),
            decreases n - k,
        {
            proof {
                assert(m.subrange(0, k as int + 1) =~= m.subrange(0, k as int).push(m[k as int]));
                lemma_filter_push(m.subrange(0, k as int), m[k as int], relation_touching(entity_id));
            }
            if self.relations[k].entity_id_a == entity_id || self.relations[k].entity_id_b
                == entity_id {
                let rel = self.relations[k];
                out.push(
                    Relation {
                        id: rel.id,
                        entity_id_a: rel.entity_id_a,
                        entity_id_b: rel.entity_id_b,
                        updated: rel.updated,
                    },
                );
                proof {
                    let pre = m.subrange(0, k as int).filter(relation_touching(entity_id));
                    assert(pre.push(m[k as int]).map_values(
                        |r: RelationRow|
                            Relation {
                                id: r.id,
                                entity_id_a: r.entity_id_a,
                                entity_id_b: r.entity_id_b,
                                updated: r.updated,
                            },
                    ) =~= pre.map_values(
                        |r: RelationRow|
                            Relation {
                                id: r.id,
                                entity_id_a: r.entity_id_a,
                                entity_id_b: r.entity_id_b,
                                updated: r.updated,
                            },
                    ).push(out@.last()));
                }
            }
            k += 1;
        }
        proof {
            assert(m.subrange(0, n as int) =~= m);
        }
        out
    }

    /// The touching relations with up to four alias names resolved for
    /// each endpoint.
    pub fn find_relation_verbose(&self, entity_id: u32) -> (r: Vec<RelationLong>)
        ensures
            r@.map_values(|e: RelationLong| e@) == self@.find_relation_verbose(entity_id),
    {
        let ghost m = self@.relations;
        let ghost f = relation_long_of(self@.aliases);
        let n = self.relations.len();
        let mut out: Vec<RelationLong> = Vec::new();
        let mut k: usize = 0;
        while k < n
            invariant
                n == self.relations.len(),
                m == self@.relations,
                f == relation_long_of(self@.aliases),
                k <= n,
                out@.map_values(|e: RelationLong| e@) =~= m.subrange(0, k as int).filter(
                    relation_touching(entity_id),
                ).map_values(f),
            decreases n - k,
        {
            proof {
                assert(m.subrange(0, k as int + 1) =~= m.subrange(0, k as int).push(m[k as int]));
                lemma_filter_push(m.subrange(0, k as int), m[k as int], relation_touching(entity_id));
            }
            if self.relations[k].entity_id_a == entity_id || self.relations[k].entity_id_b
                == entity_id {
                let rel = self.relations[k];
                let list_a = alias_list_string(&self.aliases, rel.entity_id_a);
                let list_b = alias_list_string(&self.aliases, rel.entity_id_b);
                let row = RelationLong {
                    id: rel.id,
                    entity_id_a: rel.entity_id_a,
                    alias_list_a: list_a,
                    entity_id_b: rel.entity_id_b,
                    alias_list_b: list_b,
                    updated: rel.updated,
                };
                proof {
                    assert(row@ =~= f(m[k as int]));
                }
                out.push(row);
                proof {
                    let pre = m.subrange(0, k as int).filter(relation_touching(entity_id));
                    assert(pre.push(m[k as int]).map_values(f) =~= pre.map_values(f).push(
                        f(m[k as int]),
                    ));
                    assert(out@.map_values(|e: RelationLong| e@) =~= out@.drop_last().map_values(
                        |e: RelationLong| e@,
                    ).push(out@.last()@));
                }
            }
            k += 1;
        }
        proof {
            assert(m.subrange(0, n as int) =~= m);
        }
        out
    }

    /// Case-sensitive substring search over snippet contents.
    pub fn find_snippet(&self, sub: &str) -> (r: Vec<SnippetFound>)
        ensures
            r@.map_values(|e: SnippetFound| e@) == self@.find_snippet(sub@),
    {
        let ghost m = self@.snippets;
        let n = self.snippets.len();
        let mut out: Vec<SnippetFound> = Vec::new();
        let mut k: usize = 0;
        while k < n
            invariant
                n == self.snippets.len(),
                m == self@.snippets,
                k <= n,
                out@.map_values(|e: SnippetFound| e@) =~= m.subrange(0, k as int).filter(
                    snippet_contains(sub@),
                ).map_values(
                    |s: SnippetModel|
                        SnippetFoundModel {
                            id: s.id,
                            data: s.data,
                            entity_id: s.entity_id,
                            updated: s.updated,
                        },
                ),
            decreases n - k,
        {
            proof {
                assert(m.subrange(0, k as int + 1) =~= m.subrange(0, k as int).push(m[k as int]));
                lemma_filter_push(m.subrange(0, k as int), m[k as int], snippet_contains(sub@));
                assert(m[k as int] == self.snippets@[k as int]@);
            }
            if contains_substring(self.snippets[k].data.as_str(), sub) {
                let row = SnippetFound {
                    id: self.snippets[k].id,
                    data: self.snippets[k].data.clone(),
                    entity_id: self.snippets[k].entity_id,
                    updated: self.snippets[k].updated,
                };
                proof {
                    assert(row@ =~= SnippetFoundModel {
                        id: m[k as int].id,
                        data: m[k as int].data,
                        entity_id: m[k as int].entity_id,
                        updated: m[k as int].updated,
                    });
                }
                out.push(row);
                proof {
                    let pre = m.subrange(0, k as int).filter(snippet_contains(sub@));
                    assert(pre.push(m[k as int]).map_values(
                        |s: SnippetModel|
                            SnippetFoundModel {
                                id: s.id,
                                data: s.data,
                                entity_id: s.entity_id,
                                updated: s.updated,
                            },
                    ) =~= pre.map_values(
                        |s: SnippetModel|
                            SnippetFoundModel {
                                id: s.id,
                                data: s.data,
                                entity_id: s.entity_id,
                                updated: s.updated,
                            },
                    ).push(row@));
                    assert(out@.map_values(|e: SnippetFound| e@) =~= out@.drop_last().map_values(
                        |e: SnippetFound| e@,
                    ).push(out@.last()@));
                }
            }
            k += 1;
        }
        proof {
            assert(m.subrange(0, n as int) =~= m);
        }
        out
    }

    /// Case-sensitive substring search over relation snippet contents.
    pub fn find_relation_snippet(&self, sub: &str) -> (r: Vec<RelationSnippetFound>)
        ensures
            r@.map_values(|e: RelationSnippetFound| e@) == self@.find_relation_snippet(sub@),
    {
        let ghost m = self@.relation_snippets;
        let n = self.relation_snippets.len();
        let mut out: Vec<RelationSnippetFound> = Vec::new();
        let mut k: usize = 0;
        while k < n
            invariant
                n == self.relation_snippets.len(),
                m == self@.relation_snippets,
                k <= n,
                out@.map_values(|e: RelationSnippetFound| e@) =~= m.subrange(0, k as int).filter(
                    relation_snippet_contains(sub@),
                ).map_values(
                    |s: RelationSnippetModel|
                        RelationSnippetFoundModel {
                            id: s.id,
                            data: s.data,
                            relation_id: s.relation_id,
                            updated: s.updated,
                        },
                ),
            decreases n - k,
        {
            proof {
                assert(m.subrange(0, k as int + 1) =~= m.subrange(0, k as int).push(m[k as int]));
                lemma_filter_push(
                    m.subrange(0, k as int),
                    m[k as int],
                    relation_snippet_contains(sub@),
                );
                assert(m[k as int] == self.relation_snippets@[k as int]@);
            }
            if contains_substring(self.relation_snippets[k].data.as_str(), sub) {
                let row = RelationSnippetFound {
                    id: self.relation_snippets[k].id,
                    data: self.relation_snippets[k].data.clone(),
                    relation_id: self.relation_snippets[k].relation_id,
                    updated: self.relation_snippets[k].updated,
                };
                proof {
                    assert(row@ =~= RelationSnippetFoundModel {
                        id: m[k as int].id,
                        data: m[k as int].data,
                        relation_id: m[k as int].relation_id,
                        updated: m[k as int].updated,
                    });
                }
                out.push(row);
                proof {
                    let pre = m.subrange(0, k as int).filter(relation_snippet_contains(sub@));
                    assert(pre.push(m[k as int]).map_values(
                        |s: RelationSnippetModel|
                            RelationSnippetFoundModel {
                                id: s.id,
                                data: s.data,
                                relation_id: s.relation_id,
                                updated: s.updated,
                            },
                    ) =~= pre.map_values(
                        |s: RelationSnippetModel|
                            RelationSnippetFoundModel {
                                id: s.id,
                                data: s.data,
                                relation_id: s.relation_id,
                                updated: s.updated,
                            },
                    ).push(row@));
                    assert(out@.map_values(|e: RelationSnippetFound| e@)
                        =~= out@.drop_last().map_values(|e: RelationSnippetFound| e@).push(
                        out@.last()@,
                    ));
                }
            }
            k += 1;
        }
        proof {
            assert(m.subrange(0, n as int) =~= m);
        }
        out
    }
}

/// An alias whose name contains the search text anywhere appears in the
/// name search's result, whatever the position of the occurrence: the
/// match is position-independent and compares characters exactly.
pub proof fn lemma_find_alias_matches_any_occurrence(
    m: StoreModel,
    sub: Seq<char>,
    k: int,
    pos: int,
)
    requires
        0 <= k < m.aliases.len(),
        crate::text::occurs_at(m.aliases[k].name, sub, pos),
    ensures
        exists|j: int|
            0 <= j < m.find_alias(sub).len() && (#[trigger] m.find_alias(sub)[j]).id
                == m.aliases[k].id && m.find_alias(sub)[j].name == m.aliases[k].name
                && m.find_alias(sub)[j].entity_id == m.aliases[k].entity_id,
{
    let row = m.aliases[k];
    let pred = alias_name_contains(sub);
    assert(pred(row));
    m.aliases.lemma_filter_contains(pred, k);
    let filtered = m.aliases.filter(pred);
    let w = choose|w: int| 0 <= w < filtered.len() && filtered[w] == row;
    lemma_sort_by_name_contains(filtered);
    let sorted = sort_by_name(filtered);
    assert(sorted.contains(filtered[w]));
    let j = choose|j: int| 0 <= j < sorted.len() && sorted[j] == row;
    assert((#[trigger] m.find_alias(sub)[j]).id == row.id && m.find_alias(sub)[j].name == row.name
        && m.find_alias(sub)[j].entity_id == row.entity_id);
}

/// The name search hands its matches back ordered by name.
pub proof fn lemma_find_alias_sorted(m: StoreModel, sub: Seq<char>)
    ensures
        forall|i: int, j: int|
            0 <= i < j < m.find_alias(sub).len() ==> str_le(
                (#[trigger] m.find_alias(sub)[i]).name,
                (#[trigger] m.find_alias(sub)[j]).name,
            ),
{
    let sorted = sort_by_name(m.aliases.filter(alias_name_contains(sub)));
    lemma_sort_by_name_sorted(m.aliases.filter(alias_name_contains(sub)));
    assert forall|i: int, j: int| 0 <= i < j < m.find_alias(sub).len() implies str_le(
        (#[trigger] m.find_alias(sub)[i]).name,
        (#[trigger] m.find_alias(sub)[j]).name,
    ) by {
        assert(m.find_alias(sub)[i].name == sorted[i].name);
        assert(m.find_alias(sub)[j].name == sorted[j].name);
        assert(str_le(sorted[i].name, sorted[j].name));
    }
}

/// The per-entity alias listing comes back ordered by name.
pub proof fn lemma_list_alias_sorted(m: StoreModel, entity_id: u32)
    ensures
        forall|i: int, j: int|
            0 <= i < j < m.list_alias(entity_id).len() ==> str_le(
                (#[trigger] m.list_alias(entity_id)[i]).name,
                (#[trigger] m.list_alias(entity_id)[j]).name,
            ),
{
    let filtered = m.aliases.filter(crate::item::alias_of_entity(entity_id));
    let sorted = sort_by_name(filtered);
    lemma_sort_by_name_sorted(filtered);
    assert forall|i: int, j: int| 0 <= i < j < m.list_alias(entity_id).len() implies str_le(
        (#[trigger] m.list_alias(entity_id)[i]).name,
        (#[trigger] m.list_alias(entity_id)[j]).name,
    ) by {
        assert(m.list_alias(entity_id)[i].name == sorted[i].name);
        assert(m.list_alias(entity_id)[j].name == sorted[j].name);
        assert(str_le(sorted[i].name, sorted[j].name));
    }
}

} // verus!
