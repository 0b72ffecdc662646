//! General facts about sequences and about id-keyed tables.
//!
//! A table is a sequence of rows, each carrying a numeric id; the store
//! keeps every table with strictly increasing, positive ids that stay
//! below the table's next free id.  The lemmas here show that pushing a
//! fresh row, filtering rows out, or removing one row preserves that
//! shape.

use vstd::prelude::*;

verus! {

/// Every row's id is positive and below the table's next free id.
pub open spec fn ids_bounded<A>(s: Seq<A>, key: spec_fn(A) -> u32, next: u32) -> bool {
    forall|i: int| 0 <= i < s.len() ==> 1 <= key(#[trigger] s[i]) && key(s[i]) < next
}

/// Row ids appear in strictly increasing order, so ids are unique and a
/// table is always sorted by id, which is also insertion order.
pub open spec fn ids_increasing<A>(s: Seq<A>, key: spec_fn(A) -> u32) -> bool {
    forall|i: int, j: int| 0 <= i < j < s.len() ==> key(#[trigger] s[i]) < key(#[trigger] s[j])
}

/// The well-formedness of one table of the store.
pub open spec fn table_ok<A>(s: Seq<A>, key: spec_fn(A) -> u32, next: u32) -> bool {
    &&& 1 <= next
    &&& ids_bounded(s, key, next)
    &&& ids_increasing(s, key)
}

/// Appending a row that takes the next free id keeps a table well formed.
pub proof fn lemma_table_push<A>(s: Seq<A>, key: spec_fn(A) -> u32, next: u32, x: A)
    requires
        table_ok(s, key, next),
        key(x) == next,
        next < u32::MAX,
    ensures
        table_ok(s.push(x), key, (next + 1) as u32),
{
    let t = s.push(x);
    assert forall|i: int| 0 <= i < t.len() implies 1 <= key(#[trigger] t[i]) && key(t[i]) < next
        + 1 by {
        if i < s.len() {
            assert(t[i] == s[i]);
        } else {
            assert(t[i] == x);
        }
    }
    assert forall|i: int, j: int| 0 <= i < j < t.len() implies key(#[trigger] t[i]) < key(
        #[trigger] t[j],
    ) by {
        if j < s.len() {
            assert(t[i] == s[i] && t[j] == s[j]);
        } else {
            assert(t[i] == s[i] && t[j] == x);
        }
    }
}

/// Filtering rows out keeps a table well formed.
pub proof fn lemma_table_filter<A>(s: Seq<A>, key: spec_fn(A) -> u32, next: u32, pred: spec_fn(A) -> bool)
    requires
        table_ok(s, key, next),
    ensures
        table_ok(s.filter(pred), key, next),
    decreases s.len(),
{
    reveal(Seq::filter);
    if s.len() == 0 {
    } else {
        let prefix = s.drop_last();
        let last = s.last();
        assert forall|i: int, j: int| 0 <= i < j < prefix.len() implies key(#[trigger] prefix[i])
            < key(#[trigger] prefix[j]) by {
            assert(prefix[i] == s[i] && prefix[j] == s[j]);
        }
        assert forall|i: int| 0 <= i < prefix.len() implies 1 <= key(#[trigger] prefix[i]) && key(
            prefix[i],
        ) < next by {
            assert(prefix[i] == s[i]);
        }
        lemma_table_filter(prefix, key, next, pred);
        let f = prefix.filter(pred);
        if pred(last) {
            assert forall|i: int| 0 <= i < f.len() implies key(#[trigger] f[i]) < key(last) by {
                assert(f.contains(f[i]));
                prefix.lemma_filter_contains_rev(pred, f[i]);
                let w = choose|w: int| 0 <= w < prefix.len() && prefix[w] == f[i];
                assert(prefix[w] == s[w] && last == s[s.len() - 1]);
                assert(key(s[w]) < key(s[s.len() - 1]));
            }
            let t = f.push(last);
            assert(s.filter(pred) == t);
            assert forall|i: int| 0 <= i < t.len() implies 1 <= key(#[trigger] t[i]) && key(t[i])
                < next by {
                if i < f.len() {
                    assert(t[i] == f[i]);
                } else {
                    assert(t[i] == last && last == s[s.len() - 1]);
                }
            }
            assert forall|i: int, j: int| 0 <= i < j < t.len() implies key(#[trigger] t[i]) < key(
                #[trigger] t[j],
            ) by {
                if j < f.len() {
                    assert(t[i] == f[i] && t[j] == f[j]);
                } else {
                    assert(t[i] == f[i] && t[j] == last);
                }
            }
        }
    }
}

/// A well-formed table with next free id `next` holds fewer than `next` rows.
pub proof fn lemma_table_len_bound<A>(s: Seq<A>, key: spec_fn(A) -> u32, next: u32)
    requires
        table_ok(s, key, next),
    ensures
        s.len() <= next - 1,
    decreases s.len(),
{
    if s.len() > 0 {
        let prefix = s.drop_last();
        let last = s.last();
        assert(last == s[s.len() - 1]);
        assert forall|i: int| 0 <= i < prefix.len() implies 1 <= key(#[trigger] prefix[i]) && key(
            prefix[i],
        ) < key(last) by {
            assert(prefix[i] == s[i]);
            assert(key(s[i]) < key(s[s.len() - 1]));
        }
        assert forall|i: int, j: int| 0 <= i < j < prefix.len() implies key(#[trigger] prefix[i])
            < key(#[trigger] prefix[j]) by {
            assert(prefix[i] == s[i] && prefix[j] == s[j]);
        }
        lemma_table_len_bound(prefix, key, key(last));
    }
}

/// Filtering with a predicate that holds of every row keeps the table as
/// it is.
pub proof fn lemma_filter_identity<A>(s: Seq<A>, pred: spec_fn(A) -> bool)
    requires
        forall|i: int| 0 <= i < s.len() ==> pred(#[trigger] s[i]),
    ensures
        s.filter(pred) == s,
    decreases s.len(),
{
    reveal(Seq::filter);
    if s.len() == 0 {
        assert(s.filter(pred) =~= s);
    } else {
        let prefix = s.drop_last();
        assert forall|i: int| 0 <= i < prefix.len() implies pred(#[trigger] prefix[i]) by {
            assert(prefix[i] == s[i]);
        }
        lemma_filter_identity(prefix, pred);
        assert(pred(s.last()));
        assert(s.filter(pred) =~= s);
    }
}

/// How `filter` acts on a sequence extended by one element.
pub proof fn lemma_filter_push<A>(s: Seq<A>, x: A, pred: spec_fn(A) -> bool)
    ensures
        s.push(x).filter(pred) == if pred(x) {
            s.filter(pred).push(x)
        } else {
            s.filter(pred)
        },
{
    reveal(Seq::filter);
    let t = s.push(x);
    assert(t.drop_last() =~= s);
    assert(t.last() == x);
}


/// Rewriting rows in place, without changing any id, keeps a table well
/// formed.
pub proof fn lemma_table_map_same_ids<A>(s: Seq<A>, t: Seq<A>, key: spec_fn(A) -> u32, next: u32)
    requires
        table_ok(s, key, next),
        t.len() == s.len(),
        forall|i: int| 0 <= i < s.len() ==> key(#[trigger] t[i]) == key(s[i]),
    ensures
        table_ok(t, key, next),
{
    assert forall|i: int| 0 <= i < t.len() implies 1 <= key(#[trigger] t[i]) && key(t[i])
        < next by {
        assert(1 <= key(s[i]) && key(s[i]) < next);
    }
    assert forall|i: int, j: int| 0 <= i < j < t.len() implies key(#[trigger] t[i]) < key(
        #[trigger] t[j],
    ) by {
        assert(key(s[i]) < key(s[j]));
    }
}


/// Pairwise order between neighbours extends to the whole table.
pub proof fn lemma_adjacent_increasing<A>(s: Seq<A>, key: spec_fn(A) -> u32)
    requires
        forall|t: int| 0 <= t < s.len() - 1 ==> key(#[trigger] s[t]) < key(s[t + 1]),
    ensures
        ids_increasing(s, key),
{
    assert forall|i: int, j: int| 0 <= i < j < s.len() implies key(#[trigger] s[i]) < key(
        #[trigger] s[j],
    ) by {
        lemma_key_span(s, key, i, j);
    }
}

proof fn lemma_key_span<A>(s: Seq<A>, key: spec_fn(A) -> u32, i: int, j: int)
    requires
        forall|t: int| 0 <= t < s.len() - 1 ==> key(#[trigger] s[t]) < key(s[t + 1]),
        0 <= i < j < s.len(),
    ensures
        key(s[i]) < key(s[j]),
    decreases j - i,
{
    if j == i + 1 {
        assert(key(s[i]) < key(s[i + 1]));
    } else {
        lemma_key_span(s, key, i, j - 1);
        assert(key(s[j - 1]) < key(s[j]));
    }
}

} // verus!
