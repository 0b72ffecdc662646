//! The interactive picker adapter: renders the store's entities as
//! candidate lines, each beginning with the entity id after optional
//! whitespace, and recovers a typed id from the line the external
//! picker hands back by reading the leading run of up to five digits.

use vstd::prelude::*;

use crate::list::entity_long_of;
use crate::store::{AliasModel, EntityRow, SnippetModel, Store, StoreModel};
use crate::text::{dec_digits, digit_char, u32_to_dec_string, u64_to_dec_string};

verus! {

/// The whitespace characters the selection parser skips over.
pub open spec fn is_space(c: char) -> bool {
    c == ' ' || c == '\t' || c == '\n' || c == '\r'
}

/// The value of a decimal digit character, or nothing.
pub open spec fn char_digit(c: char) -> Option<nat> {
    if c == '0' {
        Some(0 as nat)
    } else if c == '1' {
        Some(1 as nat)
    } else if c == '2' {
        Some(2 as nat)
    } else if c == '3' {
        Some(3 as nat)
    } else if c == '4' {
        Some(4 as nat)
    } else if c == '5' {
        Some(5 as nat)
    } else if c == '6' {
        Some(6 as nat)
    } else if c == '7' {
        Some(7 as nat)
    } else if c == '8' {
        Some(8 as nat)
    } else if c == '9' {
        Some(9 as nat)
    } else {
        None
    }
}

/// How many whitespace characters the text starts with.
pub open spec fn space_run(s: Seq<char>) -> int
    decreases s.len(),
{
    if s.len() > 0 && is_space(s[0]) {
        1 + space_run(s.drop_first())
    } else {
        0
    }
}

/// How many digit characters the text starts with.
pub open spec fn digit_run(s: Seq<char>) -> int
    decreases s.len(),
{
    if s.len() > 0 && char_digit(s[0]) is Some {
        1 + digit_run(s.drop_first())
    } else {
        0
    }
}

/// The number a digit text denotes, most significant digit first.
pub open spec fn digits_value(ds: Seq<char>) -> nat
    decreases ds.len(),
{
    if ds.len() == 0 {
        0
    } else {
        digits_value(ds.drop_last()) * 10 + char_digit(ds.last()).unwrap_or(0)
    }
}

/// The id a selected line denotes: after optional leading whitespace,
/// the leading run of digits, of which at most the first five are read.
/// Nothing when no digit follows the whitespace.
pub open spec fn selected_entity_id(line: Seq<char>) -> Option<u32> {
    let w = space_run(line);
    let after = line.skip(w);
    let run = digit_run(after);
    if run == 0 {
        None
    } else {
        let taken = if run <= 5 {
            run
        } else {
            5
        };
        Some(digits_value(after.take(taken)) as u32)
    }
}

proof fn lemma_digit_run_bound(s: Seq<char>)
    ensures
        0 <= digit_run(s) <= s.len(),
    decreases s.len(),
{
    if s.len() > 0 && char_digit(s[0]) is Some {
        lemma_digit_run_bound(s.drop_first());
    }
}

proof fn lemma_space_run_skip(s: Seq<char>, k: int)
    requires
        0 <= k <= s.len(),
        forall|t: int| 0 <= t < k ==> is_space(s[t]),
        k < s.len() ==> !is_space(s[k]),
    ensures
        space_run(s) == k,
    decreases k,
{
    if k == 0 {
        if s.len() > 0 {
            assert(!is_space(s[0]));
        }
    } else {
        assert(is_space(s[0]));
        let rest = s.drop_first();
        assert forall|t: int| 0 <= t < k - 1 implies is_space(rest[t]) by {
            assert(rest[t] == s[t + 1]);
        }
        assert(k - 1 < rest.len() ==> !is_space(rest[k - 1]));
        lemma_space_run_skip(rest, k - 1);
    }
}

proof fn lemma_digit_run_at(s: Seq<char>, k: int)
    requires
        0 <= k <= s.len(),
        forall|t: int| 0 <= t < k ==> char_digit(s[t]) is Some,
        k < s.len() ==> char_digit(s[k]) is None,
    ensures
        digit_run(s) == k,
    decreases k,
{
    if k == 0 {
        if s.len() > 0 {
            assert(char_digit(s[0]) is None);
        }
    } else {
        assert(char_digit(s[0]) is Some);
        let rest = s.drop_first();
        assert forall|t: int| 0 <= t < k - 1 implies char_digit(rest[t]) is Some by {
            assert(rest[t] == s[t + 1]);
        }
        assert(k - 1 < rest.len() ==> char_digit(rest[k - 1]) is None);
        lemma_digit_run_at(rest, k - 1);
    }
}

/// At most five leading digits denote a value below one hundred
/// thousand.
proof fn lemma_digits_value_bound(ds: Seq<char>, k: nat)
    requires
        ds.len() <= k,
    ensures
        digits_value(ds) < crate::picker::pow10(k),
    decreases k,
{
    if ds.len() == 0 {
        lemma_pow10_positive(k);
    } else {
        lemma_digits_value_bound(ds.drop_last(), (k - 1) as nat);
    }
}

/// Ten raised to the given power.
pub open spec fn pow10(k: nat) -> nat
    decreases k,
{
    if k == 0 {
        1
    } else {
        10 * pow10((k - 1) as nat)
    }
}

proof fn lemma_pow10_positive(k: nat)
    ensures
        pow10(k) >= 1,
    decreases k,
{
    if k > 0 {
        lemma_pow10_positive((k - 1) as nat);
    }
}

/// Every character of a decimal rendering is a digit.
proof fn lemma_dec_digits_are_digits(n: nat)
    ensures
        forall|t: int|
            0 <= t < dec_digits(n).len() ==> char_digit(#[trigger] dec_digits(n)[t]) is Some,
    decreases n,
{
    if n < 10 {
        assert(dec_digits(n)[0] == digit_char(n));
    } else {
        lemma_dec_digits_are_digits(n / 10);
        let prefix = dec_digits(n / 10);
        assert forall|t: int| 0 <= t < dec_digits(n).len() implies char_digit(
            #[trigger] dec_digits(n)[t],
        ) is Some by {
            if t < prefix.len() {
                assert(dec_digits(n)[t] == prefix[t]);
            } else {
                assert(dec_digits(n)[t] == digit_char(n % 10));
            }
        }
    }
}

/// A decimal rendering of a value below one hundred thousand has at
/// most five digits.
proof fn lemma_dec_digits_len(n: nat, k: nat)
    requires
        k >= 1,
        n < pow10(k),
    ensures
        dec_digits(n).len() <= k,
    decreases k,
{
    if n >= 10 {
        assert(pow10(k) == 10 * pow10((k - 1) as nat));
        if k == 1 {
            assert(pow10(0) == 1);
        }
        assert(n / 10 < pow10((k - 1) as nat)) by (nonlinear_arith)
            requires
                n < 10 * pow10((k - 1) as nat),
                n >= 10,
        ;
        lemma_dec_digits_len(n / 10, (k - 1) as nat);
    }
}

/// Reading a decimal rendering back gives the value it renders.
proof fn lemma_digits_value_of_dec(n: nat)
    ensures
        digits_value(dec_digits(n)) == n,
    decreases n,
{
    if n < 10 {
        assert(dec_digits(n).drop_last() =~= Seq::<char>::empty());
        assert(dec_digits(n).last() == digit_char(n));
        assert(digits_value(Seq::<char>::empty()) == 0);
        assert(char_digit(digit_char(n)) == Some(n));
        assert(digits_value(dec_digits(n)) == 0 * 10 + n);
    } else {
        lemma_digits_value_of_dec(n / 10);
        assert(dec_digits(n).drop_last() =~= dec_digits(n / 10));
        assert(dec_digits(n).last() == digit_char(n % 10));
        assert(char_digit(digit_char(n % 10)) == Some(n % 10));
        assert(digits_value(dec_digits(n)) == (n / 10) * 10 + n % 10);
    }
}

/// One candidate line of the picker: the full tier-one row of the
/// entity as text, the id first so that the selection parse can recover
/// it.  A space, the id in decimal, then the alias list, the alias
/// count, the snippet count, and the creation timestamp, separated by
/// double spaces.
pub open spec fn candidate_line_of(aliases: Seq<AliasModel>, snippets: Seq<SnippetModel>) -> spec_fn(
    EntityRow,
) -> Seq<char> {
    |e: EntityRow|
        {
            let row = entity_long_of(aliases, snippets)(e);
            " "@ + dec_digits(row.id as nat) + "  "@ + row.alias_list + "  "@ + dec_digits(
                row.alias_count as nat,
            ) + "  "@ + dec_digits(row.snippet_count as nat) + "  "@ + dec_digits(
                row.created as nat,
            )
        }
}

impl StoreModel {
    /// The candidate lines the picker is fed: one per entity, in id
    /// order, each carrying that entity's whole tier-one row.
    pub open spec fn picker_lines(self) -> Seq<Seq<char>> {
        self.entities.map_values(candidate_line_of(self.aliases, self.snippets))
    }
}

impl Store {
    /// The candidate lines for the external picker: one per entity, in
    /// id order, each the entity's tier-one listing row as text,
    /// beginning with the entity's id.
    pub fn picker_candidate_lines(&self) -> (r: Vec<String>)
        requires
            self.wf(),
        ensures
            r@.map_values(|s: String| s@) == self@.picker_lines(),
    {
        let ghost m = self@.entities;
        let ghost f = candidate_line_of(self@.aliases, self@.snippets);
        let n = self.entities.len();
        let mut out: Vec<String> = Vec::new();
        let mut k: usize = 0;
        while k < n
            invariant
                self.wf(),
                n == self.entities.len(),
                m == self@.entities,
                f == candidate_line_of(self@.aliases, self@.snippets),
                k <= n,
                out@.map_values(|s: String| s@) =~= m.subrange(0, k as int).map_values(f),
            decreases n - k,
        {
            let row = self.entity_long_row(self.entities[k]);
            let mut line = String::from_str(" ");
            let id_text = u32_to_dec_string(row.id);
            line.append(id_text.as_str());
            line.append("  ");
            line.append(row.alias_list.as_str());
            line.append("  ");
            let alias_count_text = u32_to_dec_string(row.alias_count);
            line.append(alias_count_text.as_str());
            line.append("  ");
            let snippet_count_text = u32_to_dec_string(row.snippet_count);
            line.append(snippet_count_text.as_str());
            line.append("  ");
            let created_text = u64_to_dec_string(row.created);
            line.append(created_text.as_str());
            proof {
                assert(line@ == f(m[k as int]));
            }
            out.push(line);
            proof {
                assert(m.subrange(0, k as int + 1) =~= m.subrange(0, k as int).push(m[k as int]));
                assert(m.subrange(0, k as int + 1).map_values(f) =~= m.subrange(
                    0,
                    k as int,
                ).map_values(f).push(f(m[k as int])));
                assert(out@.map_values(|s: String| s@) =~= out@.drop_last().map_values(
                    |s: String| s@,
                ).push(out@.last()@));
            }
            k += 1;
        }
        proof {
            assert(m.subrange(0, n as int) =~= m);
        }
        out
    }
}

fn is_space_at(line: &str, i: usize) -> (b: bool)
    requires
        i < line@.len(),
    ensures
        b == is_space(line@[i as int]),
{
    let c = line.get_char(i);
    c == ' ' || c == '\t' || c == '\n' || c == '\r'
}

fn is_digit_at(line: &str, i: usize) -> (b: bool)
    requires
        i < line@.len(),
    ensures
        b == (char_digit(line@[i as int]) is Some),
{
    let c = line.get_char(i);
    c == '0' || c == '1' || c == '2' || c == '3' || c == '4' || c == '5' || c == '6' || c == '7'
        || c == '8' || c == '9'
}

fn char_digit_exec(c: char) -> (r: Option<u32>)
    ensures
        match r {
            Some(d) => char_digit(c) == Some(d as nat) && d < 10,
            None => char_digit(c) is None,
        },
{
    if c == '0' {
        Some(0)
    } else if c == '1' {
        Some(1)
    } else if c == '2' {
        Some(2)
    } else if c == '3' {
        Some(3)
    } else if c == '4' {
        Some(4)
    } else if c == '5' {
        Some(5)
    } else if c == '6' {
        Some(6)
    } else if c == '7' {
        Some(7)
    } else if c == '8' {
        Some(8)
    } else if c == '9' {
        Some(9)
    } else {
        None
    }
}

/// Reads the entity id from a selected line: optional whitespace, then
/// up to five leading digits; nothing when no digit is found there.
pub fn parse_selected_entity_id(line: &str) -> (r: Option<u32>)
    ensures
        r == selected_entity_id(line@),
{
    let n = line.unicode_len();
    let mut w: usize = 0;
    while w < n && is_space_at(line, w)
        invariant
            n == line@.len(),
            w <= n,
            forall|t: int| 0 <= t < w ==> is_space(line@[t]),
        decreases n - w,
    {
        w += 1;
    }
    proof {
        lemma_space_run_skip(line@, w as int);
    }
    let ghost after = line@.skip(w as int);
    let mut value: u32 = 0;
    let mut count: usize = 0;
    while w + count < n && count < 5 && is_digit_at(line, w + count)
        invariant
            n == line@.len(),
            after == line@.skip(w as int),
            w <= n,
            count <= 5,
            w + count <= n,
            forall|t: int| 0 <= t < count ==> char_digit(#[trigger] after[t]) is Some,
            value == digits_value(after.take(count as int)),
            value <= 99999,
        decreases n - w - count,
    {
        let c = line.get_char(w + count);
        let d = match char_digit_exec(c) {
            Some(d) => d,
            None => 0,
        };
        proof {
            assert(after[count as int] == line@[w + count]);
            assert(char_digit(after[count as int]) is Some);
            assert(after.take(count as int + 1).drop_last() =~= after.take(count as int));
            assert(after.take(count as int + 1).last() == after[count as int]);
            lemma_digits_value_bound(after.take(count as int), 4);
            assert(pow10(0) == 1);
            assert(pow10(1) == 10);
            assert(pow10(2) == 100);
            assert(pow10(3) == 1000);
            assert(pow10(4) == 10000);
        }
        value = value * 10 + d;
        count += 1;
    }
    if count == 0 {
        proof {
            if after.len() > 0 {
                assert(after[0] == line@[w as int]);
                assert(char_digit(after[0]) is None);
            }
            lemma_digit_run_at(after, 0);
        }
        return None;
    }
    proof {
        let run = digit_run(after);
        if count < 5 {
            if w + count < n {
                assert(after[count as int] == line@[w + count]);
                assert(char_digit(after[count as int]) is None);
            }
            lemma_digit_run_at(after, count as int);
            assert(run == count);
        } else {
            lemma_digit_run_bound(after);
            assert forall|t: int| 0 <= t < 5 implies char_digit(#[trigger] after[t]) is Some by {}
            if run < 5 {
                assert(char_digit(after[run]) is None) by {
                    lemma_digit_run_is_boundary(after, run);
                }
            }
            assert(run >= 5);
        }
    }
    Some(value)
}

/// The character right after a digit run is not a digit.
proof fn lemma_digit_run_is_boundary(s: Seq<char>, run: int)
    requires
        run == digit_run(s),
        run < s.len(),
    ensures
        char_digit(s[run]) is None,
    decreases s.len(),
{
    if s.len() > 0 && char_digit(s[0]) is Some {
        let rest = s.drop_first();
        lemma_digit_run_bound(rest);
        lemma_digit_run_is_boundary(rest, run - 1);
        assert(rest[run - 1] == s[run]);
    }
}

/// A candidate line parses back to the id of the entity it was built
/// from, as long as that id fits in five digits.
pub proof fn lemma_candidate_line_parses(m: StoreModel, i: int)
    requires
        0 <= i < m.entities.len(),
        m.entities[i].id <= 99999,
    ensures
        selected_entity_id(m.picker_lines()[i]) == Some(m.entities[i].id),
{
    let e = m.entities[i];
    let line = m.picker_lines()[i];
    assert(line == candidate_line_of(m.aliases, m.snippets)(e));
    let row = entity_long_of(m.aliases, m.snippets)(e);
    let ds = dec_digits(e.id as nat);
    reveal_strlit(" ");
    reveal_strlit("  ");
    lemma_dec_digits_are_digits(e.id as nat);
    assert(pow10(0) == 1);
    assert(pow10(1) == 10);
    assert(pow10(2) == 100);
    assert(pow10(3) == 1000);
    assert(pow10(4) == 10000);
    assert(pow10(5) == 100000);
    lemma_dec_digits_len(e.id as nat, 5);
    assert(line[0] == ' ');
    assert(char_digit(ds[0]) is Some);
    assert(line[1] == ds[0]);
    assert(!is_space(line[1]));
    assert forall|t: int| 0 <= t < 1 implies is_space(line[t]) by {}
    lemma_space_run_skip(line, 1);
    let after = line.skip(1);
    assert forall|t: int| 0 <= t < ds.len() implies char_digit(#[trigger] after[t]) is Some by {
        assert(after[t] == ds[t]);
    }
    assert(after[ds.len() as int] == ' ');
    assert(char_digit(after[ds.len() as int]) is None);
    lemma_digit_run_at(after, ds.len() as int);
    assert(after.take(ds.len() as int) =~= ds);
    lemma_digits_value_of_dec(e.id as nat);
}

} // verus!
