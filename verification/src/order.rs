//! The order in which files are numbered: sort keys taken character by
//! character, and among equal keys the entry that was supplied first.

use crate::entry::{sort_keys, Entry};
use vstd::prelude::*;
use vstd::relations::injective_on;
use vstd::set_lib::{lemma_int_range, lemma_map_size, lemma_subset_equality, set_int_range};

verus! {

/// Whether key `a` sorts strictly before key `b`: at the first position
/// where they differ `a` has the smaller character, or `a` ends there and
/// `b` goes on.
pub open spec fn key_lt(a: Seq<char>, b: Seq<char>) -> bool
    decreases a.len(),
{
    if b.len() == 0 {
        false
    } else if a.len() == 0 {
        true
    } else if a[0] != b[0] {
        a[0] < b[0]
    } else {
        key_lt(a.drop_first(), b.drop_first())
    }
}

/// Whether entry `i` comes before entry `j` in the stable order by key:
/// its key is smaller, or the keys are equal and `i` was supplied first.
pub open spec fn precedes(keys: Seq<Seq<char>>, i: int, j: int) -> bool {
    key_lt(keys[i], keys[j]) || (keys[i] == keys[j] && i < j)
}

/// How many of the first `n` entries come before entry `j`.
pub open spec fn count_preceding(keys: Seq<Seq<char>>, j: int, n: nat) -> nat
    decreases n,
{
    if n == 0 {
        0
    } else {
        count_preceding(keys, j, (n - 1) as nat) + if precedes(keys, n - 1, j) {
            1nat
        } else {
            0nat
        }
    }
}

/// The position of entry `j`, counted from 0, once all entries are sorted
/// by key with a stable sort: the number of entries that come before it.
pub open spec fn rank(keys: Seq<Seq<char>>, j: int) -> nat {
    count_preceding(keys, j, keys.len())
}

/// No key sorts before itself.
pub proof fn lemma_key_lt_irreflexive(a: Seq<char>)
    ensures
        !key_lt(a, a),
    decreases a.len(),
{
    if a.len() > 0 {
        lemma_key_lt_irreflexive(a.drop_first());
    }
}

/// Of two keys exactly one holds: the first sorts before the second, they
/// are equal, or the second sorts before the first.
pub proof fn lemma_key_lt_total(a: Seq<char>, b: Seq<char>)
    ensures
        key_lt(a, b) || a == b || key_lt(b, a),
        !(key_lt(a, b) && key_lt(b, a)),
        !(key_lt(a, b) && a == b),
    decreases a.len(),
{
    if a.len() == 0 || b.len() == 0 {
        if a.len() == 0 && b.len() == 0 {
            assert(a =~= b);
        }
    } else if a[0] == b[0] {
        lemma_key_lt_total(a.drop_first(), b.drop_first());
        if a.drop_first() == b.drop_first() {
            assert(a =~= seq![a[0]] + a.drop_first());
            assert(b =~= seq![b[0]] + b.drop_first());
        }
    }
    lemma_key_lt_irreflexive(a);
}

/// The order of keys is transitive.
pub proof fn lemma_key_lt_transitive(a: Seq<char>, b: Seq<char>, c: Seq<char>)
    requires
        key_lt(a, b),
        key_lt(b, c),
    ensures
        key_lt(a, c),
    decreases a.len(),
{
    if a.len() > 0 && a[0] == b[0] && b[0] == c[0] {
        lemma_key_lt_transitive(a.drop_first(), b.drop_first(), c.drop_first());
    }
}

/// The stable order is transitive.
pub proof fn lemma_precedes_transitive(keys: Seq<Seq<char>>, i: int, j: int, k: int)
    requires
        precedes(keys, i, j),
        precedes(keys, j, k),
    ensures
        precedes(keys, i, k),
{
    if key_lt(keys[i], keys[j]) && key_lt(keys[j], keys[k]) {
        lemma_key_lt_transitive(keys[i], keys[j], keys[k]);
    }
}

/// Of two distinct entries exactly one comes before the other, and no entry
/// comes before itself.
pub proof fn lemma_precedes_total(keys: Seq<Seq<char>>, i: int, j: int)
    ensures
        i != j ==> (precedes(keys, i, j) || precedes(keys, j, i)),
        !(precedes(keys, i, j) && precedes(keys, j, i)),
        !precedes(keys, i, i),
{
    lemma_key_lt_total(keys[i], keys[j]);
    lemma_key_lt_irreflexive(keys[i]);
}

/// Among the first `n` entries, no more come before `i` than before `j`
/// when `i` comes before `j`; and fewer, once `i` itself is among them.
proof fn lemma_count_preceding_monotone(keys: Seq<Seq<char>>, i: int, j: int, n: nat)
    requires
        precedes(keys, i, j),
        0 <= i,
    ensures
        count_preceding(keys, i, n) <= count_preceding(keys, j, n),
        i < n ==> count_preceding(keys, i, n) < count_preceding(keys, j, n),
    decreases n,
{
    if n > 0 {
        lemma_count_preceding_monotone(keys, i, j, (n - 1) as nat);
        if precedes(keys, n - 1, i) {
            lemma_precedes_transitive(keys, n - 1, i, j);
        }
        lemma_precedes_total(keys, i, i);
    }
}

/// At most `n` of the first `n` entries come before `j`, and fewer when
/// `j` is one of them.
proof fn lemma_count_preceding_bound(keys: Seq<Seq<char>>, j: int, n: nat)
    requires
        0 <= j,
    ensures
        count_preceding(keys, j, n) <= n,
        j < n ==> count_preceding(keys, j, n) < n,
    decreases n,
{
    if n > 0 {
        lemma_count_preceding_bound(keys, j, (n - 1) as nat);
        lemma_precedes_total(keys, j, j);
    }
}

/// The rank of an entry is a position among the entries.
pub proof fn lemma_rank_in_range(keys: Seq<Seq<char>>, j: int)
    requires
        0 <= j < keys.len(),
    ensures
        rank(keys, j) < keys.len(),
{
    lemma_count_preceding_bound(keys, j, keys.len());
}

/// Ranks follow the stable order: one entry has the smaller rank exactly
/// when it comes before the other.
pub proof fn lemma_rank_follows_order(keys: Seq<Seq<char>>, i: int, j: int)
    requires
        0 <= i < keys.len(),
        0 <= j < keys.len(),
    ensures
        rank(keys, i) < rank(keys, j) <==> precedes(keys, i, j),
{
    lemma_precedes_total(keys, i, j);
    if precedes(keys, i, j) {
        lemma_count_preceding_monotone(keys, i, j, keys.len());
    }
    if precedes(keys, j, i) {
        lemma_count_preceding_monotone(keys, j, i, keys.len());
    }
}

/// Distinct entries have distinct ranks.
pub proof fn lemma_rank_injective(keys: Seq<Seq<char>>, i: int, j: int)
    requires
        0 <= i < keys.len(),
        0 <= j < keys.len(),
        rank(keys, i) == rank(keys, j),
    ensures
        i == j,
{
    lemma_rank_follows_order(keys, i, j);
    lemma_rank_follows_order(keys, j, i);
    lemma_precedes_total(keys, i, j);
}

/// Every position among the entries is the rank of some entry: together
/// with `lemma_rank_in_range` and `lemma_rank_injective`, the ranks are a
/// one-to-one correspondence between the entries and the positions.
pub proof fn lemma_rank_onto(keys: Seq<Seq<char>>, p: int)
    requires
        0 <= p < keys.len(),
    ensures
        exists|i: int| 0 <= i < keys.len() && rank(keys, i) == p,
{
    let n = keys.len() as int;
    let entries = set_int_range(0, n);
    let rank_of = |i: int| rank(keys, i) as int;
    let taken = entries.map(rank_of);
    lemma_int_range(0, n);
    assert(injective_on(rank_of, entries)) by {
        assert forall|i: int, j: int|
            entries.contains(i) && entries.contains(j) && #[trigger] rank_of(i) == #[trigger] rank_of(
                j,
            ) implies i == j by {
            lemma_rank_injective(keys, i, j);
        }
    }
    lemma_map_size(entries, taken, rank_of);
    assert forall|q: int| taken.contains(q) implies entries.contains(q) by {
        let i = choose|i: int| entries.contains(i) && q == rank_of(i);
        lemma_rank_in_range(keys, i);
    }
    lemma_subset_equality(taken, entries);
    assert(taken.contains(p));
    let i = choose|i: int| entries.contains(i) && p == rank_of(i);
    assert(0 <= i < keys.len() && rank(keys, i) == p);
}

/// Compares two keys character by character.
pub fn key_less(a: &Vec<char>, b: &Vec<char>) -> (r: bool)
    ensures
        r == key_lt(a@, b@),
{
    let mut i: usize = 0;
    proof {
        assert(a@.skip(0) =~= a@);
        assert(b@.skip(0) =~= b@);
    }
    while i < a.len() && i < b.len()
        invariant
            i <= a.len(),
            i <= b.len(),
            key_lt(a@, b@) == key_lt(a@.skip(i as int), b@.skip(i as int)),
        decreases a.len() - i,
    {
        proof {
            assert(a@.skip(i as int).drop_first() =~= a@.skip(i + 1));
            assert(b@.skip(i as int).drop_first() =~= b@.skip(i + 1));
        }
        if a[i] != b[i] {
            return a[i] < b[i];
        }
        i = i + 1;
    }
    i < b.len()
}

/// Tells whether two keys are the same.
pub fn key_equal(a: &Vec<char>, b: &Vec<char>) -> (r: bool)
    ensures
        r == (a@ == b@),
{
    if a.len() != b.len() {
        return false;
    }
    let mut i: usize = 0;
    while i < a.len()
        invariant
            i <= a.len(),
            a.len() == b.len(),
            forall|k: int| 0 <= k < i ==> a@[k] == b@[k],
        decreases a.len() - i,
    {
        if a[i] != b[i] {
            return false;
        }
        i = i + 1;
    }
    assert(a@ =~= b@);
    true
}

/// Counts the entries that come before entry `j` in the stable order.
fn stable_rank(entries: &Vec<Entry>, j: usize) -> (r: usize)
    requires
        j < entries.len(),
    ensures
        r == rank(sort_keys(entries@), j as int),
        r < entries.len(),
{
    let ghost keys = sort_keys(entries@);
    let mut count: usize = 0;
    let mut i: usize = 0;
    while i < entries.len()
        invariant
            i <= entries.len(),
            j < entries.len(),
            keys == sort_keys(entries@),
            count == count_preceding(keys, j as int, i as nat),
            count <= i,
        decreases entries.len() - i,
    {
        let before = key_less(&entries[i].sort_key, &entries[j].sort_key) || (i < j && key_equal(
            &entries[i].sort_key,
            &entries[j].sort_key,
        ));
        assert(before == precedes(keys, i as int, j as int));
        if before {
            count = count + 1;
        }
        i = i + 1;
    }
    proof {
        lemma_rank_in_range(keys, j as int);
    }
    count
}

/// Computes for every entry its position, counted from 0, in the stable
/// order by sort key.
pub fn stable_ranks(entries: &Vec<Entry>) -> (ranks: Vec<usize>)
    ensures
        ranks@.len() == entries@.len(),
        forall|j: int|
            0 <= j < entries@.len() ==> #[trigger] ranks@[j] == rank(sort_keys(entries@), j),
{
    let mut ranks: Vec<usize> = Vec::new();
    let mut j: usize = 0;
    while j < entries.len()
        invariant
            j <= entries.len(),
            ranks@.len() == j,
            forall|k: int| 0 <= k < j ==> #[trigger] ranks@[k] == rank(sort_keys(entries@), k),
        decreases entries.len() - j,
    {
        let r = stable_rank(entries, j);
        ranks.push(r);
        j = j + 1;
    }
    ranks
}

} // verus!
