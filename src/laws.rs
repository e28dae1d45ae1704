//! Properties of the table that relate several operations.
use vstd::prelude::*;
use crate::zero_map::{
    after_insert, agreement_total, bytes_agreement, fresh_entries, insert_succeeds, lookup,
    low_zero_bits, pair_agreement, zero_bits, Cid, CAPACITY,
};

verus! {

/// The mapping after the insertions of `ops`, in order, starting from `m`.
pub open spec fn after_inserts(m: Map<Cid, Cid>, ops: Seq<(Cid, Cid)>) -> Map<Cid, Cid>
    decreases ops.len(),
{
    if ops.len() == 0 {
        m
    } else {
        after_insert(after_inserts(m, ops.drop_last()), ops.last().0, ops.last().1)
    }
}

/// The keys of `ops` are pairwise distinct.
pub open spec fn distinct_keys(ops: Seq<(Cid, Cid)>) -> bool {
    forall|i: int, j: int| 0 <= i < j < ops.len() ==> ops[i].0 != ops[j].0
}

/// Every bit of `value` differs from the same bit of `key`.
pub open spec fn complementary(key: Cid, value: Cid) -> bool {
    forall|j: int| 0 <= j < 32 ==> key@[j] ^ value@[j] == 0xFFu8
}

/// Inserting a key that is already stored, with another value, succeeds,
/// replaces the value and leaves the number of keys unchanged.
pub proof fn lemma_update_not_duplicate(m: Map<Cid, Cid>, key: Cid, v1: Cid, v2: Cid)
    requires
        m.dom().finite(),
        m.len() <= CAPACITY,
        insert_succeeds(m, key),
    ensures
        insert_succeeds(after_insert(m, key, v1), key),
        after_insert(after_insert(m, key, v1), key, v2).len() == after_insert(m, key, v1).len(),
        lookup(after_insert(after_insert(m, key, v1), key, v2), key) == Some(v2),
{
    let m1 = after_insert(m, key, v1);
    assert(m1.contains_key(key));
    assert(m1.insert(key, v2).dom() =~= m1.dom());
}

/// Starting from an empty table, a key that no insertion named is absent.
pub proof fn lemma_absent_without_insert(ops: Seq<(Cid, Cid)>, key: Cid)
    requires
        forall|i: int| 0 <= i < ops.len() ==> ops[i].0 != key,
    ensures
        !after_inserts(Map::empty(), ops).contains_key(key),
        lookup(after_inserts(Map::empty(), ops), key) == None::<Cid>,
    decreases ops.len(),
{
    if ops.len() > 0 {
        lemma_absent_without_insert(ops.drop_last(), key);
    }
}

proof fn lemma_fill(ops: Seq<(Cid, Cid)>, n: int)
    requires
        0 <= n <= ops.len() <= CAPACITY,
        distinct_keys(ops),
    ensures
        after_inserts(Map::empty(), ops.take(n)).dom().finite(),
        after_inserts(Map::empty(), ops.take(n)).len() == n,
        n < ops.len() ==> insert_succeeds(after_inserts(Map::empty(), ops.take(n)), ops[n].0),
    decreases n,
{
    let prefix = ops.take(n);
    if n > 0 {
        lemma_fill(ops, n - 1);
        let before = after_inserts(Map::empty(), ops.take(n - 1));
        assert(prefix.drop_last() =~= ops.take(n - 1));
        assert(prefix.last() == ops[n - 1]);
        lemma_absent_without_insert(ops.take(n - 1), ops[n - 1].0);
        assert(after_inserts(Map::empty(), prefix) == before.insert(ops[n - 1].0, ops[n - 1].1));
    } else {
        assert(prefix.len() == 0);
        assert(Map::<Cid, Cid>::empty().dom() =~= Set::empty());
    }
    if n < ops.len() {
        lemma_absent_without_insert(prefix, ops[n].0);
    }
}

/// Starting from an empty table, `CAPACITY` insertions of distinct keys all
/// succeed and fill it; a further distinct key is then refused and the table
/// stays as it was.
pub proof fn lemma_capacity_bound(ops: Seq<(Cid, Cid)>, key: Cid, value: Cid)
    requires
        ops.len() == CAPACITY,
        distinct_keys(ops),
        forall|i: int| 0 <= i < ops.len() ==> ops[i].0 != key,
    ensures
        forall|i: int|
            0 <= i < ops.len() ==> insert_succeeds(
                #[trigger] after_inserts(Map::empty(), ops.take(i)),
                ops[i].0,
            ),
        after_inserts(Map::empty(), ops).len() == CAPACITY,
        !insert_succeeds(after_inserts(Map::empty(), ops), key),
        after_insert(after_inserts(Map::empty(), ops), key, value) == after_inserts(
            Map::empty(),
            ops,
        ),
{
    assert forall|i: int| 0 <= i < ops.len() implies insert_succeeds(
        #[trigger] after_inserts(Map::empty(), ops.take(i)),
        ops[i].0,
    ) by {
        lemma_fill(ops, i);
    }
    lemma_fill(ops, CAPACITY as int);
    assert(ops.take(CAPACITY as int) =~= ops);
    lemma_absent_without_insert(ops, key);
}

proof fn lemma_no_zero_bits(x: u8)
    requires
        zero_bits(x) == 0,
    ensures
        x == 0xFFu8,
{
    reveal_with_fuel(low_zero_bits, 9);
    assert(x == 0xFFu8) by (bit_vector)
        requires
            (x >> 0u8) & 1u8 != 0u8,
            (x >> 1u8) & 1u8 != 0u8,
            (x >> 2u8) & 1u8 != 0u8,
            (x >> 3u8) & 1u8 != 0u8,
            (x >> 4u8) & 1u8 != 0u8,
            (x >> 5u8) & 1u8 != 0u8,
            (x >> 6u8) & 1u8 != 0u8,
            (x >> 7u8) & 1u8 != 0u8,
    ;
}

proof fn lemma_bytes_agreement_positive(a: Seq<u8>, b: Seq<u8>, n: nat, j: int)
    requires
        0 <= j < n,
        zero_bits(a[j] ^ b[j]) > 0,
    ensures
        bytes_agreement(a, b, n) > 0,
    decreases n,
{
    if j < n - 1 {
        lemma_bytes_agreement_positive(a, b, (n - 1) as nat, j);
    }
}

proof fn lemma_total_at_least(s: Seq<Option<(Cid, Cid)>>, p: int, key: Cid, value: Cid)
    requires
        0 <= p < s.len(),
        s[p] == Some((key, value)),
    ensures
        agreement_total(s) >= pair_agreement(key, value),
    decreases s.len(),
{
    if p < s.len() - 1 {
        lemma_total_at_least(s.drop_last(), p, key, value);
    }
}

/// After one insertion into a fresh table, the summed agreement, and with it
/// the coherence, is positive, unless the value is the bitwise complement of
/// the key.
pub proof fn lemma_single_insert_coherent(i: int, key: Cid, value: Cid)
    requires
        0 <= i < CAPACITY,
        !complementary(key, value),
    ensures
        agreement_total(fresh_entries().update(i, Some((key, value)))) > 0,
{
    let j = choose|j: int| 0 <= j < 32 && key@[j] ^ value@[j] != 0xFFu8;
    if zero_bits(key@[j] ^ value@[j]) == 0 {
        lemma_no_zero_bits(key@[j] ^ value@[j]);
    }
    lemma_bytes_agreement_positive(key@, value@, 32, j);
    lemma_total_at_least(fresh_entries().update(i, Some((key, value))), i, key, value);
}

} // verus!
