//! Content digests and the fixed-capacity table keyed by them.
use vstd::prelude::*;
use vstd::arithmetic::div_mod::{lemma_add_mod_noop, lemma_mul_mod_noop_left};
use vstd::set_lib::{lemma_int_range, lemma_len_subset, set_int_range};

verus! {

/// A 32-byte content identifier; two identifiers are equal when their bytes are.
#[derive(Clone, Copy, Eq, Debug)]
pub struct Cid {
    hash: [u8; 32],
}

impl View for Cid {
    type V = Seq<u8>;

    closed spec fn view(&self) -> Seq<u8> {
        self.hash@
    }
}

/// Seed of the mixing state.
pub const MIX_SEED: u64 = 0x1337;

/// Multiplier of the linear-congruential step.
pub const MIX_MUL: u64 = 1664525;

/// Increment of the linear-congruential step.
pub const MIX_ADD: u64 = 1013904223;

/// The mixing state after the first `n` bytes of `content`: each byte first
/// advances the state by one linear-congruential step, then is XORed in,
/// shifted by eight bits times its position modulo 8.
pub open spec fn mix_state(content: Seq<u8>, n: nat) -> u64
    decreases n,
{
    if n == 0 {
        MIX_SEED
    } else {
        let i = (n - 1) as nat;
        let stepped = mix_state(content, i).wrapping_mul(MIX_MUL).wrapping_add(MIX_ADD);
        stepped ^ ((content[i as int] as u64) << ((i % 8) * 8) as u64)
    }
}

/// The 32 digest bytes after the first `n` bytes of `content`: byte `i` of the
/// input XORs a 16-bit-aligned slice of the new state into position `i % 32`.
pub open spec fn digest_prefix(content: Seq<u8>, n: nat) -> Seq<u8>
    decreases n,
{
    if n == 0 {
        Seq::new(32, |j: int| 0u8)
    } else {
        let i = (n - 1) as nat;
        let prev = digest_prefix(content, i);
        let at = (i % 32) as int;
        prev.update(at, prev[at] ^ ((mix_state(content, n) >> ((i % 4) * 16) as u64) as u8))
    }
}

/// The digest of a whole byte sequence.
pub open spec fn content_digest(content: Seq<u8>) -> Seq<u8> {
    digest_prefix(content, content.len())
}

proof fn lemma_digest_prefix_len(content: Seq<u8>, n: nat)
    ensures
        digest_prefix(content, n).len() == 32,
    decreases n,
{
    if n > 0 {
        lemma_digest_prefix_len(content, (n - 1) as nat);
    }
}

/// Content identifiers are deterministic: two identifiers derived from the
/// same bytes are the same identifier.
pub proof fn lemma_content_deterministic(a: Cid, b: Cid, content: Seq<u8>)
    requires
        a@ == content_digest(content),
        b@ == content_digest(content),
    ensures
        a == b,
{
    lemma_cid_view_eq(a, b);
}

impl Cid {
    /// Wraps 32 raw bytes as an identifier, unchanged.
    pub fn from_bytes(bytes: [u8; 32]) -> (r: Cid)
        ensures
            r@ == bytes@,
    {
        Cid { hash: bytes }
    }

    /// Derives an identifier from arbitrary content by a deterministic,
    /// non-cryptographic fold; any input is accepted, the empty one included.
    pub fn from_content(content: &[u8]) -> (r: Cid)
        ensures
            r@ == content_digest(content@),
    {
        let mut hash = [0u8; 32];
        let mut state: u64 = MIX_SEED;
        let mut i: usize = 0;
        assert(hash@ =~= digest_prefix(content@, 0));
        while i < content.len()
            invariant
                0 <= i <= content@.len(),
                state == mix_state(content@, i as nat),
                hash@ == digest_prefix(content@, i as nat),
            decreases content@.len() - i,
        {
            proof {
                lemma_digest_prefix_len(content@, i as nat);
            }
            state = state.wrapping_mul(MIX_MUL).wrapping_add(MIX_ADD);
            state = state ^ ((content[i] as u64) << ((i % 8) * 8) as u64);
            let at: usize = i % 32;
            hash[at] = hash[at] ^ ((state >> ((i % 4) * 16) as u64) as u8);
            i += 1;
            assert(hash@ =~= digest_prefix(content@, i as nat));
        }
        Cid { hash }
    }
}

impl PartialEq for Cid {
    fn eq(&self, other: &Cid) -> (r: bool)
        ensures
            r == (*self == *other),
    {
        let mut i: usize = 0;
        while i < 32
            invariant
                0 <= i <= 32,
                forall|j: int| 0 <= j < i ==> self.hash@[j] == other.hash@[j],
            decreases 32 - i,
        {
            if self.hash[i] != other.hash[i] {
                return false;
            }
            i += 1;
        }
        assert(self.hash =~= other.hash);
        true
    }
}

impl vstd::std_specs::cmp::PartialEqSpecImpl for Cid {
    open spec fn obeys_eq_spec() -> bool {
        true
    }

    open spec fn eq_spec(&self, other: &Cid) -> bool {
        *self == *other
    }
}

/// Identifiers with the same bytes are the same identifier.
pub proof fn lemma_cid_view_eq(a: Cid, b: Cid)
    ensures
        a@ == b@ <==> a == b,
{
    if a@ == b@ {
        assert(a.hash =~= b.hash);
    }
}


/// Number of slots in every table; it never changes.
pub const CAPACITY: usize = 64;

/// Number of leading digest bytes that determine a key's home slot.
pub const INDEX_BYTES: usize = 8;

/// The rolling polynomial `index * 31 + byte` over the first `n` bytes of `b`,
/// without any reduction.
pub open spec fn index_poly(b: Seq<u8>, n: nat) -> int
    decreases n,
{
    if n == 0 {
        0
    } else {
        index_poly(b, (n - 1) as nat) * 31 + b[n - 1]
    }
}

/// The slot at which the probe for `key` starts.
pub open spec fn home_index(key: Cid) -> int {
    index_poly(key@, INDEX_BYTES as nat) % (CAPACITY as int)
}

/// The slot visited at step `e` of a probe that starts at `h`.
pub open spec fn probe_at(h: int, e: int) -> int {
    (h + e) % (CAPACITY as int)
}

/// How many probe steps it takes to get from `h` to slot `i`.
pub open spec fn probe_distance(h: int, i: int) -> int {
    (i - h + CAPACITY as int) % (CAPACITY as int)
}

proof fn lemma_probe_distance(h: int, i: int)
    requires
        0 <= h < CAPACITY,
        0 <= i < CAPACITY,
    ensures
        0 <= probe_distance(h, i) < CAPACITY,
        probe_at(h, probe_distance(h, i)) == i,
        forall|e: int| 0 <= e < CAPACITY ==> probe_distance(h, #[trigger] probe_at(h, e)) == e,
{
}

/// One slot of a table; its key and value mean nothing while it is unoccupied.
#[derive(Clone, Copy)]
struct Slot {
    key_cid: Cid,
    value_cid: Cid,
    occupied: bool,
}

/// A fixed-capacity table from key identifiers to value identifiers, with
/// open addressing and linear probing, and no deletion.
pub struct HashOwn {
    slots: [Slot; CAPACITY],
    count: usize,
    model: Ghost<Map<Cid, Cid>>,
}

impl View for HashOwn {
    type V = Map<Cid, Cid>;

    closed spec fn view(&self) -> Map<Cid, Cid> {
        self.model@
    }
}

/// The slots of a freshly created table: all unoccupied.
pub open spec fn fresh_entries() -> Seq<Option<(Cid, Cid)>> {
    Seq::new(CAPACITY as nat, |i: int| None::<(Cid, Cid)>)
}

/// What a lookup of `key` in the mapping `m` gives.
pub open spec fn lookup(m: Map<Cid, Cid>, key: Cid) -> Option<Cid> {
    if m.contains_key(key) {
        Some(m[key])
    } else {
        None
    }
}

/// An insertion of `key` succeeds when the key is already stored (its value
/// is then replaced) or when a slot is still free.
pub open spec fn insert_succeeds(m: Map<Cid, Cid>, key: Cid) -> bool {
    m.contains_key(key) || m.len() < CAPACITY
}

/// The mapping after an insertion of `key` with `value`.
pub open spec fn after_insert(m: Map<Cid, Cid>, key: Cid, value: Cid) -> Map<Cid, Cid> {
    if insert_succeeds(m, key) {
        m.insert(key, value)
    } else {
        m
    }
}

/// The number of zero bits among the low `n` bits of `x`.
pub open spec fn low_zero_bits(x: u8, n: nat) -> nat
    decreases n,
{
    if n == 0 {
        0
    } else {
        let b = (n - 1) as nat;
        low_zero_bits(x, b) + if (x >> (b as u8)) & 1u8 == 0u8 {
            1nat
        } else {
            0nat
        }
    }
}

/// The number of zero bits of a byte.
pub open spec fn zero_bits(x: u8) -> nat {
    low_zero_bits(x, 8)
}

/// The number of bit positions where the first `n` bytes of `a` and `b` agree.
pub open spec fn bytes_agreement(a: Seq<u8>, b: Seq<u8>, n: nat) -> nat
    decreases n,
{
    if n == 0 {
        0
    } else {
        bytes_agreement(a, b, (n - 1) as nat) + zero_bits(a[n - 1] ^ b[n - 1])
    }
}

/// The number of the 256 bit positions where a key and its value agree.
pub open spec fn pair_agreement(key: Cid, value: Cid) -> nat {
    bytes_agreement(key@, value@, 32)
}

/// The agreement summed over the stored pairs of a run of slots.
pub open spec fn agreement_total(s: Seq<Option<(Cid, Cid)>>) -> nat
    decreases s.len(),
{
    if s.len() == 0 {
        0
    } else {
        agreement_total(s.drop_last()) + match s.last() {
            Some((k, v)) => pair_agreement(k, v),
            None => 0,
        }
    }
}

proof fn lemma_low_zero_bits_bound(x: u8, n: nat)
    ensures
        low_zero_bits(x, n) <= n,
    decreases n,
{
    if n > 0 {
        lemma_low_zero_bits_bound(x, (n - 1) as nat);
    }
}

proof fn lemma_bytes_agreement_bound(a: Seq<u8>, b: Seq<u8>, n: nat)
    ensures
        bytes_agreement(a, b, n) <= 8 * n,
    decreases n,
{
    if n > 0 {
        lemma_bytes_agreement_bound(a, b, (n - 1) as nat);
        lemma_low_zero_bits_bound(a[n - 1] ^ b[n - 1], 8);
    }
}

/// Counts the zero bits of a byte.
fn count_zero_bits(x: u8) -> (r: u32)
    ensures
        r == zero_bits(x),
{
    let mut z: u32 = 0;
    let mut b: u8 = 0;
    while b < 8
        invariant
            b <= 8,
            z == low_zero_bits(x, b as nat),
            z <= b,
        decreases 8 - b,
    {
        if (x >> b) & 1 == 0 {
            z += 1;
        }
        b += 1;
    }
    z
}

/// The number of bit positions where `key` and `value` agree.
fn slot_agreement(key: &Cid, value: &Cid) -> (r: u32)
    ensures
        r == pair_agreement(*key, *value),
        r <= 256,
{
    let mut sum: u32 = 0;
    let mut i: usize = 0;
    while i < 32
        invariant
            i <= 32,
            key@.len() == 32,
            value@.len() == 32,
            sum == bytes_agreement(key@, value@, i as nat),
            sum <= 8 * i,
        decreases 32 - i,
    {
        let x = key.hash[i] ^ value.hash[i];
        let z = count_zero_bits(x);
        proof {
            lemma_low_zero_bits_bound(x, 8);
        }
        sum = sum + z;
        i += 1;
    }
    sum
}

impl HashOwn {
    spec fn occ(&self, i: int) -> bool {
        self.slots@[i].occupied
    }

    spec fn key_at(&self, i: int) -> Cid {
        self.slots@[i].key_cid
    }

    spec fn occupied_below(&self, n: int) -> Set<int> {
        Set::new(|i: int| 0 <= i < n && self.slots@[i].occupied)
    }

    spec fn occupied_set(&self) -> Set<int> {
        Set::new(|i: int| 0 <= i < CAPACITY && self.slots@[i].occupied)
    }

    /// The stored pairs slot by slot, `None` for an unoccupied slot.
    pub closed spec fn entries(&self) -> Seq<Option<(Cid, Cid)>> {
        Seq::new(
            CAPACITY as nat,
            |i: int|
                if self.slots@[i].occupied {
                    Some((self.slots@[i].key_cid, self.slots@[i].value_cid))
                } else {
                    None
                },
        )
    }

    /// The table's invariant: the count matches both the occupied slots and
    /// the mapping, each occupied slot holds a distinct key with its value,
    /// and every slot between a key's home slot and its own slot is occupied.
    pub closed spec fn wf(&self) -> bool {
        &&& self.model@.dom().finite()
        &&& self.count == self.model@.len()
        &&& self.occupied_set().finite()
        &&& self.count == self.occupied_set().len()
        &&& self.count <= CAPACITY
        &&& forall|i: int|
            0 <= i < CAPACITY && #[trigger] self.occ(i) ==> {
                &&& self.model@.contains_key(self.key_at(i))
                &&& self.model@[self.key_at(i)] == self.slots@[i].value_cid
            }
        &&& forall|k: Cid|
            #[trigger] self.model@.contains_key(k) ==> exists|i: int|
                0 <= i < CAPACITY && self.occ(i) && #[trigger] self.key_at(i) == k
        &&& forall|i: int, j: int|
            0 <= i < CAPACITY && 0 <= j < CAPACITY && i != j && #[trigger] self.occ(i)
                && #[trigger] self.occ(j) ==> self.key_at(i) != self.key_at(j)
        &&& forall|i: int, e: int|
            0 <= i < CAPACITY && #[trigger] self.occ(i) && 0 <= e < probe_distance(
                home_index(self.key_at(i)),
                i,
            ) ==> #[trigger] self.occ(probe_at(home_index(self.key_at(i)), e))
    }

    /// A table's mapping is finite and holds at most `CAPACITY` keys.
    pub proof fn lemma_bounded(&self)
        requires
            self.wf(),
        ensures
            self@.dom().finite(),
            self@.len() <= CAPACITY,
    {
    }

    /// Creates an empty table: every slot unoccupied, nothing stored.
    pub fn new() -> (r: HashOwn)
        ensures
            r.wf(),
            r@ == Map::<Cid, Cid>::empty(),
            r.entries() == fresh_entries(),
    {
        let blank = Cid { hash: [0u8; 32] };
        let empty = Slot { key_cid: blank, value_cid: blank, occupied: false };
        let r = HashOwn { slots: [empty; CAPACITY], count: 0, model: Ghost(Map::empty()) };
        assert(r.occupied_set() =~= Set::empty());
        assert(r.entries() =~= fresh_entries());
        r
    }

    /// The home slot of a key: the rolling polynomial over its first eight
    /// bytes, modulo the capacity.
    fn hash_to_index(&self, cid: Cid) -> (r: usize)
        ensures
            r == home_index(cid),
            r < CAPACITY,
    {
        let mut index: usize = 0;
        let mut i: usize = 0;
        while i < INDEX_BYTES
            invariant
                0 <= i <= INDEX_BYTES,
                cid@.len() == 32,
                index == index_poly(cid@, i as nat) % (CAPACITY as int),
            decreases INDEX_BYTES - i,
        {
            proof {
                let p = index_poly(cid@, i as nat);
                let b = cid@[i as int] as int;
                lemma_mul_mod_noop_left(p, 31, CAPACITY as int);
                lemma_add_mod_noop(p * 31, b, CAPACITY as int);
                lemma_add_mod_noop((p % (CAPACITY as int)) * 31, b, CAPACITY as int);
                assert(((p % (CAPACITY as int)) * 31) % (CAPACITY as int) == (p * 31) % (CAPACITY as int));
            }
            index = (index * 31 + cid.hash[i] as usize) % CAPACITY;
            i += 1;
        }
        index
    }

    /// Probing from the key's home slot met only other keys for `i` steps and
    /// then an unoccupied slot, or went round the whole table: the key is absent.
    proof fn lemma_probe_absent(&self, key: Cid, h: int, i: int)
        requires
            self.wf(),
            h == home_index(key),
            0 <= i <= CAPACITY,
            forall|e: int|
                0 <= e < i ==> #[trigger] self.occ(probe_at(h, e)) && self.key_at(probe_at(h, e))
                    != key,
            i == CAPACITY || !self.occ(probe_at(h, i)),
        ensures
            !self@.contains_key(key),
    {
        if self@.contains_key(key) {
            let p = choose|p: int| 0 <= p < CAPACITY && self.occ(p) && #[trigger] self.key_at(p) == key;
            lemma_probe_distance(h, p);
            let d = probe_distance(h, p);
            if d < i {
                assert(self.occ(probe_at(h, d)));
            } else if d > i {
                assert(self.occ(probe_at(h, i)));
            }
        }
    }

    /// Stores `value` under `key_cid`. Probing from the key's home slot, the
    /// first unoccupied slot is claimed, or the slot already holding the key has
    /// its value replaced; `false` when every slot holds another key.
    pub fn insert(&mut self, key_cid: Cid, value_cid: Cid) -> (r: bool)
        requires
            old(self).wf(),
        ensures
            final(self).wf(),
            r == insert_succeeds(old(self)@, key_cid),
            final(self)@ == after_insert(old(self)@, key_cid, value_cid),
            r ==> exists|i: int|
                0 <= i < CAPACITY && final(self).entries() == old(self).entries().update(
                    i,
                    Some((key_cid, value_cid)),
                ),
            !r ==> final(self).entries() == old(self).entries(),
    {
        let index = self.hash_to_index(key_cid);
        let ghost h = index as int;
        let mut i: usize = 0;
        while i < CAPACITY
            invariant
                0 <= i <= CAPACITY,
                self.wf(),
                *self == *old(self),
                h == home_index(key_cid),
                h == index,
                forall|e: int|
                    0 <= e < i ==> #[trigger] self.occ(probe_at(h, e)) && self.key_at(probe_at(h, e))
                        != key_cid,
            decreases CAPACITY - i,
        {
            let slot_idx = (index + i) % CAPACITY;
            let slot = self.slots[slot_idx];
            let ghost j = slot_idx as int;
            if !slot.occupied {
                let ghost pre = *self;
                proof {
                    self.lemma_probe_absent(key_cid, h, i as int);
                    lemma_int_range(0, CAPACITY as int);
                    lemma_len_subset(self.occupied_set(), set_int_range(0, CAPACITY as int).remove(j));
                }
                assert(self.count < CAPACITY);
                self.slots[slot_idx] = Slot { key_cid, value_cid, occupied: true };
                self.count = self.count + 1;
                self.model = Ghost(self.model@.insert(key_cid, value_cid));
                proof {
                    assert(self.occupied_set() =~= pre.occupied_set().insert(j));
                    lemma_probe_distance(h, j);
                    assert forall|p: int| 0 <= p < CAPACITY && #[trigger] self.occ(p) implies {
                        &&& self.model@.contains_key(self.key_at(p))
                        &&& self.model@[self.key_at(p)] == self.slots@[p].value_cid
                    } by {
                        if p != j {
                            assert(pre.occ(p));
                        }
                    }
                    assert forall|p: int, q: int|
                        0 <= p < CAPACITY && 0 <= q < CAPACITY && p != q && #[trigger] self.occ(p)
                            && #[trigger] self.occ(q) implies self.key_at(p) != self.key_at(q) by {
                        if p != j {
                            assert(pre.occ(p));
                        }
                        if q != j {
                            assert(pre.occ(q));
                        }
                    }
                    assert forall|k: Cid| #[trigger] self.model@.contains_key(k) implies exists|p: int|
                        0 <= p < CAPACITY && self.occ(p) && #[trigger] self.key_at(p) == k by {
                        if k == key_cid {
                            assert(self.occ(j) && self.key_at(j) == k);
                        } else {
                            let p = choose|p: int|
                                0 <= p < CAPACITY && pre.occ(p) && #[trigger] pre.key_at(p) == k;
                            assert(self.occ(p) && self.key_at(p) == k);
                        }
                    }
                    assert forall|p: int, e: int|
                        0 <= p < CAPACITY && #[trigger] self.occ(p) && 0 <= e < probe_distance(
                            home_index(self.key_at(p)),
                            p,
                        ) implies #[trigger] self.occ(probe_at(home_index(self.key_at(p)), e)) by {
                        if p != j {
                            assert(pre.occ(p));
                            assert(pre.occ(probe_at(home_index(pre.key_at(p)), e)));
                        } else {
                            assert(pre.occ(probe_at(h, e)));
                        }
                    }
                    assert(self.entries() =~= pre.entries().update(j, Some((key_cid, value_cid))));
                }
                return true;
            } else if slot.key_cid == key_cid {
                let ghost pre = *self;
                proof {
                    assert(pre.occ(j));
                }
                self.slots[slot_idx] = Slot { key_cid, value_cid, occupied: true };
                self.model = Ghost(self.model@.insert(key_cid, value_cid));
                proof {
                    assert(self.occupied_set() =~= pre.occupied_set());
                    assert(self.model@.dom() =~= pre.model@.dom());
                    assert forall|p: int| 0 <= p < CAPACITY && #[trigger] self.occ(p) implies {
                        &&& self.model@.contains_key(self.key_at(p))
                        &&& self.model@[self.key_at(p)] == self.slots@[p].value_cid
                    } by {
                        assert(pre.occ(p));
                        if p != j {
                            assert(pre.occ(j));
                        }
                    }
                    assert forall|p: int, q: int|
                        0 <= p < CAPACITY && 0 <= q < CAPACITY && p != q && #[trigger] self.occ(p)
                            && #[trigger] self.occ(q) implies self.key_at(p) != self.key_at(q) by {
                        assert(pre.occ(p));
                        assert(pre.occ(q));
                    }
                    assert forall|k: Cid| #[trigger] self.model@.contains_key(k) implies exists|p: int|
                        0 <= p < CAPACITY && self.occ(p) && #[trigger] self.key_at(p) == k by {
                        let p = choose|p: int|
                            0 <= p < CAPACITY && pre.occ(p) && #[trigger] pre.key_at(p) == k;
                        assert(self.occ(p) && self.key_at(p) == k);
                    }
                    assert forall|p: int, e: int|
                        0 <= p < CAPACITY && #[trigger] self.occ(p) && 0 <= e < probe_distance(
                            home_index(self.key_at(p)),
                            p,
                        ) implies #[trigger] self.occ(probe_at(home_index(self.key_at(p)), e)) by {
                        assert(pre.occ(p));
                        assert(pre.occ(probe_at(home_index(pre.key_at(p)), e)));
                    }
                    assert(self.entries() =~= pre.entries().update(j, Some((key_cid, value_cid))));
                }
                return true;
            }
            i += 1;
        }
        proof {
            assert(i == CAPACITY);
            self.lemma_probe_absent(key_cid, h, i as int);
            lemma_int_range(0, CAPACITY as int);
            assert forall|p: int| 0 <= p < CAPACITY implies #[trigger] self.slots@[p].occupied by {
                lemma_probe_distance(h, p);
                assert(self.occ(probe_at(h, probe_distance(h, p))));
            }
            assert(self.occupied_set() =~= set_int_range(0, CAPACITY as int));
        }
        false
    }

    /// Looks `key` up, probing from its home slot and stopping at the first
    /// unoccupied slot.
    pub fn get(&self, key_cid: Cid) -> (r: Option<Cid>)
        requires
            self.wf(),
        ensures
            r == lookup(self@, key_cid),
    {
        let index = self.hash_to_index(key_cid);
        let ghost h = index as int;
        let mut i: usize = 0;
        while i < CAPACITY
            invariant
                0 <= i <= CAPACITY,
                self.wf(),
                h == home_index(key_cid),
                h == index,
                forall|e: int|
                    0 <= e < i ==> #[trigger] self.occ(probe_at(h, e)) && self.key_at(probe_at(h, e))
                        != key_cid,
            decreases CAPACITY - i,
        {
            let slot_idx = (index + i) % CAPACITY;
            let slot = self.slots[slot_idx];
            if !slot.occupied {
                proof {
                    self.lemma_probe_absent(key_cid, h, i as int);
                }
                return None;
            } else if slot.key_cid == key_cid {
                assert(self.occ(slot_idx as int));
                return Some(slot.value_cid);
            }
            i += 1;
        }
        proof {
            assert(i == CAPACITY);
            assert forall|e: int| 0 <= e < i implies #[trigger] self.occ(probe_at(h, e))
                && self.key_at(probe_at(h, e)) != key_cid by {}
            self.lemma_probe_absent(key_cid, h, i as int);
        }
        None
    }

    /// Whether `key` is stored.
    pub fn contains(&self, key_cid: Cid) -> (r: bool)
        requires
            self.wf(),
        ensures
            r == self@.contains_key(key_cid),
    {
        self.get(key_cid).is_some()
    }

    /// The number of stored keys.
    pub fn len(&self) -> (r: usize)
        requires
            self.wf(),
        ensures
            r == self@.len(),
    {
        self.count
    }

    /// Coherence as an exact fraction `(numerator, denominator)`: the bit
    /// positions where each stored key agrees with its value, summed over the
    /// stored pairs, out of 256 per pair. An empty table has coherence one.
    pub fn coherence_ratio(&self) -> (r: (u32, u32))
        requires
            self.wf(),
        ensures
            self@.len() == 0 ==> r == (1u32, 1u32),
            self@.len() > 0 ==> r.0 == agreement_total(self.entries()) && r.1 == 256 * self@.len(),
            r.0 <= r.1,
    {
        if self.count == 0 {
            return (1, 1);
        }
        let mut sum: u32 = 0;
        let mut i: usize = 0;
        let ghost mut seen: nat = 0;
        assert(self.occupied_below(0) =~= Set::empty());
        while i < CAPACITY
            invariant
                i <= CAPACITY,
                self.wf(),
                sum == agreement_total(self.entries().take(i as int)),
                self.occupied_below(i as int).finite(),
                seen == self.occupied_below(i as int).len(),
                seen <= i,
                sum <= 256 * seen,
            decreases CAPACITY - i,
        {
            let slot = self.slots[i];
            proof {
                assert(self.entries().take(i + 1).drop_last() =~= self.entries().take(i as int));
                if slot.occupied {
                    assert(self.occupied_below(i + 1) =~= self.occupied_below(i as int).insert(
                        i as int,
                    ));
                    seen = seen + 1;
                } else {
                    assert(self.occupied_below(i + 1) =~= self.occupied_below(i as int));
                }
            }
            if slot.occupied {
                let a = slot_agreement(&slot.key_cid, &slot.value_cid);
                sum = sum + a;
            }
            i += 1;
        }
        assert(self.entries().take(CAPACITY as int) =~= self.entries());
        assert(self.occupied_below(CAPACITY as int) =~= self.occupied_set());
        (sum, 256 * self.count as u32)
    }

    /// Whether nothing is stored.
    pub fn is_empty(&self) -> (r: bool)
        requires
            self.wf(),
        ensures
            r == (self@.len() == 0),
    {
        self.count == 0
    }
}

} // verus!
