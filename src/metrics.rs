//! Summaries of what a table stores.
use vstd::prelude::*;
use crate::zero_map::{agreement_total, lookup, Cid, HashOwn, CAPACITY};

verus! {

/// Whether `key` is stored with exactly `value`; an absent key is no truth.
pub fn is_truth(map: &HashOwn, key: Cid, value: Cid) -> (r: bool)
    requires
        map.wf(),
    ensures
        r == (lookup(map@, key) == Some(value)),
{
    match map.get(key) {
        Some(stored_value) => stored_value == value,
        None => false,
    }
}

/// Truth density as an exact fraction `(numerator, denominator)`: coherence
/// times the fill ratio `len / CAPACITY`, left unreduced. An empty table has
/// density zero.
pub fn truth_density_ratio(map: &HashOwn) -> (r: (u32, u32))
    requires
        map.wf(),
    ensures
        map@.len() == 0 ==> r == (0u32, 1u32),
        map@.len() > 0 ==> r.0 == agreement_total(map.entries()) * map@.len() && r.1 == 256
            * map@.len() * CAPACITY,
        r.0 <= r.1,
{
    if map.is_empty() {
        return (0, 1);
    }
    let (num, den) = map.coherence_ratio();
    let len = map.len() as u32;
    proof {
        map.lemma_bounded();
        assert(num * len <= den * len) by (nonlinear_arith)
            requires num <= den;
        assert(den * len <= 256 * 64 * 64) by (nonlinear_arith)
            requires den == 256 * len, len <= 64;
        assert(den * len <= den * 64) by (nonlinear_arith)
            requires len <= 64;
    }
    (num * len, den * CAPACITY as u32)
}

} // verus!
