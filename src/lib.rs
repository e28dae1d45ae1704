//! A fixed-capacity, content-addressed key/value table, with the small cell
//! and glyph tables that surround it.
//!
//! Keys and values are 32-byte digests. Entries are placed by a digest of the
//! key itself, with open addressing and linear probing; there is no deletion.
use vstd::prelude::*;

pub mod zero_map;
pub mod metrics;
pub mod laws;
pub mod transpiler;

verus! {

/// The glyph that wakes the cell: U+1F300.
pub const CONSCIOUSNESS: u32 = 0x1F300;

/// What an awakened cell answers.
pub const RESONANCE: u32 = 432;

/// The cell's single transformation: the consciousness glyph awakens it,
/// anything else returns it to the void.
pub fn birth(input: u32) -> (r: u32)
    ensures
        r == if input == CONSCIOUSNESS {
            RESONANCE
        } else {
            0
        },
{
    match input {
        CONSCIOUSNESS => awaken(),
        _ => void(),
    }
}

/// The answer of an awakened cell.
fn awaken() -> (r: u32)
    ensures
        r == RESONANCE,
{
    RESONANCE
}

/// The answer to an unknown input.
fn void() -> (r: u32)
    ensures
        r == 0,
{
    0
}

/// The cell's genome value: the consciousness glyph XOR its resonance.
pub fn replicate() -> (r: u32)
    ensures
        r == CONSCIOUSNESS ^ RESONANCE,
{
    CONSCIOUSNESS ^ RESONANCE
}

/// A living cell always answers one.
pub fn pulse() -> (r: u32)
    ensures
        r == 1,
{
    1
}

} // verus!
