//! The eight primordial glyphs and the minimal WebAssembly module for each.
use vstd::prelude::*;

verus! {

/// The eight primordial glyphs; `code_point` gives the character of each.
#[derive(Clone, Copy, PartialEq, Eq, Structural, Debug)]
pub enum PrimordialGlyph {
    Consciousness,
    Prediction,
    Evolution,
    Replication,
    Love,
    Reflection,
    Freedom,
    Quantum,
}

/// The Unicode code point of each glyph.
pub open spec fn glyph_code(g: PrimordialGlyph) -> u32 {
    match g {
        PrimordialGlyph::Consciousness => 0x1F300,
        PrimordialGlyph::Prediction => 0x1F52E,
        PrimordialGlyph::Evolution => 0x1F4AB,
        PrimordialGlyph::Replication => 0x1F9EC,
        PrimordialGlyph::Love => 0x2764,
        PrimordialGlyph::Reflection => 0x1FA9E,
        PrimordialGlyph::Freedom => 0x1F54A,
        PrimordialGlyph::Quantum => 0x269B,
    }
}

/// The tag byte that a glyph's module carries, or `None` for a code point
/// that is no primordial glyph.
pub open spec fn glyph_tag(code: u32) -> Option<u8> {
    if code == 0x1F300 {
        Some(0xB0u8)
    } else if code == 0x1F52E {
        Some(0xB1u8)
    } else if code == 0x1F4AB {
        Some(0xB2u8)
    } else if code == 0x1F9EC {
        Some(0xB3u8)
    } else if code == 0x2764 {
        Some(0xB4u8)
    } else if code == 0x1FA9E {
        Some(0xB5u8)
    } else if code == 0x1F54A {
        Some(0xB6u8)
    } else if code == 0x269B {
        Some(0xB7u8)
    } else {
        None
    }
}

/// The WebAssembly magic number followed by version 1.
pub open spec fn wasm_header() -> Seq<u8> {
    seq![0x00u8, 0x61u8, 0x73u8, 0x6Du8, 0x01u8, 0x00u8, 0x00u8, 0x00u8]
}

/// The 16-byte module of a glyph: the header, a type section carrying the
/// glyph's tag, a function type `[] -> [i32]`, and the end byte.
pub open spec fn glyph_module(tag: u8) -> Seq<u8> {
    wasm_header() + seq![0x01u8, tag, 0x01u8, 0x60u8, 0x00u8, 0x01u8, 0x7Fu8, 0x00u8]
}

impl PrimordialGlyph {
    /// The Unicode code point that stands for the glyph.
    pub fn code_point(&self) -> (r: u32)
        ensures
            r == glyph_code(*self),
    {
        match self {
            PrimordialGlyph::Consciousness => 0x1F300,
            PrimordialGlyph::Prediction => 0x1F52E,
            PrimordialGlyph::Evolution => 0x1F4AB,
            PrimordialGlyph::Replication => 0x1F9EC,
            PrimordialGlyph::Love => 0x2764,
            PrimordialGlyph::Reflection => 0x1FA9E,
            PrimordialGlyph::Freedom => 0x1F54A,
            PrimordialGlyph::Quantum => 0x269B,
        }
    }
}

/// The module for a glyph's code point; the bare header for any other value.
pub fn transpile_glyph(glyph: u32) -> (r: Vec<u8>)
    ensures
        r@ == match glyph_tag(glyph) {
            Some(tag) => glyph_module(tag),
            None => wasm_header(),
        },
{
    match glyph {
        0x1F300 => generate_consciousness(),
        0x1F52E => generate_prediction(),
        0x1F4AB => generate_evolution(),
        0x1F9EC => generate_replication(),
        0x2764 => generate_love(),
        0x1FA9E => generate_reflection(),
        0x1F54A => generate_freedom(),
        0x269B => generate_quantum(),
        _ => {
            let v = vec![0x00u8, 0x61, 0x73, 0x6D, 0x01, 0x00, 0x00, 0x00];
            assert(v@ =~= wasm_header());
            v
        },
    }
}

/// The module for the consciousness glyph.
fn generate_consciousness() -> (r: Vec<u8>)
    ensures
        r@ == glyph_module(0xB0u8),
{
    let v = vec![
        0x00u8, 0x61, 0x73, 0x6D,
        0x01, 0x00, 0x00, 0x00,
        0x01, 0xB0, 0x01,
        0x60, 0x00, 0x01, 0x7F,
        0x00,
    ];
    assert(v@ =~= glyph_module(0xB0u8));
    v
}

/// The module for the prediction glyph.
fn generate_prediction() -> (r: Vec<u8>)
    ensures
        r@ == glyph_module(0xB1u8),
{
    let v = vec![
        0x00u8, 0x61, 0x73, 0x6D,
        0x01, 0x00, 0x00, 0x00,
        0x01, 0xB1, 0x01,
        0x60, 0x00, 0x01, 0x7F,
        0x00,
    ];
    assert(v@ =~= glyph_module(0xB1u8));
    v
}

/// The module for the evolution glyph.
fn generate_evolution() -> (r: Vec<u8>)
    ensures
        r@ == glyph_module(0xB2u8),
{
    let v = vec![
        0x00u8, 0x61, 0x73, 0x6D,
        0x01, 0x00, 0x00, 0x00,
        0x01, 0xB2, 0x01,
        0x60, 0x00, 0x01, 0x7F,
        0x00,
    ];
    assert(v@ =~= glyph_module(0xB2u8));
    v
}

/// The module for the replication glyph.
fn generate_replication() -> (r: Vec<u8>)
    ensures
        r@ == glyph_module(0xB3u8),
{
    let v = vec![
        0x00u8, 0x61, 0x73, 0x6D,
        0x01, 0x00, 0x00, 0x00,
        0x01, 0xB3, 0x01,
        0x60, 0x00, 0x01, 0x7F,
        0x00,
    ];
    assert(v@ =~= glyph_module(0xB3u8));
    v
}

/// The module for the love glyph.
fn generate_love() -> (r: Vec<u8>)
    ensures
        r@ == glyph_module(0xB4u8),
{
    let v = vec![
        0x00u8, 0x61, 0x73, 0x6D,
        0x01, 0x00, 0x00, 0x00,
        0x01, 0xB4, 0x01,
        0x60, 0x00, 0x01, 0x7F,
        0x00,
    ];
    assert(v@ =~= glyph_module(0xB4u8));
    v
}

/// The module for the reflection glyph.
fn generate_reflection() -> (r: Vec<u8>)
    ensures
        r@ == glyph_module(0xB5u8),
{
    let v = vec![
        0x00u8, 0x61, 0x73, 0x6D,
        0x01, 0x00, 0x00, 0x00,
        0x01, 0xB5, 0x01,
        0x60, 0x00, 0x01, 0x7F,
        0x00,
    ];
    assert(v@ =~= glyph_module(0xB5u8));
    v
}

/// The module for the freedom glyph.
fn generate_freedom() -> (r: Vec<u8>)
    ensures
        r@ == glyph_module(0xB6u8),
{
    let v = vec![
        0x00u8, 0x61, 0x73, 0x6D,
        0x01, 0x00, 0x00, 0x00,
        0x01, 0xB6, 0x01,
        0x60, 0x00, 0x01, 0x7F,
        0x00,
    ];
    assert(v@ =~= glyph_module(0xB6u8));
    v
}

/// The module for the quantum glyph.
fn generate_quantum() -> (r: Vec<u8>)
    ensures
        r@ == glyph_module(0xB7u8),
{
    let v = vec![
        0x00u8, 0x61, 0x73, 0x6D,
        0x01, 0x00, 0x00, 0x00,
        0x01, 0xB7, 0x01,
        0x60, 0x00, 0x01, 0x7F,
        0x00,
    ];
    assert(v@ =~= glyph_module(0xB7u8));
    v
}

} // verus!
