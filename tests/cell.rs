use hashown::transpiler::{transpile_glyph, PrimordialGlyph};
use hashown::{birth, pulse, replicate};

#[test]
fn birth_awakens_on_consciousness() {
    assert_eq!(birth(0x1F300), 432);
    assert_eq!(birth(0x1F52E), 0);
    assert_eq!(birth(0), 0);
}

#[test]
fn replicate_and_pulse() {
    assert_eq!(replicate(), 0x1F300 ^ 432);
    assert_eq!(pulse(), 1);
}

#[test]
fn glyph_code_points() {
    assert_eq!(PrimordialGlyph::Consciousness.code_point(), 0x1F300);
    assert_eq!(PrimordialGlyph::Love.code_point(), 0x2764);
    assert_eq!(PrimordialGlyph::Quantum.code_point(), 0x269B);
}

#[test]
fn transpile_known_and_unknown_glyphs() {
    let header = vec![0x00u8, 0x61, 0x73, 0x6D, 0x01, 0x00, 0x00, 0x00];
    assert_eq!(transpile_glyph(0x41), header);
    let m = transpile_glyph(PrimordialGlyph::Consciousness.code_point());
    assert_eq!(m.len(), 16);
    assert_eq!(&m[..8], &header[..]);
    assert_eq!(m[9], 0xB0);
    assert_eq!(transpile_glyph(0x269B)[9], 0xB7);
    assert_eq!(m[15], 0x00);
}
