use font_diff::hash::{hash_glyph, GlyphHash, GlyphHasher, PathVerb};

#[test]
fn fingerprint_is_deterministic_and_order_sensitive() {
    let mut first = GlyphHasher::new();
    first.write(1);
    first.write(2);
    let mut same = GlyphHasher::new();
    same.write(1);
    same.write(2);
    let mut reversed = GlyphHasher::new();
    reversed.write(2);
    reversed.write(1);

    let first = first.finish();
    let same = same.finish();
    assert_eq!(first, same);
    assert_ne!(same, reversed.finish());
}

#[test]
fn fingerprint_counts_written_words() {
    let mut h = GlyphHasher::new();
    assert_eq!(h.words, 0);
    h.write(7);
    h.write(7);
    assert_eq!(h.words, 2);
    let empty = GlyphHasher::new().finish();
    let mut zero = GlyphHasher::new();
    zero.write(0);
    assert_ne!(empty, zero.finish());
}

#[test]
fn avalanche_of_zero_is_zero() {
    assert_eq!(font_diff::hash::avalanche(0), 0);
    assert_ne!(font_diff::hash::avalanche(1), 1);
}

#[test]
fn glyph_hash_writes_commands_then_advance() {
    let verbs = vec![PathVerb::Move, PathVerb::Line, PathVerb::ClosePath];
    let hashed = hash_glyph(&Some(Some(verbs)), &[1, 2, 3, 4], Some(500)).unwrap();
    let mut manual = GlyphHasher::new();
    for word in [77u32, 1, 2, 76, 3, 4, 90, 500] {
        manual.write(word);
    }
    assert_eq!(hashed, manual.finish());
}

#[test]
fn glyph_hash_of_failed_drawing_is_none() {
    assert_eq!(hash_glyph(&Some(None), &[], Some(500)), None);
}

#[test]
fn glyph_hash_without_outline_hashes_advance_only() {
    let mut manual = GlyphHasher::new();
    manual.write(0);
    assert_eq!(hash_glyph(&None, &[], None), Some(manual.finish()));
    let other: Option<GlyphHash> = hash_glyph(&None, &[], Some(3));
    assert_ne!(other, Some(manual.finish()));
}

#[test]
fn quad_and_cubic_commands_write_all_coordinates() {
    let verbs = vec![PathVerb::Quad, PathVerb::Cubic];
    let hashed = hash_glyph(&Some(Some(verbs)), &[1, 2, 3, 4, 5, 6, 7, 8, 9, 10], None).unwrap();
    let mut manual = GlyphHasher::new();
    for word in [81u32, 1, 2, 3, 4, 67, 5, 6, 7, 8, 9, 10, 0] {
        manual.write(word);
    }
    assert_eq!(hashed, manual.finish());
}

#[test]
fn missing_coordinates_are_left_out() {
    let verbs = vec![PathVerb::Line, PathVerb::Line];
    let hashed = hash_glyph(&Some(Some(verbs)), &[1, 2, 3], Some(9)).unwrap();
    let mut manual = GlyphHasher::new();
    for word in [76u32, 1, 2, 76, 3, 9] {
        manual.write(word);
    }
    assert_eq!(hashed, manual.finish());
}

#[test]
fn verb_tags_and_arities() {
    assert_eq!(PathVerb::Move.tag(), b'M' as u32);
    assert_eq!(PathVerb::Line.tag(), b'L' as u32);
    assert_eq!(PathVerb::Quad.tag(), b'Q' as u32);
    assert_eq!(PathVerb::Cubic.tag(), b'C' as u32);
    assert_eq!(PathVerb::ClosePath.tag(), b'Z' as u32);
    assert_eq!(PathVerb::Cubic.arity(), 6);
    assert_eq!(PathVerb::ClosePath.arity(), 0);
}

#[test]
fn write_all_absorbs_a_range() {
    let mut a = GlyphHasher::new();
    a.write_all(&[5, 6, 7, 8], 1, 3);
    let mut b = GlyphHasher::new();
    b.write(6);
    b.write(7);
    assert_eq!(a.words, 2);
    assert_eq!(a.finish(), b.finish());
}
