use font_diff::hash::{GlyphHash, GlyphHasher};
use font_diff::reader::{compute_hashes, glyph_hash};
use font_diff::{glyph_to_char, init_font_info, run_diff_core, validate_font, FontDiffError};

/// One glyph of a test font: its `post` name index, one closed contour of
/// on-curve points (none for an empty glyph), and its advance width.
struct TestGlyph {
    name_index: u16,
    contour: Vec<(i16, i16)>,
    advance: u16,
}

fn push16(v: &mut Vec<u8>, x: u16) {
    v.extend_from_slice(&x.to_be_bytes());
}

fn push32(v: &mut Vec<u8>, x: u32) {
    v.extend_from_slice(&x.to_be_bytes());
}

fn pad4(v: &mut Vec<u8>) {
    while v.len() % 4 != 0 {
        v.push(0);
    }
}

fn glyph_data(contour: &[(i16, i16)]) -> Vec<u8> {
    let mut g = Vec::new();
    if contour.is_empty() {
        return g;
    }
    let xs: Vec<i16> = contour.iter().map(|p| p.0).collect();
    let ys: Vec<i16> = contour.iter().map(|p| p.1).collect();
    push16(&mut g, 1);
    for v in [*xs.iter().min().unwrap(), *ys.iter().min().unwrap(), *xs.iter().max().unwrap(), *ys.iter().max().unwrap()] {
        push16(&mut g, v as u16);
    }
    push16(&mut g, (contour.len() - 1) as u16);
    push16(&mut g, 0);
    for _ in contour {
        g.push(0x01);
    }
    let mut last = (0i16, 0i16);
    for p in contour {
        push16(&mut g, (p.0 - last.0) as u16);
        last.0 = p.0;
    }
    for p in contour {
        push16(&mut g, (p.1 - last.1) as u16);
        last.1 = p.1;
    }
    pad4(&mut g);
    g
}

/// A minimal TrueType font with `post` version 2 names and a format 12
/// character map.
fn build_font(glyphs: &[TestGlyph], custom_names: &[&str], cmap: &[(u32, u32)]) -> Vec<u8> {
    build_font_with_post(glyphs, custom_names, cmap, 0x0002_0000)
}

/// The same with the given `post` version (names are written for version 2
/// only).
fn build_font_with_post(glyphs: &[TestGlyph], custom_names: &[&str], cmap: &[(u32, u32)], post_version: u32) -> Vec<u8> {
    let n = glyphs.len() as u16;
    let mut tables: Vec<(&[u8; 4], Vec<u8>)> = Vec::new();

    let mut t = Vec::new();
    push16(&mut t, 0);
    push16(&mut t, 1);
    push16(&mut t, 3);
    push16(&mut t, 10);
    push32(&mut t, 12);
    push16(&mut t, 12);
    push16(&mut t, 0);
    push32(&mut t, 16 + 12 * cmap.len() as u32);
    push32(&mut t, 0);
    push32(&mut t, cmap.len() as u32);
    for &(cp, gid) in cmap {
        push32(&mut t, cp);
        push32(&mut t, cp);
        push32(&mut t, gid);
    }
    tables.push((b"cmap", t));

    let mut glyf = Vec::new();
    let mut loca = Vec::new();
    for g in glyphs {
        push32(&mut loca, glyf.len() as u32);
        glyf.extend(glyph_data(&g.contour));
    }
    push32(&mut loca, glyf.len() as u32);
    tables.push((b"glyf", glyf));

    let mut t = Vec::new();
    push32(&mut t, 0x0001_0000);
    push32(&mut t, 0x0001_0000);
    push32(&mut t, 0);
    push32(&mut t, 0x5F0F_3CF5);
    push16(&mut t, 0);
    push16(&mut t, 1000);
    t.extend([0u8; 16]);
    t.extend([0u8; 8]);
    push16(&mut t, 0);
    push16(&mut t, 8);
    push16(&mut t, 2);
    push16(&mut t, 1);
    push16(&mut t, 0);
    tables.push((b"head", t));

    let mut t = Vec::new();
    push32(&mut t, 0x0001_0000);
    push16(&mut t, 800);
    push16(&mut t, (-200i16) as u16);
    push16(&mut t, 0);
    push16(&mut t, 1000);
    t.extend([0u8; 6]);
    push16(&mut t, 1);
    push16(&mut t, 0);
    push16(&mut t, 0);
    t.extend([0u8; 8]);
    push16(&mut t, 0);
    push16(&mut t, n);
    tables.push((b"hhea", t));

    let mut t = Vec::new();
    for g in glyphs {
        push16(&mut t, g.advance);
        push16(&mut t, 0);
    }
    tables.push((b"hmtx", t));
    tables.push((b"loca", loca));

    let mut t = Vec::new();
    push32(&mut t, 0x0001_0000);
    push16(&mut t, n);
    push16(&mut t, 16);
    push16(&mut t, 1);
    push16(&mut t, 0);
    push16(&mut t, 0);
    push16(&mut t, 2);
    for _ in 0..8 {
        push16(&mut t, 0);
    }
    tables.push((b"maxp", t));

    let mut t = Vec::new();
    push32(&mut t, post_version);
    push32(&mut t, 0);
    push16(&mut t, (-100i16) as u16);
    push16(&mut t, 50);
    for _ in 0..5 {
        push32(&mut t, 0);
    }
    if post_version == 0x0002_0000 {
        push16(&mut t, n);
        for g in glyphs {
            push16(&mut t, g.name_index);
        }
        for name in custom_names {
            t.push(name.len() as u8);
            t.extend_from_slice(name.as_bytes());
        }
    }
    tables.push((b"post", t));

    let mut font = Vec::new();
    push32(&mut font, 0x0001_0000);
    push16(&mut font, tables.len() as u16);
    push16(&mut font, 128);
    push16(&mut font, 3);
    push16(&mut font, tables.len() as u16 * 16 - 128);
    let mut offset = 12 + 16 * tables.len() as u32;
    let mut body = Vec::new();
    for (tag, data) in &tables {
        font.extend_from_slice(*tag);
        push32(&mut font, 0);
        push32(&mut font, offset);
        push32(&mut font, data.len() as u32);
        body.extend_from_slice(data);
        pad4(&mut body);
        offset = 12 + 16 * tables.len() as u32 + body.len() as u32;
    }
    font.extend(body);
    font
}

fn triangle() -> Vec<(i16, i16)> {
    vec![(0, 0), (100, 0), (50, 100)]
}

fn square() -> Vec<(i16, i16)> {
    vec![(0, 0), (200, 0), (200, 200), (0, 200)]
}

/// `.notdef` (empty), `alpha` (custom name, triangle, mapped from `a`) and
/// `A` (standard name, the given contour, mapped from `A`).
fn sample_font(a_contour: Vec<(i16, i16)>) -> Vec<u8> {
    build_font(
        &[
            TestGlyph { name_index: 0, contour: vec![], advance: 500 },
            TestGlyph { name_index: 258, contour: triangle(), advance: 600 },
            TestGlyph { name_index: 36, contour: a_contour, advance: 700 },
        ],
        &["alpha"],
        &[(0x41, 2), (0x61, 1)],
    )
}

fn hash_of_words(words: &[u32]) -> GlyphHash {
    let mut h = GlyphHasher::new();
    for &w in words {
        h.write(w);
    }
    h.finish()
}

#[test]
fn a_built_font_parses() {
    assert!(validate_font(&sample_font(square())).is_ok());
    assert!(validate_font(b"not a font at all").is_err());
    assert!(validate_font(b"").is_err());
}

#[test]
fn font_info_reads_glyph_names_from_post() {
    let info = init_font_info(&sample_font(square()));
    assert_eq!(info.glyph_ids, vec![0, 1, 2]);
    assert_eq!(info.id_to_name.get(&0).map(|s| s.as_str()), Some(".notdef"));
    assert_eq!(info.id_to_name.get(&1).map(|s| s.as_str()), Some("alpha"));
    assert_eq!(info.id_to_name.get(&2).map(|s| s.as_str()), Some("A"));
    assert_eq!(info.name_to_id.get("alpha"), Some(&1));
    assert_eq!(info.id_to_name.len(), 3);
}

#[test]
fn font_info_reads_the_character_map() {
    let info = init_font_info(&sample_font(square()));
    assert_eq!(info.unicode_to_id.get(&0x41), Some(&2));
    assert_eq!(info.unicode_to_id.get(&0x61), Some(&1));
    assert_eq!(info.id_to_unicode.get(&1), Some(&'a'));
    assert_eq!(glyph_to_char(&info, "A"), Some('A'));
    assert_eq!(glyph_to_char(&info, ".notdef"), None);
}

#[test]
fn empty_glyph_fingerprints_its_advance_only() {
    let data = sample_font(square());
    assert_eq!(glyph_hash(&data, 0), Some(hash_of_words(&[500])));
}

#[test]
fn outline_words_are_tags_and_coordinate_bits() {
    let data = sample_font(square());
    let z = 0f32.to_bits();
    let expected = hash_of_words(&[
        77, z, z,
        76, 100f32.to_bits(), z,
        76, 50f32.to_bits(), 100f32.to_bits(),
        90, 600,
    ]);
    assert_eq!(glyph_hash(&data, 1), Some(expected));
}

#[test]
fn fingerprints_tell_outlines_apart() {
    let data = sample_font(square());
    let info = init_font_info(&data);
    assert_eq!(info.hashes.len(), 3);
    assert_ne!(info.hashes.get(&1), info.hashes.get(&2));
    let ids = vec![2u32, 1];
    let some = compute_hashes(&data, &ids);
    assert_eq!(some.len(), 2);
    assert_eq!(some.get(&2), info.hashes.get(&2));
}

#[test]
fn glyph_outside_the_font_takes_the_last_advance() {
    // `hmtx` repeats its last advance for the glyphs after its metrics.
    let data = sample_font(square());
    assert_eq!(glyph_hash(&data, 7), Some(hash_of_words(&[700])));
}

#[test]
fn bytes_that_are_no_font_give_an_empty_font() {
    let info = init_font_info(b"junk");
    assert!(info.glyph_ids.is_empty());
    assert_eq!(info.id_to_name.len(), 0);
    assert_eq!(info.unicode_to_id.len(), 0);
    assert_eq!(info.hashes.len(), 0);
    assert_eq!(glyph_hash(b"junk", 0), Some(hash_of_words(&[0])));
}

#[test]
fn invalid_font_is_refused() {
    let good = sample_font(square());
    assert!(matches!(run_diff_core(b"junk", &good), Err(FontDiffError::InvalidFont(_))));
    assert!(matches!(run_diff_core(&good, b"junk"), Err(FontDiffError::InvalidFont(_))));
}

#[test]
fn changed_outline_is_reported() {
    let old = sample_font(square());
    let new = sample_font(vec![(0, 0), (300, 0), (300, 300), (0, 300)]);
    let html = run_diff_core(&old, &new).unwrap();
    assert!(html.contains("<h2>Changed</h2><div class='section changed'>\n"));
    assert!(html.contains("<strong>A</strong><br>U+0041"));
    assert!(!html.contains("<h2>Modified"));
}

#[test]
fn comparing_a_font_with_itself_reports_no_change() {
    let data = sample_font(square());
    let html = run_diff_core(&data, &data).unwrap();
    assert!(!html.contains("<h2>Changed"));
    assert!(!html.contains("<h2>Modified"));
    assert!(!html.contains("<h2>Added"));
    assert!(!html.contains("<h2>Removed"));
    // The unmapped `.notdef` meets itself by fingerprint.
    assert!(html.contains("<h2>Renamed (Only)</h2><div class='section renamed'>\n</div>\n"));
}

fn three_empty_glyphs() -> Vec<TestGlyph> {
    (0..3).map(|i| TestGlyph { name_index: 300 + i, contour: vec![], advance: 100 }).collect()
}

fn name_of(info: &font_diff::FontInfo, gid: u32) -> Option<String> {
    info.id_to_name.get(&gid).cloned()
}

#[test]
fn post_without_names_falls_back_to_synthesized_names() {
    let data = build_font_with_post(&three_empty_glyphs(), &[], &[], 0x0003_0000);
    let info = init_font_info(&data);
    assert_eq!(name_of(&info, 0).as_deref(), Some("gid0"));
    assert_eq!(name_of(&info, 2).as_deref(), Some("gid2"));
    assert_eq!(info.name_to_id.get("gid1"), Some(&1));
}

#[test]
fn post_version_one_gives_the_standard_names() {
    let data = build_font_with_post(&three_empty_glyphs(), &[], &[], 0x0001_0000);
    let info = init_font_info(&data);
    assert_eq!(name_of(&info, 0).as_deref(), Some(".notdef"));
    assert_eq!(name_of(&info, 1).as_deref(), Some(".null"));
    assert_eq!(name_of(&info, 2).as_deref(), Some("nonmarkingreturn"));
}

#[test]
fn name_index_past_the_strings_is_named_by_glyph_names() {
    let glyphs = vec![
        TestGlyph { name_index: 258, contour: vec![], advance: 100 },
        TestGlyph { name_index: 300, contour: vec![], advance: 100 },
    ];
    let data = build_font(&glyphs, &["first"], &[]);
    let info = init_font_info(&data);
    assert_eq!(name_of(&info, 0).as_deref(), Some("first"));
    assert_eq!(name_of(&info, 1).as_deref(), Some("gid1"));
}
