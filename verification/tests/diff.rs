use font_diff::font::glyph_name;
use font_diff::hash::GlyphHash;
use font_diff::{diff_fonts, glyph_to_char, FontInfo};

fn font(glyphs: &[(u32, Option<&str>, Option<GlyphHash>)], chars: &[(u32, u32)]) -> FontInfo {
    let mut info = FontInfo::new();
    for &(gid, name, hash) in glyphs {
        info.push_glyph(gid);
        if let Some(name) = name {
            info.insert_name(gid, name);
        }
        if let Some(hash) = hash {
            info.set_hash(gid, hash);
        }
    }
    for &(cp, gid) in chars {
        info.map_char(cp, gid);
    }
    info
}

fn s(v: &[&str]) -> Vec<String> {
    v.iter().map(|x| x.to_string()).collect()
}

fn p(v: &[(&str, &str)]) -> Vec<(String, String)> {
    v.iter().map(|(a, b)| (a.to_string(), b.to_string())).collect()
}

#[test]
fn shared_characters_are_classified() {
    let h = |x: u64| Some(GlyphHash(x, x));
    let a = font(
        &[(0, Some(".notdef"), h(0)), (1, Some("A"), h(1)), (2, Some("B"), h(2)), (3, Some("C"), h(3)), (4, Some("D"), h(4))],
        &[(65, 1), (66, 2), (67, 3)],
    );
    let b = font(
        &[(0, Some(".notdef"), h(0)), (1, Some("A"), h(10)), (2, Some("Bee"), h(2)), (3, Some("Cx"), h(30)), (4, Some("E"), h(4)), (5, Some("F"), h(5))],
        &[(65, 1), (66, 2), (67, 3)],
    );
    let d = diff_fonts(&a, &b);
    assert_eq!(d.changed, s(&["A"]));
    assert_eq!(d.modified, p(&[("C", "Cx")]));
    assert_eq!(d.renamed, p(&[(".notdef", ".notdef"), ("B", "Bee"), ("D", "E")]));
    assert_eq!(d.added, s(&["F"]));
    assert!(d.removed.is_empty());
}

#[test]
fn unmatched_glyphs_are_added_and_removed_sorted() {
    let h = |x: u64| Some(GlyphHash(x, 0));
    let a = font(&[(0, Some("zeta"), h(1)), (1, Some("alpha"), h(2)), (2, None, None)], &[]);
    let b = font(&[(0, Some("omega"), h(3)), (1, Some("beta"), h(4))], &[]);
    let d = diff_fonts(&a, &b);
    assert_eq!(d.removed, s(&["alpha", "gid2", "zeta"]));
    assert_eq!(d.added, s(&["beta", "omega"]));
    assert!(d.renamed.is_empty() && d.changed.is_empty() && d.modified.is_empty());
}

#[test]
fn equal_fingerprints_match_the_last_glyph_first() {
    let h = Some(GlyphHash(9, 9));
    let a = font(&[(0, Some("x"), h)], &[]);
    let b = font(&[(0, Some("p"), h), (1, Some("q"), h)], &[]);
    let d = diff_fonts(&a, &b);
    assert_eq!(d.renamed, p(&[("x", "q")]));
    assert_eq!(d.added, s(&["p"]));
}

#[test]
fn glyphs_without_fingerprint_have_the_same_shape() {
    let a = font(&[(0, Some("a"), None)], &[(97, 0)]);
    let b = font(&[(0, Some("b"), None)], &[(97, 0)]);
    let d = diff_fonts(&a, &b);
    assert_eq!(d.renamed, p(&[("a", "b")]));
    assert!(d.modified.is_empty());
}

#[test]
fn self_comparison_has_no_changes_of_mapped_glyphs() {
    let h = |x: u64| Some(GlyphHash(x, 1));
    let a = font(&[(0, Some("a"), h(1)), (1, Some("b"), h(2))], &[(97, 0), (98, 1)]);
    let d = diff_fonts(&a, &a);
    assert!(d.added.is_empty() && d.removed.is_empty() && d.changed.is_empty());
    assert!(d.renamed.is_empty() && d.modified.is_empty());
}

#[test]
fn glyph_names_fall_back_to_the_glyph_id() {
    let a = font(&[(0, Some("a"), None), (12, None, None)], &[]);
    assert_eq!(glyph_name(&a, 0), "a");
    assert_eq!(glyph_name(&a, 12), "gid12");
    assert_eq!(glyph_name(&a, 4294967295), "gid4294967295");
    assert_eq!(glyph_name(&a, 0 + 7), "gid7");
}

#[test]
fn glyph_to_char_follows_name_then_mapping() {
    let a = font(&[(0, Some("a"), None), (1, Some("b"), None)], &[(97, 0), (0xD800, 1)]);
    assert_eq!(glyph_to_char(&a, "a"), Some('a'));
    assert_eq!(glyph_to_char(&a, "b"), None);
    assert_eq!(glyph_to_char(&a, "c"), None);
}

#[test]
fn later_mappings_overwrite_earlier_ones() {
    let a = font(&[(0, Some("a"), None), (1, Some("b"), None)], &[(97, 0), (98, 0), (97, 1)]);
    assert_eq!(glyph_to_char(&a, "a"), Some('b'));
    assert_eq!(glyph_to_char(&a, "b"), Some('a'));
}

#[test]
fn self_comparison_pairs_unmapped_twins() {
    let h = Some(GlyphHash(5, 5));
    let a = font(&[(0, Some("a"), h), (1, Some("b"), h), (2, Some("c"), Some(GlyphHash(6, 6)))], &[(99, 2)]);
    let d = diff_fonts(&a, &a);
    assert_eq!(d.renamed, p(&[("a", "b"), ("b", "a")]));
    assert!(d.added.is_empty() && d.removed.is_empty() && d.changed.is_empty() && d.modified.is_empty());
}

#[test]
fn glyph_without_fingerprint_is_removed_and_added_against_itself() {
    let a = font(&[(0, Some("a"), None)], &[]);
    let d = diff_fonts(&a, &a);
    assert_eq!(d.removed, s(&["a"]));
    assert_eq!(d.added, s(&["a"]));
}

#[test]
fn every_unshared_old_glyph_is_reported_once() {
    let h = |x: u64| Some(GlyphHash(x, 2));
    let a = font(&[(0, Some("m"), h(1)), (1, Some("n"), h(2)), (2, Some("o"), h(3)), (3, Some("q"), None)], &[(65, 0)]);
    let b = font(&[(0, Some("m"), h(1)), (1, Some("n2"), h(2))], &[(65, 0)]);
    let d = diff_fonts(&a, &b);
    assert_eq!(d.renamed, p(&[("n", "n2")]));
    assert_eq!(d.removed, s(&["o", "q"]));
    assert_eq!(d.removed.len() + d.renamed.len(), 3);
}
