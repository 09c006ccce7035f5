use font_diff::hash::GlyphHash;
use font_diff::font::FontInfo;
use font_diff::html::{render_names, render_pairs, row, text_eq};
use font_diff::{diff_fonts, escape, generate_html_report, generate_html_string, HtmlOptions};

#[test]
fn escapes_report_text() {
    assert_eq!(escape("<&\"'>"), "&lt;&amp;&quot;&#39;&gt;");
}

#[test]
fn escape_keeps_other_text() {
    assert_eq!(escape("uni00E9.alt é"), "uni00E9.alt é");
    assert_eq!(escape(""), "");
}

#[test]
fn text_eq_compares_strings() {
    assert!(text_eq("overlay", "overlay"));
    assert!(!text_eq("overlay", "overla"));
    assert!(!text_eq("changed", "Changed"));
}

#[test]
fn row_of_a_renamed_glyph() {
    let mut html = String::new();
    row(&mut html, "RENAMED", "renamed", "a", Some("a.alt"), 'a', "renamed-char");
    assert_eq!(
        html,
        "<div class='row'><div class='meta'><span class='tag renamed'>RENAMED</span><br><strong>a</strong><br>&#8594;<br><strong>a.alt</strong><br>U+0061</div><div class='glyph'><span class='renamed-char'>a</span></div></div>\n"
    );
}

#[test]
fn row_of_a_changed_glyph_overlays_both_fonts() {
    let mut html = String::new();
    row(&mut html, "CHANGED", "changed", "less", None, '<', "changed");
    assert_eq!(
        html,
        "<div class='row'><div class='meta'><span class='tag changed'>CHANGED</span><br><strong>less</strong><br>U+003C</div><div class='glyph'><span class='old'>&lt;</span><span class='new'>&lt;</span></div></div>\n"
    );
}

#[test]
fn row_code_point_is_padded_to_four_hex_digits() {
    let mut html = String::new();
    row(&mut html, "ADDED", "added", "g", None, '\u{1F600}', "added");
    assert!(html.contains("<br>U+1F600</div>"));
    let mut html = String::new();
    row(&mut html, "ADDED", "added", "g", None, '\u{e9}', "added");
    assert!(html.contains("<br>U+00E9</div>"));
}

#[test]
fn empty_sections_are_left_out() {
    let mut html = String::from("x");
    render_names(&mut html, "Added", "added", "ADDED", &[], |_| Some('x'));
    render_pairs(&mut html, "Renamed (Only)", "renamed", "RENAMED", &[], |_, _| Some('x'), "renamed-char");
    assert_eq!(html, "x");
}

#[test]
fn names_without_character_get_no_row() {
    let mut html = String::new();
    let names = vec!["a".to_string(), "b".to_string()];
    render_names(&mut html, "Removed", "removed", "REMOVED", &names, |name| {
        if name == "b" {
            Some('b')
        } else {
            None
        }
    });
    assert_eq!(
        html,
        "<h2>Removed</h2><div class='section removed'>\n<div class='row'><div class='meta'><span class='tag removed'>REMOVED</span><br><strong>b</strong><br>U+0062</div><div class='glyph'><span class='removed'>b</span></div></div>\n</div>\n"
    );
}

#[test]
fn report_embeds_fonts_as_base64() {
    let a = FontInfo::new();
    let b = FontInfo::new();
    let diff = diff_fonts(&a, &b);
    let html = generate_html_string(b"Man", b"Ma", &a, &b, &diff);
    assert!(html.starts_with("<!doctype html><html><head><meta charset='utf-8'><style>\n@font-face{font-family:FontA;src:url(data:font/ttf;base64,TWFu)}\n@font-face{font-family:FontB;src:url(data:font/ttf;base64,TWE=)}\n"));
    assert!(html.ends_with("</style></head><body><h1>Font Diff</h1>\n</body></html>\n"));
}

#[test]
fn report_shows_labels_only_when_both_are_given() {
    let a = FontInfo::new();
    let b = FontInfo::new();
    let diff = diff_fonts(&a, &b);
    let options = HtmlOptions { old_mime: "font/otf", new_mime: "font/ttf", old_label: Some("a<b.otf"), new_label: Some("c.ttf") };
    let html = generate_html_report(b"", b"", &a, &b, &diff, options);
    assert!(html.contains("src:url(data:font/otf;base64,)"));
    assert!(html.contains("<p>Old: a&lt;b.otf<br>New: c.ttf</p>\n"));
    let one_label = HtmlOptions { old_label: None, ..options };
    let html = generate_html_report(b"", b"", &a, &b, &diff, one_label);
    assert!(!html.contains("<p>Old:"));
}

#[test]
fn default_options_embed_truetype() {
    let o = HtmlOptions::default();
    assert_eq!(o.old_mime, "font/ttf");
    assert_eq!(o.new_mime, "font/ttf");
    assert!(o.old_label.is_none() && o.new_label.is_none());
}

#[test]
fn escaped_text_has_no_markup_characters() {
    let e = escape("a<b>\"c\"&'d'");
    assert_eq!(e, "a&lt;b&gt;&quot;c&quot;&amp;&#39;d&#39;");
    assert!(!e.contains('<') && !e.contains('>') && !e.contains('"') && !e.contains('\''));
}

#[test]
fn plain_text_is_not_escaped() {
    assert_eq!(escape("Aring.ss01 → Å"), "Aring.ss01 → Å");
}

#[test]
fn pair_rows_use_the_character_that_the_lookup_gives() {
    let mut html = String::new();
    let pairs = vec![("x".to_string(), "y".to_string()), ("p".to_string(), "q".to_string())];
    render_pairs(&mut html, "Modified (Renamed & Changed)", "modified", "MODIFIED", &pairs, |old, new| {
        if old == "p" && new == "q" {
            Some('p')
        } else {
            None
        }
    }, "overlay");
    assert_eq!(
        html,
        "<h2>Modified (Renamed & Changed)</h2><div class='section modified'>\n<div class='row'><div class='meta'><span class='tag modified'>MODIFIED</span><br><strong>p</strong><br>&#8594;<br><strong>q</strong><br>U+0070</div><div class='glyph'><span class='old'>p</span><span class='new'>p</span></div></div>\n</div>\n"
    );
}

#[test]
fn report_lists_sections_in_order_with_rows_for_known_characters() {
    let mut a = FontInfo::new();
    let mut b = FontInfo::new();
    for gid in 0..4u32 {
        a.push_glyph(gid);
        b.push_glyph(gid);
    }
    a.insert_name(0, "A");
    a.set_hash(0, GlyphHash(1, 1));
    a.map_char(0x41, 0);
    b.insert_name(0, "A");
    b.set_hash(0, GlyphHash(2, 2));
    b.map_char(0x41, 0);
    a.insert_name(1, "B");
    a.set_hash(1, GlyphHash(3, 3));
    a.map_char(0x42, 1);
    b.insert_name(1, "B.alt");
    b.set_hash(1, GlyphHash(4, 4));
    b.map_char(0x42, 1);
    a.insert_name(2, "old");
    a.set_hash(2, GlyphHash(5, 5));
    b.insert_name(2, "new");
    b.set_hash(2, GlyphHash(6, 6));
    b.map_char(0x4E, 2);
    let diff = diff_fonts(&a, &b);
    assert_eq!(diff.changed, vec!["A".to_string()]);
    assert_eq!(diff.modified, vec![("B".to_string(), "B.alt".to_string())]);
    assert_eq!(diff.added, vec!["gid3".to_string(), "new".to_string()]);
    assert_eq!(diff.removed, vec!["gid3".to_string(), "old".to_string()]);
    let html = generate_html_string(b"", b"", &a, &b, &diff);
    let modified = html.find("<h2>Modified (Renamed & Changed)</h2>").unwrap();
    let changed = html.find("<h2>Changed</h2>").unwrap();
    let added = html.find("<h2>Added</h2>").unwrap();
    let removed = html.find("<h2>Removed</h2>").unwrap();
    assert!(modified < changed && changed < added && added < removed);
    assert!(!html.contains("<h2>Renamed (Only)</h2>"));
    assert!(html.contains("<strong>B</strong><br>&#8594;<br><strong>B.alt</strong><br>U+0042"));
    assert!(html.contains("<span class='added'>N</span>"));
    assert!(!html.contains("<strong>old</strong>"));
    assert!(!html.contains("<strong>gid3</strong>"));
}
