use font_diff::{ensure_exists, mime_type};

#[test]
fn otf_extension_in_any_case_is_opentype() {
    assert_eq!(mime_type(Some("otf")), "font/otf");
    assert_eq!(mime_type(Some("OtF")), "font/otf");
    assert_eq!(mime_type(Some("ttf")), "font/ttf");
    assert_eq!(mime_type(Some("otff")), "font/ttf");
    assert_eq!(mime_type(Some("")), "font/ttf");
    assert_eq!(mime_type(None), "font/ttf");
}

#[test]
fn missing_file_is_reported_with_its_label() {
    assert_eq!(ensure_exists(true, "Old", "a.ttf"), Ok(()));
    assert_eq!(ensure_exists(false, "New", "fonts/b.ttf"), Err("New font file not found: fonts/b.ttf".to_string()));
}
