//! Structural comparison of two fonts, glyph by glyph, and an HTML report
//! of the differences.
pub mod diff;
pub mod files;
pub mod font;
pub mod hash;
pub mod html;
pub mod reader;
pub mod text;

pub use diff::{diff_fonts, FontDiff};
pub use files::{ensure_exists, mime_type};
pub use font::{glyph_to_char, FontInfo};
pub use hash::{GlyphHash, GlyphHasher};
pub use html::{escape, generate_html_report, generate_html_string, HtmlOptions};
pub use reader::init_font_info;

use diff::{diff_model, sorted_diff_of, DiffView};
use html::{default_options, report_text};
use read_fonts::ReadError;
use reader::{check_font, font_model, font_parses};
use vstd::prelude::*;

verus! {

/// Why two fonts could not be compared.
#[derive(Debug)]
pub enum FontDiffError {
    /// The bytes do not parse as a font.
    InvalidFont(ReadError),
}

/// Checks that the bytes are a font that the readers accept.
pub fn validate_font(data: &[u8]) -> (r: Result<(), FontDiffError>)
    ensures
        r is Ok <==> font_parses(data@),
{
    match check_font(data) {
        Ok(()) => Ok(()),
        Err(e) => Err(FontDiffError::InvalidFont(e)),
    }
}

/// Compares two font files and renders the HTML report of their
/// differences.
pub fn run_diff_core(old_data: &[u8], new_data: &[u8]) -> (r: Result<String, FontDiffError>)
    ensures
        r is Ok <==> font_parses(old_data@) && font_parses(new_data@),
        r matches Ok(html) ==> exists|d: DiffView|
            sorted_diff_of(d, diff_model(font_model(old_data@), font_model(new_data@))) && html@
                == report_text(
                old_data@,
                new_data@,
                font_model(old_data@),
                font_model(new_data@),
                d,
                default_options(),
            ),
{
    validate_font(old_data)?;
    validate_font(new_data)?;
    let font_a = init_font_info(old_data);
    let font_b = init_font_info(new_data);
    let diff = diff_fonts(&font_a, &font_b);
    let html = generate_html_string(old_data, new_data, &font_a, &font_b, &diff);
    assert(sorted_diff_of(diff@, diff_model(font_model(old_data@), font_model(new_data@))));
    Ok(html)
}

} // verus!
