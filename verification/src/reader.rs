//! Building a [`FontInfo`] from the bytes of a font file.
//!
//! The tables of the font are read by `read-fonts` and `skrifa`; what they
//! return is named by the uninterpreted functions below, and the rules that
//! decide the glyph names, the character map and the fingerprints are
//! verified here over those names.
use crate::font::{FontInfo, FontView};
use crate::text::texts;
use vstd::hash_map::HashMapWithView;
use crate::hash::{glyph_fingerprint, hash_glyph, min_nat, GlyphHash, PathVerb};
use read_fonts::tables::post::DEFAULT_GLYPH_NAMES;
use read_fonts::types::GlyphId;
use read_fonts::{ReadError, TableProvider};
use skrifa::charmap::Charmap;
use skrifa::instance::Size;
use skrifa::outline::pen::PathElement;
use skrifa::outline::pen::PathElement::{Close, CurveTo, LineTo, MoveTo, QuadTo};
use skrifa::{FontRef, GlyphNames, MetadataProvider};
use vstd::prelude::*;

verus! {

/// `read_fonts::ReadError`, the error of a font that does not parse.
#[verifier::external_type_specification]
#[verifier::external_body]
pub struct ExReadError(ReadError);

/// Whether `FontRef::new` accepts the bytes as a font.
pub uninterp spec fn font_parses(data: Seq<u8>) -> bool;

/// The glyph count of the `maxp` table (`None` when the bytes are no font
/// or have no `maxp`).
pub uninterp spec fn maxp_num_glyphs(data: Seq<u8>) -> Option<u16>;

/// `Post::num_names` of the `post` table (`None` when the bytes are no font
/// or have no `post`).
pub uninterp spec fn post_num_names(data: Seq<u8>) -> Option<usize>;

/// The glyph name index array of the `post` table, if it has one.
pub uninterp spec fn post_name_indices(data: Seq<u8>) -> Option<Seq<u16>>;

/// The custom name strings of the `post` table; `None` for a string that
/// does not read.
pub uninterp spec fn post_strings(data: Seq<u8>) -> Seq<Option<Seq<char>>>;

/// The standard Macintosh glyph name with the given index.
pub uninterp spec fn standard_glyph_name(index: nat) -> Seq<char>;

/// The name that `skrifa::GlyphNames` gives a glyph.
pub uninterp spec fn source_glyph_name(data: Seq<u8>, gid: u32) -> Option<Seq<char>>;

/// The (code point, glyph id) pairs of the character map, in the order in
/// which `Charmap::mappings` yields them.
pub uninterp spec fn cmap_mappings(data: Seq<u8>) -> Seq<(u32, u32)>;

/// The kinds of the elements of the unhinted, unscaled outline of a glyph:
/// `None` when the font has no outline for it, `Some(None)` when drawing it
/// failed.
pub uninterp spec fn glyph_path_verbs(data: Seq<u8>, gid: u32) -> Option<Option<Seq<PathVerb>>>;

/// The coordinates of the elements of the same outline, in drawing order,
/// each as the bit pattern of its `f32` value.
pub uninterp spec fn glyph_path_coords(data: Seq<u8>, gid: u32) -> Option<Option<Seq<u32>>>;

/// The advance width of a glyph in the `hmtx` table.
pub uninterp spec fn advance_width(data: Seq<u8>, gid: u32) -> Option<u16>;

/// Parses the bytes with `FontRef::new`. Claimed: the result is `Ok`
/// exactly when the bytes parse ([`font_parses`]); which `ReadError` comes
/// back is left unsaid.
#[verifier::external_body]
pub(crate) fn check_font(data: &[u8]) -> (r: Result<(), ReadError>)
    ensures
        r is Ok <==> font_parses(data@),
{
    FontRef::new(data).map(|_| ())
}

/// `Maxp::num_glyphs` of the font. Claimed: the result is the value named
/// [`maxp_num_glyphs`] for these bytes.
#[verifier::external_body]
fn read_num_glyphs(data: &[u8]) -> (r: Option<u16>)
    ensures
        r == maxp_num_glyphs(data@),
{
    FontRef::new(data).ok()?.maxp().ok().map(|table| table.num_glyphs())
}

/// `Post::num_names` of the font. Claimed: the result is the value named
/// [`post_num_names`] for these bytes.
#[verifier::external_body]
fn read_post_num_names(data: &[u8]) -> (r: Option<usize>)
    ensures
        r == post_num_names(data@),
{
    Some(FontRef::new(data).ok()?.post().ok()?.num_names())
}

/// `Post::glyph_name_index` of the font, each index read as a `u16`.
/// Claimed: the result is the value named [`post_name_indices`].
#[verifier::external_body]
fn read_post_name_indices(data: &[u8]) -> (r: Option<Vec<u16>>)
    ensures
        match r {
            Some(v) => post_name_indices(data@) == Some(v@),
            None => post_name_indices(data@) is None,
        },
{
    let post = FontRef::new(data).ok()?.post().ok()?;
    Some(post.glyph_name_index()?.iter().map(|index| index.get()).collect())
}

/// The strings of `Post::string_data`, each copied into a `String`, or
/// `None` where a string does not read. Claimed: their texts are the value
/// named [`post_strings`].
#[verifier::external_body]
fn read_post_strings(data: &[u8]) -> (r: Vec<Option<String>>)
    ensures
        r@.map_values(|s: Option<String>| match s {
            Some(t) => Some(t@),
            None => None,
        }) == post_strings(data@),
{
    let Some(post) = FontRef::new(data).ok().and_then(|font| font.post().ok()) else {
        return Vec::new();
    };
    let strings = post.string_data().into_iter().flat_map(|data| data.iter());
    strings.map(|s| s.ok().map(|s| s.as_str().to_owned())).collect()
}

/// The length of `read_fonts::tables::post::DEFAULT_GLYPH_NAMES`. Claimed:
/// 258, the length of that array's type.
#[verifier::external_body]
fn standard_name_count() -> (r: usize)
    ensures
        r == 258,
{
    DEFAULT_GLYPH_NAMES.len()
}

/// An entry of `DEFAULT_GLYPH_NAMES`, the standard Macintosh glyph names.
/// Claimed: its text is the value named [`standard_glyph_name`]; the index
/// is required to be in bounds.
#[verifier::external_body]
fn standard_name(index: usize) -> (r: &'static str)
    requires
        index < 258,
    ensures
        r@ == standard_glyph_name(index as nat),
{
    DEFAULT_GLYPH_NAMES[index]
}

/// `GlyphNames::get`, which names glyphs from `post`, the CFF charset, or
/// synthesizes a name. Claimed: the text of the result is the value named
/// [`source_glyph_name`].
#[verifier::external_body]
fn read_source_glyph_name(data: &[u8], gid: u32) -> (r: Option<String>)
    ensures
        match r {
            Some(s) => source_glyph_name(data@, gid) == Some(s@),
            None => source_glyph_name(data@, gid) is None,
        },
{
    let font = FontRef::new(data).ok()?;
    GlyphNames::new(&font).get(GlyphId::new(gid)).map(|name| name.as_str().to_owned())
}

/// The pairs of `Charmap::mappings`, glyph ids as integers, in the order
/// of the iterator. Claimed: they are the value named [`cmap_mappings`].
#[verifier::external_body]
fn read_cmap_mappings(data: &[u8]) -> (r: Vec<(u32, u32)>)
    ensures
        r@ == cmap_mappings(data@),
{
    let Ok(font) = FontRef::new(data) else {
        return Vec::new();
    };
    Charmap::new(&font).mappings().map(|(cp, gid)| (cp, gid.to_u32())).collect()
}

/// `OutlineGlyph::draw` of an unhinted, unscaled glyph (the settings that
/// `Size::unscaled()` converts to) into a list of `PathElement`s, given
/// back as the kind of each element. Claimed: the result is the value named
/// [`glyph_path_verbs`].
#[verifier::external_body]
fn read_glyph_verbs(data: &[u8], gid: u32) -> (r: Option<Option<Vec<PathVerb>>>)
    ensures
        match r {
            None => glyph_path_verbs(data@, gid) is None,
            Some(None) => glyph_path_verbs(data@, gid) == Some(None::<Seq<PathVerb>>),
            Some(Some(v)) => glyph_path_verbs(data@, gid) == Some(Some(v@)),
        },
{
    let mut path = Vec::<PathElement>::new();
    let drawn = FontRef::new(data).ok()?.outline_glyphs().get(GlyphId::new(gid))?.draw(Size::unscaled(), &mut path).ok();
    Some(drawn.map(|_| path.iter().map(|e| match e {
        MoveTo { .. } => PathVerb::Move,
        LineTo { .. } => PathVerb::Line,
        QuadTo { .. } => PathVerb::Quad,
        CurveTo { .. } => PathVerb::Cubic,
        Close => PathVerb::ClosePath,
    }).collect()))
}

/// The same drawing, given back as the coordinates of the elements in
/// order, each as its bit pattern (`f32::to_bits`). Claimed: the result is
/// the value named [`glyph_path_coords`].
#[verifier::external_body]
fn read_glyph_coords(data: &[u8], gid: u32) -> (r: Option<Option<Vec<u32>>>)
    ensures
        match r {
            None => glyph_path_coords(data@, gid) is None,
            Some(None) => glyph_path_coords(data@, gid) == Some(None::<Seq<u32>>),
            Some(Some(v)) => glyph_path_coords(data@, gid) == Some(Some(v@)),
        },
{
    let mut path = Vec::<PathElement>::new();
    let drawn = FontRef::new(data).ok()?.outline_glyphs().get(GlyphId::new(gid))?.draw(Size::unscaled(), &mut path).ok();
    Some(drawn.map(|_| path.iter().flat_map(|e| match *e {
        MoveTo { x, y } => vec![x, y],
        LineTo { x, y } => vec![x, y],
        QuadTo { cx0, cy0, x, y } => vec![cx0, cy0, x, y],
        CurveTo { cx0, cy0, cx1, cy1, x, y } => vec![cx0, cy0, cx1, cy1, x, y],
        Close => vec![],
    }).map(|v| v.to_bits()).collect()))
}

/// `Hmtx::advance` of the font. Claimed: the result is the value named
/// [`advance_width`].
#[verifier::external_body]
fn read_advance_width(data: &[u8], gid: u32) -> (r: Option<u16>)
    ensures
        r == advance_width(data@, gid),
{
    FontRef::new(data).ok()?.hmtx().ok()?.advance(GlyphId::new(gid))
}

/// Glyph names in both directions.
pub struct NameTables {
    pub name_to_id: Map<Seq<char>, u32>,
    pub id_to_name: Map<u32, Seq<char>>,
}

pub open spec fn no_names() -> NameTables {
    NameTables { name_to_id: Map::empty(), id_to_name: Map::empty() }
}

pub open spec fn with_name(t: NameTables, gid: u32, name: Seq<char>) -> NameTables {
    NameTables { name_to_id: t.name_to_id.insert(name, gid), id_to_name: t.id_to_name.insert(gid, name) }
}

/// The strings that read, in order.
pub open spec fn ok_strings(s: Seq<Option<Seq<char>>>) -> Seq<Seq<char>>
    decreases s.len(),
{
    if s.len() == 0 {
        seq![]
    } else {
        let p = ok_strings(s.drop_last());
        match s.last() {
            Some(x) => p.push(x),
            None => p,
        }
    }
}

/// The name that a glyph name index of `post` refers to: a standard name
/// below 258, else a custom string.
pub open spec fn post_entry_name(custom: Seq<Seq<char>>, index: u16) -> Option<Seq<char>> {
    if index < 258 {
        Some(standard_glyph_name(index as nat))
    } else if index - 258 < custom.len() {
        Some(custom[index - 258])
    } else {
        None
    }
}

/// The names given by the first `n` entries of a glyph name index.
pub open spec fn indexed_names(custom: Seq<Seq<char>>, indices: Seq<u16>, n: nat) -> NameTables
    decreases n,
{
    if n == 0 {
        no_names()
    } else {
        let t = indexed_names(custom, indices, (n - 1) as nat);
        match post_entry_name(custom, indices[n - 1]) {
            Some(name) => with_name(t, (n - 1) as u32, name),
            None => t,
        }
    }
}

/// The first `n` standard names, given to glyphs `0..n`.
pub open spec fn standard_names(n: nat) -> NameTables
    decreases n,
{
    if n == 0 {
        no_names()
    } else {
        with_name(standard_names((n - 1) as nat), (n - 1) as u32, standard_glyph_name((n - 1) as nat))
    }
}

/// The names that the `post` table gives the first `num_glyphs` glyphs. A
/// table that covers no names (such as format 3) gives none.
pub open spec fn post_names(data: Seq<u8>, num_glyphs: nat) -> NameTables {
    match post_num_names(data) {
        None => no_names(),
        Some(k) => if k == 0 {
            no_names()
        } else {
            match post_name_indices(data) {
                Some(indices) => indexed_names(
                    ok_strings(post_strings(data)),
                    indices,
                    min_nat(indices.len(), num_glyphs),
                ),
                None => standard_names(min_nat(258, num_glyphs)),
            }
        },
    }
}

/// `t` with the names that `GlyphNames` gives glyphs `0..n`.
pub open spec fn source_names(data: Seq<u8>, t: NameTables, n: nat) -> NameTables
    decreases n,
{
    if n == 0 {
        t
    } else {
        let p = source_names(data, t, (n - 1) as nat);
        match source_glyph_name(data, (n - 1) as u32) {
            Some(name) => with_name(p, (n - 1) as u32, name),
            None => p,
        }
    }
}

/// The glyph names of the font: those of `post`, completed from
/// `GlyphNames` when `post` names fewer than 100 glyphs.
pub open spec fn font_names(data: Seq<u8>, n: nat) -> NameTables {
    let t = post_names(data, n);
    if t.id_to_name.len() < 100 {
        source_names(data, t, n)
    } else {
        t
    }
}

proof fn lemma_indexed_names_at(custom: Seq<Seq<char>>, indices: Seq<u16>, n: nat, k: nat)
    requires
        k < n,
        n <= indices.len(),
        n <= 0xffff_ffff,
    ensures
        ({
            let t = indexed_names(custom, indices, n);
            match post_entry_name(custom, indices[k as int]) {
                Some(name) => t.id_to_name.contains_key(k as u32) && t.id_to_name[k as u32] == name,
                None => !t.id_to_name.contains_key(k as u32),
            }
        }),
    decreases n,
{
    let p = (n - 1) as nat;
    if p == k {
        if k > 0 {
            lemma_indexed_names_below(custom, indices, p, k);
        }
    } else {
        lemma_indexed_names_at(custom, indices, p, k);
    }
}

proof fn lemma_indexed_names_below(custom: Seq<Seq<char>>, indices: Seq<u16>, n: nat, k: nat)
    requires
        n <= k,
        k <= 0xffff_ffff,
        n <= indices.len(),
    ensures
        !indexed_names(custom, indices, n).id_to_name.contains_key(k as u32),
    decreases n,
{
    if n > 0 {
        lemma_indexed_names_below(custom, indices, (n - 1) as nat, k);
    }
}

/// The glyph name index of a `post` table names each glyph it covers: an
/// index below 258 by the standard Macintosh name of that number, an index
/// `i` from 258 on by the `(i - 258)`-th custom string that reads, and an
/// index past the strings by nothing. The font keeps these names when
/// `post` names at least 100 glyphs.
pub proof fn lemma_post_index_names(data: Seq<u8>, k: nat)
    requires
        post_num_names(data) is Some,
        post_num_names(data)->0 != 0,
        post_name_indices(data) is Some,
        k < post_name_indices(data)->0.len(),
        k < glyph_count(data),
    ensures
        ({
            let i = post_name_indices(data)->0[k as int] as nat;
            let custom = ok_strings(post_strings(data));
            let t = post_names(data, glyph_count(data));
            let g = k as u32;
            &&& i < 258 ==> t.id_to_name.contains_key(g) && t.id_to_name[g] == standard_glyph_name(i)
            &&& 258 <= i < 258 + custom.len() ==> t.id_to_name.contains_key(g) && t.id_to_name[g] == custom[i - 258]
            &&& 258 + custom.len() <= i ==> !t.id_to_name.contains_key(g)
            &&& t.id_to_name.len() >= 100 ==> font_model(data).id_to_name == t.id_to_name
        }),
{
    let indices = post_name_indices(data)->0;
    let n = glyph_count(data);
    assert(n <= 0xffff);
    lemma_indexed_names_at(ok_strings(post_strings(data)), indices, min_nat(indices.len(), n), k);
}

proof fn lemma_standard_names_at(n: nat, k: nat)
    requires
        k < n,
        n <= 258,
    ensures
        standard_names(n).id_to_name.contains_key(k as u32),
        standard_names(n).id_to_name[k as u32] == standard_glyph_name(k),
    decreases n,
{
    if (n - 1) as nat != k {
        lemma_standard_names_at((n - 1) as nat, k);
    }
}

/// A `post` table that names glyphs but has no glyph name index (format 1)
/// gives glyph `k` the `k`-th standard Macintosh name, for the first 258
/// glyphs.
pub proof fn lemma_post_standard_names(data: Seq<u8>, k: nat)
    requires
        post_num_names(data) is Some,
        post_num_names(data)->0 != 0,
        post_name_indices(data) is None,
        k < 258,
        k < glyph_count(data),
    ensures
        post_names(data, glyph_count(data)).id_to_name.contains_key(k as u32),
        post_names(data, glyph_count(data)).id_to_name[k as u32] == standard_glyph_name(k),
{
    lemma_standard_names_at(min_nat(258, glyph_count(data)), k);
}

proof fn lemma_source_names_at(data: Seq<u8>, t: NameTables, n: nat, k: nat)
    requires
        k < n,
        n <= 0xffff_ffff,
    ensures
        ({
            let r = source_names(data, t, n);
            let g = k as u32;
            &&& source_glyph_name(data, g) matches Some(name) ==> r.id_to_name.contains_key(g)
                && r.id_to_name[g] == name
            &&& source_glyph_name(data, g) is None ==> (r.id_to_name.contains_key(g) == t.id_to_name.contains_key(g)
                && r.id_to_name[g] == t.id_to_name[g])
        }),
    decreases n,
{
    let p = (n - 1) as nat;
    if p == k {
        if k > 0 {
            lemma_source_names_below(data, t, p, k);
        }
    } else {
        lemma_source_names_at(data, t, p, k);
    }
}

proof fn lemma_source_names_below(data: Seq<u8>, t: NameTables, n: nat, k: nat)
    requires
        n <= k,
        k <= 0xffff_ffff,
    ensures
        source_names(data, t, n).id_to_name.contains_key(k as u32) == t.id_to_name.contains_key(k as u32),
        source_names(data, t, n).id_to_name[k as u32] == t.id_to_name[k as u32],
    decreases n,
{
    if n > 0 {
        lemma_source_names_below(data, t, (n - 1) as nat, k);
    }
}

/// When the `post` table names fewer than 100 glyphs, every glyph that
/// `GlyphNames` names takes that name; the others keep their `post` name.
/// From 100 names on, the `post` names stand alone.
pub proof fn lemma_glyph_names_fill_in(data: Seq<u8>, k: nat)
    requires
        k < glyph_count(data),
    ensures
        ({
            let t = post_names(data, glyph_count(data));
            let names = font_model(data).id_to_name;
            let g = k as u32;
            &&& t.id_to_name.len() < 100 && source_glyph_name(data, g) is Some ==> names.contains_key(g)
                && names[g] == source_glyph_name(data, g)->0
            &&& t.id_to_name.len() < 100 && source_glyph_name(data, g) is None ==> (names.contains_key(g)
                == t.id_to_name.contains_key(g) && names[g] == t.id_to_name[g])
            &&& t.id_to_name.len() >= 100 ==> names == t.id_to_name
        }),
{
    let n = glyph_count(data);
    assert(n <= 0xffff);
    lemma_source_names_at(data, post_names(data, n), n, k);
}

/// When the `post` table names no glyph (format 3, as CFF fonts carry it),
/// every glyph name comes from `GlyphNames`, which then falls back to the
/// CFF charset: no standard Macintosh name is made up.
pub proof fn lemma_nameless_post_falls_back(data: Seq<u8>)
    requires
        post_num_names(data) == Some(0usize),
    ensures
        font_model(data).name_to_id == source_names(data, no_names(), glyph_count(data)).name_to_id,
        font_model(data).id_to_name == source_names(data, no_names(), glyph_count(data)).id_to_name,
{
    assert(no_names().id_to_name.len() == 0);
}

/// Characters and glyphs in both directions.
pub struct CharTables {
    pub unicode_to_id: Map<u32, u32>,
    pub id_to_unicode: Map<u32, char>,
}

/// The tables after the given character map pairs, in order; pairs whose
/// code point is not a character are skipped.
pub open spec fn char_tables(pairs: Seq<(u32, u32)>) -> CharTables
    decreases pairs.len(),
{
    if pairs.len() == 0 {
        CharTables { unicode_to_id: Map::empty(), id_to_unicode: Map::empty() }
    } else {
        let t = char_tables(pairs.drop_last());
        let (cp, gid) = pairs.last();
        if vstd::utf8::is_scalar(cp) {
            CharTables {
                unicode_to_id: t.unicode_to_id.insert(cp, gid),
                id_to_unicode: t.id_to_unicode.insert(gid, cp as char),
            }
        } else {
            t
        }
    }
}

proof fn lemma_char_tables_last(pairs: Seq<(u32, u32)>, j: int)
    requires
        0 <= j < pairs.len(),
        vstd::utf8::is_scalar(pairs[j].0),
    ensures
        (forall|l: int| j < l < pairs.len() ==> (#[trigger] pairs[l]).0 != pairs[j].0) ==> char_tables(
            pairs,
        ).unicode_to_id.contains_key(pairs[j].0) && char_tables(pairs).unicode_to_id[pairs[j].0] == pairs[j].1,
        (forall|l: int| j < l < pairs.len() && vstd::utf8::is_scalar((#[trigger] pairs[l]).0) ==> pairs[l].1 != pairs[j].1)
            ==> char_tables(pairs).id_to_unicode.contains_key(pairs[j].1) && char_tables(pairs).id_to_unicode[pairs[j].1]
            == pairs[j].0 as char,
    decreases pairs.len(),
{
    let n = pairs.len() - 1;
    if j < n {
        let p = pairs.drop_last();
        lemma_char_tables_last(p, j);
        assert forall|l: int| j < l < p.len() implies #[trigger] p[l] == pairs[l] by {}
    }
}

proof fn lemma_char_tables_scalar(pairs: Seq<(u32, u32)>, cp: u32)
    requires
        !vstd::utf8::is_scalar(cp),
    ensures
        !char_tables(pairs).unicode_to_id.contains_key(cp),
    decreases pairs.len(),
{
    if pairs.len() > 0 {
        lemma_char_tables_scalar(pairs.drop_last(), cp);
    }
}

/// The character map of the font is read pair by pair, later pairs
/// overriding earlier ones: a code point goes to the glyph of its last pair,
/// and a glyph is drawn from the character of its last pair. Values that
/// are not characters (above `0x10FFFF` or surrogates) are left out.
pub proof fn lemma_character_map_last_pair_wins(data: Seq<u8>, j: int, cp: u32)
    requires
        0 <= j < cmap_mappings(data).len(),
    ensures
        ({
            let pairs = cmap_mappings(data);
            let f = font_model(data);
            &&& vstd::utf8::is_scalar(pairs[j].0) && (forall|l: int| j < l < pairs.len() ==> (#[trigger] pairs[l]).0
                != pairs[j].0) ==> f.unicode_to_id.contains_key(pairs[j].0) && f.unicode_to_id[pairs[j].0] == pairs[j].1
            &&& vstd::utf8::is_scalar(pairs[j].0) && (forall|l: int|
                j < l < pairs.len() && vstd::utf8::is_scalar((#[trigger] pairs[l]).0) ==> pairs[l].1 != pairs[j].1)
                ==> f.id_to_unicode.contains_key(pairs[j].1) && f.id_to_unicode[pairs[j].1] == pairs[j].0 as char
            &&& !vstd::utf8::is_scalar(cp) ==> !f.unicode_to_id.contains_key(cp)
        }),
{
    let pairs = cmap_mappings(data);
    if vstd::utf8::is_scalar(pairs[j].0) {
        lemma_char_tables_last(pairs, j);
    }
    if !vstd::utf8::is_scalar(cp) {
        lemma_char_tables_scalar(pairs, cp);
    }
}

/// The longest outline, in elements and in coordinates, that is
/// fingerprinted.
pub const MAX_OUTLINE_LEN: u64 = 0x3fff_ffff_ffff_ffff;

/// The coordinates of an outline that could be drawn (none otherwise).
pub open spec fn drawn_coords(data: Seq<u8>, gid: u32) -> Seq<u32> {
    match glyph_path_coords(data, gid) {
        Some(Some(c)) => c,
        _ => seq![],
    }
}

/// The fingerprint of a glyph of the font (none for an outline longer than
/// [`MAX_OUTLINE_LEN`]).
pub open spec fn font_glyph_hash(data: Seq<u8>, gid: u32) -> Option<GlyphHash> {
    let verbs = glyph_path_verbs(data, gid);
    let coords = drawn_coords(data, gid);
    match verbs {
        Some(Some(vs)) => if vs.len() > MAX_OUTLINE_LEN || coords.len() > MAX_OUTLINE_LEN {
            None
        } else {
            glyph_fingerprint(verbs, coords, advance_width(data, gid))
        },
        _ => glyph_fingerprint(verbs, coords, advance_width(data, gid)),
    }
}

/// The fingerprints of the given glyphs; a glyph without one is left out.
pub open spec fn hash_table(data: Seq<u8>, ids: Seq<u32>) -> Map<u32, GlyphHash>
    decreases ids.len(),
{
    if ids.len() == 0 {
        Map::empty()
    } else {
        let m = hash_table(data, ids.drop_last());
        match font_glyph_hash(data, ids.last()) {
            Some(h) => m.insert(ids.last(), h),
            None => m,
        }
    }
}

/// The number of glyphs: that of `maxp`, or none.
pub open spec fn glyph_count(data: Seq<u8>) -> nat {
    match maxp_num_glyphs(data) {
        Some(n) => n as nat,
        None => 0,
    }
}

/// What [`init_font_info`] reads from a font.
pub open spec fn font_model(data: Seq<u8>) -> FontView {
    let n = glyph_count(data);
    let names = font_names(data, n);
    let chars = char_tables(cmap_mappings(data));
    FontView {
        glyph_ids: Seq::new(n, |i: int| i as u32),
        name_to_id: names.name_to_id,
        id_to_name: names.id_to_name,
        unicode_to_id: chars.unicode_to_id,
        id_to_unicode: chars.id_to_unicode,
        hashes: hash_table(data, Seq::new(n, |i: int| i as u32)),
    }
}

/// The fingerprint of glyph `gid` of the font.
pub fn glyph_hash(data: &[u8], gid: u32) -> (r: Option<GlyphHash>)
    ensures
        r == font_glyph_hash(data@, gid),
{
    let verbs = read_glyph_verbs(data, gid);
    let advance = read_advance_width(data, gid);
    match &verbs {
        Some(Some(vs)) => {
            let coords = match read_glyph_coords(data, gid) {
                Some(Some(c)) => c,
                _ => Vec::new(),
            };
            if vs.len() as u64 > MAX_OUTLINE_LEN || coords.len() as u64 > MAX_OUTLINE_LEN {
                return None;
            }
            hash_glyph(&verbs, coords.as_slice(), advance)
        },
        _ => {
            let none: Vec<u32> = Vec::new();
            hash_glyph(&verbs, none.as_slice(), advance)
        },
    }
}

/// The fingerprints of the given glyphs of the font.
pub fn compute_hashes(data: &[u8], glyph_ids: &Vec<u32>) -> (r: HashMapWithView<u32, GlyphHash>)
    ensures
        r@ == hash_table(data@, glyph_ids@),
{
    let mut hashes: HashMapWithView<u32, GlyphHash> = HashMapWithView::new();
    let mut i: usize = 0;
    while i < glyph_ids.len()
        invariant
            i <= glyph_ids.len(),
            hashes@ == hash_table(data@, glyph_ids@.take(i as int)),
        decreases glyph_ids.len() - i,
    {
        let gid = glyph_ids[i];
        proof {
            assert(glyph_ids@.take(i + 1).drop_last() =~= glyph_ids@.take(i as int));
        }
        match glyph_hash(data, gid) {
            Some(h) => {
                hashes.insert(gid, h);
            },
            None => {},
        }
        i = i + 1;
    }
    assert(glyph_ids@.take(glyph_ids.len() as int) =~= glyph_ids@);
    hashes
}

pub open spec fn with_names(v: FontView, t: NameTables) -> FontView {
    FontView { name_to_id: t.name_to_id, id_to_name: t.id_to_name, ..v }
}

/// Fills the empty name tables of `info` with the names of the `post`
/// table for the first `num_glyphs` glyphs.
fn read_post_names(data: &[u8], num_glyphs: u32, info: &mut FontInfo)
    requires
        old(info)@.name_to_id == Map::<Seq<char>, u32>::empty(),
        old(info)@.id_to_name == Map::<u32, Seq<char>>::empty(),
    ensures
        final(info)@ == with_names(old(info)@, post_names(data@, num_glyphs as nat)),
{
    let ghost v0 = info@;
    assert(v0 == with_names(v0, no_names()));
    match read_post_num_names(data) {
        None => {
            return;
        },
        Some(k) => {
            if k == 0 {
                return;
            }
        },
    }
    match read_post_name_indices(data) {
        Some(indices) => {
            let raw = read_post_strings(data);
            let ghost rv = raw@.map_values(|s: Option<String>| match s {
                Some(t) => Some(t@),
                None => None,
            });
            let mut custom: Vec<String> = Vec::new();
            let mut r: usize = 0;
            while r < raw.len()
                invariant
                    r <= raw.len(),
                    rv == post_strings(data@),
                    rv.len() == raw@.len(),
                    forall|q: int| 0 <= q < raw@.len() ==> #[trigger] rv[q] == match raw@[q] {
                        Some(t) => Some(t@),
                        None => None::<Seq<char>>,
                    },
                    texts(custom@) == ok_strings(rv.take(r as int)),
                decreases raw.len() - r,
            {
                proof {
                    assert(rv.take(r + 1).drop_last() =~= rv.take(r as int));
                }
                match &raw[r] {
                    Some(s) => {
                        let ghost before = custom@;
                        custom.push(s.clone());
                        proof {
                            assert(texts(custom@) =~= texts(before).push(s@));
                        }
                    },
                    None => {},
                }
                r = r + 1;
            }
            proof {
                assert(rv.take(raw.len() as int) =~= rv);
            }
            let ghost cv = texts(custom@);
            let standard = standard_name_count();
            let limit: usize = if indices.len() <= num_glyphs as usize {
                indices.len()
            } else {
                num_glyphs as usize
            };
            let mut index: usize = 0;
            while index < limit
                invariant
                    index <= limit,
                    limit <= indices.len(),
                    limit <= num_glyphs,
                    standard == 258,
                    cv == texts(custom@),
                    cv == ok_strings(post_strings(data@)),
                    info@ == with_names(v0, indexed_names(cv, indices@, index as nat)),
                decreases limit - index,
            {
                let name_index = indices[index];
                if (name_index as usize) < standard {
                    info.insert_name(index as u32, standard_name(name_index as usize));
                } else if ((name_index as usize) - standard) < custom.len() {
                    let name = &custom[(name_index as usize) - standard];
                    info.insert_name(index as u32, name.as_str());
                }
                proof {
                    assert(info@.name_to_id =~= indexed_names(cv, indices@, (index + 1) as nat).name_to_id);
                    assert(info@.id_to_name =~= indexed_names(cv, indices@, (index + 1) as nat).id_to_name);
                }
                index = index + 1;
            }
        },
        None => {
            let standard = standard_name_count();
            let limit: u32 = if num_glyphs <= 258 {
                num_glyphs
            } else {
                258
            };
            let mut index: u32 = 0;
            while index < limit
                invariant
                    index <= limit,
                    limit <= 258,
                    standard == 258,
                    info@ == with_names(v0, standard_names(index as nat)),
                decreases limit - index,
            {
                info.insert_name(index, standard_name(index as usize));
                index = index + 1;
            }
        },
    }
}

/// Reads what the comparison needs of a font: its glyph ids, glyph names,
/// character map and outline fingerprints.
pub fn init_font_info(data: &[u8]) -> (info: FontInfo)
    ensures
        info@ == font_model(data@),
{
    let num_glyphs: u32 = match read_num_glyphs(data) {
        Some(n) => n as u32,
        None => 0,
    };
    let mut info = FontInfo::new();
    let mut gid: u32 = 0;
    while gid < num_glyphs
        invariant
            gid <= num_glyphs,
            info@.glyph_ids == Seq::new(gid as nat, |i: int| i as u32),
            info@.name_to_id == Map::<Seq<char>, u32>::empty(),
            info@.id_to_name == Map::<u32, Seq<char>>::empty(),
            info@.unicode_to_id == Map::<u32, u32>::empty(),
            info@.id_to_unicode == Map::<u32, char>::empty(),
            info@.hashes == Map::<u32, GlyphHash>::empty(),
        decreases num_glyphs - gid,
    {
        info.push_glyph(gid);
        assert(info@.glyph_ids =~= Seq::new((gid + 1) as nat, |i: int| i as u32));
        gid = gid + 1;
    }
    let ghost ids = info@.glyph_ids;
    let ghost n = num_glyphs as nat;
    assert(n == glyph_count(data@));
    read_post_names(data, num_glyphs, &mut info);
    let ghost t = post_names(data@, n);
    assert(info.id_to_name@.dom() =~= info@.id_to_name.dom());
    if info.id_to_name.len() < 100 {
        let mut g: u32 = 0;
        while g < num_glyphs
            invariant
                g <= num_glyphs,
                n == num_glyphs,
                info@.glyph_ids == ids,
                info@.unicode_to_id == Map::<u32, u32>::empty(),
                info@.id_to_unicode == Map::<u32, char>::empty(),
                info@.hashes == Map::<u32, GlyphHash>::empty(),
                info@.name_to_id == source_names(data@, t, g as nat).name_to_id,
                info@.id_to_name == source_names(data@, t, g as nat).id_to_name,
            decreases num_glyphs - g,
        {
            match read_source_glyph_name(data, g) {
                Some(name) => {
                    info.insert_name(g, name.as_str());
                },
                None => {},
            }
            g = g + 1;
        }
    }
    let ghost names = font_names(data@, n);
    assert(info@.name_to_id == names.name_to_id && info@.id_to_name == names.id_to_name);
    let pairs = read_cmap_mappings(data);
    let mut i: usize = 0;
    while i < pairs.len()
        invariant
            i <= pairs.len(),
            pairs@ == cmap_mappings(data@),
            info@.glyph_ids == ids,
            info@.name_to_id == names.name_to_id,
            info@.id_to_name == names.id_to_name,
            info@.hashes == Map::<u32, GlyphHash>::empty(),
            info@.unicode_to_id == char_tables(pairs@.take(i as int)).unicode_to_id,
            info@.id_to_unicode == char_tables(pairs@.take(i as int)).id_to_unicode,
        decreases pairs.len() - i,
    {
        let (cp, g) = pairs[i];
        proof {
            assert(pairs@.take(i + 1).drop_last() =~= pairs@.take(i as int));
        }
        info.map_char(cp, g);
        i = i + 1;
    }
    assert(pairs@.take(pairs.len() as int) =~= pairs@);
    info.hashes = compute_hashes(data, &info.glyph_ids);
    assert(ids =~= Seq::new(n, |i: int| i as u32));
    info
}

} // verus!
