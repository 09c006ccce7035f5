//! What the comparison knows of one font: its glyphs, their names, the
//! characters they are mapped to, and their outline fingerprints.
use crate::hash::GlyphHash;
use crate::text::{char_from_u32, decimal, push_char, push_decimal};
use vstd::hash_map::{HashMapWithView, StringHashMap};
use vstd::prelude::*;
use vstd::string::StringExecFns;

verus! {

broadcast use {
    vstd::std_specs::hash::axiom_u32_obeys_hash_table_key_model,
    vstd::std_specs::hash::axiom_u128_obeys_hash_table_key_model,
};

/// The glyph tables of one font. Glyph ids are `u32` values; characters are
/// held by their code points.
pub struct FontInfo {
    /// Every glyph id of the font, in order.
    pub glyph_ids: Vec<u32>,
    /// Glyph name to glyph id.
    pub name_to_id: StringHashMap<u32>,
    /// Glyph id to glyph name.
    pub id_to_name: HashMapWithView<u32, String>,
    /// Code point to glyph id.
    pub unicode_to_id: HashMapWithView<u32, u32>,
    /// Glyph id to the character last mapped to it.
    pub id_to_unicode: HashMapWithView<u32, char>,
    /// Glyph id to outline fingerprint; glyphs whose outline could not be
    /// drawn have none.
    pub hashes: HashMapWithView<u32, GlyphHash>,
}

/// The mathematical content of a [`FontInfo`].
pub struct FontView {
    pub glyph_ids: Seq<u32>,
    pub name_to_id: Map<Seq<char>, u32>,
    pub id_to_name: Map<u32, Seq<char>>,
    pub unicode_to_id: Map<u32, u32>,
    pub id_to_unicode: Map<u32, char>,
    pub hashes: Map<u32, GlyphHash>,
}

impl View for FontInfo {
    type V = FontView;

    open spec fn view(&self) -> FontView {
        FontView {
            glyph_ids: self.glyph_ids@,
            name_to_id: self.name_to_id@,
            id_to_name: self.id_to_name@.map_values(|s: String| s@),
            unicode_to_id: self.unicode_to_id@,
            id_to_unicode: self.id_to_unicode@,
            hashes: self.hashes@,
        }
    }
}

impl FontView {
    /// The name under which a glyph is reported: its own name, or `gid`
    /// followed by its id in decimal when it has none.
    pub open spec fn label(self, gid: u32) -> Seq<char> {
        if self.id_to_name.contains_key(gid) {
            self.id_to_name[gid]
        } else {
            seq!['g', 'i', 'd'] + decimal(gid as nat)
        }
    }

    /// The fingerprint of a glyph, if it has one.
    pub open spec fn hash_of(self, gid: u32) -> Option<GlyphHash> {
        if self.hashes.contains_key(gid) {
            Some(self.hashes[gid])
        } else {
            None
        }
    }

    /// The character drawn by the glyph of the given name, if the name is
    /// known and its glyph is mapped from a character.
    pub open spec fn char_of_name(self, name: Seq<char>) -> Option<char> {
        if self.name_to_id.contains_key(name) && self.id_to_unicode.contains_key(
            self.name_to_id[name],
        ) {
            Some(self.id_to_unicode[self.name_to_id[name]])
        } else {
            None
        }
    }
}

/// A glyph name leads to a character exactly through the two maps: the
/// name's glyph in `name_to_id`, then that glyph's character in
/// `id_to_unicode`, whatever character it is.
pub proof fn lemma_char_of_name_follows_the_maps(f: FontView, n: Seq<char>)
    ensures
        f.name_to_id.contains_key(n) && f.id_to_unicode.contains_key(f.name_to_id[n]) ==> f.char_of_name(n)
            == Some(f.id_to_unicode[f.name_to_id[n]]),
        !f.name_to_id.contains_key(n) ==> f.char_of_name(n) is None,
        f.name_to_id.contains_key(n) && !f.id_to_unicode.contains_key(f.name_to_id[n]) ==> f.char_of_name(n) is None,
{
}

impl FontInfo {
    /// A font with no glyphs.
    pub fn new() -> (info: Self)
        ensures
            info@.glyph_ids == Seq::<u32>::empty(),
            info@.name_to_id == Map::<Seq<char>, u32>::empty(),
            info@.id_to_name == Map::<u32, Seq<char>>::empty(),
            info@.unicode_to_id == Map::<u32, u32>::empty(),
            info@.id_to_unicode == Map::<u32, char>::empty(),
            info@.hashes == Map::<u32, GlyphHash>::empty(),
    {
        let info = FontInfo {
            glyph_ids: Vec::new(),
            name_to_id: StringHashMap::new(),
            id_to_name: HashMapWithView::new(),
            unicode_to_id: HashMapWithView::new(),
            id_to_unicode: HashMapWithView::new(),
            hashes: HashMapWithView::new(),
        };
        assert(info@.id_to_name =~= Map::<u32, Seq<char>>::empty());
        info
    }

    /// Appends a glyph id.
    pub fn push_glyph(&mut self, gid: u32)
        ensures
            final(self)@ == (FontView { glyph_ids: old(self)@.glyph_ids.push(gid), ..old(self)@ }),
    {
        self.glyph_ids.push(gid);
    }

    /// Records `name` as the name of glyph `gid`, in both directions.
    pub fn insert_name(&mut self, gid: u32, name: &str)
        ensures
            final(self)@ == (FontView {
                name_to_id: old(self)@.name_to_id.insert(name@, gid),
                id_to_name: old(self)@.id_to_name.insert(gid, name@),
                ..old(self)@
            }),
    {
        let owned = name.to_owned();
        self.name_to_id.insert(owned.clone(), gid);
        self.id_to_name.insert(gid, owned);
        assert(self@.id_to_name =~= old(self)@.id_to_name.insert(gid, name@));
    }

    /// Records that the character with code point `cp` is drawn by glyph
    /// `gid`; a value that is not a character is ignored.
    pub fn map_char(&mut self, cp: u32, gid: u32)
        ensures
            final(self)@ == (if vstd::utf8::is_scalar(cp) {
                FontView {
                    unicode_to_id: old(self)@.unicode_to_id.insert(cp, gid),
                    id_to_unicode: old(self)@.id_to_unicode.insert(gid, cp as char),
                    ..old(self)@
                }
            } else {
                old(self)@
            }),
    {
        match char_from_u32(cp) {
            Some(ch) => {
                self.unicode_to_id.insert(cp, gid);
                self.id_to_unicode.insert(gid, ch);
                proof { vstd::utf8::char_u32_cast(ch, cp); }
            },
            None => {},
        }
    }

    /// Records the outline fingerprint of glyph `gid`.
    pub fn set_hash(&mut self, gid: u32, hash: GlyphHash)
        ensures
            final(self)@ == (FontView { hashes: old(self)@.hashes.insert(gid, hash), ..old(self)@ }),
    {
        self.hashes.insert(gid, hash);
    }
}

/// The name under which glyph `gid` of `font` is reported.
pub fn glyph_name(font: &FontInfo, gid: u32) -> (name: String)
    ensures
        name@ == font@.label(gid),
{
    match font.id_to_name.get(&gid) {
        Some(name) => name.clone(),
        None => {
            let mut name = String::new();
            push_char(&mut name, 'g');
            push_char(&mut name, 'i');
            push_char(&mut name, 'd');
            push_decimal(&mut name, gid);
            assert(name@ =~= seq!['g', 'i', 'd'] + decimal(gid as nat));
            name
        },
    }
}

/// The character that the glyph named `glyph_name` is mapped from, if any.
pub fn glyph_to_char(font: &FontInfo, glyph_name: &str) -> (c: Option<char>)
    ensures
        c == font@.char_of_name(glyph_name@),
{
    match font.name_to_id.get(glyph_name) {
        Some(gid) => match font.id_to_unicode.get(gid) {
            Some(ch) => Some(*ch),
            None => None,
        },
        None => None,
    }
}

} // verus!
