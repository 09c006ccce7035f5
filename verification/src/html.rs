//! The HTML report: both fonts embedded as data URLs, then one section per
//! kind of difference, one row per glyph that can be drawn from a character.
use crate::diff::{DiffView, FontDiff};
use crate::font::{glyph_to_char, FontInfo, FontView};
use crate::text::{hex_upper_4, push_char, push_hex_upper_4, text_pairs, texts};
use base64::engine::general_purpose;
use base64::Engine;
use vstd::prelude::*;
use vstd::string::StringExecFns;

verus! {

/// How the two fonts are embedded and labelled in the report.
#[derive(Clone, Copy)]
pub struct HtmlOptions<'a> {
    pub old_mime: &'a str,
    pub new_mime: &'a str,
    pub old_label: Option<&'a str>,
    pub new_label: Option<&'a str>,
}

impl Default for HtmlOptions<'static> {
    /// Both fonts as `font/ttf`, without labels.
    fn default() -> (o: Self)
        ensures
            o.old_mime@ == "font/ttf"@,
            o.new_mime@ == "font/ttf"@,
            o.old_label is None,
            o.new_label is None,
    {
        HtmlOptions { old_mime: "font/ttf", new_mime: "font/ttf", old_label: None, new_label: None }
    }
}

/// The style sheet of the report.
pub const REPORT_CSS: &'static str = "body{font-family:system-ui,sans-serif;margin:2em;color:#222}\nh1{font-size:1.6em}\nh2{margin-top:1.5em;border-bottom:1px solid #ccc}\n.section{display:flex;flex-wrap:wrap;gap:12px}\n.row{border:1px solid #ddd;border-radius:6px;padding:8px;width:220px}\n.meta{font-size:12px;word-break:break-all}\n.tag{font-weight:bold;padding:1px 4px;border-radius:3px;color:#fff}\n.tag.modified{background:#8e44ad}\n.tag.changed{background:#d35400}\n.tag.renamed{background:#2980b9}\n.tag.added{background:#27ae60}\n.tag.removed{background:#c0392b}\n.glyph{position:relative;height:96px;font-size:72px;line-height:96px;text-align:center}\n.glyph .old{position:absolute;left:0;right:0;font-family:FontA;color:rgba(192,57,43,.6)}\n.glyph .new{position:absolute;left:0;right:0;font-family:FontB;color:rgba(39,174,96,.6)}\n.glyph .renamed-char{font-family:FontB}\n.glyph .added{font-family:FontB}\n.glyph .removed{font-family:FontA}\n";

// ---------------------------------------------------------------------------
// Base64

/// The character of a 6-bit value in the standard base64 alphabet.
pub open spec fn base64_char(v: nat) -> char {
    if v < 26 {
        (65 + v) as char
    } else if v < 52 {
        (71 + v) as char
    } else if v < 62 {
        (v - 4) as char
    } else if v == 62 {
        '+'
    } else {
        '/'
    }
}

/// Standard base64 (RFC 4648, alphabet `A-Za-z0-9+/`, padded with `=`).
pub open spec fn base64_standard(d: Seq<u8>) -> Seq<char>
    decreases d.len(),
{
    if d.len() == 0 {
        seq![]
    } else if d.len() == 1 {
        seq![base64_char(d[0] as nat / 4), base64_char((d[0] as nat % 4) * 16), '=', '=']
    } else if d.len() == 2 {
        seq![
            base64_char(d[0] as nat / 4),
            base64_char((d[0] as nat % 4) * 16 + d[1] as nat / 16),
            base64_char((d[1] as nat % 16) * 4),
            '=',
        ]
    } else {
        seq![
            base64_char(d[0] as nat / 4),
            base64_char((d[0] as nat % 4) * 16 + d[1] as nat / 16),
            base64_char((d[1] as nat % 16) * 4 + d[2] as nat / 64),
            base64_char(d[2] as nat % 64),
        ] + base64_standard(d.skip(3))
    }
}

/// `base64::engine::general_purpose::STANDARD.encode_string`. Claimed: it
/// appends to `out` the padded base64 encoding of `data` in the standard
/// alphabet, as [`base64_standard`] states it.
#[verifier::external_body]
fn append_base64(out: &mut String, data: &[u8])
    ensures
        final(out)@ == old(out)@ + base64_standard(data@),
{
    general_purpose::STANDARD.encode_string(data, out)
}

// ---------------------------------------------------------------------------
// Escaping

/// The HTML text of one character: the five markup characters become
/// entities, every other character stands for itself.
pub open spec fn escape_char(c: char) -> Seq<char> {
    if c == '&' {
        seq!['&', 'a', 'm', 'p', ';']
    } else if c == '<' {
        seq!['&', 'l', 't', ';']
    } else if c == '>' {
        seq!['&', 'g', 't', ';']
    } else if c == '"' {
        seq!['&', 'q', 'u', 'o', 't', ';']
    } else if c == '\'' {
        seq!['&', '#', '3', '9', ';']
    } else {
        seq![c]
    }
}

/// The HTML text of a string, character by character.
pub open spec fn escape_text(s: Seq<char>) -> Seq<char>
    decreases s.len(),
{
    if s.len() == 0 {
        seq![]
    } else {
        escape_text(s.drop_last()) + escape_char(s.last())
    }
}

/// Whether `c` is one of the five characters that [`escape`] replaces.
pub open spec fn is_markup(c: char) -> bool {
    c == '&' || c == '<' || c == '>' || c == '"' || c == '\''
}

/// Escaped text holds no `<`, `>`, `"` or `'`, so it can stand as text
/// inside an element or a quoted attribute value.
pub proof fn lemma_escape_has_no_markup(s: Seq<char>)
    ensures
        forall|i: int|
            0 <= i < escape_text(s).len() ==> {
                let c = #[trigger] escape_text(s)[i];
                c != '<' && c != '>' && c != '"' && c != '\''
            },
    decreases s.len(),
{
    if s.len() > 0 {
        lemma_escape_has_no_markup(s.drop_last());
        let p = escape_text(s.drop_last());
        let e = escape_char(s.last());
        assert forall|i: int| 0 <= i < escape_text(s).len() implies {
            let c = #[trigger] escape_text(s)[i];
            c != '<' && c != '>' && c != '"' && c != '\''
        } by {
            if i < p.len() {
                assert(escape_text(s)[i] == p[i]);
            } else {
                assert(escape_text(s)[i] == e[i - p.len()]);
            }
        }
    }
}

/// Text without any of the five markup characters is left as it is.
pub proof fn lemma_escape_plain_text(s: Seq<char>)
    requires
        forall|i: int| 0 <= i < s.len() ==> !is_markup(#[trigger] s[i]),
    ensures
        escape_text(s) == s,
    decreases s.len(),
{
    if s.len() > 0 {
        lemma_escape_plain_text(s.drop_last());
        assert(!is_markup(s[s.len() - 1]));
        assert(escape_text(s) =~= s);
    }
}

fn push_escaped_char(out: &mut String, c: char)
    ensures
        final(out)@ == old(out)@ + escape_char(c),
{
    if c == '&' {
        out.append("&amp;");
        proof { reveal_strlit("&amp;"); }
    } else if c == '<' {
        out.append("&lt;");
        proof { reveal_strlit("&lt;"); }
    } else if c == '>' {
        out.append("&gt;");
        proof { reveal_strlit("&gt;"); }
    } else if c == '"' {
        out.append("&quot;");
        proof { reveal_strlit("&quot;"); }
    } else if c == '\'' {
        out.append("&#39;");
        proof { reveal_strlit("&#39;"); }
    } else {
        push_char(out, c);
    }
    assert(final(out)@ =~= old(out)@ + escape_char(c));
}

/// The text with `&`, `<`, `>`, `"` and `'` replaced by their entities.
pub fn escape(value: &str) -> (r: String)
    ensures
        r@ == escape_text(value@),
{
    let mut out = String::new();
    let mut chars = value.chars();
    let ghost s = value@;
    let ghost mut k: int = 0;
    assert(s.skip(0) =~= s);
    assert(s.take(0) =~= Seq::<char>::empty());
    loop
        invariant
            0 <= k <= s.len(),
            s == value@,
            vstd::std_specs::iter::IteratorSpec::obeys_prophetic_iter_laws(&chars),
            vstd::std_specs::iter::IteratorSpec::remaining(&chars) == s.skip(k),
            out@ == escape_text(s.take(k)),
        ensures
            out@ == escape_text(value@),
        decreases s.len() - k,
    {
        match chars.next() {
            Some(c) => {
                proof {
                    assert(s.skip(k).len() > 0);
                    assert(c == s[k]);
                    assert(s.take(k + 1).drop_last() =~= s.take(k));
                    assert(s.skip(k).drop_first() =~= s.skip(k + 1));
                    k = k + 1;
                }
                push_escaped_char(&mut out, c);
            },
            None => {
                proof {
                    assert(s.skip(k).len() == 0);
                    assert(s.take(k) =~= s);
                }
                break ;
            },
        }
    }
    out
}

/// Whether two strings are equal.
pub fn text_eq(a: &str, b: &str) -> (r: bool)
    ensures
        r == (a@ == b@),
{
    let x = a.as_bytes();
    let y = b.as_bytes();
    proof {
        vstd::utf8::encode_utf8_decode_utf8(a@);
        vstd::utf8::encode_utf8_decode_utf8(b@);
    }
    assert(x@ == vstd::utf8::encode_utf8(a@));
    assert(y@ == vstd::utf8::encode_utf8(b@));
    if x.len() != y.len() {
        return false;
    }
    let mut i: usize = 0;
    while i < x.len()
        invariant
            x.len() == y.len(),
            x@ == vstd::utf8::encode_utf8(a@),
            y@ == vstd::utf8::encode_utf8(b@),
            i <= x.len(),
            forall|j: int| 0 <= j < i ==> x@[j] == y@[j],
        decreases x.len() - i,
    {
        if x[i] != y[i] {
            proof {
                if a@ == b@ {
                    assert(x@ == y@);
                }
            }
            return false;
        }
        i = i + 1;
    }
    assert(x@ =~= y@);
    true
}

// ---------------------------------------------------------------------------
// Sections and rows

pub open spec fn section_start_text(heading: Seq<char>, class: Seq<char>) -> Seq<char> {
    "<h2>"@ + heading + "</h2><div class='section "@ + class + "'>\n"@
}

/// The tag and name(s) of a row.
pub open spec fn row_meta_text(tag: Seq<char>, class: Seq<char>, name: Seq<char>, new_name: Option<Seq<char>>) -> Seq<char> {
    "<div class='row'><div class='meta'><span class='tag "@ + class + "'>"@ + tag
        + "</span><br><strong>"@ + escape_text(name) + "</strong>"@ + match new_name {
        Some(n) => "<br>&#8594;<br><strong>"@ + escape_text(n) + "</strong>"@,
        None => Seq::<char>::empty(),
    }
}

/// The glyph drawn from `ch`: the old and new fonts overlaid, or the font
/// that `glyph_class` selects.
pub open spec fn row_glyph_text(class: Seq<char>, ch: char, glyph_class: Seq<char>) -> Seq<char> {
    let e = escape_text(seq![ch]);
    if glyph_class == "overlay"@ || class == "changed"@ {
        "<span class='old'>"@ + e + "</span><span class='new'>"@ + e + "</span>"@
    } else {
        "<span class='"@ + glyph_class + "'>"@ + e + "</span>"@
    }
}

/// One glyph of the report: its tag, name(s), code point, and the glyph.
pub open spec fn row_text(
    tag: Seq<char>,
    class: Seq<char>,
    name: Seq<char>,
    new_name: Option<Seq<char>>,
    ch: char,
    glyph_class: Seq<char>,
) -> Seq<char> {
    row_meta_text(tag, class, name, new_name) + "<br>U+"@ + hex_upper_4(ch as u32 as nat)
        + "</div><div class='glyph'>"@ + row_glyph_text(class, ch, glyph_class) + "</div></div>\n"@
}

/// The rows of the names whose character is known.
pub open spec fn name_rows(tag: Seq<char>, class: Seq<char>, names: Seq<Seq<char>>, chars: Seq<Option<char>>) -> Seq<char>
    decreases names.len(),
{
    if names.len() == 0 {
        seq![]
    } else {
        let n = names.len() - 1;
        name_rows(tag, class, names.drop_last(), chars.drop_last()) + match chars[n] {
            Some(ch) => row_text(tag, class, names[n], None, ch, class),
            None => Seq::<char>::empty(),
        }
    }
}

/// The rows of the name pairs whose character is known.
pub open spec fn pair_rows(
    tag: Seq<char>,
    class: Seq<char>,
    glyph_class: Seq<char>,
    pairs: Seq<(Seq<char>, Seq<char>)>,
    chars: Seq<Option<char>>,
) -> Seq<char>
    decreases pairs.len(),
{
    if pairs.len() == 0 {
        seq![]
    } else {
        let n = pairs.len() - 1;
        pair_rows(tag, class, glyph_class, pairs.drop_last(), chars.drop_last()) + match chars[n] {
            Some(ch) => row_text(tag, class, pairs[n].0, Some(pairs[n].1), ch, glyph_class),
            None => Seq::<char>::empty(),
        }
    }
}

/// A section of single names; nothing when there are none.
pub open spec fn names_section(
    heading: Seq<char>,
    class: Seq<char>,
    tag: Seq<char>,
    names: Seq<Seq<char>>,
    chars: Seq<Option<char>>,
) -> Seq<char> {
    if names.len() == 0 {
        seq![]
    } else {
        section_start_text(heading, class) + name_rows(tag, class, names, chars) + "</div>\n"@
    }
}

/// A section of name pairs; nothing when there are none.
pub open spec fn pairs_section(
    heading: Seq<char>,
    class: Seq<char>,
    tag: Seq<char>,
    pairs: Seq<(Seq<char>, Seq<char>)>,
    chars: Seq<Option<char>>,
    glyph_class: Seq<char>,
) -> Seq<char> {
    if pairs.len() == 0 {
        seq![]
    } else {
        section_start_text(heading, class) + pair_rows(tag, class, glyph_class, pairs, chars)
            + "</div>\n"@
    }
}

fn section_start(html: &mut String, heading: &str, class: &str)
    ensures
        final(html)@ == old(html)@ + section_start_text(heading@, class@),
{
    html.append("<h2>");
    html.append(heading);
    html.append("</h2><div class='section ");
    html.append(class);
    html.append("'>\n");
    assert(html@ =~= old(html)@ + section_start_text(heading@, class@));
}

fn row_meta(html: &mut String, tag: &str, class: &str, name: &str, new_name: Option<&str>)
    ensures
        final(html)@ == old(html)@ + row_meta_text(
            tag@,
            class@,
            name@,
            match new_name {
                Some(n) => Some(n@),
                None => None,
            },
        ),
{
    html.append("<div class='row'><div class='meta'><span class='tag ");
    html.append(class);
    html.append("'>");
    html.append(tag);
    html.append("</span><br><strong>");
    html.append(&escape(name));
    html.append("</strong>");
    let ghost h1 = html@;
    match new_name {
        Some(n) => {
            html.append("<br>&#8594;<br><strong>");
            html.append(&escape(n));
            html.append("</strong>");
            assert(html@ =~= h1 + ("<br>&#8594;<br><strong>"@ + escape_text(n@) + "</strong>"@));
        },
        None => {
            assert(html@ =~= h1 + Seq::<char>::empty());
        },
    }
    assert(html@ =~= old(html)@ + row_meta_text(
        tag@,
        class@,
        name@,
        match new_name {
            Some(n) => Some(n@),
            None => None,
        },
    ));
}

fn row_glyph(html: &mut String, class: &str, ch: char, glyph_class: &str)
    ensures
        final(html)@ == old(html)@ + row_glyph_text(class@, ch, glyph_class@),
{
    let mut one = String::new();
    push_char(&mut one, ch);
    assert(one@ =~= seq![ch]);
    let escaped = escape(one.as_str());
    if text_eq(glyph_class, "overlay") || text_eq(class, "changed") {
        html.append("<span class='old'>");
        html.append(escaped.as_str());
        html.append("</span><span class='new'>");
        html.append(escaped.as_str());
        html.append("</span>");
    } else {
        html.append("<span class='");
        html.append(glyph_class);
        html.append("'>");
        html.append(escaped.as_str());
        html.append("</span>");
    }
    assert(html@ =~= old(html)@ + row_glyph_text(class@, ch, glyph_class@));
}

/// Appends the row of one glyph.
pub fn row(html: &mut String, tag: &str, class: &str, name: &str, new_name: Option<&str>, ch: char, glyph_class: &str)
    ensures
        final(html)@ == old(html)@ + row_text(
            tag@,
            class@,
            name@,
            match new_name {
                Some(n) => Some(n@),
                None => None,
            },
            ch,
            glyph_class@,
        ),
{
    row_meta(html, tag, class, name, new_name);
    html.append("<br>U+");
    push_hex_upper_4(html, ch as u32);
    html.append("</div><div class='glyph'>");
    row_glyph(html, class, ch, glyph_class);
    html.append("</div></div>\n");
    assert(html@ =~= old(html)@ + row_text(
        tag@,
        class@,
        name@,
        match new_name {
            Some(n) => Some(n@),
            None => None,
        },
        ch,
        glyph_class@,
    ));
}

/// `c` is what `find_char` may give for a string whose text is `name`.
pub open spec fn found_char<F: Fn(&str) -> Option<char>>(find_char: F, name: Seq<char>, c: Option<char>) -> bool {
    exists|s: &str| s@ == name && call_ensures(find_char, (s,), c)
}

/// `c` is what `find_char` may give for strings whose texts are `old` and
/// `new`.
pub open spec fn found_pair_char<F: Fn(&str, &str) -> Option<char>>(
    find_char: F,
    old: Seq<char>,
    new: Seq<char>,
    c: Option<char>,
) -> bool {
    exists|s: &str, t: &str| s@ == old && t@ == new && call_ensures(find_char, (s, t), c)
}

/// Appends a section with one row per name for which `find_char` gives a
/// character; nothing when there are no names.
pub fn render_names<F>(html: &mut String, heading: &str, class: &str, tag: &str, names: &[String], find_char: F)
    where
        F: Fn(&str) -> Option<char>,
    requires
        forall|s: &str| #[trigger] call_requires(find_char, (s,)),
    ensures
        exists|chars: Seq<Option<char>>|
            #![trigger names_section(heading@, class@, tag@, texts(names@), chars)]
            chars.len() == names.len() && (forall|i: int|
                0 <= i < names.len() ==> #[trigger] found_char(find_char, names@[i]@, chars[i]))
                && final(html)@ == old(html)@ + names_section(heading@, class@, tag@, texts(names@), chars),
{
    if names.len() == 0 {
        let ghost none = Seq::<Option<char>>::empty();
        assert(html@ == old(html)@ + names_section(heading@, class@, tag@, texts(names@), none));
        assert(forall|i: int| 0 <= i < names.len() ==> #[trigger] found_char(find_char, names@[i]@, none[i]));
        return;
    }
    section_start(html, heading, class);
    let ghost h0 = html@;
    let ghost mut chars: Seq<Option<char>> = Seq::empty();
    let mut i: usize = 0;
    while i < names.len()
        invariant
            i <= names.len(),
            chars.len() == i,
            forall|s: &str| #[trigger] call_requires(find_char, (s,)),
            forall|j: int| 0 <= j < i ==> #[trigger] found_char(find_char, names@[j]@, chars[j]),
            html@ == h0 + name_rows(tag@, class@, texts(names@.take(i as int)), chars),
        decreases names.len() - i,
    {
        let name = names[i].as_str();
        let c = find_char(name);
        proof {
            assert(found_char(find_char, names@[i as int]@, c));
            assert(texts(names@.take(i + 1)).drop_last() =~= texts(names@.take(i as int)));
            assert(chars.push(c).drop_last() =~= chars);
            chars = chars.push(c);
        }
        match c {
            Some(ch) => {
                row(html, tag, class, name, None, ch, class);
            },
            None => {},
        }
        i = i + 1;
    }
    html.append("</div>\n");
    proof {
        assert(names@.take(names.len() as int) =~= names@);
        assert(html@ =~= old(html)@ + names_section(heading@, class@, tag@, texts(names@), chars));
    }
}

/// Appends a section with one row per name pair for which `find_char`
/// gives a character; nothing when there are no pairs.
pub fn render_pairs<F>(
    html: &mut String,
    heading: &str,
    class: &str,
    tag: &str,
    pairs: &[(String, String)],
    find_char: F,
    glyph_class: &str,
)
    where
        F: Fn(&str, &str) -> Option<char>,
    requires
        forall|s: &str, t: &str| #[trigger] call_requires(find_char, (s, t)),
    ensures
        exists|chars: Seq<Option<char>>|
            #![trigger pairs_section(heading@, class@, tag@, text_pairs(pairs@), chars, glyph_class@)]
            chars.len() == pairs.len() && (forall|i: int|
                0 <= i < pairs.len() ==> #[trigger] found_pair_char(find_char, pairs@[i].0@, pairs@[i].1@, chars[i]))
                && final(html)@ == old(html)@ + pairs_section(
                heading@,
                class@,
                tag@,
                text_pairs(pairs@),
                chars,
                glyph_class@,
            ),
{
    if pairs.len() == 0 {
        let ghost none = Seq::<Option<char>>::empty();
        assert(html@ == old(html)@ + pairs_section(heading@, class@, tag@, text_pairs(pairs@), none, glyph_class@));
        assert(forall|i: int|
            0 <= i < pairs.len() ==> #[trigger] found_pair_char(find_char, pairs@[i].0@, pairs@[i].1@, none[i]));
        return;
    }
    section_start(html, heading, class);
    let ghost h0 = html@;
    let ghost mut chars: Seq<Option<char>> = Seq::empty();
    let mut i: usize = 0;
    while i < pairs.len()
        invariant
            i <= pairs.len(),
            chars.len() == i,
            forall|s: &str, t: &str| #[trigger] call_requires(find_char, (s, t)),
            forall|j: int| 0 <= j < i ==> #[trigger] found_pair_char(find_char, pairs@[j].0@, pairs@[j].1@, chars[j]),
            html@ == h0 + pair_rows(tag@, class@, glyph_class@, text_pairs(pairs@.take(i as int)), chars),
        decreases pairs.len() - i,
    {
        let (old_name, new_name) = &pairs[i];
        let c = find_char(old_name.as_str(), new_name.as_str());
        proof {
            assert(found_pair_char(find_char, pairs@[i as int].0@, pairs@[i as int].1@, c));
            assert(text_pairs(pairs@.take(i + 1)).drop_last() =~= text_pairs(pairs@.take(i as int)));
            assert(chars.push(c).drop_last() =~= chars);
            chars = chars.push(c);
        }
        match c {
            Some(ch) => {
                row(html, tag, class, old_name.as_str(), Some(new_name.as_str()), ch, glyph_class);
            },
            None => {},
        }
        i = i + 1;
    }
    html.append("</div>\n");
    proof {
        assert(pairs@.take(pairs.len() as int) =~= pairs@);
        assert(html@ =~= old(html)@ + pairs_section(
            heading@,
            class@,
            tag@,
            text_pairs(pairs@),
            chars,
            glyph_class@,
        ));
    }
}

// ---------------------------------------------------------------------------
// The report

/// The mathematical content of [`HtmlOptions`]; the labels are shown only
/// when both are given.
pub struct OptionsView {
    pub old_mime: Seq<char>,
    pub new_mime: Seq<char>,
    pub old_label: Option<Seq<char>>,
    pub new_label: Option<Seq<char>>,
}

impl<'a> View for HtmlOptions<'a> {
    type V = OptionsView;

    open spec fn view(&self) -> OptionsView {
        OptionsView {
            old_mime: self.old_mime@,
            new_mime: self.new_mime@,
            old_label: match self.old_label {
                Some(l) => Some(l@),
                None => None,
            },
            new_label: match self.new_label {
                Some(l) => Some(l@),
                None => None,
            },
        }
    }
}

/// The options of [`generate_html_string`].
pub open spec fn default_options() -> OptionsView {
    OptionsView { old_mime: "font/ttf"@, new_mime: "font/ttf"@, old_label: None, new_label: None }
}

pub open spec fn report_head(o: OptionsView, old_data: Seq<u8>, new_data: Seq<u8>) -> Seq<char> {
    "<!doctype html><html><head><meta charset='utf-8'><style>\n@font-face{font-family:FontA;src:url(data:"@
        + o.old_mime + ";base64,"@ + base64_standard(old_data)
        + ")}\n@font-face{font-family:FontB;src:url(data:"@ + o.new_mime + ";base64,"@
        + base64_standard(new_data) + ")}\n"@ + REPORT_CSS@
        + "</style></head><body><h1>Font Diff</h1>\n"@
}

pub open spec fn labels_text(o: OptionsView) -> Seq<char> {
    match (o.old_label, o.new_label) {
        (Some(old), Some(new)) => "<p>Old: "@ + escape_text(old) + "<br>New: "@ + escape_text(new)
            + "</p>\n"@,
        _ => Seq::<char>::empty(),
    }
}

pub open spec fn first_char(x: Option<char>, y: Option<char>) -> Option<char> {
    match x {
        Some(c) => Some(c),
        None => y,
    }
}

/// The characters of names in font `f`.
pub open spec fn chars_in(f: FontView, names: Seq<Seq<char>>) -> Seq<Option<char>> {
    names.map_values(|n: Seq<char>| f.char_of_name(n))
}

/// The characters of names in font `a`, else in font `b`.
pub open spec fn chars_in_either(a: FontView, b: FontView, names: Seq<Seq<char>>) -> Seq<Option<char>> {
    names.map_values(|n: Seq<char>| first_char(a.char_of_name(n), b.char_of_name(n)))
}

/// The characters of the old names of pairs in font `a`.
pub open spec fn chars_of_old(a: FontView, pairs: Seq<(Seq<char>, Seq<char>)>) -> Seq<Option<char>> {
    pairs.map_values(|p: (Seq<char>, Seq<char>)| a.char_of_name(p.0))
}

/// The characters of the old names of pairs in font `a`, else of the new
/// names in font `b`.
pub open spec fn chars_of_pairs(a: FontView, b: FontView, pairs: Seq<(Seq<char>, Seq<char>)>) -> Seq<Option<char>> {
    pairs.map_values(|p: (Seq<char>, Seq<char>)| first_char(a.char_of_name(p.0), b.char_of_name(p.1)))
}

/// The five sections of the report.
pub open spec fn report_sections(a: FontView, b: FontView, d: DiffView) -> Seq<char> {
    pairs_section(
        "Modified (Renamed & Changed)"@,
        "modified"@,
        "MODIFIED"@,
        d.modified,
        chars_of_old(a, d.modified),
        "overlay"@,
    ) + names_section("Changed"@, "changed"@, "CHANGED"@, d.changed, chars_in_either(a, b, d.changed))
        + pairs_section(
        "Renamed (Only)"@,
        "renamed"@,
        "RENAMED"@,
        d.renamed,
        chars_of_pairs(a, b, d.renamed),
        "renamed-char"@,
    ) + names_section("Added"@, "added"@, "ADDED"@, d.added, chars_in(b, d.added)) + names_section(
        "Removed"@,
        "removed"@,
        "REMOVED"@,
        d.removed,
        chars_in(a, d.removed),
    )
}

/// The whole report.
pub open spec fn report_text(
    old_data: Seq<u8>,
    new_data: Seq<u8>,
    a: FontView,
    b: FontView,
    d: DiffView,
    o: OptionsView,
) -> Seq<char> {
    report_head(o, old_data, new_data) + labels_text(o) + report_sections(a, b, d)
        + "</body></html>\n"@
}

fn write_head(html: &mut String, old_data: &[u8], new_data: &[u8], options: HtmlOptions<'_>)
    ensures
        final(html)@ == old(html)@ + report_head(options@, old_data@, new_data@),
{
    html.append("<!doctype html><html><head><meta charset='utf-8'><style>\n@font-face{font-family:FontA;src:url(data:");
    html.append(options.old_mime);
    html.append(";base64,");
    append_base64(html, old_data);
    html.append(")}\n@font-face{font-family:FontB;src:url(data:");
    html.append(options.new_mime);
    html.append(";base64,");
    append_base64(html, new_data);
    html.append(")}\n");
    html.append(REPORT_CSS);
    html.append("</style></head><body><h1>Font Diff</h1>\n");
    assert(html@ =~= old(html)@ + report_head(options@, old_data@, new_data@));
}

fn write_labels(html: &mut String, options: HtmlOptions<'_>)
    ensures
        final(html)@ == old(html)@ + labels_text(options@),
{
    match (options.old_label, options.new_label) {
        (Some(old_label), Some(new_label)) => {
            html.append("<p>Old: ");
            html.append(&escape(old_label));
            html.append("<br>New: ");
            html.append(&escape(new_label));
            html.append("</p>\n");
        },
        _ => {},
    }
    assert(html@ =~= old(html)@ + labels_text(options@));
}

fn write_sections(html: &mut String, font_a: &FontInfo, font_b: &FontInfo, diff: &FontDiff)
    ensures
        final(html)@ == old(html)@ + report_sections(font_a@, font_b@, diff@),
{
    let ghost a = font_a@;
    let ghost b = font_b@;
    let ghost h0 = html@;
    let old_char = |old: &str, new: &str| -> (r: Option<char>)
        ensures
            r == font_a@.char_of_name(old@),
        { glyph_to_char(font_a, old) };
    render_pairs(html, "Modified (Renamed & Changed)", "modified", "MODIFIED", diff.modified.as_slice(), old_char, "overlay");
    proof {
        let d = diff@.modified;
        let chars = choose|chars: Seq<Option<char>>|
            chars.len() == d.len() && (forall|i: int|
                0 <= i < d.len() ==> #[trigger] found_pair_char(old_char, diff.modified@[i].0@, diff.modified@[i].1@, chars[i]))
                && html@ == h0 + pairs_section("Modified (Renamed & Changed)"@, "modified"@, "MODIFIED"@, d, chars, "overlay"@);
        assert forall|i: int| 0 <= i < d.len() implies chars[i] == #[trigger] chars_of_old(a, d)[i] by {
            assert(found_pair_char(old_char, diff.modified@[i].0@, diff.modified@[i].1@, chars[i]));
        }
        assert(chars =~= chars_of_old(a, d));
    }
    let ghost h1 = html@;
    let either_char = |name: &str| -> (r: Option<char>)
        ensures
            r == first_char(font_a@.char_of_name(name@), font_b@.char_of_name(name@)),
        {
            match glyph_to_char(font_a, name) {
                Some(c) => Some(c),
                None => glyph_to_char(font_b, name),
            }
        };
    render_names(html, "Changed", "changed", "CHANGED", diff.changed.as_slice(), either_char);
    proof {
        let d = diff@.changed;
        let chars = choose|chars: Seq<Option<char>>|
            chars.len() == d.len() && (forall|i: int|
                0 <= i < d.len() ==> #[trigger] found_char(either_char, diff.changed@[i]@, chars[i]))
                && html@ == h1 + names_section("Changed"@, "changed"@, "CHANGED"@, d, chars);
        assert forall|i: int| 0 <= i < d.len() implies chars[i] == #[trigger] chars_in_either(a, b, d)[i] by {
            assert(found_char(either_char, diff.changed@[i]@, chars[i]));
        }
        assert(chars =~= chars_in_either(a, b, d));
    }
    let ghost h2 = html@;
    let pair_char = |old: &str, new: &str| -> (r: Option<char>)
        ensures
            r == first_char(font_a@.char_of_name(old@), font_b@.char_of_name(new@)),
        {
            match glyph_to_char(font_a, old) {
                Some(c) => Some(c),
                None => glyph_to_char(font_b, new),
            }
        };
    render_pairs(html, "Renamed (Only)", "renamed", "RENAMED", diff.renamed.as_slice(), pair_char, "renamed-char");
    proof {
        let d = diff@.renamed;
        let chars = choose|chars: Seq<Option<char>>|
            chars.len() == d.len() && (forall|i: int|
                0 <= i < d.len() ==> #[trigger] found_pair_char(pair_char, diff.renamed@[i].0@, diff.renamed@[i].1@, chars[i]))
                && html@ == h2 + pairs_section("Renamed (Only)"@, "renamed"@, "RENAMED"@, d, chars, "renamed-char"@);
        assert forall|i: int| 0 <= i < d.len() implies chars[i] == #[trigger] chars_of_pairs(a, b, d)[i] by {
            assert(found_pair_char(pair_char, diff.renamed@[i].0@, diff.renamed@[i].1@, chars[i]));
        }
        assert(chars =~= chars_of_pairs(a, b, d));
    }
    let ghost h3 = html@;
    let new_char = |name: &str| -> (r: Option<char>)
        ensures
            r == font_b@.char_of_name(name@),
        { glyph_to_char(font_b, name) };
    render_names(html, "Added", "added", "ADDED", diff.added.as_slice(), new_char);
    proof {
        let d = diff@.added;
        let chars = choose|chars: Seq<Option<char>>|
            chars.len() == d.len() && (forall|i: int|
                0 <= i < d.len() ==> #[trigger] found_char(new_char, diff.added@[i]@, chars[i]))
                && html@ == h3 + names_section("Added"@, "added"@, "ADDED"@, d, chars);
        assert forall|i: int| 0 <= i < d.len() implies chars[i] == #[trigger] chars_in(b, d)[i] by {
            assert(found_char(new_char, diff.added@[i]@, chars[i]));
        }
        assert(chars =~= chars_in(b, d));
    }
    let ghost h4 = html@;
    let old_name_char = |name: &str| -> (r: Option<char>)
        ensures
            r == font_a@.char_of_name(name@),
        { glyph_to_char(font_a, name) };
    render_names(html, "Removed", "removed", "REMOVED", diff.removed.as_slice(), old_name_char);
    proof {
        let d = diff@.removed;
        let chars = choose|chars: Seq<Option<char>>|
            chars.len() == d.len() && (forall|i: int|
                0 <= i < d.len() ==> #[trigger] found_char(old_name_char, diff.removed@[i]@, chars[i]))
                && html@ == h4 + names_section("Removed"@, "removed"@, "REMOVED"@, d, chars);
        assert forall|i: int| 0 <= i < d.len() implies chars[i] == #[trigger] chars_in(a, d)[i] by {
            assert(found_char(old_name_char, diff.removed@[i]@, chars[i]));
        }
        assert(chars =~= chars_in(a, d));
    }
    assert(html@ =~= old(html)@ + report_sections(font_a@, font_b@, diff@));
}

/// The HTML report of the differences between two fonts.
pub fn generate_html_report(
    old_data: &[u8],
    new_data: &[u8],
    font_a: &FontInfo,
    font_b: &FontInfo,
    diff: &FontDiff,
    options: HtmlOptions<'_>,
) -> (html: String)
    ensures
        html@ == report_text(old_data@, new_data@, font_a@, font_b@, diff@, options@),
{
    let mut html = String::new();
    write_head(&mut html, old_data, new_data, options);
    write_labels(&mut html, options);
    write_sections(&mut html, font_a, font_b, diff);
    html.append("</body></html>\n");
    assert(html@ =~= report_text(old_data@, new_data@, font_a@, font_b@, diff@, options@));
    html
}

/// The HTML report with both fonts embedded as `font/ttf` and no labels.
pub fn generate_html_string(
    old_data: &[u8],
    new_data: &[u8],
    font_a: &FontInfo,
    font_b: &FontInfo,
    diff: &FontDiff,
) -> (html: String)
    ensures
        html@ == report_text(old_data@, new_data@, font_a@, font_b@, diff@, default_options()),
{
    let options = HtmlOptions::default();
    generate_html_report(old_data, new_data, font_a, font_b, diff, options)
}

// ---------------------------------------------------------------------------
// What the report shows

/// `x` stands somewhere in `s`, as a contiguous run.
pub open spec fn is_infix(x: Seq<char>, s: Seq<char>) -> bool {
    exists|k: int| 0 <= k && k + x.len() <= s.len() && #[trigger] s.subrange(k, k + x.len()) == x
}

proof fn lemma_infix_extend(x: Seq<char>, s: Seq<char>, p: Seq<char>, q: Seq<char>)
    requires
        is_infix(x, s),
    ensures
        is_infix(x, p + s + q),
{
    let k = choose|k: int| 0 <= k && k + x.len() <= s.len() && #[trigger] s.subrange(k, k + x.len()) == x;
    let t = p + s + q;
    assert(t.subrange(p.len() + k, p.len() + k + x.len()) =~= x);
}

proof fn lemma_infix_self(x: Seq<char>)
    ensures
        is_infix(x, x),
{
    let k: int = 0;
    assert(x.subrange(k, k + x.len()) =~= x);
}

proof fn lemma_name_rows_infix(tag: Seq<char>, class: Seq<char>, names: Seq<Seq<char>>, chars: Seq<Option<char>>, i: int, c: char)
    requires
        0 <= i < names.len(),
        names.len() == chars.len(),
        chars[i] == Some(c),
    ensures
        is_infix(row_text(tag, class, names[i], None, c, class), name_rows(tag, class, names, chars)),
    decreases names.len(),
{
    let n = names.len() - 1;
    let prev = name_rows(tag, class, names.drop_last(), chars.drop_last());
    let x = row_text(tag, class, names[i], None, c, class);
    if i == n {
        assert(name_rows(tag, class, names, chars) == prev + x);
        lemma_infix_self(x);
        lemma_infix_extend(x, x, prev, Seq::empty());
        assert(prev + x + Seq::<char>::empty() =~= prev + x);
    } else {
        lemma_name_rows_infix(tag, class, names.drop_last(), chars.drop_last(), i, c);
        let last = match chars[n] {
            Some(ch) => row_text(tag, class, names[n], None, ch, class),
            None => Seq::<char>::empty(),
        };
        lemma_infix_extend(x, prev, Seq::empty(), last);
        assert(Seq::<char>::empty() + prev + last =~= name_rows(tag, class, names, chars));
    }
}

proof fn lemma_pair_rows_infix(
    tag: Seq<char>,
    class: Seq<char>,
    glyph_class: Seq<char>,
    pairs: Seq<(Seq<char>, Seq<char>)>,
    chars: Seq<Option<char>>,
    i: int,
    c: char,
)
    requires
        0 <= i < pairs.len(),
        pairs.len() == chars.len(),
        chars[i] == Some(c),
    ensures
        is_infix(row_text(tag, class, pairs[i].0, Some(pairs[i].1), c, glyph_class), pair_rows(tag, class, glyph_class, pairs, chars)),
    decreases pairs.len(),
{
    let n = pairs.len() - 1;
    let prev = pair_rows(tag, class, glyph_class, pairs.drop_last(), chars.drop_last());
    let x = row_text(tag, class, pairs[i].0, Some(pairs[i].1), c, glyph_class);
    if i == n {
        assert(pair_rows(tag, class, glyph_class, pairs, chars) == prev + x);
        lemma_infix_self(x);
        lemma_infix_extend(x, x, prev, Seq::empty());
        assert(prev + x + Seq::<char>::empty() =~= prev + x);
    } else {
        lemma_pair_rows_infix(tag, class, glyph_class, pairs.drop_last(), chars.drop_last(), i, c);
        let last = match chars[n] {
            Some(ch) => row_text(tag, class, pairs[n].0, Some(pairs[n].1), ch, glyph_class),
            None => Seq::<char>::empty(),
        };
        lemma_infix_extend(x, prev, Seq::empty(), last);
        assert(Seq::<char>::empty() + prev + last =~= pair_rows(tag, class, glyph_class, pairs, chars));
    }
}

proof fn lemma_concat_parts(
    h: Seq<char>,
    s1: Seq<char>,
    s2: Seq<char>,
    s3: Seq<char>,
    s4: Seq<char>,
    s5: Seq<char>,
    t: Seq<char>,
)
    ensures
        ({
            let r = h + (s1 + s2 + s3 + s4 + s5) + t;
            &&& r == h + s1 + (s2 + s3 + s4 + s5 + t)
            &&& r == (h + s1) + s2 + (s3 + s4 + s5 + t)
            &&& r == (h + s1 + s2) + s3 + (s4 + s5 + t)
            &&& r == (h + s1 + s2 + s3) + s4 + (s5 + t)
            &&& r == (h + s1 + s2 + s3 + s4) + s5 + t
        }),
{
    let r = h + (s1 + s2 + s3 + s4 + s5) + t;
    assert(r =~= h + s1 + (s2 + s3 + s4 + s5 + t));
    assert(r =~= (h + s1) + s2 + (s3 + s4 + s5 + t));
    assert(r =~= (h + s1 + s2) + s3 + (s4 + s5 + t));
    assert(r =~= (h + s1 + s2 + s3) + s4 + (s5 + t));
    assert(r =~= (h + s1 + s2 + s3 + s4) + s5 + t);
}

/// The five sections of a report, in order.
proof fn lemma_sections_of_report(old_data: Seq<u8>, new_data: Seq<u8>, a: FontView, b: FontView, d: DiffView, o: OptionsView)
    ensures
        ({
            let s1 = pairs_section("Modified (Renamed & Changed)"@, "modified"@, "MODIFIED"@, d.modified, chars_of_old(a, d.modified), "overlay"@);
            let s2 = names_section("Changed"@, "changed"@, "CHANGED"@, d.changed, chars_in_either(a, b, d.changed));
            let s3 = pairs_section("Renamed (Only)"@, "renamed"@, "RENAMED"@, d.renamed, chars_of_pairs(a, b, d.renamed), "renamed-char"@);
            let s4 = names_section("Added"@, "added"@, "ADDED"@, d.added, chars_in(b, d.added));
            let s5 = names_section("Removed"@, "removed"@, "REMOVED"@, d.removed, chars_in(a, d.removed));
            let head = report_head(o, old_data, new_data) + labels_text(o);
            let tail = "</body></html>\n"@;
            &&& report_text(old_data, new_data, a, b, d, o) == head + s1 + (s2 + s3 + s4 + s5 + tail)
            &&& report_text(old_data, new_data, a, b, d, o) == (head + s1) + s2 + (s3 + s4 + s5 + tail)
            &&& report_text(old_data, new_data, a, b, d, o) == (head + s1 + s2) + s3 + (s4 + s5 + tail)
            &&& report_text(old_data, new_data, a, b, d, o) == (head + s1 + s2 + s3) + s4 + (s5 + tail)
            &&& report_text(old_data, new_data, a, b, d, o) == (head + s1 + s2 + s3 + s4) + s5 + tail
        }),
{
    let s1 = pairs_section("Modified (Renamed & Changed)"@, "modified"@, "MODIFIED"@, d.modified, chars_of_old(a, d.modified), "overlay"@);
    let s2 = names_section("Changed"@, "changed"@, "CHANGED"@, d.changed, chars_in_either(a, b, d.changed));
    let s3 = pairs_section("Renamed (Only)"@, "renamed"@, "RENAMED"@, d.renamed, chars_of_pairs(a, b, d.renamed), "renamed-char"@);
    let s4 = names_section("Added"@, "added"@, "ADDED"@, d.added, chars_in(b, d.added));
    let s5 = names_section("Removed"@, "removed"@, "REMOVED"@, d.removed, chars_in(a, d.removed));
    let head = report_head(o, old_data, new_data) + labels_text(o);
    let tail = "</body></html>\n"@;
    assert(report_sections(a, b, d) == s1 + s2 + s3 + s4 + s5);
    assert(report_text(old_data, new_data, a, b, d, o) == head + (s1 + s2 + s3 + s4 + s5) + tail);
    lemma_concat_parts(head, s1, s2, s3, s4, s5, tail);
}

proof fn lemma_names_section_infix(
    heading: Seq<char>,
    class: Seq<char>,
    tag: Seq<char>,
    names: Seq<Seq<char>>,
    chars: Seq<Option<char>>,
    i: int,
    c: char,
)
    requires
        0 <= i < names.len(),
        names.len() == chars.len(),
        chars[i] == Some(c),
    ensures
        is_infix(row_text(tag, class, names[i], None, c, class), names_section(heading, class, tag, names, chars)),
{
    lemma_name_rows_infix(tag, class, names, chars, i, c);
    lemma_infix_extend(row_text(tag, class, names[i], None, c, class), name_rows(tag, class, names, chars), section_start_text(heading, class), "</div>\n"@);
}

proof fn lemma_pairs_section_infix(
    heading: Seq<char>,
    class: Seq<char>,
    tag: Seq<char>,
    pairs: Seq<(Seq<char>, Seq<char>)>,
    chars: Seq<Option<char>>,
    glyph_class: Seq<char>,
    i: int,
    c: char,
)
    requires
        0 <= i < pairs.len(),
        pairs.len() == chars.len(),
        chars[i] == Some(c),
    ensures
        is_infix(
            row_text(tag, class, pairs[i].0, Some(pairs[i].1), c, glyph_class),
            pairs_section(heading, class, tag, pairs, chars, glyph_class),
        ),
{
    lemma_pair_rows_infix(tag, class, glyph_class, pairs, chars, i, c);
    lemma_infix_extend(
        row_text(tag, class, pairs[i].0, Some(pairs[i].1), c, glyph_class),
        pair_rows(tag, class, glyph_class, pairs, chars),
        section_start_text(heading, class),
        "</div>\n"@,
    );
}

/// A removed glyph that the old font maps from a character `c` gets a row
/// of the Removed section that shows `c`, drawn in the old font.
pub proof fn lemma_removed_rows_show_old_characters(
    old_data: Seq<u8>,
    new_data: Seq<u8>,
    a: FontView,
    b: FontView,
    d: DiffView,
    o: OptionsView,
    i: int,
)
    requires
        0 <= i < d.removed.len(),
        a.name_to_id.contains_key(d.removed[i]),
        a.id_to_unicode.contains_key(a.name_to_id[d.removed[i]]),
    ensures
        is_infix(
            row_text("REMOVED"@, "removed"@, d.removed[i], None, a.id_to_unicode[a.name_to_id[d.removed[i]]], "removed"@),
            report_text(old_data, new_data, a, b, d, o),
        ),
{
    let c = a.id_to_unicode[a.name_to_id[d.removed[i]]];
    let chars = chars_in(a, d.removed);
    assert(chars[i] == Some(c));
    lemma_names_section_infix("Removed"@, "removed"@, "REMOVED"@, d.removed, chars, i, c);
    lemma_sections_of_report(old_data, new_data, a, b, d, o);
    let head = report_head(o, old_data, new_data) + labels_text(o);
    let s1 = pairs_section("Modified (Renamed & Changed)"@, "modified"@, "MODIFIED"@, d.modified, chars_of_old(a, d.modified), "overlay"@);
    let s2 = names_section("Changed"@, "changed"@, "CHANGED"@, d.changed, chars_in_either(a, b, d.changed));
    let s3 = pairs_section("Renamed (Only)"@, "renamed"@, "RENAMED"@, d.renamed, chars_of_pairs(a, b, d.renamed), "renamed-char"@);
    let s4 = names_section("Added"@, "added"@, "ADDED"@, d.added, chars_in(b, d.added));
    lemma_infix_extend(
        row_text("REMOVED"@, "removed"@, d.removed[i], None, c, "removed"@),
        names_section("Removed"@, "removed"@, "REMOVED"@, d.removed, chars),
        head + s1 + s2 + s3 + s4,
        "</body></html>\n"@,
    );
}

/// An added glyph that the new font maps from a character `c` gets a row
/// of the Added section that shows `c`, drawn in the new font.
pub proof fn lemma_added_rows_show_new_characters(
    old_data: Seq<u8>,
    new_data: Seq<u8>,
    a: FontView,
    b: FontView,
    d: DiffView,
    o: OptionsView,
    i: int,
)
    requires
        0 <= i < d.added.len(),
        b.name_to_id.contains_key(d.added[i]),
        b.id_to_unicode.contains_key(b.name_to_id[d.added[i]]),
    ensures
        is_infix(
            row_text("ADDED"@, "added"@, d.added[i], None, b.id_to_unicode[b.name_to_id[d.added[i]]], "added"@),
            report_text(old_data, new_data, a, b, d, o),
        ),
{
    let c = b.id_to_unicode[b.name_to_id[d.added[i]]];
    let chars = chars_in(b, d.added);
    assert(chars[i] == Some(c));
    lemma_names_section_infix("Added"@, "added"@, "ADDED"@, d.added, chars, i, c);
    lemma_sections_of_report(old_data, new_data, a, b, d, o);
    let head = report_head(o, old_data, new_data) + labels_text(o);
    let s1 = pairs_section("Modified (Renamed & Changed)"@, "modified"@, "MODIFIED"@, d.modified, chars_of_old(a, d.modified), "overlay"@);
    let s2 = names_section("Changed"@, "changed"@, "CHANGED"@, d.changed, chars_in_either(a, b, d.changed));
    let s3 = pairs_section("Renamed (Only)"@, "renamed"@, "RENAMED"@, d.renamed, chars_of_pairs(a, b, d.renamed), "renamed-char"@);
    let s5 = names_section("Removed"@, "removed"@, "REMOVED"@, d.removed, chars_in(a, d.removed));
    lemma_infix_extend(
        row_text("ADDED"@, "added"@, d.added[i], None, c, "added"@),
        names_section("Added"@, "added"@, "ADDED"@, d.added, chars),
        head + s1 + s2 + s3,
        s5 + "</body></html>\n"@,
    );
}

/// A changed glyph gets a row of the Changed section that shows the
/// character the old font maps its name from, or, when the old font maps
/// none, the one the new font maps it from.
pub proof fn lemma_changed_rows_show_characters(
    old_data: Seq<u8>,
    new_data: Seq<u8>,
    a: FontView,
    b: FontView,
    d: DiffView,
    o: OptionsView,
    i: int,
    c: char,
)
    requires
        0 <= i < d.changed.len(),
        (a.name_to_id.contains_key(d.changed[i]) && a.id_to_unicode.contains_key(a.name_to_id[d.changed[i]])
            && c == a.id_to_unicode[a.name_to_id[d.changed[i]]]) || (!(a.name_to_id.contains_key(d.changed[i])
            && a.id_to_unicode.contains_key(a.name_to_id[d.changed[i]])) && b.name_to_id.contains_key(d.changed[i])
            && b.id_to_unicode.contains_key(b.name_to_id[d.changed[i]]) && c == b.id_to_unicode[b.name_to_id[d.changed[i]]]),
    ensures
        is_infix(row_text("CHANGED"@, "changed"@, d.changed[i], None, c, "changed"@), report_text(old_data, new_data, a, b, d, o)),
{
    let chars = chars_in_either(a, b, d.changed);
    assert(chars[i] == Some(c));
    lemma_names_section_infix("Changed"@, "changed"@, "CHANGED"@, d.changed, chars, i, c);
    lemma_sections_of_report(old_data, new_data, a, b, d, o);
    let head = report_head(o, old_data, new_data) + labels_text(o);
    let s1 = pairs_section("Modified (Renamed & Changed)"@, "modified"@, "MODIFIED"@, d.modified, chars_of_old(a, d.modified), "overlay"@);
    let s3 = pairs_section("Renamed (Only)"@, "renamed"@, "RENAMED"@, d.renamed, chars_of_pairs(a, b, d.renamed), "renamed-char"@);
    let s4 = names_section("Added"@, "added"@, "ADDED"@, d.added, chars_in(b, d.added));
    let s5 = names_section("Removed"@, "removed"@, "REMOVED"@, d.removed, chars_in(a, d.removed));
    lemma_infix_extend(
        row_text("CHANGED"@, "changed"@, d.changed[i], None, c, "changed"@),
        names_section("Changed"@, "changed"@, "CHANGED"@, d.changed, chars),
        head + s1,
        s3 + s4 + s5 + "</body></html>\n"@,
    );
}

/// A modified pair whose old name the old font maps from a character `c`
/// gets a row of the Modified section that shows `c`, overlaid in both
/// fonts.
pub proof fn lemma_modified_rows_show_old_characters(
    old_data: Seq<u8>,
    new_data: Seq<u8>,
    a: FontView,
    b: FontView,
    d: DiffView,
    o: OptionsView,
    i: int,
)
    requires
        0 <= i < d.modified.len(),
        a.name_to_id.contains_key(d.modified[i].0),
        a.id_to_unicode.contains_key(a.name_to_id[d.modified[i].0]),
    ensures
        is_infix(
            row_text(
                "MODIFIED"@,
                "modified"@,
                d.modified[i].0,
                Some(d.modified[i].1),
                a.id_to_unicode[a.name_to_id[d.modified[i].0]],
                "overlay"@,
            ),
            report_text(old_data, new_data, a, b, d, o),
        ),
{
    let c = a.id_to_unicode[a.name_to_id[d.modified[i].0]];
    let chars = chars_of_old(a, d.modified);
    assert(chars[i] == Some(c));
    lemma_pairs_section_infix("Modified (Renamed & Changed)"@, "modified"@, "MODIFIED"@, d.modified, chars, "overlay"@, i, c);
    lemma_sections_of_report(old_data, new_data, a, b, d, o);
    let head = report_head(o, old_data, new_data) + labels_text(o);
    let s2 = names_section("Changed"@, "changed"@, "CHANGED"@, d.changed, chars_in_either(a, b, d.changed));
    let s3 = pairs_section("Renamed (Only)"@, "renamed"@, "RENAMED"@, d.renamed, chars_of_pairs(a, b, d.renamed), "renamed-char"@);
    let s4 = names_section("Added"@, "added"@, "ADDED"@, d.added, chars_in(b, d.added));
    let s5 = names_section("Removed"@, "removed"@, "REMOVED"@, d.removed, chars_in(a, d.removed));
    lemma_infix_extend(
        row_text("MODIFIED"@, "modified"@, d.modified[i].0, Some(d.modified[i].1), c, "overlay"@),
        pairs_section("Modified (Renamed & Changed)"@, "modified"@, "MODIFIED"@, d.modified, chars, "overlay"@),
        head,
        s2 + s3 + s4 + s5 + "</body></html>\n"@,
    );
}

/// A renamed pair gets a row of the Renamed section that shows the
/// character the old font maps its old name from, or, when there is none,
/// the one the new font maps its new name from.
pub proof fn lemma_renamed_rows_show_characters(
    old_data: Seq<u8>,
    new_data: Seq<u8>,
    a: FontView,
    b: FontView,
    d: DiffView,
    o: OptionsView,
    i: int,
    c: char,
)
    requires
        0 <= i < d.renamed.len(),
        (a.name_to_id.contains_key(d.renamed[i].0) && a.id_to_unicode.contains_key(a.name_to_id[d.renamed[i].0])
            && c == a.id_to_unicode[a.name_to_id[d.renamed[i].0]]) || (!(a.name_to_id.contains_key(d.renamed[i].0)
            && a.id_to_unicode.contains_key(a.name_to_id[d.renamed[i].0])) && b.name_to_id.contains_key(d.renamed[i].1)
            && b.id_to_unicode.contains_key(b.name_to_id[d.renamed[i].1]) && c == b.id_to_unicode[b.name_to_id[d.renamed[i].1]]),
    ensures
        is_infix(
            row_text("RENAMED"@, "renamed"@, d.renamed[i].0, Some(d.renamed[i].1), c, "renamed-char"@),
            report_text(old_data, new_data, a, b, d, o),
        ),
{
    let chars = chars_of_pairs(a, b, d.renamed);
    assert(chars[i] == Some(c));
    lemma_pairs_section_infix("Renamed (Only)"@, "renamed"@, "RENAMED"@, d.renamed, chars, "renamed-char"@, i, c);
    lemma_sections_of_report(old_data, new_data, a, b, d, o);
    let head = report_head(o, old_data, new_data) + labels_text(o);
    let s1 = pairs_section("Modified (Renamed & Changed)"@, "modified"@, "MODIFIED"@, d.modified, chars_of_old(a, d.modified), "overlay"@);
    let s2 = names_section("Changed"@, "changed"@, "CHANGED"@, d.changed, chars_in_either(a, b, d.changed));
    let s4 = names_section("Added"@, "added"@, "ADDED"@, d.added, chars_in(b, d.added));
    let s5 = names_section("Removed"@, "removed"@, "REMOVED"@, d.removed, chars_in(a, d.removed));
    lemma_infix_extend(
        row_text("RENAMED"@, "renamed"@, d.renamed[i].0, Some(d.renamed[i].1), c, "renamed-char"@),
        pairs_section("Renamed (Only)"@, "renamed"@, "RENAMED"@, d.renamed, chars, "renamed-char"@),
        head + s1 + s2,
        s4 + s5 + "</body></html>\n"@,
    );
}

/// The report opens with the document head: the old font and then the new
/// font embedded as base64 data URLs under the families `FontA` and `FontB`,
/// then the whole style sheet [`REPORT_CSS`], then the title.
pub proof fn lemma_report_head(old_data: Seq<u8>, new_data: Seq<u8>, a: FontView, b: FontView, d: DiffView, o: OptionsView)
    ensures
        ({
            let head = "<!doctype html><html><head><meta charset='utf-8'><style>\n@font-face{font-family:FontA;src:url(data:"@
                + o.old_mime + ";base64,"@ + base64_standard(old_data)
                + ")}\n@font-face{font-family:FontB;src:url(data:"@ + o.new_mime + ";base64,"@
                + base64_standard(new_data) + ")}\n"@ + REPORT_CSS@ + "</style></head><body><h1>Font Diff</h1>\n"@;
            let r = report_text(old_data, new_data, a, b, d, o);
            head.len() <= r.len() && r.subrange(0, head.len() as int) == head
        }),
{
    let head = "<!doctype html><html><head><meta charset='utf-8'><style>\n@font-face{font-family:FontA;src:url(data:"@
        + o.old_mime + ";base64,"@ + base64_standard(old_data)
        + ")}\n@font-face{font-family:FontB;src:url(data:"@ + o.new_mime + ";base64,"@
        + base64_standard(new_data) + ")}\n"@ + REPORT_CSS@ + "</style></head><body><h1>Font Diff</h1>\n"@;
    let r = report_text(old_data, new_data, a, b, d, o);
    assert(r =~= head + (labels_text(o) + report_sections(a, b, d) + "</body></html>\n"@));
    assert(r.subrange(0, head.len() as int) =~= head);
}

/// The style sheet draws each glyph of a row in the font it belongs to:
/// the old font (`FontA`) for the old side of an overlay and for removed
/// glyphs, the new font (`FontB`) for the new side, renamed and added
/// glyphs.
pub proof fn lemma_style_sheet_picks_the_fonts()
    ensures
        is_infix(".glyph .old{position:absolute;left:0;right:0;font-family:FontA;"@, REPORT_CSS@),
        is_infix(".glyph .new{position:absolute;left:0;right:0;font-family:FontB;"@, REPORT_CSS@),
        is_infix(".glyph .renamed-char{font-family:FontB}"@, REPORT_CSS@),
        is_infix(".glyph .added{font-family:FontB}"@, REPORT_CSS@),
        is_infix(".glyph .removed{font-family:FontA}"@, REPORT_CSS@),
{
    let css = REPORT_CSS@;
    reveal_strlit("body{font-family:system-ui,sans-serif;margin:2em;color:#222}\nh1{font-size:1.6em}\nh2{margin-top:1.5em;border-bottom:1px solid #ccc}\n.section{display:flex;flex-wrap:wrap;gap:12px}\n.row{border:1px solid #ddd;border-radius:6px;padding:8px;width:220px}\n.meta{font-size:12px;word-break:break-all}\n.tag{font-weight:bold;padding:1px 4px;border-radius:3px;color:#fff}\n.tag.modified{background:#8e44ad}\n.tag.changed{background:#d35400}\n.tag.renamed{background:#2980b9}\n.tag.added{background:#27ae60}\n.tag.removed{background:#c0392b}\n.glyph{position:relative;height:96px;font-size:72px;line-height:96px;text-align:center}\n.glyph .old{position:absolute;left:0;right:0;font-family:FontA;color:rgba(192,57,43,.6)}\n.glyph .new{position:absolute;left:0;right:0;font-family:FontB;color:rgba(39,174,96,.6)}\n.glyph .renamed-char{font-family:FontB}\n.glyph .added{font-family:FontB}\n.glyph .removed{font-family:FontA}\n");
    assert(css == "body{font-family:system-ui,sans-serif;margin:2em;color:#222}\nh1{font-size:1.6em}\nh2{margin-top:1.5em;border-bottom:1px solid #ccc}\n.section{display:flex;flex-wrap:wrap;gap:12px}\n.row{border:1px solid #ddd;border-radius:6px;padding:8px;width:220px}\n.meta{font-size:12px;word-break:break-all}\n.tag{font-weight:bold;padding:1px 4px;border-radius:3px;color:#fff}\n.tag.modified{background:#8e44ad}\n.tag.changed{background:#d35400}\n.tag.renamed{background:#2980b9}\n.tag.added{background:#27ae60}\n.tag.removed{background:#c0392b}\n.glyph{position:relative;height:96px;font-size:72px;line-height:96px;text-align:center}\n.glyph .old{position:absolute;left:0;right:0;font-family:FontA;color:rgba(192,57,43,.6)}\n.glyph .new{position:absolute;left:0;right:0;font-family:FontB;color:rgba(39,174,96,.6)}\n.glyph .renamed-char{font-family:FontB}\n.glyph .added{font-family:FontB}\n.glyph .removed{font-family:FontA}\n"@);
    let x1 = ".glyph .old{position:absolute;left:0;right:0;font-family:FontA;"@;
    let x2 = ".glyph .new{position:absolute;left:0;right:0;font-family:FontB;"@;
    let x3 = ".glyph .renamed-char{font-family:FontB}"@;
    let x4 = ".glyph .added{font-family:FontB}"@;
    let x5 = ".glyph .removed{font-family:FontA}"@;
    reveal_strlit(".glyph .old{position:absolute;left:0;right:0;font-family:FontA;");
    reveal_strlit(".glyph .new{position:absolute;left:0;right:0;font-family:FontB;");
    reveal_strlit(".glyph .renamed-char{font-family:FontB}");
    reveal_strlit(".glyph .added{font-family:FontB}");
    reveal_strlit(".glyph .removed{font-family:FontA}");
    assert(css.subrange(611, 611 + x1.len() as int) =~= x1);
    assert(css.subrange(700, 700 + x2.len() as int) =~= x2);
    assert(css.subrange(789, 789 + x3.len() as int) =~= x3);
    assert(css.subrange(829, 829 + x4.len() as int) =~= x4);
    assert(css.subrange(862, 862 + x5.len() as int) =~= x5);
}

} // verus!
