//! Classifying the glyph differences between two fonts.
//!
//! Glyphs mapped from the same character in both fonts are compared first:
//! by name and by outline fingerprint. The remaining glyphs of the old font
//! are then matched by fingerprint against the remaining glyphs of the new
//! font (a match is a rename); what stays unmatched was removed or added.
use crate::font::{glyph_name, FontInfo, FontView};
use crate::hash::GlyphHash;
use crate::text::{
    lemma_pair_le_total_ordering, lemma_text_le_total_ordering, pair_le, pairs_sorted, sort_text_pairs,
    sort_texts, text_le, text_pairs, texts, texts_sorted,
};
use vstd::hash_map::HashMapWithView;
use vstd::hash_set::HashSetWithView;
use vstd::prelude::*;
use vstd::relations::sorted_by;
use vstd::seq_lib::lemma_sorted_unique;

verus! {

broadcast use {
    vstd::std_specs::hash::axiom_u32_obeys_hash_table_key_model,
    vstd::std_specs::hash::axiom_u128_obeys_hash_table_key_model,
};

/// The differences between two fonts, each list sorted.
#[derive(Debug, Default)]
pub struct FontDiff {
    /// Names of glyphs only in the new font.
    pub added: Vec<String>,
    /// Names of glyphs only in the old font.
    pub removed: Vec<String>,
    /// Names of glyphs that kept their name and character but changed shape.
    pub changed: Vec<String>,
    /// (old, new) names of glyphs that kept their shape under a new name.
    pub renamed: Vec<(String, String)>,
    /// (old, new) names of glyphs mapped from the same character that
    /// changed both name and shape.
    pub modified: Vec<(String, String)>,
}

/// The mathematical content of a [`FontDiff`].
pub struct DiffView {
    pub added: Seq<Seq<char>>,
    pub removed: Seq<Seq<char>>,
    pub changed: Seq<Seq<char>>,
    pub renamed: Seq<(Seq<char>, Seq<char>)>,
    pub modified: Seq<(Seq<char>, Seq<char>)>,
}

impl View for FontDiff {
    type V = DiffView;

    open spec fn view(&self) -> DiffView {
        DiffView {
            added: texts(self.added@),
            removed: texts(self.removed@),
            changed: texts(self.changed@),
            renamed: text_pairs(self.renamed@),
            modified: text_pairs(self.modified@),
        }
    }
}

/// One past the largest Unicode code point.
pub const CODE_POINT_END: u32 = 0x110000;

/// Progress of the comparison of the glyphs that both fonts map from the
/// same character.
pub struct SharedState {
    pub changed: Seq<Seq<char>>,
    pub renamed: Seq<(Seq<char>, Seq<char>)>,
    pub modified: Seq<(Seq<char>, Seq<char>)>,
    pub seen_a: Set<u32>,
    pub seen_b: Set<u32>,
}

pub open spec fn shared_step(a: FontView, b: FontView, s: SharedState, cp: u32) -> SharedState {
    if a.unicode_to_id.contains_key(cp) && b.unicode_to_id.contains_key(cp) {
        let ga = a.unicode_to_id[cp];
        let gb = b.unicode_to_id[cp];
        let na = a.label(ga);
        let nb = b.label(gb);
        let same_shape = a.hash_of(ga) == b.hash_of(gb);
        SharedState {
            changed: if na == nb && !same_shape {
                s.changed.push(na)
            } else {
                s.changed
            },
            renamed: if na != nb && same_shape {
                s.renamed.push((na, nb))
            } else {
                s.renamed
            },
            modified: if na != nb && !same_shape {
                s.modified.push((na, nb))
            } else {
                s.modified
            },
            seen_a: s.seen_a.insert(ga),
            seen_b: s.seen_b.insert(gb),
        }
    } else {
        s
    }
}

/// The comparison of the shared characters below code point `n`, in
/// ascending code point order.
pub open spec fn shared_upto(a: FontView, b: FontView, n: nat) -> SharedState
    decreases n,
{
    if n == 0 {
        SharedState {
            changed: seq![],
            renamed: seq![],
            modified: seq![],
            seen_a: Set::empty(),
            seen_b: Set::empty(),
        }
    } else {
        shared_step(a, b, shared_upto(a, b, (n - 1) as nat), (n - 1) as u32)
    }
}

/// The 128-bit key of a fingerprint.
pub open spec fn hash_key(h: GlyphHash) -> u128 {
    (h.0 as int * 0x1_0000_0000_0000_0000 + h.1 as int) as u128
}

pub open spec fn bucket(m: Map<u128, Seq<u32>>, k: u128) -> Seq<u32> {
    if m.contains_key(k) {
        m[k]
    } else {
        seq![]
    }
}

/// The not yet compared glyphs among the first `n` glyph ids of `b`,
/// grouped by fingerprint in glyph order.
pub open spec fn buckets_upto(b: FontView, seen_b: Set<u32>, n: nat) -> Map<u128, Seq<u32>>
    decreases n,
{
    if n == 0 {
        Map::empty()
    } else {
        let m = buckets_upto(b, seen_b, (n - 1) as nat);
        let g = b.glyph_ids[n - 1];
        if !seen_b.contains(g) && b.hashes.contains_key(g) {
            let k = hash_key(b.hashes[g]);
            m.insert(k, bucket(m, k).push(g))
        } else {
            m
        }
    }
}

/// Progress of the matching of the remaining glyphs of the old font.
pub struct MatchState {
    pub renamed: Seq<(Seq<char>, Seq<char>)>,
    pub removed: Seq<Seq<char>>,
    pub seen_b: Set<u32>,
    pub buckets: Map<u128, Seq<u32>>,
}

/// One old glyph not yet compared takes the last glyph of the new font with
/// the same fingerprint (a rename); without one it was removed.
pub open spec fn match_step(a: FontView, b: FontView, seen_a: Set<u32>, s: MatchState, g: u32) -> MatchState {
    if seen_a.contains(g) {
        s
    } else if a.hashes.contains_key(g) && bucket(s.buckets, hash_key(a.hashes[g])).len() > 0 {
        let k = hash_key(a.hashes[g]);
        let bk = bucket(s.buckets, k);
        let gb = bk.last();
        MatchState {
            renamed: s.renamed.push((a.label(g), b.label(gb))),
            removed: s.removed,
            seen_b: s.seen_b.insert(gb),
            buckets: s.buckets.insert(k, bk.drop_last()),
        }
    } else {
        MatchState {
            renamed: s.renamed,
            removed: s.removed.push(a.label(g)),
            seen_b: s.seen_b,
            buckets: s.buckets,
        }
    }
}

pub open spec fn match_upto(a: FontView, b: FontView, seen_a: Set<u32>, init: MatchState, n: nat) -> MatchState
    decreases n,
{
    if n == 0 {
        init
    } else {
        match_step(a, b, seen_a, match_upto(a, b, seen_a, init, (n - 1) as nat), a.glyph_ids[n - 1])
    }
}

/// The names of the glyphs among the first `n` glyph ids of `b` that were
/// never compared or matched.
pub open spec fn added_upto(b: FontView, seen_b: Set<u32>, n: nat) -> Seq<Seq<char>>
    decreases n,
{
    if n == 0 {
        seq![]
    } else {
        let p = added_upto(b, seen_b, (n - 1) as nat);
        let g = b.glyph_ids[n - 1];
        if !seen_b.contains(g) {
            p.push(b.label(g))
        } else {
            p
        }
    }
}

pub open spec fn shared_model(a: FontView, b: FontView) -> SharedState {
    shared_upto(a, b, CODE_POINT_END as nat)
}

pub open spec fn match_model(a: FontView, b: FontView) -> MatchState {
    let s1 = shared_model(a, b);
    let m0 = MatchState {
        renamed: s1.renamed,
        removed: seq![],
        seen_b: s1.seen_b,
        buckets: buckets_upto(b, s1.seen_b, b.glyph_ids.len()),
    };
    match_upto(a, b, s1.seen_a, m0, a.glyph_ids.len())
}

/// The differences between `a` and `b`, each list in the order in which
/// the comparison finds them.
pub open spec fn diff_model(a: FontView, b: FontView) -> DiffView {
    let s1 = shared_model(a, b);
    let s3 = match_model(a, b);
    DiffView {
        added: added_upto(b, s3.seen_b, b.glyph_ids.len()),
        removed: s3.removed,
        changed: s1.changed,
        renamed: s3.renamed,
        modified: s1.modified,
    }
}

/// `d` holds the differences that `m` lists, each list sorted.
pub open spec fn sorted_diff_of(d: DiffView, m: DiffView) -> bool {
    &&& texts_sorted(d.added) && d.added.to_multiset() == m.added.to_multiset()
    &&& texts_sorted(d.removed) && d.removed.to_multiset() == m.removed.to_multiset()
    &&& texts_sorted(d.changed) && d.changed.to_multiset() == m.changed.to_multiset()
    &&& pairs_sorted(d.renamed) && d.renamed.to_multiset() == m.renamed.to_multiset()
    &&& pairs_sorted(d.modified) && d.modified.to_multiset() == m.modified.to_multiset()
}

/// The sorted lists of a comparison are determined by what it finds:
/// whatever order the sort leaves equal entries in, [`diff_fonts`] gives
/// one and the same result.
pub proof fn lemma_sorted_diff_unique(d1: DiffView, d2: DiffView, m: DiffView)
    requires
        sorted_diff_of(d1, m),
        sorted_diff_of(d2, m),
    ensures
        d1 == d2,
{
    lemma_text_le_total_ordering();
    lemma_pair_le_total_ordering();
    let t = |a: Seq<char>, b: Seq<char>| text_le(a, b);
    let p = |x: (Seq<char>, Seq<char>), y: (Seq<char>, Seq<char>)| pair_le(x, y);
    assert(sorted_by(d1.added, t) && sorted_by(d2.added, t));
    assert(sorted_by(d1.removed, t) && sorted_by(d2.removed, t));
    assert(sorted_by(d1.changed, t) && sorted_by(d2.changed, t));
    assert(sorted_by(d1.renamed, p) && sorted_by(d2.renamed, p));
    assert(sorted_by(d1.modified, p) && sorted_by(d2.modified, p));
    lemma_sorted_unique(d1.added, d2.added, t);
    lemma_sorted_unique(d1.removed, d2.removed, t);
    lemma_sorted_unique(d1.changed, d2.changed, t);
    lemma_sorted_unique(d1.renamed, d2.renamed, p);
    lemma_sorted_unique(d1.modified, d2.modified, p);
}

/// The number of glyphs among the first `n` of `ids` that are not in `seen`.
pub open spec fn unseen_count(ids: Seq<u32>, seen: Set<u32>, n: nat) -> nat
    decreases n,
{
    if n == 0 {
        0
    } else {
        unseen_count(ids, seen, (n - 1) as nat) + if seen.contains(ids[n - 1]) {
            0nat
        } else {
            1nat
        }
    }
}

proof fn lemma_shared_self(a: FontView, n: nat)
    ensures
        shared_upto(a, a, n).changed.len() == 0,
        shared_upto(a, a, n).renamed.len() == 0,
        shared_upto(a, a, n).modified.len() == 0,
        shared_upto(a, a, n).seen_a == shared_upto(a, a, n).seen_b,
    decreases n,
{
    if n > 0 {
        lemma_shared_self(a, (n - 1) as nat);
    }
}

/// Comparing a font with itself reports no glyph as changed and none as
/// modified: a glyph mapped from a character meets itself, under its own
/// name and with its own fingerprint. This holds of the sorted lists that
/// [`diff_fonts`] returns, too.
pub proof fn lemma_self_diff_has_no_changes(a: FontView, d: DiffView)
    requires
        sorted_diff_of(d, diff_model(a, a)),
    ensures
        diff_model(a, a).changed.len() == 0,
        diff_model(a, a).modified.len() == 0,
        shared_model(a, a).renamed.len() == 0,
        d.changed.len() == 0,
        d.modified.len() == 0,
{
    broadcast use vstd::seq_lib::group_to_multiset_ensures;
    lemma_shared_self(a, CODE_POINT_END as nat);
    assert(d.changed.to_multiset().len() == 0);
    assert(d.modified.to_multiset().len() == 0);
}

proof fn lemma_match_upto_counts(a: FontView, b: FontView, seen_a: Set<u32>, init: MatchState, n: nat)
    requires
        n <= a.glyph_ids.len(),
    ensures
        match_upto(a, b, seen_a, init, n).removed.len() + match_upto(a, b, seen_a, init, n).renamed.len()
            == init.removed.len() + init.renamed.len() + unseen_count(a.glyph_ids, seen_a, n),
    decreases n,
{
    if n > 0 {
        lemma_match_upto_counts(a, b, seen_a, init, (n - 1) as nat);
    }
}

/// Every glyph of the old font that no shared character compared is
/// reported exactly once: either as the old name of a rename or as removed.
pub proof fn lemma_unshared_old_glyphs_reported_once(a: FontView, b: FontView)
    ensures
        diff_model(a, b).removed.len() + diff_model(a, b).renamed.len() == shared_model(a, b).renamed.len()
            + unseen_count(a.glyph_ids, shared_model(a, b).seen_a, a.glyph_ids.len()),
{
    let s1 = shared_model(a, b);
    let m0 = MatchState {
        renamed: s1.renamed,
        removed: seq![],
        seen_b: s1.seen_b,
        buckets: buckets_upto(b, s1.seen_b, b.glyph_ids.len()),
    };
    lemma_match_upto_counts(a, b, s1.seen_a, m0, a.glyph_ids.len());
}

/// The number of glyphs among the first `n` glyph ids of `b` that are not
/// in `seen` and whose fingerprint has key `k`.
pub open spec fn pending(b: FontView, seen: Set<u32>, k: u128, n: nat) -> nat
    decreases n,
{
    if n == 0 {
        0
    } else {
        let g = b.glyph_ids[n - 1];
        pending(b, seen, k, (n - 1) as nat) + if !seen.contains(g) && b.hashes.contains_key(g)
            && hash_key(b.hashes[g]) == k {
            1nat
        } else {
            0nat
        }
    }
}

proof fn lemma_pending_mono(b: FontView, seen: Set<u32>, k: u128, j: nat, n: nat)
    requires
        j <= n,
    ensures
        pending(b, seen, k, j) <= pending(b, seen, k, n),
    decreases n,
{
    if j < n {
        lemma_pending_mono(b, seen, k, j, (n - 1) as nat);
    }
}

proof fn lemma_buckets_upto(b: FontView, seen: Set<u32>, n: nat)
    requires
        n <= b.glyph_ids.len(),
    ensures
        forall|k: u128| #[trigger] bucket(buckets_upto(b, seen, n), k).len() == pending(b, seen, k, n),
        forall|i: int|
            0 <= i < n && !seen.contains(b.glyph_ids[i]) && b.hashes.contains_key(b.glyph_ids[i])
                ==> #[trigger] bucket(buckets_upto(b, seen, n), hash_key(b.hashes[b.glyph_ids[i]])).contains(
                b.glyph_ids[i],
            ),
    decreases n,
{
    if n > 0 {
        let p = (n - 1) as nat;
        lemma_buckets_upto(b, seen, p);
        let m = buckets_upto(b, seen, p);
        let g = b.glyph_ids[p as int];
        assert forall|k: u128| #[trigger] bucket(buckets_upto(b, seen, n), k).len() == pending(b, seen, k, n) by {
            assert(bucket(m, k).len() == pending(b, seen, k, p));
            if !seen.contains(g) && b.hashes.contains_key(g) && hash_key(b.hashes[g]) == k {
                assert(bucket(buckets_upto(b, seen, n), k) == bucket(m, k).push(g));
            } else {
                assert(bucket(buckets_upto(b, seen, n), k) == bucket(m, k));
            }
        }
        assert forall|i: int|
            0 <= i < n && !seen.contains(b.glyph_ids[i]) && b.hashes.contains_key(b.glyph_ids[i])
                implies #[trigger] bucket(buckets_upto(b, seen, n), hash_key(b.hashes[b.glyph_ids[i]])).contains(
                b.glyph_ids[i],
            ) by {
            let x = b.glyph_ids[i];
            let k = hash_key(b.hashes[x]);
            let old_bk = bucket(m, k);
            if !seen.contains(g) && b.hashes.contains_key(g) && hash_key(b.hashes[g]) == k {
                let new_bk = old_bk.push(g);
                assert(bucket(buckets_upto(b, seen, n), k) == new_bk);
                if i < p {
                    assert(old_bk.contains(x));
                    let idx = choose|idx: int| 0 <= idx < old_bk.len() && old_bk[idx] == x;
                    assert(new_bk[idx] == x);
                } else {
                    assert(new_bk[new_bk.len() - 1] == x);
                }
            } else {
                assert(bucket(buckets_upto(b, seen, n), k) == old_bk);
            }
        }
    }
}

/// What the matching of the glyphs of a font against the same font keeps:
/// nothing is removed, each bucket is the part of its initial content that
/// later glyphs will take, and what was taken is marked as compared.
proof fn lemma_self_match(a: FontView, seen: Set<u32>, m0: MatchState, j: nat)
    requires
        j <= a.glyph_ids.len(),
        forall|i: int| 0 <= i < a.glyph_ids.len() ==> a.hashes.contains_key(#[trigger] a.glyph_ids[i]),
        m0.removed.len() == 0,
        m0.buckets == buckets_upto(a, seen, a.glyph_ids.len()),
        seen.subset_of(m0.seen_b),
    ensures
        match_upto(a, a, seen, m0, j).removed.len() == 0,
        seen.subset_of(match_upto(a, a, seen, m0, j).seen_b),
        forall|k: u128|
            #[trigger] bucket(match_upto(a, a, seen, m0, j).buckets, k) == bucket(m0.buckets, k).take(
                pending(a, seen, k, a.glyph_ids.len()) - pending(a, seen, k, j),
            ),
        forall|k: u128, i: int|
            pending(a, seen, k, a.glyph_ids.len()) - pending(a, seen, k, j) <= i < pending(
                a,
                seen,
                k,
                a.glyph_ids.len(),
            ) ==> match_upto(a, a, seen, m0, j).seen_b.contains(#[trigger] bucket(m0.buckets, k)[i]),
    decreases j,
{
    let n = a.glyph_ids.len();
    lemma_buckets_upto(a, seen, n);
    if j == 0 {
        assert forall|k: u128| #[trigger] bucket(m0.buckets, k) == bucket(m0.buckets, k).take(
            pending(a, seen, k, n) - pending(a, seen, k, 0),
        ) by {
            assert(bucket(m0.buckets, k).take(bucket(m0.buckets, k).len() as int) =~= bucket(m0.buckets, k));
        }
    } else {
        let p = (j - 1) as nat;
        lemma_self_match(a, seen, m0, p);
        let prev = match_upto(a, a, seen, m0, p);
        let g = a.glyph_ids[p as int];
        if !seen.contains(g) {
            let kg = hash_key(a.hashes[g]);
            lemma_pending_mono(a, seen, kg, j, n);
            let big = pending(a, seen, kg, n);
            let r = (big - pending(a, seen, kg, p)) as int;
            let bk = bucket(prev.buckets, kg);
            assert(bk.len() == r);
            assert(bk.len() > 0);
            let st = match_upto(a, a, seen, m0, j);
            assert(st.buckets == prev.buckets.insert(kg, bk.drop_last()));
            assert(st.seen_b == prev.seen_b.insert(bk.last()));
            assert forall|k: u128| #[trigger] bucket(st.buckets, k) == bucket(m0.buckets, k).take(
                pending(a, seen, k, n) - pending(a, seen, k, j),
            ) by {
                if k == kg {
                    assert(bucket(st.buckets, k) =~= bucket(m0.buckets, k).take(r - 1));
                } else {
                    assert(bucket(st.buckets, k) == bucket(prev.buckets, k));
                    assert(pending(a, seen, k, j) == pending(a, seen, k, p));
                }
            }
            assert forall|k: u128, i: int|
                pending(a, seen, k, n) - pending(a, seen, k, j) <= i < pending(a, seen, k, n)
                    implies st.seen_b.contains(#[trigger] bucket(m0.buckets, k)[i]) by {
                if k == kg && i == r - 1 {
                    assert(bk.last() == bucket(m0.buckets, k)[i]);
                }
            }
        }
    }
}

/// Comparing a font with itself, when every glyph has a fingerprint, reports
/// no glyph as added, removed, changed or modified. (Glyphs of equal shape
/// that no character maps may still be reported as renamed into each other.)
pub proof fn lemma_self_diff_only_renames(a: FontView, d: DiffView)
    requires
        forall|i: int| 0 <= i < a.glyph_ids.len() ==> a.hashes.contains_key(#[trigger] a.glyph_ids[i]),
        sorted_diff_of(d, diff_model(a, a)),
    ensures
        diff_model(a, a).added.len() == 0,
        diff_model(a, a).removed.len() == 0,
        d.added.len() == 0,
        d.removed.len() == 0,
        d.changed.len() == 0,
        d.modified.len() == 0,
{
    broadcast use vstd::seq_lib::group_to_multiset_ensures;
    lemma_self_diff_has_no_changes(a, d);
    let n = a.glyph_ids.len();
    let s1 = shared_model(a, a);
    lemma_shared_self(a, CODE_POINT_END as nat);
    let seen = s1.seen_a;
    let m0 = MatchState {
        renamed: s1.renamed,
        removed: seq![],
        seen_b: s1.seen_b,
        buckets: buckets_upto(a, s1.seen_b, n),
    };
    lemma_self_match(a, seen, m0, n);
    lemma_buckets_upto(a, seen, n);
    let s3 = match_upto(a, a, seen, m0, n);
    assert(s3 == match_model(a, a));
    assert forall|i: int| 0 <= i < n implies s3.seen_b.contains(#[trigger] a.glyph_ids[i]) by {
        let x = a.glyph_ids[i];
        if !seen.contains(x) {
            let k = hash_key(a.hashes[x]);
            let bk = bucket(m0.buckets, k);
            assert(bk.contains(x));
            let idx = choose|idx: int| 0 <= idx < bk.len() && bk[idx] == x;
            assert(s3.seen_b.contains(bk[idx]));
        }
    }
    lemma_added_none(a, s3.seen_b, n);
    assert(d.added.to_multiset().len() == 0);
    assert(d.removed.to_multiset().len() == 0);
}

proof fn lemma_added_none(b: FontView, seen_b: Set<u32>, n: nat)
    requires
        n <= b.glyph_ids.len(),
        forall|i: int| 0 <= i < n ==> seen_b.contains(#[trigger] b.glyph_ids[i]),
    ensures
        added_upto(b, seen_b, n).len() == 0,
    decreases n,
{
    if n > 0 {
        lemma_added_none(b, seen_b, (n - 1) as nat);
    }
}

/// `n` names, in both fonts, the glyph of some character, and the two
/// glyphs differ in shape.
pub open spec fn is_changed_glyph(a: FontView, b: FontView, n: Seq<char>) -> bool {
    exists|cp: u32|
        #![trigger a.unicode_to_id[cp], b.unicode_to_id[cp]]
        a.unicode_to_id.contains_key(cp) && b.unicode_to_id.contains_key(cp) && a.label(a.unicode_to_id[cp]) == n
            && b.label(b.unicode_to_id[cp]) == n && a.hash_of(a.unicode_to_id[cp]) != b.hash_of(
            b.unicode_to_id[cp],
        )
}

/// The glyphs of some character in the two fonts have the names of `p`,
/// which differ, and differ in shape.
pub open spec fn is_modified_pair(a: FontView, b: FontView, p: (Seq<char>, Seq<char>)) -> bool {
    exists|cp: u32|
        #![trigger a.unicode_to_id[cp], b.unicode_to_id[cp]]
        a.unicode_to_id.contains_key(cp) && b.unicode_to_id.contains_key(cp) && a.label(a.unicode_to_id[cp]) == p.0
            && b.label(b.unicode_to_id[cp]) == p.1 && p.0 != p.1 && a.hash_of(a.unicode_to_id[cp]) != b.hash_of(
            b.unicode_to_id[cp],
        )
}

/// A glyph of `a` named `p.0` and a glyph of `b` named `p.1` have the same
/// shape.
pub open spec fn is_same_shape_pair(a: FontView, b: FontView, p: (Seq<char>, Seq<char>)) -> bool {
    exists|ga: u32, gb: u32|
        #![trigger a.label(ga), b.label(gb)]
        a.label(ga) == p.0 && b.label(gb) == p.1 && a.hash_of(ga) == b.hash_of(gb)
}

/// `n` names one of the glyphs of `f`.
pub open spec fn is_glyph_of(f: FontView, n: Seq<char>) -> bool {
    exists|i: int| 0 <= i < f.glyph_ids.len() && f.label(#[trigger] f.glyph_ids[i]) == n
}

proof fn lemma_shared_meaning(a: FontView, b: FontView, n: nat)
    ensures
        forall|i: int|
            0 <= i < shared_upto(a, b, n).changed.len() ==> is_changed_glyph(a, b, #[trigger] shared_upto(a, b, n).changed[i]),
        forall|i: int|
            0 <= i < shared_upto(a, b, n).modified.len() ==> is_modified_pair(a, b, #[trigger] shared_upto(a, b, n).modified[i]),
        forall|i: int|
            0 <= i < shared_upto(a, b, n).renamed.len() ==> is_same_shape_pair(a, b, #[trigger] shared_upto(a, b, n).renamed[i]),
    decreases n,
{
    if n > 0 {
        let p = (n - 1) as nat;
        lemma_shared_meaning(a, b, p);
        let cp = p as u32;
        let prev = shared_upto(a, b, p);
        let cur = shared_upto(a, b, n);
        if a.unicode_to_id.contains_key(cp) && b.unicode_to_id.contains_key(cp) {
            let ga = a.unicode_to_id[cp];
            let gb = b.unicode_to_id[cp];
            assert forall|i: int| 0 <= i < cur.changed.len() implies is_changed_glyph(a, b, #[trigger] cur.changed[i]) by {
                if i < prev.changed.len() {
                    assert(cur.changed[i] == prev.changed[i]);
                }
            }
            assert forall|i: int| 0 <= i < cur.modified.len() implies is_modified_pair(a, b, #[trigger] cur.modified[i]) by {
                if i < prev.modified.len() {
                    assert(cur.modified[i] == prev.modified[i]);
                }
            }
            assert forall|i: int| 0 <= i < cur.renamed.len() implies is_same_shape_pair(a, b, #[trigger] cur.renamed[i]) by {
                if i < prev.renamed.len() {
                    assert(cur.renamed[i] == prev.renamed[i]);
                } else {
                    assert(a.label(ga) == cur.renamed[i].0 && b.label(gb) == cur.renamed[i].1);
                }
            }
        }
    }
}

/// Every glyph in a bucket of `m` has a fingerprint of the bucket's key.
pub open spec fn buckets_keyed(b: FontView, m: Map<u128, Seq<u32>>) -> bool {
    forall|k: u128, i: int|
        0 <= i < bucket(m, k).len() ==> b.hashes.contains_key(#[trigger] bucket(m, k)[i]) && hash_key(
            b.hashes[bucket(m, k)[i]],
        ) == k
}

proof fn lemma_buckets_upto_keyed(b: FontView, seen: Set<u32>, n: nat)
    requires
        n <= b.glyph_ids.len(),
    ensures
        buckets_keyed(b, buckets_upto(b, seen, n)),
    decreases n,
{
    if n > 0 {
        let p = (n - 1) as nat;
        lemma_buckets_upto_keyed(b, seen, p);
        let m = buckets_upto(b, seen, p);
        let g = b.glyph_ids[p as int];
        let m2 = buckets_upto(b, seen, n);
        assert forall|k: u128, i: int| 0 <= i < bucket(m2, k).len() implies b.hashes.contains_key(
            #[trigger] bucket(m2, k)[i],
        ) && hash_key(b.hashes[bucket(m2, k)[i]]) == k by {
            if !seen.contains(g) && b.hashes.contains_key(g) && hash_key(b.hashes[g]) == k {
                assert(bucket(m2, k) == bucket(m, k).push(g));
                if i < bucket(m, k).len() {
                    assert(bucket(m2, k)[i] == bucket(m, k)[i]);
                }
            } else {
                assert(bucket(m2, k) == bucket(m, k));
            }
        }
    }
}

proof fn lemma_hash_key_injective(x: GlyphHash, y: GlyphHash)
    requires
        hash_key(x) == hash_key(y),
    ensures
        x == y,
{
}

proof fn lemma_match_meaning(a: FontView, b: FontView, seen_a: Set<u32>, init: MatchState, n: nat)
    requires
        n <= a.glyph_ids.len(),
        buckets_keyed(b, init.buckets),
        forall|i: int| 0 <= i < init.renamed.len() ==> is_same_shape_pair(a, b, #[trigger] init.renamed[i]),
        forall|i: int| 0 <= i < init.removed.len() ==> is_glyph_of(a, #[trigger] init.removed[i]),
    ensures
        buckets_keyed(b, match_upto(a, b, seen_a, init, n).buckets),
        forall|i: int|
            0 <= i < match_upto(a, b, seen_a, init, n).renamed.len() ==> is_same_shape_pair(
                a,
                b,
                #[trigger] match_upto(a, b, seen_a, init, n).renamed[i],
            ),
        forall|i: int|
            0 <= i < match_upto(a, b, seen_a, init, n).removed.len() ==> is_glyph_of(
                a,
                #[trigger] match_upto(a, b, seen_a, init, n).removed[i],
            ),
    decreases n,
{
    if n > 0 {
        let p = (n - 1) as nat;
        lemma_match_meaning(a, b, seen_a, init, p);
        let prev = match_upto(a, b, seen_a, init, p);
        let cur = match_upto(a, b, seen_a, init, n);
        let g = a.glyph_ids[p as int];
        if !seen_a.contains(g) {
            if a.hashes.contains_key(g) && bucket(prev.buckets, hash_key(a.hashes[g])).len() > 0 {
                let k = hash_key(a.hashes[g]);
                let bk = bucket(prev.buckets, k);
                let gb = bk.last();
                assert(b.hashes.contains_key(bk[bk.len() - 1]));
                lemma_hash_key_injective(a.hashes[g], b.hashes[gb]);
                assert(a.hash_of(g) == b.hash_of(gb));
                assert forall|kk: u128, i: int| 0 <= i < bucket(cur.buckets, kk).len() implies b.hashes.contains_key(
                    #[trigger] bucket(cur.buckets, kk)[i],
                ) && hash_key(b.hashes[bucket(cur.buckets, kk)[i]]) == kk by {
                    if kk == k {
                        assert(bucket(cur.buckets, kk)[i] == bk[i]);
                    } else {
                        assert(bucket(cur.buckets, kk) == bucket(prev.buckets, kk));
                    }
                }
                assert forall|i: int| 0 <= i < cur.renamed.len() implies is_same_shape_pair(a, b, #[trigger] cur.renamed[i]) by {
                    if i < prev.renamed.len() {
                        assert(cur.renamed[i] == prev.renamed[i]);
                    } else {
                        assert(a.label(g) == cur.renamed[i].0 && b.label(gb) == cur.renamed[i].1);
                    }
                }
            } else {
                assert forall|i: int| 0 <= i < cur.removed.len() implies is_glyph_of(a, #[trigger] cur.removed[i]) by {
                    if i < prev.removed.len() {
                        assert(cur.removed[i] == prev.removed[i]);
                    } else {
                        assert(a.label(a.glyph_ids[p as int]) == cur.removed[i]);
                    }
                }
            }
        }
    }
}

proof fn lemma_added_meaning(b: FontView, seen_b: Set<u32>, n: nat)
    requires
        n <= b.glyph_ids.len(),
    ensures
        forall|i: int| 0 <= i < added_upto(b, seen_b, n).len() ==> is_glyph_of(b, #[trigger] added_upto(b, seen_b, n)[i]),
    decreases n,
{
    if n > 0 {
        let p = (n - 1) as nat;
        lemma_added_meaning(b, seen_b, p);
        let prev = added_upto(b, seen_b, p);
        let cur = added_upto(b, seen_b, n);
        assert forall|i: int| 0 <= i < cur.len() implies is_glyph_of(b, #[trigger] cur[i]) by {
            if i < prev.len() {
                assert(cur[i] == prev[i]);
            } else {
                assert(b.label(b.glyph_ids[p as int]) == cur[i]);
            }
        }
    }
}

proof fn lemma_multiset_contains<A>(x: Seq<A>, y: Seq<A>, i: int)
    requires
        x.to_multiset() == y.to_multiset(),
        0 <= i < x.len(),
    ensures
        y.contains(x[i]),
{
    broadcast use vstd::seq_lib::group_to_multiset_ensures;
    assert(x.contains(x[i]));
    assert(x.to_multiset().count(x[i]) > 0);
}

proof fn lemma_shared_keeps(a: FontView, b: FontView, cp: u32, n: nat)
    requires
        cp < n,
        a.unicode_to_id.contains_key(cp),
        b.unicode_to_id.contains_key(cp),
    ensures
        ({
            let na = a.label(a.unicode_to_id[cp]);
            let nb = b.label(b.unicode_to_id[cp]);
            let same_shape = a.hash_of(a.unicode_to_id[cp]) == b.hash_of(b.unicode_to_id[cp]);
            let s = shared_upto(a, b, n);
            &&& na == nb && !same_shape ==> s.changed.contains(na)
            &&& na != nb && same_shape ==> s.renamed.contains((na, nb))
            &&& na != nb && !same_shape ==> s.modified.contains((na, nb))
        }),
    decreases n,
{
    let na = a.label(a.unicode_to_id[cp]);
    let nb = b.label(b.unicode_to_id[cp]);
    let p = (n - 1) as nat;
    let s = shared_upto(a, b, n);
    let prev = shared_upto(a, b, p);
    if p == cp as nat {
        assert(s.changed.len() > 0 ==> s.changed[s.changed.len() - 1] == s.changed.last());
        if na == nb && a.hash_of(a.unicode_to_id[cp]) != b.hash_of(b.unicode_to_id[cp]) {
            assert(s.changed[s.changed.len() - 1] == na);
        }
        if na != nb && a.hash_of(a.unicode_to_id[cp]) == b.hash_of(b.unicode_to_id[cp]) {
            assert(s.renamed[s.renamed.len() - 1] == (na, nb));
        }
        if na != nb && a.hash_of(a.unicode_to_id[cp]) != b.hash_of(b.unicode_to_id[cp]) {
            assert(s.modified[s.modified.len() - 1] == (na, nb));
        }
    } else {
        lemma_shared_keeps(a, b, cp, p);
        if prev.changed.contains(na) {
            let j = choose|j: int| 0 <= j < prev.changed.len() && prev.changed[j] == na;
            assert(s.changed[j] == na);
        }
        if prev.renamed.contains((na, nb)) {
            let j = choose|j: int| 0 <= j < prev.renamed.len() && prev.renamed[j] == (na, nb);
            assert(s.renamed[j] == (na, nb));
        }
        if prev.modified.contains((na, nb)) {
            let j = choose|j: int| 0 <= j < prev.modified.len() && prev.modified[j] == (na, nb);
            assert(s.modified[j] == (na, nb));
        }
    }
}

proof fn lemma_multiset_contains_value<A>(x: Seq<A>, y: Seq<A>, v: A)
    requires
        x.to_multiset() == y.to_multiset(),
        x.contains(v),
    ensures
        y.contains(v),
{
    let j = choose|j: int| 0 <= j < x.len() && x[j] == v;
    lemma_multiset_contains(x, y, j);
}

proof fn lemma_match_renamed_grows(a: FontView, b: FontView, seen_a: Set<u32>, init: MatchState, n: nat)
    ensures
        forall|x: (Seq<char>, Seq<char>)|
            init.renamed.contains(x) ==> #[trigger] match_upto(a, b, seen_a, init, n).renamed.contains(x),
    decreases n,
{
    if n > 0 {
        let p = (n - 1) as nat;
        lemma_match_renamed_grows(a, b, seen_a, init, p);
        let prev = match_upto(a, b, seen_a, init, p);
        let cur = match_upto(a, b, seen_a, init, n);
        assert forall|x: (Seq<char>, Seq<char>)| init.renamed.contains(x) implies #[trigger] cur.renamed.contains(x) by {
            assert(prev.renamed.contains(x));
            let j = choose|j: int| 0 <= j < prev.renamed.len() && prev.renamed[j] == x;
            assert(cur.renamed[j] == x);
        }
    }
}

/// Every character that both fonts map is compared, whatever glyph ids the
/// two fonts give it: the two glyphs it maps to are reported as changed when
/// they share a name but not a shape, as renamed when they share a shape
/// but not a name, and as modified when they share neither.
pub proof fn lemma_shared_characters_compared(a: FontView, b: FontView, d: DiffView, cp: u32)
    requires
        sorted_diff_of(d, diff_model(a, b)),
        cp < CODE_POINT_END,
        a.unicode_to_id.contains_key(cp),
        b.unicode_to_id.contains_key(cp),
    ensures
        ({
            let na = a.label(a.unicode_to_id[cp]);
            let nb = b.label(b.unicode_to_id[cp]);
            let same_shape = a.hash_of(a.unicode_to_id[cp]) == b.hash_of(b.unicode_to_id[cp]);
            &&& na == nb && !same_shape ==> d.changed.contains(na)
            &&& na != nb && same_shape ==> d.renamed.contains((na, nb))
            &&& na != nb && !same_shape ==> d.modified.contains((na, nb))
        }),
{
    let na = a.label(a.unicode_to_id[cp]);
    let nb = b.label(b.unicode_to_id[cp]);
    let m = diff_model(a, b);
    lemma_shared_keeps(a, b, cp, CODE_POINT_END as nat);
    let s1 = shared_upto(a, b, CODE_POINT_END as nat);
    assert(s1 == shared_model(a, b));
    assert(m.changed == s1.changed);
    assert(m.modified == s1.modified);
    assert(m.renamed == match_model(a, b).renamed);
    let m0 = MatchState {
        renamed: s1.renamed,
        removed: seq![],
        seen_b: s1.seen_b,
        buckets: buckets_upto(b, s1.seen_b, b.glyph_ids.len()),
    };
    lemma_match_renamed_grows(a, b, s1.seen_a, m0, a.glyph_ids.len());
    if m.changed.contains(na) {
        lemma_multiset_contains_value(m.changed, d.changed, na);
    }
    if m.renamed.contains((na, nb)) {
        lemma_multiset_contains_value(m.renamed, d.renamed, (na, nb));
    }
    if m.modified.contains((na, nb)) {
        lemma_multiset_contains_value(m.modified, d.modified, (na, nb));
    }
}

/// What each list of a comparison means. A changed name names, in both
/// fonts, the glyph of one character, and the two differ in shape. A
/// modified pair names the glyphs of one character, which differ in name
/// and in shape. A renamed pair names a glyph of the old font and a glyph of
/// the new font of the same shape. Added names name glyphs of the new font,
/// removed names glyphs of the old font.
pub proof fn lemma_reported_kinds(a: FontView, b: FontView, d: DiffView)
    requires
        sorted_diff_of(d, diff_model(a, b)),
    ensures
        forall|i: int| 0 <= i < d.changed.len() ==> is_changed_glyph(a, b, #[trigger] d.changed[i]),
        forall|i: int| 0 <= i < d.modified.len() ==> is_modified_pair(a, b, #[trigger] d.modified[i]),
        forall|i: int| 0 <= i < d.renamed.len() ==> is_same_shape_pair(a, b, #[trigger] d.renamed[i]),
        forall|i: int| 0 <= i < d.added.len() ==> is_glyph_of(b, #[trigger] d.added[i]),
        forall|i: int| 0 <= i < d.removed.len() ==> is_glyph_of(a, #[trigger] d.removed[i]),
{
    let m = diff_model(a, b);
    let s1 = shared_model(a, b);
    lemma_shared_meaning(a, b, CODE_POINT_END as nat);
    let m0 = MatchState {
        renamed: s1.renamed,
        removed: seq![],
        seen_b: s1.seen_b,
        buckets: buckets_upto(b, s1.seen_b, b.glyph_ids.len()),
    };
    lemma_buckets_upto_keyed(b, s1.seen_b, b.glyph_ids.len());
    lemma_match_meaning(a, b, s1.seen_a, m0, a.glyph_ids.len());
    let s3 = match_model(a, b);
    lemma_added_meaning(b, s3.seen_b, b.glyph_ids.len());
    assert forall|i: int| 0 <= i < d.changed.len() implies is_changed_glyph(a, b, #[trigger] d.changed[i]) by {
        lemma_multiset_contains(d.changed, m.changed, i);
    }
    assert forall|i: int| 0 <= i < d.modified.len() implies is_modified_pair(a, b, #[trigger] d.modified[i]) by {
        lemma_multiset_contains(d.modified, m.modified, i);
    }
    assert forall|i: int| 0 <= i < d.renamed.len() implies is_same_shape_pair(a, b, #[trigger] d.renamed[i]) by {
        lemma_multiset_contains(d.renamed, m.renamed, i);
    }
    assert forall|i: int| 0 <= i < d.added.len() implies is_glyph_of(b, #[trigger] d.added[i]) by {
        lemma_multiset_contains(d.added, m.added, i);
    }
    assert forall|i: int| 0 <= i < d.removed.len() implies is_glyph_of(a, #[trigger] d.removed[i]) by {
        lemma_multiset_contains(d.removed, m.removed, i);
    }
}

pub open spec fn buckets_view(m: Map<u128, Vec<u32>>) -> Map<u128, Seq<u32>> {
    m.map_values(|v: Vec<u32>| v@)
}

fn key_of(h: &GlyphHash) -> (k: u128)
    ensures
        k == hash_key(*h),
{
    (h.0 as u128) * 0x1_0000_0000_0000_0000u128 + (h.1 as u128)
}

fn same_hash(x: Option<&GlyphHash>, y: Option<&GlyphHash>) -> (r: bool)
    ensures
        r == (match x {
            Some(h) => Some(*h),
            None => None,
        } == match y {
            Some(h) => Some(*h),
            None => None,
        }),
{
    match (x, y) {
        (Some(p), Some(q)) => p.0 == q.0 && p.1 == q.1,
        (None, None) => true,
        _ => false,
    }
}

proof fn lemma_texts_push(v: Seq<String>, s: String)
    ensures
        texts(v.push(s)) == texts(v).push(s@),
{
    assert(texts(v.push(s)) =~= texts(v).push(s@));
}

proof fn lemma_text_pairs_push(v: Seq<(String, String)>, p: (String, String))
    ensures
        text_pairs(v.push(p)) == text_pairs(v).push((p.0@, p.1@)),
{
    assert(text_pairs(v.push(p)) =~= text_pairs(v).push((p.0@, p.1@)));
}

/// Compares the glyphs of `font_a` (old) and `font_b` (new).
pub fn diff_fonts(font_a: &FontInfo, font_b: &FontInfo) -> (result: FontDiff)
    ensures
        sorted_diff_of(result@, diff_model(font_a@, font_b@)),
{
    let ghost a = font_a@;
    let ghost b = font_b@;
    let mut added: Vec<String> = Vec::new();
    let mut removed: Vec<String> = Vec::new();
    let mut changed: Vec<String> = Vec::new();
    let mut renamed: Vec<(String, String)> = Vec::new();
    let mut modified: Vec<(String, String)> = Vec::new();
    let mut processed_a: HashSetWithView<u32> = HashSetWithView::new();
    let mut processed_b: HashSetWithView<u32> = HashSetWithView::new();

    // Glyphs mapped from the same character, in code point order.
    let mut cp: u32 = 0;
    while cp < CODE_POINT_END
        invariant
            cp <= CODE_POINT_END,
            a == font_a@,
            b == font_b@,
            texts(changed@) == shared_upto(a, b, cp as nat).changed,
            text_pairs(renamed@) == shared_upto(a, b, cp as nat).renamed,
            text_pairs(modified@) == shared_upto(a, b, cp as nat).modified,
            processed_a@ == shared_upto(a, b, cp as nat).seen_a,
            processed_b@ == shared_upto(a, b, cp as nat).seen_b,
        decreases CODE_POINT_END - cp,
    {
        let ga = font_a.unicode_to_id.get(&cp);
        let gb = font_b.unicode_to_id.get(&cp);
        match (ga, gb) {
            (Some(ga), Some(gb)) => {
                let ga = *ga;
                let gb = *gb;
                processed_a.insert(ga);
                processed_b.insert(gb);
                let name_a = glyph_name(font_a, ga);
                let name_b = glyph_name(font_b, gb);
                let same_shape = same_hash(font_a.hashes.get(&ga), font_b.hashes.get(&gb));
                let same_name = name_a == name_b;
                if same_name && !same_shape {
                    proof { lemma_texts_push(changed@, name_a); }
                    changed.push(name_a);
                } else if !same_name && same_shape {
                    proof { lemma_text_pairs_push(renamed@, (name_a, name_b)); }
                    renamed.push((name_a, name_b));
                } else if !same_name && !same_shape {
                    proof { lemma_text_pairs_push(modified@, (name_a, name_b)); }
                    modified.push((name_a, name_b));
                }
            },
            _ => {},
        }
        cp = cp + 1;
    }

    // The new font's remaining glyphs, grouped by fingerprint.
    let ghost s1 = shared_model(a, b);
    let mut b_by_hash: HashMapWithView<u128, Vec<u32>> = HashMapWithView::new();
    let nb = font_b.glyph_ids.len();
    let mut i: usize = 0;
    while i < nb
        invariant
            i <= nb,
            nb == b.glyph_ids.len(),
            a == font_a@,
            b == font_b@,
            s1 == shared_model(a, b),
            processed_b@ == s1.seen_b,
            buckets_view(b_by_hash@) == buckets_upto(b, s1.seen_b, i as nat),
        decreases nb - i,
    {
        let g = font_b.glyph_ids[i];
        if !processed_b.contains(&g) {
            match font_b.hashes.get(&g) {
                Some(h) => {
                    let k = key_of(h);
                    let mut v = match b_by_hash.remove(&k) {
                        Some(v) => v,
                        None => Vec::new(),
                    };
                    v.push(g);
                    b_by_hash.insert(k, v);
                    proof {
                        let m = buckets_upto(b, s1.seen_b, i as nat);
                        assert(buckets_view(b_by_hash@) =~= m.insert(k, bucket(m, k).push(g)));
                    }
                },
                None => {},
            }
        }
        i = i + 1;
    }

    // The old font's remaining glyphs, matched by fingerprint.
    let ghost m0 = MatchState {
        renamed: s1.renamed,
        removed: seq![],
        seen_b: s1.seen_b,
        buckets: buckets_upto(b, s1.seen_b, b.glyph_ids.len()),
    };
    let na = font_a.glyph_ids.len();
    let mut j: usize = 0;
    while j < na
        invariant
            j <= na,
            na == a.glyph_ids.len(),
            a == font_a@,
            b == font_b@,
            s1 == shared_model(a, b),
            m0.renamed == s1.renamed,
            m0.removed == Seq::<Seq<char>>::empty(),
            m0.seen_b == s1.seen_b,
            m0.buckets == buckets_upto(b, s1.seen_b, b.glyph_ids.len()),
            processed_a@ == s1.seen_a,
            text_pairs(renamed@) == match_upto(a, b, s1.seen_a, m0, j as nat).renamed,
            texts(removed@) == match_upto(a, b, s1.seen_a, m0, j as nat).removed,
            processed_b@ == match_upto(a, b, s1.seen_a, m0, j as nat).seen_b,
            buckets_view(b_by_hash@) == match_upto(a, b, s1.seen_a, m0, j as nat).buckets,
        decreases na - j,
    {
        let g = font_a.glyph_ids[j];
        let ghost st = match_upto(a, b, s1.seen_a, m0, j as nat);
        if !processed_a.contains(&g) {
            let mut matched: Option<u32> = None;
            match font_a.hashes.get(&g) {
                Some(h) => {
                    let k = key_of(h);
                    match b_by_hash.remove(&k) {
                        Some(v) => {
                            let mut v = v;
                            matched = v.pop();
                            b_by_hash.insert(k, v);
                        },
                        None => {},
                    }
                    proof {
                        let bk = bucket(st.buckets, k);
                        if bk.len() > 0 {
                            assert(buckets_view(b_by_hash@) =~= st.buckets.insert(k, bk.drop_last()));
                        } else {
                            assert(buckets_view(b_by_hash@) =~= st.buckets);
                        }
                    }
                },
                None => {},
            }
            match matched {
                Some(gb) => {
                    let name_a = glyph_name(font_a, g);
                    let name_b = glyph_name(font_b, gb);
                    proof { lemma_text_pairs_push(renamed@, (name_a, name_b)); }
                    renamed.push((name_a, name_b));
                    processed_b.insert(gb);
                },
                None => {
                    let name_a = glyph_name(font_a, g);
                    proof { lemma_texts_push(removed@, name_a); }
                    removed.push(name_a);
                },
            }
        }
        j = j + 1;
    }

    // What is left of the new font was added.
    let ghost s3 = match_model(a, b);
    let mut t: usize = 0;
    while t < nb
        invariant
            t <= nb,
            nb == b.glyph_ids.len(),
            a == font_a@,
            b == font_b@,
            s3 == match_model(a, b),
            processed_b@ == s3.seen_b,
            texts(added@) == added_upto(b, s3.seen_b, t as nat),
        decreases nb - t,
    {
        let g = font_b.glyph_ids[t];
        if !processed_b.contains(&g) {
            let name = glyph_name(font_b, g);
            proof { lemma_texts_push(added@, name); }
            added.push(name);
        }
        t = t + 1;
    }

    sort_texts(&mut added);
    sort_texts(&mut removed);
    sort_texts(&mut changed);
    sort_text_pairs(&mut renamed);
    sort_text_pairs(&mut modified);
    FontDiff { added, removed, changed, renamed, modified }
}

} // verus!
