//! A compact, deterministic structural fingerprint of glyph outlines.
//!
//! The fingerprint is intentionally not cryptographic: collision resistance
//! beyond 128 bits does not help a local font comparison, and it has to stay
//! cheap enough to compute for every glyph of a large font.
use vstd::prelude::*;

verus! {

/// The 128-bit fingerprint of one glyph, as two 64-bit lanes.
#[derive(Clone, Copy, Debug, PartialEq, Eq, Hash, Structural)]
pub struct GlyphHash(pub u64, pub u64);

/// The kind of one element of a glyph outline. Its coordinates travel
/// separately, as the IEEE-754 bit patterns of the single-precision values
/// that the outline reader produced, so that equal outlines give equal words.
#[derive(Clone, Copy, Debug, PartialEq, Eq, Structural)]
pub enum PathVerb {
    Move,
    Line,
    Quad,
    Cubic,
    ClosePath,
}

/// Incremental state of the fingerprint: two mixing lanes and the number of
/// words absorbed so far.
#[derive(Clone, Copy, Debug)]
pub struct GlyphHasher {
    pub a: u64,
    pub b: u64,
    pub words: u64,
}

pub open spec fn rotl(x: u64, r: u64) -> u64 {
    (x << r) | (x >> ((64 - r) as u64))
}

pub open spec fn mul_wrap(x: u64, y: u64) -> u64 {
    vstd::wrapping::u64_specs::wrapping_mul(x, y)
}

pub open spec fn add_wrap(x: u64, y: u64) -> u64 {
    vstd::wrapping::u64_specs::wrapping_add(x, y)
}

pub open spec fn hasher_init() -> GlyphHasher {
    GlyphHasher { a: 0x243f_6a88_85a3_08d3, b: 0x1319_8a2e_0370_7344, words: 0 }
}

/// The state after absorbing one 32-bit word.
#[verifier::opaque]
pub open spec fn hasher_step(s: GlyphHasher, value: u32) -> GlyphHasher {
    let v = value as u64;
    let a1 = s.a ^ add_wrap(v, 0x9e37_79b9_7f4a_7c15);
    let a2 = mul_wrap(rotl(a1, 27), 0x3c79_ac49_2ba7_b653);
    let b1 = s.b ^ add_wrap(a2, rotl(v, 17));
    let b2 = mul_wrap(rotl(b1, 31), 0x1c69_b3f7_4ac4_ae35);
    GlyphHasher { a: a2, b: b2, words: (s.words + 1) as u64 }
}

/// The state after absorbing `words` in order.
pub open spec fn absorb(s: GlyphHasher, words: Seq<u32>) -> GlyphHasher
    decreases words.len(),
{
    if words.len() == 0 {
        s
    } else {
        hasher_step(absorb(s, words.drop_last()), words.last())
    }
}

pub open spec fn avalanche_spec(v: u64) -> u64 {
    let v1 = v ^ (v >> 30u64);
    let v2 = mul_wrap(v1, 0xbf58_476d_1ce4_e5b9);
    let v3 = v2 ^ (v2 >> 27u64);
    let v4 = mul_wrap(v3, 0x94d0_49bb_1331_11eb);
    v4 ^ (v4 >> 31u64)
}

#[verifier::opaque]
pub open spec fn hasher_finish(s: GlyphHasher) -> GlyphHash {
    let a1 = s.a ^ mul_wrap(s.words, 0x9e37_79b9_7f4a_7c15);
    let b1 = s.b ^ mul_wrap(s.words, 0xd6e8_feb8_6659_fd93);
    let a2 = a1 ^ rotl(b1, 23);
    let b2 = b1 ^ rotl(a2, 41);
    GlyphHash(avalanche_spec(a2), avalanche_spec(b2))
}

/// The fingerprint of a whole word sequence.
pub open spec fn fingerprint(words: Seq<u32>) -> GlyphHash {
    hasher_finish(absorb(hasher_init(), words))
}

/// The tag word of an outline element: the letter `M`, `L`, `Q`, `C` or `Z`.
pub open spec fn verb_tag(v: PathVerb) -> u32 {
    match v {
        PathVerb::Move => 77,
        PathVerb::Line => 76,
        PathVerb::Quad => 81,
        PathVerb::Cubic => 67,
        PathVerb::ClosePath => 90,
    }
}

/// The number of coordinates that an outline element carries.
pub open spec fn verb_arity(v: PathVerb) -> nat {
    match v {
        PathVerb::Move => 2,
        PathVerb::Line => 2,
        PathVerb::Quad => 4,
        PathVerb::Cubic => 6,
        PathVerb::ClosePath => 0,
    }
}

/// The number of coordinates that the elements carry together.
pub open spec fn coord_count(verbs: Seq<PathVerb>) -> nat
    decreases verbs.len(),
{
    if verbs.len() == 0 {
        0
    } else {
        coord_count(verbs.drop_last()) + verb_arity(verbs.last())
    }
}

pub open spec fn min_nat(x: nat, y: nat) -> nat {
    if x <= y {
        x
    } else {
        y
    }
}

/// The words of an outline: for each element its tag, then its coordinates,
/// taken in order from `coords` (as many as are left once they run out).
pub open spec fn outline_words(verbs: Seq<PathVerb>, coords: Seq<u32>) -> Seq<u32>
    decreases verbs.len(),
{
    if verbs.len() == 0 {
        seq![]
    } else {
        let p = verbs.drop_last();
        let start = min_nat(coord_count(p), coords.len());
        let end = min_nat(coord_count(p) + verb_arity(verbs.last()), coords.len());
        outline_words(p, coords).push(verb_tag(verbs.last())) + coords.subrange(start as int, end as int)
    }
}

/// The fingerprint of a glyph: its outline words (none when the glyph has no
/// outline), then its advance width (0 when unknown). A glyph whose outline
/// could not be drawn has no fingerprint.
pub open spec fn glyph_fingerprint(
    verbs: Option<Option<Seq<PathVerb>>>,
    coords: Seq<u32>,
    advance: Option<u16>,
) -> Option<GlyphHash> {
    let adv: u32 = match advance {
        Some(a) => a as u32,
        None => 0u32,
    };
    match verbs {
        None => Some(fingerprint(seq![adv])),
        Some(None) => None,
        Some(Some(vs)) => Some(fingerprint(outline_words(vs, coords).push(adv))),
    }
}

pub proof fn lemma_absorb_concat(s: GlyphHasher, x: Seq<u32>, y: Seq<u32>)
    ensures
        absorb(s, x + y) == absorb(absorb(s, x), y),
    decreases y.len(),
{
    if y.len() == 0 {
        assert(x + y =~= x);
    } else {
        assert((x + y).drop_last() =~= x + y.drop_last());
        lemma_absorb_concat(s, x, y.drop_last());
    }
}

pub proof fn lemma_absorb_push(s: GlyphHasher, w: Seq<u32>, x: u32)
    ensures
        absorb(s, w.push(x)) == hasher_step(absorb(s, w), x),
{
    assert(w.push(x).drop_last() =~= w);
}

/// Avalanche mixing of one 64-bit lane.
pub fn avalanche(value: u64) -> (r: u64)
    ensures
        r == avalanche_spec(value),
{
    let mut value = value;
    value ^= value >> 30;
    value = value.wrapping_mul(0xbf58_476d_1ce4_e5b9);
    value ^= value >> 27;
    value = value.wrapping_mul(0x94d0_49bb_1331_11eb);
    value ^ (value >> 31)
}

impl GlyphHasher {
    /// A hasher that has absorbed nothing yet.
    pub fn new() -> (h: Self)
        ensures
            h == hasher_init(),
    {
        GlyphHasher { a: 0x243f_6a88_85a3_08d3, b: 0x1319_8a2e_0370_7344, words: 0 }
    }

    /// Absorbs one word.
    pub fn write(&mut self, value: u32)
        requires
            old(self).words < u64::MAX,
        ensures
            *final(self) == hasher_step(*old(self), value),
            final(self).words == old(self).words + 1,
    {
        reveal(hasher_step);
        let v = value as u64;
        self.a = self.a ^ v.wrapping_add(0x9e37_79b9_7f4a_7c15);
        self.a = ((self.a << 27u64) | (self.a >> 37u64)).wrapping_mul(0x3c79_ac49_2ba7_b653);
        self.b = self.b ^ self.a.wrapping_add((v << 17u64) | (v >> 47u64));
        self.b = ((self.b << 31u64) | (self.b >> 33u64)).wrapping_mul(0x1c69_b3f7_4ac4_ae35);
        self.words = self.words + 1;
    }

    /// Absorbs `words[from..to]` in order.
    pub fn write_all(&mut self, words: &[u32], from: usize, to: usize)
        requires
            from <= to <= words.len(),
            old(self).words + (to - from) <= u64::MAX,
        ensures
            *final(self) == absorb(*old(self), words@.subrange(from as int, to as int)),
            final(self).words == old(self).words + (to - from),
    {
        let ghost s0 = *self;
        let mut j: usize = from;
        while j < to
            invariant
                from <= j <= to <= words.len(),
                s0.words + (to - from) <= u64::MAX,
                *self == absorb(s0, words@.subrange(from as int, j as int)),
                self.words == s0.words + (j - from),
            decreases to - j,
        {
            proof {
                lemma_absorb_push(s0, words@.subrange(from as int, j as int), words@[j as int]);
                assert(words@.subrange(from as int, j + 1) =~= words@.subrange(from as int, j as int).push(words@[j as int]));
            }
            self.write(words[j]);
            j = j + 1;
        }
    }

    /// Ends absorption and mixes the lanes into the final fingerprint.
    pub fn finish(self) -> (h: GlyphHash)
        ensures
            h == hasher_finish(self),
    {
        reveal(hasher_finish);
        let mut a = self.a;
        let mut b = self.b;
        a ^= self.words.wrapping_mul(0x9e37_79b9_7f4a_7c15);
        b ^= self.words.wrapping_mul(0xd6e8_feb8_6659_fd93);
        a ^= (b << 23u64) | (b >> 41u64);
        b ^= (a << 41u64) | (a >> 23u64);
        GlyphHash(avalanche(a), avalanche(b))
    }
}

impl PathVerb {
    /// The tag word of the element.
    pub fn tag(&self) -> (r: u32)
        ensures
            r == verb_tag(*self),
    {
        match self {
            PathVerb::Move => 77,
            PathVerb::Line => 76,
            PathVerb::Quad => 81,
            PathVerb::Cubic => 67,
            PathVerb::ClosePath => 90,
        }
    }

    /// The number of coordinates that the element carries.
    pub fn arity(&self) -> (r: usize)
        ensures
            r == verb_arity(*self),
    {
        match self {
            PathVerb::Move => 2,
            PathVerb::Line => 2,
            PathVerb::Quad => 4,
            PathVerb::Cubic => 6,
            PathVerb::ClosePath => 0,
        }
    }
}

pub open spec fn verbs_view(verbs: &Option<Option<Vec<PathVerb>>>) -> Option<Option<Seq<PathVerb>>> {
    match verbs {
        None => None,
        Some(None) => Some(None),
        Some(Some(vs)) => Some(Some(vs@)),
    }
}

/// Fingerprints a glyph from its outline elements, their coordinates and
/// its advance width, as [`glyph_fingerprint`] describes.
pub fn hash_glyph(verbs: &Option<Option<Vec<PathVerb>>>, coords: &[u32], advance: Option<u16>) -> (r: Option<GlyphHash>)
    requires
        verbs matches Some(Some(vs)) ==> vs.len() + coords.len() < 0x8000_0000_0000_0000,
    ensures
        r == glyph_fingerprint(verbs_view(verbs), coords@, advance),
{
    let mut hasher = GlyphHasher::new();
    let adv: u32 = match advance {
        Some(a) => a as u32,
        None => 0,
    };
    match verbs {
        None => {
            hasher.write(adv);
            proof {
                lemma_absorb_push(hasher_init(), Seq::<u32>::empty(), adv);
                assert(Seq::<u32>::empty().push(adv) =~= seq![adv]);
            }
        },
        Some(None) => {
            return None;
        },
        Some(Some(vs)) => {
            let n = vs.len();
            let len = coords.len();
            let mut i: usize = 0;
            let mut pos: usize = 0;
            while i < n
                invariant
                    n == vs.len(),
                    len == coords.len(),
                    n + len < 0x8000_0000_0000_0000,
                    i <= n,
                    pos == min_nat(coord_count(vs@.take(i as int)), len as nat),
                    hasher == absorb(hasher_init(), outline_words(vs@.take(i as int), coords@)),
                    hasher.words == i + pos,
                decreases n - i,
            {
                let ghost p = vs@.take(i as int);
                let v = vs[i];
                assert(vs@.take(i + 1).drop_last() =~= p);
                assert(vs@.take(i + 1).last() == v);
                hasher.write(v.tag());
                let arity = v.arity();
                let end: usize = if arity <= len - pos {
                    pos + arity
                } else {
                    len
                };
                hasher.write_all(coords, pos, end);
                proof {
                    lemma_absorb_push(hasher_init(), outline_words(p, coords@), verb_tag(v));
                    lemma_absorb_concat(
                        hasher_init(),
                        outline_words(p, coords@).push(verb_tag(v)),
                        coords@.subrange(pos as int, end as int),
                    );
                }
                i = i + 1;
                pos = end;
            }
            assert(vs@.take(n as int) =~= vs@);
            proof {
                lemma_absorb_push(hasher_init(), outline_words(vs@, coords@), adv);
            }
            hasher.write(adv);
        },
    }
    Some(hasher.finish())
}

} // verus!
