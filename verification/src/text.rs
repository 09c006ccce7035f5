//! Text building blocks: decimal and hexadecimal numerals, the byte order of
//! strings, and the few `String` operations that the library needs.
use vstd::prelude::*;
use vstd::relations::total_ordering;
use vstd::utf8::encode_utf8;

verus! {

/// The ASCII digit for `d < 16`, upper case for ten and above.
pub open spec fn digit_char(d: nat) -> char {
    if d < 10 {
        (48 + d) as char
    } else {
        (55 + d) as char
    }
}

/// The decimal numeral of `n`, without leading zeros.
pub open spec fn decimal(n: nat) -> Seq<char>
    decreases n,
{
    if n < 10 {
        seq![digit_char(n)]
    } else {
        decimal(n / 10).push(digit_char(n % 10))
    }
}

/// The upper-case hexadecimal numeral of `n`, without leading zeros.
pub open spec fn hex_upper(n: nat) -> Seq<char>
    decreases n,
{
    if n < 16 {
        seq![digit_char(n)]
    } else {
        hex_upper(n / 16).push(digit_char(n % 16))
    }
}

/// The upper-case hexadecimal numeral of `n`, zero-padded to at least four
/// digits (what the format `{:04X}` writes).
pub open spec fn hex_upper_4(n: nat) -> Seq<char> {
    let h = hex_upper(n);
    if h.len() < 4 {
        Seq::new((4 - h.len()) as nat, |i: int| '0') + h
    } else {
        h
    }
}

/// Lexicographic order on byte strings (a prefix comes first).
pub open spec fn bytes_le(a: Seq<u8>, b: Seq<u8>) -> bool
    decreases a.len(),
{
    if a.len() == 0 {
        true
    } else if b.len() == 0 {
        false
    } else if a[0] < b[0] {
        true
    } else if a[0] > b[0] {
        false
    } else {
        bytes_le(a.drop_first(), b.drop_first())
    }
}

/// The order of `String`s: lexicographic on their UTF-8 bytes.
pub open spec fn text_le(a: Seq<char>, b: Seq<char>) -> bool {
    bytes_le(encode_utf8(a), encode_utf8(b))
}

/// The order of pairs of `String`s: by the first, then by the second.
pub open spec fn pair_le(p: (Seq<char>, Seq<char>), q: (Seq<char>, Seq<char>)) -> bool {
    (text_le(p.0, q.0) && p.0 != q.0) || (p.0 == q.0 && text_le(p.1, q.1))
}

pub open spec fn texts_sorted(s: Seq<Seq<char>>) -> bool {
    forall|i: int, j: int| 0 <= i < j < s.len() ==> text_le(#[trigger] s[i], #[trigger] s[j])
}

pub open spec fn pairs_sorted(s: Seq<(Seq<char>, Seq<char>)>) -> bool {
    forall|i: int, j: int| 0 <= i < j < s.len() ==> pair_le(#[trigger] s[i], #[trigger] s[j])
}

/// The texts of a sequence of `String`s.
pub open spec fn texts(v: Seq<String>) -> Seq<Seq<char>> {
    v.map_values(|s: String| s@)
}

/// The texts of a sequence of pairs of `String`s.
pub open spec fn text_pairs(v: Seq<(String, String)>) -> Seq<(Seq<char>, Seq<char>)> {
    v.map_values(|p: (String, String)| (p.0@, p.1@))
}

proof fn lemma_bytes_le_reflexive(a: Seq<u8>)
    ensures
        bytes_le(a, a),
    decreases a.len(),
{
    if a.len() > 0 {
        lemma_bytes_le_reflexive(a.drop_first());
    }
}

proof fn lemma_bytes_le_antisymmetric(a: Seq<u8>, b: Seq<u8>)
    requires
        bytes_le(a, b),
        bytes_le(b, a),
    ensures
        a == b,
    decreases a.len(),
{
    if a.len() == 0 || b.len() == 0 {
        assert(a =~= b);
    } else {
        lemma_bytes_le_antisymmetric(a.drop_first(), b.drop_first());
        assert(a =~= seq![a[0]] + a.drop_first());
        assert(b =~= seq![b[0]] + b.drop_first());
    }
}

proof fn lemma_bytes_le_transitive(a: Seq<u8>, b: Seq<u8>, c: Seq<u8>)
    requires
        bytes_le(a, b),
        bytes_le(b, c),
    ensures
        bytes_le(a, c),
    decreases a.len(),
{
    if a.len() > 0 && b.len() > 0 && c.len() > 0 && a[0] == b[0] && b[0] == c[0] {
        lemma_bytes_le_transitive(a.drop_first(), b.drop_first(), c.drop_first());
    }
}

proof fn lemma_bytes_le_total(a: Seq<u8>, b: Seq<u8>)
    ensures
        bytes_le(a, b) || bytes_le(b, a),
    decreases a.len(),
{
    if a.len() > 0 && b.len() > 0 && a[0] == b[0] {
        lemma_bytes_le_total(a.drop_first(), b.drop_first());
    }
}

/// The order of `String`s is a total order.
pub proof fn lemma_text_le_total_ordering()
    ensures
        total_ordering(|a: Seq<char>, b: Seq<char>| text_le(a, b)),
{
    let r = |a: Seq<char>, b: Seq<char>| text_le(a, b);
    assert forall|x: Seq<char>| #[trigger] r(x, x) by {
        lemma_bytes_le_reflexive(encode_utf8(x));
    }
    assert forall|x: Seq<char>, y: Seq<char>| #[trigger] r(x, y) && #[trigger] r(y, x) implies x == y by {
        lemma_bytes_le_antisymmetric(encode_utf8(x), encode_utf8(y));
        vstd::utf8::encode_utf8_decode_utf8(x);
        vstd::utf8::encode_utf8_decode_utf8(y);
    }
    assert forall|x: Seq<char>, y: Seq<char>, z: Seq<char>| #[trigger] r(x, y) && #[trigger] r(y, z) implies r(x, z) by {
        lemma_bytes_le_transitive(encode_utf8(x), encode_utf8(y), encode_utf8(z));
    }
    assert forall|x: Seq<char>, y: Seq<char>| #[trigger] r(x, y) || #[trigger] r(y, x) by {
        lemma_bytes_le_total(encode_utf8(x), encode_utf8(y));
    }
}

/// The order of pairs of `String`s is a total order.
pub proof fn lemma_pair_le_total_ordering()
    ensures
        total_ordering(|p: (Seq<char>, Seq<char>), q: (Seq<char>, Seq<char>)| pair_le(p, q)),
{
    lemma_text_le_total_ordering();
    let t = |a: Seq<char>, b: Seq<char>| text_le(a, b);
    let r = |p: (Seq<char>, Seq<char>), q: (Seq<char>, Seq<char>)| pair_le(p, q);
    assert forall|x: (Seq<char>, Seq<char>)| #[trigger] r(x, x) by {
        assert(t(x.1, x.1));
    }
    assert forall|x: (Seq<char>, Seq<char>), y: (Seq<char>, Seq<char>)| #[trigger] r(x, y) && #[trigger] r(y, x) implies x == y by {
        assert(t(x.0, y.0) ==> t(y.0, x.0) ==> x.0 == y.0);
        assert(t(x.1, y.1) ==> t(y.1, x.1) ==> x.1 == y.1);
    }
    assert forall|x: (Seq<char>, Seq<char>), y: (Seq<char>, Seq<char>), z: (Seq<char>, Seq<char>)|
        #[trigger] r(x, y) && #[trigger] r(y, z) implies r(x, z) by {
        assert(t(x.0, y.0) && t(y.0, z.0) ==> t(x.0, z.0));
        assert(t(x.1, y.1) && t(y.1, z.1) ==> t(x.1, z.1));
        assert(t(x.0, z.0) && t(z.0, x.0) ==> x.0 == z.0);
        assert(t(x.0, y.0) && t(y.0, x.0) ==> x.0 == y.0);
        assert(t(y.0, z.0) && t(z.0, y.0) ==> y.0 == z.0);
    }
    assert forall|x: (Seq<char>, Seq<char>), y: (Seq<char>, Seq<char>)| #[trigger] r(x, y) || #[trigger] r(y, x) by {
        assert(t(x.0, y.0) || t(y.0, x.0));
        assert(t(x.1, y.1) || t(y.1, x.1));
    }
}

/// Appends one character with `String::push`. Claimed: the text gains
/// that character at its end.
#[verifier::external_body]
pub(crate) fn push_char(s: &mut String, c: char)
    ensures
        final(s)@ == old(s)@.push(c),
{
    s.push(c)
}

/// Sorts names with `slice::sort_unstable`. Claimed: the names are only
/// permuted, and come out in ascending order of their UTF-8 bytes, which is
/// how `String`s are ordered.
#[verifier::external_body]
pub(crate) fn sort_texts(v: &mut Vec<String>)
    ensures
        texts(final(v)@).to_multiset() == texts(old(v)@).to_multiset(),
        texts_sorted(texts(final(v)@)),
{
    v.sort_unstable()
}

/// Sorts pairs of names with `slice::sort_unstable`. Claimed: the pairs are
/// only permuted, and come out in ascending order, by their first name,
/// then by their second, as tuples are ordered.
#[verifier::external_body]
pub(crate) fn sort_text_pairs(v: &mut Vec<(String, String)>)
    ensures
        text_pairs(final(v)@).to_multiset() == text_pairs(old(v)@).to_multiset(),
        pairs_sorted(text_pairs(final(v)@)),
{
    v.sort_unstable()
}

/// `char::from_u32`. Claimed: `None` exactly when `cp` is above `0x10FFFF`
/// or a surrogate, else the character with that code point.
#[verifier::external_body]
pub(crate) fn char_from_u32(cp: u32) -> (r: Option<char>)
    ensures
        r is Some <==> vstd::utf8::is_scalar(cp),
        r matches Some(c) ==> c as u32 == cp,
{
    char::from_u32(cp)
}

/// The ASCII digit of `d < 16`.
pub fn digit(d: u32) -> (c: char)
    requires
        d < 16,
    ensures
        c == digit_char(d as nat),
{
    if d < 10 {
        ((48 + d) as u8) as char
    } else {
        ((55 + d) as u8) as char
    }
}

/// Appends the decimal numeral of `n`.
pub fn push_decimal(s: &mut String, n: u32)
    ensures
        final(s)@ == old(s)@ + decimal(n as nat),
    decreases n,
{
    if n >= 10 {
        push_decimal(s, n / 10);
    }
    let c = digit(n % 10);
    push_char(s, c);
    proof {
        if n >= 10 {
            assert(old(s)@ + decimal(n as nat) =~= old(s)@ + decimal((n / 10) as nat) + seq![c]);
        } else {
            assert(old(s)@ + decimal(n as nat) =~= old(s)@.push(c));
        }
    }
}

/// Appends the upper-case hexadecimal numeral of `n`.
pub fn push_hex_upper(s: &mut String, n: u32)
    ensures
        final(s)@ == old(s)@ + hex_upper(n as nat),
    decreases n,
{
    if n >= 16 {
        push_hex_upper(s, n / 16);
    }
    let c = digit(n % 16);
    push_char(s, c);
    proof {
        if n >= 16 {
            assert(old(s)@ + hex_upper(n as nat) =~= old(s)@ + hex_upper((n / 16) as nat) + seq![c]);
        } else {
            assert(old(s)@ + hex_upper(n as nat) =~= old(s)@.push(c));
        }
    }
}

pub proof fn lemma_hex_upper_len(n: nat)
    ensures
        n < 16 ==> hex_upper(n).len() == 1,
        16 <= n < 256 ==> hex_upper(n).len() == 2,
        256 <= n < 4096 ==> hex_upper(n).len() == 3,
        4096 <= n ==> hex_upper(n).len() >= 4,
    decreases n,
{
    if n >= 16 {
        lemma_hex_upper_len(n / 16);
    }
}

/// Appends `n` as `{:04X}` formats it.
pub fn push_hex_upper_4(s: &mut String, n: u32)
    ensures
        final(s)@ == old(s)@ + hex_upper_4(n as nat),
{
    proof {
        lemma_hex_upper_len(n as nat);
    }
    let pad: u32 = if n < 16 {
        3
    } else if n < 256 {
        2
    } else if n < 4096 {
        1
    } else {
        0
    };
    let mut i: u32 = 0;
    while i < pad
        invariant
            i <= pad,
            pad <= 3,
            s@ == old(s)@ + Seq::new(i as nat, |k: int| '0'),
        decreases pad - i,
    {
        push_char(s, '0');
        proof {
            assert(Seq::new(i as nat, |k: int| '0').push('0') =~= Seq::new((i + 1) as nat, |k: int| '0'));
        }
        i = i + 1;
    }
    push_hex_upper(s, n);
    proof {
        let h = hex_upper(n as nat);
        if h.len() < 4 {
            assert(pad == 4 - h.len());
            assert(old(s)@ + Seq::new(pad as nat, |k: int| '0') + h =~= old(s)@ + (Seq::new(
                (4 - h.len()) as nat,
                |k: int| '0',
            ) + h));
        } else {
            assert(pad == 0);
            assert(old(s)@ + Seq::new(0nat, |k: int| '0') + h =~= old(s)@ + h);
        }
    }
}

} // verus!
