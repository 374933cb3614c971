//! Text as the completion engine sees it: equality, prefixes and the order in
//! which candidates are listed.
//!
//! Contracts speak of a text by its view, a `Seq<char>`. The executable
//! functions walk the UTF-8 bytes of a `&str`; the lemmas of this module carry
//! what they find there back to the characters: texts with the same bytes are
//! the same, a prefix in bytes is a prefix in characters, and the order of the
//! bytes is the order of the code points.

use vstd::prelude::*;
use vstd::relations::*;
use vstd::utf8::*;

verus! {

/// Lexicographic "at most" on byte strings: at the first position where the
/// two differ the smaller byte decides, and a proper prefix comes first.
pub open spec fn bytes_le(a: Seq<u8>, b: Seq<u8>) -> bool
    decreases a.len(),
{
    if a.len() == 0 {
        true
    } else if b.len() == 0 {
        false
    } else if a[0] == b[0] {
        bytes_le(a.drop_first(), b.drop_first())
    } else {
        a[0] < b[0]
    }
}

/// The order of texts: the byte order of their UTF-8 encodings. It is the
/// order by code points as well (`lemma_text_le_by_code_points`).
pub open spec fn text_le(a: Seq<char>, b: Seq<char>) -> bool {
    bytes_le(encode_utf8(a), encode_utf8(b))
}

/// `text_le` as a relation, for the sequence library.
pub open spec fn text_order() -> spec_fn(Seq<char>, Seq<char>) -> bool {
    |a: Seq<char>, b: Seq<char>| text_le(a, b)
}

/// Whether `text` begins with `prefix`.
pub open spec fn starts_with(text: Seq<char>, prefix: Seq<char>) -> bool {
    prefix.is_prefix_of(text)
}

/// Every byte string is at most itself.
pub proof fn lemma_bytes_le_reflexive(a: Seq<u8>)
    ensures
        bytes_le(a, a),
    decreases a.len(),
{
    if a.len() > 0 {
        lemma_bytes_le_reflexive(a.drop_first());
    }
}

/// Two byte strings that are at most each other are the same.
pub proof fn lemma_bytes_le_antisymmetric(a: Seq<u8>, b: Seq<u8>)
    requires
        bytes_le(a, b),
        bytes_le(b, a),
    ensures
        a == b,
    decreases a.len(),
{
    if a.len() > 0 && b.len() > 0 {
        lemma_bytes_le_antisymmetric(a.drop_first(), b.drop_first());
        assert(a =~= seq![a[0]] + a.drop_first());
        assert(b =~= seq![b[0]] + b.drop_first());
    }
}

/// What is at most a byte string is at most everything behind it.
pub proof fn lemma_bytes_le_transitive(a: Seq<u8>, b: Seq<u8>, c: Seq<u8>)
    requires
        bytes_le(a, b),
        bytes_le(b, c),
    ensures
        bytes_le(a, c),
    decreases a.len(),
{
    if a.len() > 0 && a[0] == b[0] && b[0] == c[0] {
        lemma_bytes_le_transitive(a.drop_first(), b.drop_first(), c.drop_first());
    }
}

/// Of two byte strings one is at most the other.
pub proof fn lemma_bytes_le_connected(a: Seq<u8>, b: Seq<u8>)
    ensures
        bytes_le(a, b) || bytes_le(b, a),
    decreases a.len(),
{
    if a.len() > 0 && b.len() > 0 && a[0] == b[0] {
        lemma_bytes_le_connected(a.drop_first(), b.drop_first());
    }
}

/// Bytes on which two strings agree at the front do not decide their order.
pub proof fn lemma_bytes_le_skip(a: Seq<u8>, b: Seq<u8>, k: int)
    requires
        0 <= k <= a.len(),
        k <= b.len(),
        a.take(k) == b.take(k),
    ensures
        bytes_le(a, b) == bytes_le(a.skip(k), b.skip(k)),
    decreases k,
{
    if k == 0 {
        assert(a.skip(0) =~= a);
        assert(b.skip(0) =~= b);
    } else {
        assert(a[0] == a.take(k)[0]);
        assert(b[0] == b.take(k)[0]);
        assert(a.drop_first().take(k - 1) =~= a.take(k).drop_first());
        assert(b.drop_first().take(k - 1) =~= b.take(k).drop_first());
        lemma_bytes_le_skip(a.drop_first(), b.drop_first(), k - 1);
        assert(a.drop_first().skip(k - 1) =~= a.skip(k));
        assert(b.drop_first().skip(k - 1) =~= b.skip(k));
    }
}

/// Two texts with the same encoding are the same text.
pub proof fn lemma_encode_utf8_injective(a: Seq<char>, b: Seq<char>)
    requires
        encode_utf8(a) == encode_utf8(b),
    ensures
        a == b,
{
    encode_utf8_decode_utf8(a);
    encode_utf8_decode_utf8(b);
}

/// `text_le` orders all texts in one line: it is reflexive, antisymmetric,
/// transitive, and any two texts are comparable.
pub proof fn lemma_text_le_total()
    ensures
        total_ordering(text_order()),
{
    let r = text_order();
    assert forall|a: Seq<char>| #[trigger] r(a, a) by {
        lemma_bytes_le_reflexive(encode_utf8(a));
    }
    assert forall|a: Seq<char>, b: Seq<char>| #[trigger] r(a, b) && #[trigger] r(b, a) implies a
        == b by {
        lemma_bytes_le_antisymmetric(encode_utf8(a), encode_utf8(b));
        lemma_encode_utf8_injective(a, b);
    }
    assert forall|a: Seq<char>, b: Seq<char>, c: Seq<char>| #[trigger]
        r(a, b) && #[trigger] r(b, c) implies r(a, c) by {
        lemma_bytes_le_transitive(encode_utf8(a), encode_utf8(b), encode_utf8(c));
    }
    assert forall|a: Seq<char>, b: Seq<char>| #[trigger] r(a, b) || #[trigger] r(b, a) by {
        lemma_bytes_le_connected(encode_utf8(a), encode_utf8(b));
    }
}

/// The order of texts by code points: at the first place where two texts
/// differ the smaller code point decides, and a proper prefix comes first.
pub open spec fn code_points_le(a: Seq<char>, b: Seq<char>) -> bool
    decreases a.len(),
{
    if a.len() == 0 {
        true
    } else if b.len() == 0 {
        false
    } else if a[0] == b[0] {
        code_points_le(a.drop_first(), b.drop_first())
    } else {
        (a[0] as u32) < (b[0] as u32)
    }
}

/// Whether `x` and `y` agree before place `k` and `x` has the smaller byte
/// there.
spec fn smaller_at(x: Seq<u8>, y: Seq<u8>, k: int) -> bool {
    &&& 0 <= k < x.len()
    &&& k < y.len()
    &&& x.take(k) == y.take(k)
    &&& x[k] < y[k]
}

/// The first byte of an encoding tells its width: the ranges of first bytes
/// of the four widths lie apart, in the order of the widths.
proof fn lemma_leading_byte_ranges(c: u32)
    by (bit_vector)
    ensures
        has_width_1_encoding(c) ==> leading_byte_width_1(c) <= 0x7f,
        has_width_2_encoding(c) ==> 0xc0 <= leading_byte_width_2(c) && leading_byte_width_2(c)
            <= 0xdf,
        has_width_3_encoding(c) ==> 0xe0 <= leading_byte_width_3(c) && leading_byte_width_3(c)
            <= 0xef,
        has_width_4_encoding(c) ==> 0xf0 <= leading_byte_width_4(c) && leading_byte_width_4(c)
            <= 0xf7,
{
}

/// Of two scalars encoded in one byte the smaller has the smaller byte.
proof fn lemma_order_width_1(c: u32, d: u32)
    by (bit_vector)
    requires
        has_width_1_encoding(c),
        has_width_1_encoding(d),
        c < d,
    ensures
        leading_byte_width_1(c) < leading_byte_width_1(d),
{
}

/// Of two scalars encoded in two bytes the smaller has the smaller bytes,
/// read from the front.
proof fn lemma_order_width_2(c: u32, d: u32)
    by (bit_vector)
    requires
        has_width_2_encoding(c),
        has_width_2_encoding(d),
        c < d,
    ensures
        leading_byte_width_2(c) < leading_byte_width_2(d) || (leading_byte_width_2(c)
            == leading_byte_width_2(d) && last_continuation_byte(c) < last_continuation_byte(d)),
{
}

/// Of two scalars encoded in three bytes the smaller has the smaller bytes,
/// read from the front.
proof fn lemma_order_width_3(c: u32, d: u32)
    by (bit_vector)
    requires
        has_width_3_encoding(c),
        has_width_3_encoding(d),
        c < d,
    ensures
        leading_byte_width_3(c) < leading_byte_width_3(d) || (leading_byte_width_3(c)
            == leading_byte_width_3(d) && (second_last_continuation_byte(c)
            < second_last_continuation_byte(d) || (second_last_continuation_byte(c)
            == second_last_continuation_byte(d) && last_continuation_byte(c)
            < last_continuation_byte(d)))),
{
}

/// Of two scalars encoded in four bytes the smaller has the smaller bytes,
/// read from the front.
proof fn lemma_order_width_4(c: u32, d: u32)
    by (bit_vector)
    requires
        has_width_4_encoding(c),
        has_width_4_encoding(d),
        c < d,
    ensures
        leading_byte_width_4(c) < leading_byte_width_4(d) || (leading_byte_width_4(c)
            == leading_byte_width_4(d) && (third_last_continuation_byte(c)
            < third_last_continuation_byte(d) || (third_last_continuation_byte(c)
            == third_last_continuation_byte(d) && (second_last_continuation_byte(c)
            < second_last_continuation_byte(d) || (second_last_continuation_byte(c)
            == second_last_continuation_byte(d) && last_continuation_byte(c)
            < last_continuation_byte(d)))))),
{
}

/// The encodings of two scalars differ at a place that both have, and the
/// smaller scalar has the smaller byte there.
proof fn lemma_encode_scalar_order(c: u32, d: u32) -> (k: int)
    requires
        is_scalar(c),
        is_scalar(d),
        c < d,
    ensures
        smaller_at(encode_scalar(c), encode_scalar(d), k),
{
    let x = encode_scalar(c);
    let y = encode_scalar(d);
    lemma_leading_byte_ranges(c);
    lemma_leading_byte_ranges(d);
    let k: int = if x.len() != y.len() {
        0
    } else if has_width_1_encoding(c) {
        lemma_order_width_1(c, d);
        0
    } else if has_width_2_encoding(c) {
        lemma_order_width_2(c, d);
        if x[0] != y[0] { 0 } else { 1 }
    } else if has_width_3_encoding(c) {
        lemma_order_width_3(c, d);
        if x[0] != y[0] { 0 } else if x[1] != y[1] { 1 } else { 2 }
    } else {
        lemma_order_width_4(c, d);
        if x[0] != y[0] { 0 } else if x[1] != y[1] { 1 } else if x[2] != y[2] { 2 } else { 3 }
    };
    assert(x.take(k) =~= y.take(k));
    k
}

/// A difference in the first bytes decides the order whatever follows.
proof fn lemma_smaller_at_decides(x: Seq<u8>, y: Seq<u8>, k: int, r: Seq<u8>, s: Seq<u8>)
    requires
        smaller_at(x, y, k),
    ensures
        bytes_le(x + r, y + s),
        !bytes_le(y + s, x + r),
{
    assert((x + r).take(k) =~= x.take(k));
    assert((y + s).take(k) =~= y.take(k));
    lemma_bytes_le_skip(x + r, y + s, k);
    lemma_bytes_le_skip(y + s, x + r, k);
    assert((x + r).skip(k)[0] == x[k]);
    assert((y + s).skip(k)[0] == y[k]);
}

/// The order of texts is the order by code points: comparing the bytes of
/// two encodings and comparing the characters they encode come to the same.
pub proof fn lemma_text_le_by_code_points(a: Seq<char>, b: Seq<char>)
    ensures
        text_le(a, b) == code_points_le(a, b),
    decreases a.len(),
{
    if a.len() > 0 && b.len() > 0 {
        let c = a[0] as u32;
        let d = b[0] as u32;
        let x = encode_scalar(c);
        let y = encode_scalar(d);
        let r = encode_utf8(a.drop_first());
        let s = encode_utf8(b.drop_first());
        char_is_scalar(a[0]);
        char_is_scalar(b[0]);
        if a[0] == b[0] {
            lemma_text_le_by_code_points(a.drop_first(), b.drop_first());
            assert((x + r).take(x.len() as int) =~= (y + s).take(x.len() as int));
            lemma_bytes_le_skip(x + r, y + s, x.len() as int);
            assert((x + r).skip(x.len() as int) =~= r);
            assert((y + s).skip(x.len() as int) =~= s);
        } else if c < d {
            let k = lemma_encode_scalar_order(c, d);
            lemma_smaller_at_decides(x, y, k, r, s);
        } else {
            char_u32_cast(a[0], c);
            char_u32_cast(b[0], d);
            let k = lemma_encode_scalar_order(d, c);
            lemma_smaller_at_decides(y, x, k, s, r);
        }
    } else if a.len() > 0 {
        char_is_scalar(a[0]);
        assert(encode_scalar(a[0] as u32).len() > 0);
    }
}

/// Whether `a` comes before `b`, or is `b`, in the order of texts.
pub fn text_at_most(a: &str, b: &str) -> (r: bool)
    ensures
        r == text_le(a@, b@),
{
    let x = a.as_bytes();
    let y = b.as_bytes();
    let mut i: usize = 0;
    while i < x.len() && i < y.len()
        invariant
            i <= x.len(),
            i <= y.len(),
            x@ == encode_utf8(a@),
            y@ == encode_utf8(b@),
            x@.take(i as int) == y@.take(i as int),
        decreases x.len() - i,
    {
        if x[i] != y[i] {
            proof {
                lemma_bytes_le_skip(x@, y@, i as int);
            }
            return x[i] < y[i];
        }
        i += 1;
    }
    proof {
        lemma_bytes_le_skip(x@, y@, i as int);
    }
    x.len() <= y.len()
}

/// The encoding of two texts joined is the two encodings joined.
pub proof fn lemma_encode_utf8_concat(a: Seq<char>, b: Seq<char>)
    ensures
        encode_utf8(a + b) == encode_utf8(a) + encode_utf8(b),
    decreases a.len(),
{
    if a.len() > 0 {
        lemma_encode_utf8_concat(a.drop_first(), b);
        assert((a + b).drop_first() =~= a.drop_first() + b);
    }
}

/// A text whose encoding begins another's encoding begins that text.
pub proof fn lemma_encoded_prefix(prefix: Seq<char>, text: Seq<char>)
    requires
        encode_utf8(prefix).is_prefix_of(encode_utf8(text)),
    ensures
        starts_with(text, prefix),
    decreases prefix.len(),
{
    if prefix.len() > 0 {
        // Both encodings begin with the same bytes, so the first character of
        // each is read from the same bytes.
        let bp = encode_utf8(prefix);
        let bt = encode_utf8(text);
        encode_utf8_first_scalar(prefix);
        encode_utf8_first_scalar(text);
        assert forall|i: int| 0 <= i < bp.len() implies bp[i] == bt[i] by {}
        char_u32_cast(prefix[0], decode_first_scalar(bp));
        char_u32_cast(text[0], decode_first_scalar(bt));
        // The rest of the prefix begins the rest of the text.
        let width = length_of_first_scalar(bp);
        assert(encode_utf8(text.drop_first()) =~= bt.subrange(width, bt.len() as int));
        lemma_encoded_prefix(prefix.drop_first(), text.drop_first());
        assert forall|i: int| 0 <= i < prefix.len() implies prefix[i] == text[i] by {
            if i > 0 {
                assert(prefix.drop_first()[i - 1] == text.drop_first().subrange(
                    0,
                    prefix.len() - 1,
                )[i - 1]);
            }
        }
    }
}

/// A text begins with a prefix exactly when its encoding begins with the
/// prefix's encoding.
pub proof fn lemma_starts_with_by_bytes(text: Seq<char>, prefix: Seq<char>)
    ensures
        starts_with(text, prefix) <==> encode_utf8(prefix).is_prefix_of(encode_utf8(text)),
{
    if starts_with(text, prefix) {
        let rest = text.subrange(prefix.len() as int, text.len() as int);
        assert(text =~= prefix + rest);
        lemma_encode_utf8_concat(prefix, rest);
    }
    if encode_utf8(prefix).is_prefix_of(encode_utf8(text)) {
        lemma_encoded_prefix(prefix, text);
    }
}

/// Whether `text` begins with `prefix`.
pub fn text_starts_with(text: &str, prefix: &str) -> (r: bool)
    ensures
        r == starts_with(text@, prefix@),
{
    let t = text.as_bytes();
    let p = prefix.as_bytes();
    proof {
        lemma_starts_with_by_bytes(text@, prefix@);
    }
    if p.len() > t.len() {
        return false;
    }
    let mut i: usize = 0;
    while i < p.len()
        invariant
            i <= p.len() <= t.len(),
            p@.take(i as int) == t@.take(i as int),
            starts_with(text@, prefix@) <==> p@.is_prefix_of(t@),
        decreases p.len() - i,
    {
        if p[i] != t[i] {
            return false;
        }
        i += 1;
    }
    true
}

/// Whether `a` and `b` are the same text.
pub fn text_eq(a: &str, b: &str) -> (r: bool)
    ensures
        r == (a@ == b@),
{
    let x = a.as_bytes();
    let y = b.as_bytes();
    if x.len() != y.len() {
        return false;
    }
    let mut i: usize = 0;
    while i < x.len()
        invariant
            i <= x.len() == y.len(),
            x@ == encode_utf8(a@),
            y@ == encode_utf8(b@),
            x@.take(i as int) == y@.take(i as int),
        decreases x.len() - i,
    {
        if x[i] != y[i] {
            return false;
        }
        i += 1;
    }
    proof {
        assert(x@ =~= x@.take(i as int));
        assert(y@ =~= y@.take(i as int));
        lemma_encode_utf8_injective(a@, b@);
    }
    true
}

} // verus!
