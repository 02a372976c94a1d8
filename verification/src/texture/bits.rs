//! Colour channel widening and packing shared by the decoders.
use vstd::prelude::*;

verus! {

/// A 3-bit channel widened to 8 bits by repeating its bits.
pub open spec fn widen3(x: u8) -> u8 {
    (x << 5u8) | (x << 2u8) | (x >> 1u8)
}

/// A 4-bit channel widened to 8 bits by repeating its bits.
pub open spec fn widen4(x: u8) -> u8 {
    (x << 4u8) | x
}

/// A 5-bit channel widened to 8 bits by repeating its high bits.
pub open spec fn widen5(x: u8) -> u8 {
    (x << 3u8) | (x >> 2u8)
}

/// A 6-bit channel widened to 8 bits by repeating its high bits.
pub open spec fn widen6(x: u8) -> u8 {
    (x << 2u8) | (x >> 4u8)
}

/// Widens a 3-bit channel to 8 bits.
pub fn convert_3_to_8(x: u8) -> (r: u8)
    ensures
        r == widen3(x),
        x < 8 ==> r == x * 32 + x * 4 + x / 2,
{
    proof {
        lemma_widening_arith(x);
    }
    (x << 5) | (x << 2) | (x >> 1)
}

/// Widens a 4-bit channel to 8 bits.
pub fn convert_4_to_8(x: u8) -> (r: u8)
    ensures
        r == widen4(x),
        x < 16 ==> r == x * 17,
{
    proof {
        lemma_widening_arith(x);
    }
    (x << 4) | x
}

/// Widens a 5-bit channel to 8 bits.
pub fn convert_5_to_8(x: u8) -> (r: u8)
    ensures
        r == widen5(x),
        x < 32 ==> r == x * 8 + x / 4,
{
    proof {
        lemma_widening_arith(x);
    }
    (x << 3) | (x >> 2)
}

/// Widens a 6-bit channel to 8 bits.
pub fn convert_6_to_8(x: u8) -> (r: u8)
    ensures
        r == widen6(x),
        x < 64 ==> r == x * 4 + x / 16,
{
    proof {
        lemma_widening_arith(x);
    }
    (x << 2) | (x >> 4)
}

/// The widened channels as arithmetic on the narrow value.
pub proof fn lemma_widening_arith(x: u8)
    ensures
        x < 8 ==> widen3(x) == x * 32 + x * 4 + x / 2,
        x < 16 ==> widen4(x) == x * 17,
        x < 32 ==> widen5(x) == x * 8 + x / 4,
        x < 64 ==> widen6(x) == x * 4 + x / 16,
{
    assert({
        &&& x < 8 ==> ((x << 5u8) | (x << 2u8) | (x >> 1u8)) == x * 32 + x * 4 + x / 2
        &&& x < 16 ==> ((x << 4u8) | x) == x * 17
        &&& x < 32 ==> ((x << 3u8) | (x >> 2u8)) == x * 8 + x / 4
        &&& x < 64 ==> ((x << 2u8) | (x >> 4u8)) == x * 4 + x / 16
    }) by (bit_vector);
}

/// Widening keeps the channel: the top bits of the widened value read back
/// the narrow value, zero stays zero and the largest value becomes 255.
pub proof fn law_widening_preserves_channel(x: u8)
    ensures
        x < 8 ==> widen3(x) >> 5u8 == x,
        x < 16 ==> widen4(x) >> 4u8 == x,
        x < 32 ==> widen5(x) >> 3u8 == x,
        x < 64 ==> widen6(x) >> 2u8 == x,
        widen3(0) == 0 && widen4(0) == 0 && widen5(0) == 0 && widen6(0) == 0,
        widen3(7) == 255 && widen4(15) == 255 && widen5(31) == 255 && widen6(63) == 255,
{
    assert({
        &&& x < 8 ==> ((x << 5u8) | (x << 2u8) | (x >> 1u8)) >> 5u8 == x
        &&& x < 16 ==> ((x << 4u8) | x) >> 4u8 == x
        &&& x < 32 ==> ((x << 3u8) | (x >> 2u8)) >> 3u8 == x
        &&& x < 64 ==> ((x << 2u8) | (x >> 4u8)) >> 2u8 == x
    }) by (bit_vector);
    lemma_widening_arith(0);
    lemma_widening_arith(7);
    lemma_widening_arith(15);
    lemma_widening_arith(31);
    lemma_widening_arith(63);
}

/// Packs four channels into a little-endian RGBA word.
pub open spec fn rgba_word(r: u32, g: u32, b: u32, a: u32) -> u32 {
    (a << 24u32) | (b << 16u32) | (g << 8u32) | r
}

/// Packs four channels into a little-endian RGBA word.
pub fn make_rgba(r: u32, g: u32, b: u32, a: u32) -> (res: u32)
    ensures
        res == rgba_word(r, g, b, a),
{
    (a << 24) | (b << 16) | (g << 8) | r
}

/// Byte `k` (0 = lowest) of a word, as `to_le_bytes` orders them.
pub open spec fn word_byte(w: u32, k: int) -> u8 {
    if k == 0 {
        (w & 0xffu32) as u8
    } else if k == 1 {
        ((w >> 8u32) & 0xffu32) as u8
    } else if k == 2 {
        ((w >> 16u32) & 0xffu32) as u8
    } else {
        ((w >> 24u32) & 0xffu32) as u8
    }
}

/// A packed word reads back its channels when each fits a byte.
pub proof fn lemma_rgba_word_bytes(r: u32, g: u32, b: u32, a: u32)
    requires
        r < 256,
        g < 256,
        b < 256,
        a < 256,
    ensures
        word_byte(rgba_word(r, g, b, a), 0) == r,
        word_byte(rgba_word(r, g, b, a), 1) == g,
        word_byte(rgba_word(r, g, b, a), 2) == b,
        word_byte(rgba_word(r, g, b, a), 3) == a,
{
    let w = rgba_word(r, g, b, a);
    assert({
        &&& (w & 0xffu32) == r
        &&& ((w >> 8u32) & 0xffu32) == g
        &&& ((w >> 16u32) & 0xffu32) == b
        &&& ((w >> 24u32) & 0xffu32) == a
    }) by (bit_vector)
        requires
            w == (a << 24u32) | (b << 16u32) | (g << 8u32) | r,
            r < 256,
            g < 256,
            b < 256,
            a < 256,
    ;
}

/// The DXT blend weight: three parts of the first colour, five of the second.
pub open spec fn blend_value(x: u32, y: u32) -> u32 {
    ((x * 3 + y * 5) / 8) as u32
}

/// Blends two channel values, three eighths of `x` and five eighths of `y`.
pub fn blend_dxt(x: u32, y: u32) -> (r: u32)
    requires
        x * 3 + y * 5 <= u32::MAX,
    ensures
        r == blend_value(x, y),
{
    let s = x * 3 + y * 5;
    proof {
        vstd::bits::lemma_u32_shr_is_div(s, 3);
        vstd::arithmetic::power2::lemma2_to64();
    }
    s >> 3
}

} // verus!
