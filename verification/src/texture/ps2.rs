//! PlayStation 2 textures: 4-bit and 8-bit palette indices stored in the
//! GS memory's swizzled order, with 32-bit palettes, and plain 32-bit pixels.
use vstd::prelude::*;
use super::TextureError;

verus! {

/// Decoder for PlayStation 2 textures.
pub struct Ps2TextureDecoder;

/// The PlayStation 2 texture formats.
#[derive(Debug, Clone, Copy, PartialEq, Eq, Structural)]
pub enum InternalFormat {
    /// PSMT4 with 16 16-bit palette entries.
    P16x16,
    /// PSMT4 with 16 32-bit palette entries.
    P16x32,
    /// PSMT8 with 256 16-bit palette entries.
    P256x16,
    /// PSMT8 with 256 32-bit palette entries.
    P256x32,
    /// PSMCT16S.
    _16BIT,
    /// PSMCT32.
    _32BIT,
}

impl InternalFormat {
    /// The format numbered `v`.
    pub open spec fn from_number(v: u8) -> Option<InternalFormat> {
        if v == 0 {
            Some(InternalFormat::P16x16)
        } else if v == 1 {
            Some(InternalFormat::P16x32)
        } else if v == 2 {
            Some(InternalFormat::P256x16)
        } else if v == 3 {
            Some(InternalFormat::P256x32)
        } else if v == 4 {
            Some(InternalFormat::_16BIT)
        } else if v == 5 {
            Some(InternalFormat::_32BIT)
        } else {
            None
        }
    }

    /// Looks a format up by its number.
    pub fn n(v: u8) -> (r: Option<InternalFormat>)
        ensures
            r == Self::from_number(v),
    {
        match v {
            0 => Some(InternalFormat::P16x16),
            1 => Some(InternalFormat::P16x32),
            2 => Some(InternalFormat::P256x16),
            3 => Some(InternalFormat::P256x32),
            4 => Some(InternalFormat::_16BIT),
            5 => Some(InternalFormat::_32BIT),
            _ => None,
        }
    }

    /// Bits per pixel.
    pub open spec fn bits_per_pixel(self) -> nat {
        match self {
            InternalFormat::P16x16 | InternalFormat::P16x32 => 4,
            InternalFormat::P256x16 | InternalFormat::P256x32 => 8,
            InternalFormat::_16BIT => 16,
            InternalFormat::_32BIT => 32,
        }
    }

    /// Bits per pixel.
    pub fn bpp(&self) -> (r: usize)
        ensures
            r == self.bits_per_pixel(),
    {
        match self {
            InternalFormat::P16x16 | InternalFormat::P16x32 => 4,
            InternalFormat::P256x16 | InternalFormat::P256x32 => 8,
            InternalFormat::_16BIT => 16,
            InternalFormat::_32BIT => 32,
        }
    }

    /// Bytes of the palette (CLUT) that the format comes with.
    pub open spec fn clut_bytes(self) -> nat {
        match self {
            InternalFormat::P16x16 => 32,
            InternalFormat::P16x32 => 64,
            InternalFormat::P256x16 => 512,
            InternalFormat::P256x32 => 1024,
            InternalFormat::_16BIT | InternalFormat::_32BIT => 0,
        }
    }

    /// Bytes of the palette (CLUT) that the format comes with.
    pub fn clut_size(&self) -> (r: usize)
        ensures
            r == self.clut_bytes(),
    {
        match self {
            InternalFormat::P16x16 => 16 * 2,
            InternalFormat::P16x32 => 16 * 4,
            InternalFormat::P256x16 => 256 * 2,
            InternalFormat::P256x32 => 256 * 4,
            InternalFormat::_16BIT => 0,
            InternalFormat::_32BIT => 0,
        }
    }
}

/// Bytes of pixel data for `width * height * depth` pixels of `bpp` bits,
/// rounded down.
pub open spec fn ps2_data_bytes(width: u32, height: u32, depth: u32, bpp: nat) -> nat {
    ((width * height * depth * bpp) / 8) as nat
}

/// The size of the pixel data in bits, `width * height * depth * bpp`, is
/// computed in `usize` without overflow.
pub open spec fn ps2_sizes_fit(width: u32, height: u32, depth: u32, bpp: nat) -> bool {
    &&& width * height <= usize::MAX
    &&& width * height * depth * bpp <= usize::MAX
}

/// `width * height * depth` pixels of at least 4 bits fit in `usize`, as
/// bits and as output bytes.
proof fn lemma_ps2_sizes(width: u32, height: u32, depth: u32, bpp: nat)
    requires
        ps2_sizes_fit(width, height, depth, bpp),
        bpp >= 4,
    ensures
        width * height * depth <= usize::MAX,
        width * height * depth * 4 <= usize::MAX,
        super::output_fits(width, height, depth),
        (width * height * depth * bpp) / 8 <= width * height * depth * bpp,
{
    let n = width * height * depth;
    assert(n * 4 <= n * bpp && n <= n * 4) by (nonlinear_arith)
        requires n >= 0, bpp >= 4;
    let m = n * bpp;
    assert(m / 8 <= m) by (nonlinear_arith)
        requires m >= 0;
}

impl Ps2TextureDecoder {
    /// Bytes of pixel data a texture of this size and format needs.
    pub fn get_data_size(&self, width: u32, height: u32, depth: u32, format: u8) -> (r: Result<usize, TextureError>)
        requires
            width * height <= usize::MAX,
            width * height * depth <= usize::MAX,
            InternalFormat::from_number(format) matches Some(f) ==> ps2_sizes_fit(width, height, depth, f.bits_per_pixel()),
        ensures
            match InternalFormat::from_number(format) {
                Some(f) => r == Ok::<usize, TextureError>(ps2_data_bytes(width, height, depth, f.bits_per_pixel()) as usize),
                None => r == Err::<usize, TextureError>(TextureError::InvalidFormat(format)),
            },
    {
        let pixels = super::pixel_count(width, height, depth);
        let fmt = match InternalFormat::n(format) {
            Some(f) => f,
            None => return Err(TextureError::InvalidFormat(format)),
        };
        Ok((pixels * fmt.bpp()) / 8)
    }

    /// Bytes of palette that a texture of this format comes with.
    pub fn get_clut_size(&self, format: u8) -> (r: Result<usize, TextureError>)
        ensures
            match InternalFormat::from_number(format) {
                Some(f) => r == Ok::<usize, TextureError>(f.clut_bytes() as usize),
                None => r == Err::<usize, TextureError>(TextureError::InvalidFormat(format)),
            },
    {
        match InternalFormat::n(format) {
            Some(f) => Ok(f.clut_size()),
            None => Err(TextureError::InvalidFormat(format)),
        }
    }
}

/// Calls `bytemuck::cast_slice` from bytes to 4-byte arrays: the same
/// memory read as `clut.len() / 4` entries, entry `i` holding bytes
/// `4 * i .. 4 * i + 4`. It panics when the length is no multiple of 4.
#[verifier::external_body]
fn cast_entries<'a>(clut: &'a [u8]) -> (r: &'a [[u8; 4]])
    requires
        clut@.len() % 4 == 0,
    ensures
        r@.len() == clut@.len() / 4,
        forall|i: int, k: int| 0 <= i < r@.len() && 0 <= k < 4 ==> #[trigger] r@[i]@[k] == clut@[4 * i + k],
{
    bytemuck::cast_slice(clut)
}

} // verus!

verus! {

/// Facts on the bit operations of the 8-bit unswizzling.
proof fn lemma_swizzle8_bits(x: u32, y: u32)
    by (bit_vector)
    ensures
        y & !0xFu32 <= y,
        x & !0xFu32 <= x,
        (y & !3u32) >> 1u32 <= y,
        y & 1u32 <= 1,
        ((y & !3u32) >> 1u32) + (y & 1u32) <= y + 1,
        (((y + 2) as u32) >> 2u32) & 1u32 <= 1,
        x & 7u32 <= 7,
        (y >> 1u32) & 1u32 <= 1,
        (x >> 2u32) & 2u32 <= 2,
{
}

/// Where the 8-bit unswizzling reads the index of pixel (x, y).
pub open spec fn swizzle8_source(x: u32, y: u32, w: u32) -> int {
    let block = (y & !0xFu32) * w + (x & !0xFu32) * 2;
    let swap = ((((y + 2) as u32) >> 2u32) & 1u32) * 4;
    let pos_y = ((((y & !3u32) >> 1u32) + (y & 1u32)) as u32) & 7u32;
    let column = pos_y * w * 2 + (((x + swap) as u32) & 7u32) * 4;
    let byte_num = ((y >> 1u32) & 1u32) + ((x >> 2u32) & 2u32);
    block + column + byte_num
}

/// The byte at `i`, or the last byte where `i` lies beyond the end.
pub open spec fn byte_or_last(input: Seq<u8>, i: int) -> u8 {
    if i >= input.len() {
        input[input.len() - 1]
    } else {
        input[i]
    }
}

/// 8-bit indices in row order, read out of their swizzled order.
pub open spec fn swizzled8(input: Seq<u8>, w: u32, h: u32) -> Seq<u8> {
    Seq::new(
        input.len(),
        |p: int|
            if p < w * h {
                byte_or_last(input, swizzle8_source((p % w as int) as u32, (p / w as int) as u32, w))
            } else {
                0
            },
    )
}

/// Sizes on which the 8-bit unswizzling stays in `u32` and in its buffers.
pub open spec fn swizzle8_fits(input_len: int, w: u32, h: u32) -> bool {
    &&& w * h <= input_len
    &&& w * h + 16 * w + 32 <= u32::MAX
}

proof fn lemma_swizzle8_step(x: u32, y: u32, w: u32, h: u32)
    requires
        x < w,
        y < h,
        w * h + 16 * w + 32 <= u32::MAX,
    ensures
        y * w + x < w * h,
        swizzle8_source(x, y, w) <= w * h + 15 * w + 31,
        y + 2 <= u32::MAX,
        x + 4 <= u32::MAX,
{
    lemma_swizzle8_bits(x, y);
    assert(h <= w * h) by (nonlinear_arith)
        requires w >= 1;
    assert(y * w + x < w * h) by (nonlinear_arith)
        requires x < w, y < h;
    assert(y <= h - 1);
    assert(y * w <= (h - 1) * w) by (nonlinear_arith)
        requires y <= h - 1, w >= 0;
    assert((h - 1) * w == w * h - w) by (nonlinear_arith);
    assert(h >= 1);
    let a = y & !0xFu32;
    assert(a * w <= y * w) by (nonlinear_arith)
        requires a <= y, w >= 0;
    let q = (((y & !3u32) >> 1u32) + (y & 1u32)) as u32;
    lemma_swizzle8_bits(q, y);
    let p = q & 7u32;
    assert(p * w * 2 <= 14 * w) by (nonlinear_arith)
        requires p <= 7, w >= 0;
    let swap = ((((y + 2) as u32) >> 2u32) & 1u32) * 4;
    let t = (x + swap) as u32;
    lemma_swizzle8_bits(t, y);
}

/// The 8-bit palette indices of a PSMT8 texture, put in row order.
pub fn swizzle8_to_32(input: &[u8], width: u32, height: u32) -> (r: Vec<u8>)
    requires
        swizzle8_fits(input@.len() as int, width, height),
    ensures
        r@ == swizzled8(input@, width, height),
{
    let mut output: Vec<u8> = vec![0u8; input.len()];
    let ghost w = width as int;
    let mut y: u32 = 0;
    while y < height
        invariant
            w == width as int,
            swizzle8_fits(input@.len() as int, width, height),
            y <= height,
            output@.len() == input@.len(),
            forall|p: int| 0 <= p < y * w ==> output@[p] == #[trigger] swizzled8(input@, width, height)[p],
            forall|p: int| y * w <= p < output@.len() ==> output@[p] == 0,
        decreases height - y,
    {
        let mut x: u32 = 0;
        while x < width
            invariant
                w == width as int,
                swizzle8_fits(input@.len() as int, width, height),
                y < height,
                x <= width,
                output@.len() == input@.len(),
                forall|p: int| 0 <= p < y * w + x ==> output@[p] == #[trigger] swizzled8(input@, width, height)[p],
                forall|p: int| y * w + x <= p < output@.len() ==> output@[p] == 0,
            decreases width - x,
        {
            proof {
                lemma_swizzle8_step(x, y, width, height);
                lemma_swizzle8_bits(x, y);
            }
            let block_location = (y & !0xF) * width + (x & !0xF) * 2;
            let swap_selector = (((y + 2) >> 2) & 0x1) * 4;
            let pos_y = (((y & !3) >> 1) + (y & 1)) & 0x7;
            let column_location = pos_y * width * 2 + ((x + swap_selector) & 0x7) * 4;
            let byte_num = ((y >> 1) & 1) + ((x >> 2) & 2);
            let index = block_location + column_location + byte_num;
            assert(index == swizzle8_source(x, y, width));
            let byte = if index as usize >= input.len() {
                input[input.len() - 1]
            } else {
                input[index as usize]
            };
            let p = (y * width + x) as usize;
            output.set(p, byte);
            proof {
                assert(p == y * w + x);
                assert((p as int) % w == x as int && (p as int) / w == y as int) by (nonlinear_arith)
                    requires p == y * w + x, 0 <= x < w;
                assert(swizzled8(input@, width, height)[p as int] == byte);
            }
            x = x + 1;
        }
        assert((y + 1) * w == y * w + w) by (nonlinear_arith);
        y = y + 1;
    }
    assert(output@ =~= swizzled8(input@, width, height));
    output
}

} // verus!

verus! {

/// The 4-bit indices of the first `height * (width / 2)` input bytes, low
/// nibble first, and zeros up to `width * height`.
pub open spec fn unpacked4(input: Seq<u8>, w: u32, h: u32) -> Seq<u8> {
    Seq::new(
        (w * h) as nat,
        |i: int|
            if i < 2 * (h * (w / 2)) {
                if i % 2 == 0 {
                    input[i / 2] & 0xfu8
                } else {
                    input[i / 2] >> 4u8
                }
            } else {
                0
            },
    )
}

/// The PS2 interlace table of the 4-bit unswizzling.
pub open spec fn interlace(k: int) -> int {
    if k == 0 {
        0x00
    } else if k == 1 {
        0x10
    } else if k == 2 {
        0x02
    } else if k == 3 {
        0x12
    } else if k == 4 {
        0x11
    } else if k == 5 {
        0x01
    } else if k == 6 {
        0x13
    } else {
        0x03
    }
}

/// Where the 4-bit unswizzling reads the index that it writes for (x, y).
pub open spec fn swizzle4_source(x: int, y: int, w: int) -> int {
    let odd = y % 2 == 1;
    let row: int = if odd { 4 } else { 0 };
    let num7 = if odd { (y - 1) * w } else { y * w };
    interlace((x / 4) % 4 + row) + (x * 4) % 16 + (x / 16) * 32 + num7
}

/// Where the 4-bit unswizzling writes the index it reads for (x, y).
pub open spec fn swizzle4_target(x: int, y: int, w: int) -> int {
    let dx: int = if (y / 4) % 2 == 1 {
        if (x / 4) % 2 == 0 {
            4
        } else {
            -4
        }
    } else {
        0
    };
    let dy: int = if y % 4 == 1 {
        1
    } else if y % 4 == 2 {
        -1
    } else {
        0
    };
    (y + dy) * w + (x + dx)
}

/// The output of the 4-bit unswizzling after its first `k` writes, made in
/// row order; a later write to a place replaces an earlier one.
pub open spec fn swizzle4_pass(pixels: Seq<u8>, w: int, k: nat) -> Seq<u8>
    decreases k,
{
    if k == 0 {
        Seq::new(pixels.len(), |i: int| 0u8)
    } else {
        let x = (k - 1) % w;
        let y = (k - 1) / w;
        swizzle4_pass(pixels, w, (k - 1) as nat).update(
            swizzle4_target(x, y, w),
            byte_or_last(pixels, swizzle4_source(x, y, w)),
        )
    }
}

/// 4-bit indices in row order: unpacked, and for every texture version but
/// 163 moved out of their swizzled order.
pub open spec fn swizzled4(input: Seq<u8>, w: u32, h: u32, version: u32) -> Seq<u8> {
    let pixels = unpacked4(input, w, h);
    if version == 163 {
        pixels
    } else {
        swizzle4_pass(pixels, w as int, (w * h) as nat)
    }
}

/// Every place the 4-bit unswizzling writes lies inside the texture.
pub open spec fn swizzle4_targets_inside(w: u32, h: u32) -> bool {
    forall|x: int, y: int|
        0 <= x < w && 0 <= y < h ==> 0 <= #[trigger] swizzle4_target(x, y, w as int) < w * h
}

/// Sizes on which the 4-bit unswizzling stays in its integers and buffers.
pub open spec fn swizzle4_fits(input_len: int, w: u32, h: u32, version: u32) -> bool {
    &&& h * (w / 2) <= input_len
    &&& w * h <= u32::MAX
    &&& version != 163 ==> {
        &&& w * h + 4 * w + 32 <= u32::MAX
        &&& h <= i32::MAX
        &&& swizzle4_targets_inside(w, h)
    }
}

proof fn lemma_swizzle4_ranges(x: int, y: int, w: int, h: int)
    requires
        0 <= x < w,
        0 <= y < h,
        w * h + 4 * w + 32 <= u32::MAX,
        h <= i32::MAX,
    ensures
        0 <= swizzle4_source(x, y, w) <= w * h + w + 31,
        4 * x <= u32::MAX,
        y * w + x < w * h,
        w <= 0x3fff_ffff,
        (y + 1) * w <= w * h + w,
{
    assert(h <= w * h) by (nonlinear_arith)
        requires w >= 1, h >= 0;
    assert((y + 1) * w <= h * w) by (nonlinear_arith)
        requires y + 1 <= h, w >= 0;
    assert(y * w + x < w * h) by (nonlinear_arith)
        requires 0 <= x < w, 0 <= y < h;
    assert(y * w <= (h - 1) * w) by (nonlinear_arith)
        requires y <= h - 1, w >= 0;
    assert((h - 1) * w == w * h - w) by (nonlinear_arith);
    assert(w * h >= w) by (nonlinear_arith)
        requires h >= 1, w >= 0;
    if y % 2 == 1 {
        assert((y - 1) * w <= y * w) by (nonlinear_arith)
            requires y >= 1, w >= 0;
        assert((y - 1) * w >= 0) by (nonlinear_arith)
            requires y >= 1, w >= 0;
    } else {
        assert(y * w >= 0) by (nonlinear_arith)
            requires y >= 0, w >= 0;
    }
}

/// The 4-bit palette indices of a PSMT4 texture: unpacked from their bytes
/// and, but for version 163, put in row order.
pub fn swizzle4_to_32(input: &[u8], width: u32, height: u32, version: u32) -> (r: Vec<u8>)
    requires
        swizzle4_fits(input@.len() as int, width, height, version),
    ensures
        r@ == swizzled4(input@, width, height, version),
{
    let ghost w = width as int;
    let ghost h = height as int;
    let total = (width * height) as usize;
    let half = width / 2;
    let mut pixels: Vec<u8> = vec![0u8; total];
    let ghost target = unpacked4(input@, width, height);
    assert(2 * (h * (w / 2)) <= w * h) by (nonlinear_arith)
        requires w >= 0, h >= 0;
    let mut y: u32 = 0;
    while y < height
        invariant
            w == width as int,
            h == height as int,
            half == width / 2,
            target == unpacked4(input@, width, height),
            swizzle4_fits(input@.len() as int, width, height, version),
            2 * (h * (w / 2)) <= w * h,
            pixels@.len() == w * h,
            y <= height,
            forall|i: int| 0 <= i < 2 * (y * half) ==> pixels@[i] == #[trigger] target[i],
            forall|i: int| 2 * (y * half) <= i < pixels@.len() ==> pixels@[i] == 0,
        decreases height - y,
    {
        assert((y + 1) * half <= h * half) by (nonlinear_arith)
            requires y + 1 <= h, half >= 0;
        let mut x: u32 = 0;
        while x < half
            invariant
                w == width as int,
                h == height as int,
                half == width / 2,
                target == unpacked4(input@, width, height),
                swizzle4_fits(input@.len() as int, width, height, version),
                2 * (h * (w / 2)) <= w * h,
                (y + 1) * half <= h * half,
                pixels@.len() == w * h,
                y < height,
                x <= half,
                forall|i: int| 0 <= i < 2 * (y * half + x) ==> pixels@[i] == #[trigger] target[i],
                forall|i: int| 2 * (y * half + x) <= i < pixels@.len() ==> pixels@[i] == 0,
            decreases half - x,
        {
            assert((y + 1) * half == y * half + half) by (nonlinear_arith);
            let s = (y * half + x) as usize;
            let p = input[s];
            let lo = p & 0xf;
            let hi = p >> 4;
            pixels.set(2 * s, lo);
            pixels.set(2 * s + 1, hi);
            proof {
                assert(target[2 * s] == lo);
                assert(target[2 * s + 1] == hi);
            }
            x = x + 1;
        }
        assert((y + 1) * half == y * half + half) by (nonlinear_arith);
        y = y + 1;
    }
    assert(pixels@ =~= target);
    if version == 163 {
        return pixels;
    }
    let mut output: Vec<u8> = vec![0u8; total];
    assert(output@ =~= swizzle4_pass(pixels@, w, 0));
    let mut y: u32 = 0;
    while y < height
        invariant
            w == width as int,
            h == height as int,
            pixels@ == target,
            target.len() == w * h,
            swizzle4_fits(input@.len() as int, width, height, version),
            version != 163,
            y <= height,
            output@.len() == w * h,
            output@ == swizzle4_pass(pixels@, w, (y * w) as nat),
        decreases height - y,
    {
        let mut x: u32 = 0;
        while x < width
            invariant
                w == width as int,
                h == height as int,
                pixels@ == target,
                target.len() == w * h,
                swizzle4_fits(input@.len() as int, width, height, version),
                version != 163,
                y < height,
                x <= width,
                output@.len() == w * h,
                output@ == swizzle4_pass(pixels@, w, (y * w + x) as nat),
            decreases width - x,
        {
            proof {
                lemma_swizzle4_ranges(x as int, y as int, w, h);
            }
            let odd_row = y % 2 != 0;
            let num1 = (y / 4) % 2;
            let num2 = (x / 4) % 2;
            let num3 = y % 4;
            let mut num4 = (x / 4) % 4;
            if odd_row {
                num4 = num4 + 4;
            }
            let num5 = (x * 4) % 16;
            let num6 = (x / 16) * 32;
            let num7 = if odd_row { (y - 1) * width } else { y * width };
            assert(num1 < 2 && x < 0x3fff_ffff && y <= i32::MAX);
            let tile: i32 = if num2 == 0 { 4 } else { -4 };
            let shift: i32 = if num3 == 1 { 1 } else if num3 == 2 { -1 } else { 0 };
            let offset: i32 = if num1 == 1 { tile } else { 0 };
            let xx: i32 = x as i32 + offset;
            let yy: i32 = y as i32 + shift;
            let lace: u32 = if num4 == 0 {
                0x00
            } else if num4 == 1 {
                0x10
            } else if num4 == 2 {
                0x02
            } else if num4 == 3 {
                0x12
            } else if num4 == 4 {
                0x11
            } else if num4 == 5 {
                0x01
            } else if num4 == 6 {
                0x13
            } else {
                0x03
            };
            let i = lace + num5 + num6 + num7;
            proof {
                assert(i == swizzle4_source(x as int, y as int, w));
                assert(0 <= swizzle4_target(x as int, y as int, w) < w * h);
                assert(yy * w + xx == swizzle4_target(x as int, y as int, w));
            }
            let j = yy as usize * width as usize + xx as usize;
            let value = if (i as usize) < pixels.len() {
                pixels[i as usize]
            } else {
                pixels[pixels.len() - 1]
            };
            let ghost k = (y * w + x) as nat;
            proof {
                assert((k as int) % w == x as int && (k as int) / w == y as int) by (nonlinear_arith)
                    requires k == y * w + x, 0 <= x < w;
                assert(swizzle4_pass(pixels@, w, k + 1) == swizzle4_pass(pixels@, w, k).update(
                    swizzle4_target(x as int, y as int, w),
                    byte_or_last(pixels@, swizzle4_source(x as int, y as int, w)),
                ));
            }
            output.set(j, value);
            x = x + 1;
        }
        assert((y + 1) * w == y * w + w) by (nonlinear_arith);
        y = y + 1;
    }
    assert(h * w == w * h) by (nonlinear_arith);
    output
}

/// Whether every place the 4-bit unswizzling writes for a `width` x
/// `height` texture lies inside it.
pub fn swizzle4_targets_fit(width: u32, height: u32) -> (r: bool)
    requires
        width * height + 4 * width + 32 <= u32::MAX,
        height <= i32::MAX,
    ensures
        r == swizzle4_targets_inside(width, height),
{
    let ghost w = width as int;
    let ghost h = height as int;
    let n: u64 = width as u64 * height as u64;
    let mut y: u32 = 0;
    while y < height
        invariant
            w == width as int,
            h == height as int,
            n == w * h,
            w * h + 4 * w + 32 <= u32::MAX,
            h <= i32::MAX,
            y <= height,
            forall|x: int, yy: int|
                0 <= x < w && 0 <= yy < y ==> 0 <= #[trigger] swizzle4_target(x, yy, w) < w * h,
        decreases height - y,
    {
        let mut x: u32 = 0;
        while x < width
            invariant
                w == width as int,
                h == height as int,
                n == w * h,
                w * h + 4 * w + 32 <= u32::MAX,
                h <= i32::MAX,
                y < height,
                x <= width,
                forall|xa: int, yy: int|
                    0 <= xa < w && 0 <= yy < y ==> 0 <= #[trigger] swizzle4_target(xa, yy, w) < w * h,
                forall|xa: int| 0 <= xa < x ==> 0 <= #[trigger] swizzle4_target(xa, y as int, w) < w * h,
            decreases width - x,
        {
            proof {
                lemma_swizzle4_ranges(x as int, y as int, w, h);
            }
            let dx: i64 = if (y / 4) % 2 == 1 {
                if (x / 4) % 2 == 0 {
                    4
                } else {
                    -4
                }
            } else {
                0
            };
            let dy: i64 = if y % 4 == 1 {
                1
            } else if y % 4 == 2 {
                -1
            } else {
                0
            };
            assert(0 <= y + dy <= h);
            assert((y + dy) * w <= h * w) by (nonlinear_arith)
                requires 0 <= y + dy <= h, w >= 0;
            assert((y + dy) * w >= 0) by (nonlinear_arith)
                requires 0 <= y + dy, w >= 0;
            let t: i64 = (y as i64 + dy) * width as i64 + (x as i64 + dx);
            assert(t == swizzle4_target(x as int, y as int, w));
            if t < 0 || t >= n as i64 {
                return false;
            }
            x = x + 1;
        }
        y = y + 1;
    }
    true
}

} // verus!

verus! {

proof fn lemma_nibbles(b: u8)
    by (bit_vector)
    ensures
        b & 0xfu8 < 16,
        b >> 4u8 < 16,
        (b & 0x7fu8) < 128,
{
}

proof fn lemma_unpacked4_small(input: Seq<u8>, w: u32, h: u32)
    requires
        h * (w / 2) <= input.len(),
    ensures
        forall|i: int| 0 <= i < unpacked4(input, w, h).len() ==> #[trigger] unpacked4(input, w, h)[i] < 16,
{
    assert forall|i: int| 0 <= i < unpacked4(input, w, h).len() implies #[trigger] unpacked4(input, w, h)[i] < 16 by {
        if i < 2 * (h * (w / 2)) {
            lemma_nibbles(input[i / 2]);
        }
    }
}

proof fn lemma_pass_small(pixels: Seq<u8>, w: u32, h: u32, k: nat)
    requires
        pixels.len() == w * h,
        k <= w * h,
        swizzle4_targets_inside(w, h),
        forall|i: int| 0 <= i < pixels.len() ==> #[trigger] pixels[i] < 16,
    ensures
        swizzle4_pass(pixels, w as int, k).len() == pixels.len(),
        forall|i: int| 0 <= i < pixels.len() ==> #[trigger] swizzle4_pass(pixels, w as int, k)[i] < 16,
    decreases k,
{
    if k > 0 {
        lemma_pass_small(pixels, w, h, (k - 1) as nat);
        let q = k - 1;
        let x = q % (w as int);
        let y = q / (w as int);
        assert(w > 0);
        vstd::arithmetic::div_mod::lemma_fundamental_div_mod(q as int, w as int);
        assert(0 <= x < w);
        assert(y >= 0) by (nonlinear_arith)
            requires q == w * y + x, 0 <= x < w, q >= 0;
        assert(y < h) by (nonlinear_arith)
            requires q == w * y + x, 0 <= x < w, q < w * h, w > 0;
        assert(0 <= swizzle4_target(x, y, w as int) < w * h);
    }
}

/// The 4-bit indices are palette entries 0 to 15.
proof fn lemma_swizzled4_small(input: Seq<u8>, w: u32, h: u32, version: u32)
    requires
        swizzle4_fits(input.len() as int, w, h, version),
    ensures
        swizzled4(input, w, h, version).len() == w * h,
        forall|i: int| 0 <= i < w * h ==> #[trigger] swizzled4(input, w, h, version)[i] < 16,
{
    lemma_unpacked4_small(input, w, h);
    if version != 163 {
        lemma_pass_small(unpacked4(input, w, h), w, h, (w * h) as nat);
    }
}

/// The palette entry that entry `e` of a PSMT8 palette is read from: the
/// palette is stored with the second and third groups of eight entries of
/// every 32 exchanged.
pub open spec fn reordered(e: int) -> int {
    let r = e % 32;
    if 8 <= r < 16 {
        e + 8
    } else if 16 <= r < 24 {
        e - 8
    } else {
        e
    }
}

/// Reading the PSMT8 palette through `reordered` twice reads every entry
/// from where it is stored: the exchange of the groups is its own inverse,
/// and it keeps every entry within its block of 32.
pub proof fn law_palette_reorder_involution(e: int)
    requires
        0 <= e,
    ensures
        reordered(reordered(e)) == e,
        reordered(e) / 32 == e / 32,
{
}

/// Channel `k` of palette entry `e`; alpha (0 to 128 on the PS2) is doubled.
pub open spec fn palette_channel(clut: Seq<u8>, e: int, k: int) -> u8 {
    if k == 3 {
        ((clut[4 * e + 3] & 0x7fu8) * 2) as u8
    } else {
        clut[4 * e + k]
    }
}

/// What the PS2 decoder returns.
pub open spec fn ps2_check(input_len: int, has_clut: bool, w: u32, h: u32, d: u32, format: u8, out_len: int) -> Result<InternalFormat, TextureError> {
    match InternalFormat::from_number(format) {
        None => Err(TextureError::InvalidFormat(format)),
        Some(f) => if input_len < ps2_data_bytes(w, h, d, f.bits_per_pixel()) {
            Err(TextureError::InputTooShort)
        } else if out_len != w * h * d * 4 {
            Err(TextureError::OutputSizeMismatch)
        } else if has_clut != (f.clut_bytes() != 0) {
            Err(TextureError::PaletteMismatch)
        } else {
            match f {
                InternalFormat::P256x32 | InternalFormat::P16x32 | InternalFormat::_32BIT => Ok(f),
                _ => Err(TextureError::UnsupportedFormat),
            }
        },
    }
}

/// Sizes on which the decoder stays in its integers and buffers: the
/// palette holds the entries read, in whole 4-byte entries.
pub open spec fn ps2_in_bounds(fmt: InternalFormat, clut_len: int, w: u32, h: u32, d: u32, version: u32) -> bool {
    match fmt {
        InternalFormat::P256x32 => {
            &&& clut_len % 4 == 0
            &&& clut_len >= 1024
            &&& swizzle8_fits(ps2_data_bytes(w, h, d, 8) as int, w, h)
        },
        InternalFormat::P16x32 => {
            &&& clut_len % 4 == 0
            &&& clut_len >= 64
            &&& w * h <= w * h * d
            &&& swizzle4_fits(ps2_data_bytes(w, h, d, 4) as int, w, h, version)
        },
        _ => true,
    }
}

/// The decoded texture: palette colours of the unswizzled indices over the
/// first `w * h` pixels, the rest of `old` kept; or the 32-bit pixels copied.
pub open spec fn ps2_output(fmt: InternalFormat, input: Seq<u8>, clut: Seq<u8>, w: u32, h: u32, d: u32, version: u32, old: Seq<u8>) -> Seq<u8> {
    match fmt {
        InternalFormat::P256x32 => {
            let idx = swizzled8(input.take(ps2_data_bytes(w, h, d, 8) as int), w, h);
            Seq::new(
                old.len(),
                |i: int|
                    if i / 4 < w * h {
                        palette_channel(clut, reordered(idx[i / 4] as int), i % 4)
                    } else {
                        old[i]
                    },
            )
        },
        InternalFormat::P16x32 => {
            let idx = swizzled4(input.take(ps2_data_bytes(w, h, d, 4) as int), w, h, version);
            Seq::new(
                old.len(),
                |i: int|
                    if i / 4 < w * h {
                        palette_channel(clut, idx[i / 4] as int, i % 4)
                    } else {
                        old[i]
                    },
            )
        },
        _ => input.take(old.len() as int),
    }
}

/// The palette bytes, empty where there is no palette.
pub open spec fn clut_view(clut: Option<&[u8]>) -> Seq<u8> {
    match clut {
        Some(c) => c@,
        None => Seq::empty(),
    }
}

fn reordered_index(e: usize) -> (r: usize)
    requires
        e < 256,
    ensures
        r == reordered(e as int),
        r < 256,
{
    let r = e % 32;
    if 8 <= r && r < 16 {
        e + 8
    } else if 16 <= r && r < 24 {
        e - 8
    } else {
        e
    }
}

/// Writes the colour of palette entry `entry` as pixel `p` of `output`.
fn put_palette_pixel(output: &mut Vec<u8>, p: usize, entry: [u8; 4])
    requires
        4 * p + 4 <= old(output).len(),
    ensures
        final(output)@ == old(output)@.update(4 * p as int, entry@[0]).update(4 * p + 1, entry@[1]).update(
            4 * p + 2,
            entry@[2],
        ).update(4 * p + 3, ((entry@[3] & 0x7fu8) * 2) as u8),
{
    proof {
        lemma_nibbles(entry@[3]);
    }
    output.set(4 * p, entry[0]);
    output.set(4 * p + 1, entry[1]);
    output.set(4 * p + 2, entry[2]);
    output.set(4 * p + 3, (entry[3] & 0x7f) * 2);
}

/// Colours pixels `0 .. w * h` of `output` from the palette entries that
/// `idx` names (through `reordered` when `reorder` is set).
fn paint_palette(output: &mut Vec<u8>, idx: &Vec<u8>, entries: &[[u8; 4]], clut: Ghost<Seq<u8>>, n: usize, reorder: bool)
    requires
        n <= idx@.len(),
        4 * n <= old(output)@.len(),
        entries@.len() * 4 == clut@.len(),
        forall|i: int, k: int| 0 <= i < entries@.len() && 0 <= k < 4 ==> #[trigger] entries@[i]@[k] == clut@[4 * i + k],
        reorder ==> entries@.len() >= 256,
        !reorder ==> forall|i: int| 0 <= i < n ==> (#[trigger] idx@[i]) < entries@.len(),
    ensures
        final(output)@ == Seq::new(
            old(output)@.len(),
            |i: int|
                if i / 4 < n {
                    palette_channel(clut@, if reorder { reordered(idx@[i / 4] as int) } else { idx@[i / 4] as int }, i % 4)
                } else {
                    old(output)@[i]
                },
        ),
{
    let ghost start = output@;
    let ghost target = Seq::new(
        start.len(),
        |i: int|
            if i / 4 < n {
                palette_channel(clut@, if reorder { reordered(idx@[i / 4] as int) } else { idx@[i / 4] as int }, i % 4)
            } else {
                start[i]
            },
    );
    let mut p: usize = 0;
    while p < n
        invariant
            n <= idx@.len(),
            4 * n <= start.len(),
            output@.len() == start.len(),
            entries@.len() * 4 == clut@.len(),
            forall|i: int, k: int| 0 <= i < entries@.len() && 0 <= k < 4 ==> #[trigger] entries@[i]@[k] == clut@[4 * i + k],
            reorder ==> entries@.len() >= 256,
            !reorder ==> forall|i: int| 0 <= i < n ==> (#[trigger] idx@[i]) < entries@.len(),
            target == Seq::new(
                start.len(),
                |i: int|
                    if i / 4 < n {
                        palette_channel(clut@, if reorder { reordered(idx@[i / 4] as int) } else { idx@[i / 4] as int }, i % 4)
                    } else {
                        start[i]
                    },
            ),
            p <= n,
            forall|i: int| 0 <= i < 4 * p ==> output@[i] == #[trigger] target[i],
            forall|i: int| 4 * p <= i < start.len() ==> output@[i] == start[i],
        decreases n - p,
    {
        let byte = idx[p] as usize;
        let e = if reorder { reordered_index(byte) } else { byte };
        let entry = entries[e];
        assert(entry@[0] == clut@[4 * e as int]);
        assert(entry@[1] == clut@[4 * e + 1]);
        assert(entry@[2] == clut@[4 * e + 2]);
        assert(entry@[3] == clut@[4 * e + 3]);
        put_palette_pixel(output, p, entry);
        proof {
            assert forall|i: int| 0 <= i < 4 * (p + 1) implies output@[i] == #[trigger] target[i] by {
                if i >= 4 * p {
                    assert(i / 4 == p as int);
                }
            }
        }
        p = p + 1;
    }
    assert(output@ =~= target) by {
        assert forall|i: int| 0 <= i < start.len() implies output@[i] == target[i] by {
            if i >= 4 * n {
                assert(i / 4 >= n);
            }
        }
    }
}

impl Ps2TextureDecoder {
    /// Whether `decode` accepts an input of `input_len` bytes, the palette
    /// `clut` and an output of `output_len` bytes for a texture of this
    /// size, format and version. Where `decode` would fail with an error
    /// this holds too.
    pub fn decodable(
        &self,
        input_len: usize,
        clut: Option<&[u8]>,
        width: u32,
        height: u32,
        depth: u32,
        format: u8,
        version: u32,
        output_len: usize,
    ) -> (r: bool)
        ensures
            r == ((InternalFormat::from_number(format) matches Some(f) ==> ps2_sizes_fit(width, height, depth, f.bits_per_pixel()))
                && (ps2_check(
                input_len as int,
                clut is Some,
                width,
                height,
                depth,
                format,
                output_len as int,
            ) matches Ok(f) ==> ps2_in_bounds(f, clut_view(clut).len() as int, width, height, depth, version))),
    {
        let fmt = match InternalFormat::n(format) {
            Some(f) => f,
            None => return true,
        };
        let bits_fit = {
            let w = width as u128;
            let h = height as u128;
            let d = depth as u128;
            proof {
                assert(w * h * d * 32 <= 0xffff_ffff * 0xffff_ffff * 0xffff_ffff * 32) by (nonlinear_arith)
                    requires w <= 0xffff_ffff, h <= 0xffff_ffff, d <= 0xffff_ffff;
                assert(w * h <= 0xffff_ffff * 0xffff_ffff) by (nonlinear_arith)
                    requires w <= 0xffff_ffff, h <= 0xffff_ffff;
                assert(w * h * d * (fmt.bits_per_pixel() as u128) <= w * h * d * 32) by (nonlinear_arith)
                    requires fmt.bits_per_pixel() <= 32;
            }
            w * h <= usize::MAX as u128 && w * h * d * (fmt.bpp() as u128) <= usize::MAX as u128
        };
        if !bits_fit {
            return false;
        }
        proof {
            lemma_ps2_sizes(width, height, depth, fmt.bits_per_pixel());
        }
        let size = match self.get_data_size(width, height, depth, format) {
            Ok(s) => s,
            Err(_) => return true,
        };
        if input_len < size {
            return true;
        }
        let pixels = super::pixel_count(width, height, depth);
        if output_len != pixels * 4 {
            return true;
        }
        if clut.is_some() != (fmt.clut_size() != 0) {
            return true;
        }
        let clut_len = match clut {
            Some(c) => c.len(),
            None => 0,
        };
        let w = width as u128;
        let h = height as u128;
        proof {
            assert(w * h <= 0xffff_ffff * 0xffff_ffff) by (nonlinear_arith)
                requires w <= 0xffff_ffff, h <= 0xffff_ffff;
            assert(h * (w / 2) <= 0xffff_ffff * 0xffff_ffff) by (nonlinear_arith)
                requires w <= 0xffff_ffff, h <= 0xffff_ffff;
        }
        let wh = w * h;
        match fmt {
            InternalFormat::P256x32 => {
                clut_len % 4 == 0 && clut_len >= 1024 && wh <= size as u128 && wh + 16 * w + 32 <= u32::MAX as u128
            },
            InternalFormat::P16x32 => {
                if !(clut_len % 4 == 0 && clut_len >= 64 && pixels as u128 >= wh && h * (w / 2) <= size as u128
                    && wh <= u32::MAX as u128) {
                    return false;
                }
                if version == 163 {
                    true
                } else {
                    wh + 4 * w + 32 <= u32::MAX as u128 && height <= i32::MAX as u32 && swizzle4_targets_fit(width, height)
                }
            },
            _ => true,
        }
    }

    /// Decodes a PS2 texture into RGBA8 `output` (row width `width`).
    pub fn decode(
        &self,
        input: &[u8],
        clut: Option<&[u8]>,
        output: &mut Vec<u8>,
        width: u32,
        height: u32,
        depth: u32,
        format: u8,
        version: u32,
    ) -> (res: Result<(), TextureError>)
        requires
            InternalFormat::from_number(format) matches Some(f) ==> ps2_sizes_fit(width, height, depth, f.bits_per_pixel()),
            ps2_check(input@.len() as int, clut is Some, width, height, depth, format, old(output)@.len() as int) matches Ok(f)
                ==> ps2_in_bounds(f, clut_view(clut).len() as int, width, height, depth, version),
        ensures
            match ps2_check(input@.len() as int, clut is Some, width, height, depth, format, old(output)@.len() as int) {
                Ok(f) => res is Ok && final(output)@ == ps2_output(f, input@, clut_view(clut), width, height, depth, version, old(output)@),
                Err(e) => res == Err::<(), TextureError>(e) && final(output)@ == old(output)@,
            },
    {
        let fmt = match InternalFormat::n(format) {
            Some(f) => f,
            None => return Err(TextureError::InvalidFormat(format)),
        };
        proof {
            lemma_ps2_sizes(width, height, depth, fmt.bits_per_pixel());
        }
        let size = match self.get_data_size(width, height, depth, format) {
            Ok(s) => s,
            Err(e) => return Err(e),
        };
        if input.len() < size {
            return Err(TextureError::InputTooShort);
        }
        let pixels = super::pixel_count(width, height, depth);
        if output.len() != pixels * 4 {
            return Err(TextureError::OutputSizeMismatch);
        }
        if clut.is_some() != (fmt.clut_size() != 0) {
            return Err(TextureError::PaletteMismatch);
        }
        let data = &input[0..size];
        assert(data@ == input@.take(size as int));
        let ghost w = width as int;
        let ghost h = height as int;
        match fmt {
            InternalFormat::P256x32 => {
                let c = match clut {
                    Some(c) => c,
                    None => return Err(TextureError::PaletteMismatch),
                };
                let entries = cast_entries(c);
                let idx = swizzle8_to_32(data, width, height);
                let n = (width * height) as usize;
                assert((w * h * depth * 8) / 8 == w * h * depth) by (nonlinear_arith);
                paint_palette(output, &idx, entries, Ghost(c@), n, true);
                assert(output@ =~= ps2_output(fmt, input@, clut_view(clut), width, height, depth, version, old(output)@));
            },
            InternalFormat::P16x32 => {
                let c = match clut {
                    Some(c) => c,
                    None => return Err(TextureError::PaletteMismatch),
                };
                let entries = cast_entries(c);
                let idx = swizzle4_to_32(data, width, height, version);
                proof {
                    lemma_swizzled4_small(data@, width, height, version);
                }
                let n = (width * height) as usize;
                paint_palette(output, &idx, entries, Ghost(c@), n, false);
                assert(output@ =~= ps2_output(fmt, input@, clut_view(clut), width, height, depth, version, old(output)@));
            },
            InternalFormat::_32BIT => {
                proof {
                    let n = width * height * depth;
                    assert((n * 32) / 8 == n * 4) by (nonlinear_arith)
                        requires n >= 0;
                }
                let len = output.len();
                let ghost start = output@;
                let mut i: usize = 0;
                while i < len
                    invariant
                        len == output@.len(),
                        len <= data@.len(),
                        i <= len,
                        forall|j: int| 0 <= j < i ==> output@[j] == data@[j],
                    decreases len - i,
                {
                    output.set(i, data[i]);
                    i = i + 1;
                }
                assert(output@ =~= ps2_output(fmt, input@, clut_view(clut), width, height, depth, version, old(output)@));
            },
            _ => {
                return Err(TextureError::UnsupportedFormat);
            },
        }
        Ok(())
    }
}

/// How the PSMT8 decoder looks a colour up: in every block of 32 palette
/// entries the second and third groups of eight trade places, so an index
/// whose position in its block is 8 to 15 reads the entry 8 further on, one
/// at 16 to 23 the entry 8 back, and any other index its own entry. Red,
/// green and blue are copied and the 7-bit alpha is doubled.
pub proof fn law_ps2_palette_lookup(
    input: Seq<u8>,
    clut: Seq<u8>,
    w: u32,
    h: u32,
    d: u32,
    version: u32,
    old: Seq<u8>,
    q: int,
)
    requires
        0 <= q < w * h,
        4 * q + 4 <= old.len(),
    ensures
        ({
            let out = ps2_output(InternalFormat::P256x32, input, clut, w, h, d, version, old);
            let e = swizzled8(input.take(ps2_data_bytes(w, h, d, 8) as int), w, h)[q] as int;
            let shows = |t: int|
                {
                    &&& out[4 * q] == clut[4 * t]
                    &&& out[4 * q + 1] == clut[4 * t + 1]
                    &&& out[4 * q + 2] == clut[4 * t + 2]
                    &&& out[4 * q + 3] == (clut[4 * t + 3] % 128) * 2
                };
            &&& 8 <= e % 32 < 16 ==> shows(e + 8)
            &&& 16 <= e % 32 < 24 ==> shows(e - 8)
            &&& (e % 32 < 8 || 24 <= e % 32) ==> shows(e)
        }),
{
    super::pc::lemma_pixel_bytes(q);
    let e = swizzled8(input.take(ps2_data_bytes(w, h, d, 8) as int), w, h)[q] as int;
    let t = reordered(e);
    let a = clut[4 * t + 3];
    assert((a & 0x7fu8) == a % 128) by (bit_vector);
}

/// How the PSMT4 decoder looks a colour up: the 4-bit index reads its own
/// palette entry, red, green and blue copied and the 7-bit alpha doubled;
/// and 32-bit textures are copied byte for byte.
pub proof fn law_ps2_p16_and_direct(
    input: Seq<u8>,
    clut: Seq<u8>,
    w: u32,
    h: u32,
    d: u32,
    version: u32,
    old: Seq<u8>,
    q: int,
)
    requires
        0 <= q < w * h,
        4 * q + 4 <= old.len(),
        old.len() <= input.len(),
    ensures
        ({
            let out = ps2_output(InternalFormat::P16x32, input, clut, w, h, d, version, old);
            let e = swizzled4(input.take(ps2_data_bytes(w, h, d, 4) as int), w, h, version)[q] as int;
            &&& out[4 * q] == clut[4 * e]
            &&& out[4 * q + 1] == clut[4 * e + 1]
            &&& out[4 * q + 2] == clut[4 * e + 2]
            &&& out[4 * q + 3] == (clut[4 * e + 3] % 128) * 2
        }),
        forall|i: int| 0 <= i < old.len() ==> #[trigger] ps2_output(InternalFormat::_32BIT, input, clut, w, h, d, version, old)[i] == input[i],
{
    super::pc::lemma_pixel_bytes(q);
    let e = swizzled4(input.take(ps2_data_bytes(w, h, d, 4) as int), w, h, version)[q] as int;
    let a = clut[4 * e + 3];
    assert((a & 0x7fu8) == a % 128) by (bit_vector);
}

} // verus!
