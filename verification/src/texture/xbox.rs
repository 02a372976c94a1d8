//! Original Xbox textures: BC formats, plain 16/32-bit formats, and the
//! Morton ("swizzled") pixel order most uncompressed formats are stored in.
use vstd::prelude::*;
use super::bits::{widen4, widen5, widen6, convert_4_to_8, convert_5_to_8, convert_6_to_8};
use super::bcn::{BcFormat, bc_data_bytes, squish_decompressed, squish_decompress};
use super::TextureError;

verus! {

/// Decoder for original Xbox textures.
pub struct XboxTextureDecoder;

/// The Xbox texture formats.
#[derive(Debug, Clone, Copy, PartialEq, Eq, Structural)]
pub enum InternalFormat {
    RGB565,
    XRGB1555,
    Dxt1,
    Dxt1Alpha,
    Dxt2,
    ARGB4,
    ARGB8,
    P8,
    ARGB1555,
    ARGB8Linear,
    Dxt3,
    Dxt4,
    Dxt5,
}

impl InternalFormat {
    /// The format numbered `v`.
    pub open spec fn from_number(v: u8) -> Option<InternalFormat> {
        if v == 0 {
            Some(InternalFormat::RGB565)
        } else if v == 1 {
            Some(InternalFormat::XRGB1555)
        } else if v == 2 {
            Some(InternalFormat::Dxt1)
        } else if v == 3 {
            Some(InternalFormat::Dxt1Alpha)
        } else if v == 4 {
            Some(InternalFormat::Dxt2)
        } else if v == 5 {
            Some(InternalFormat::ARGB4)
        } else if v == 6 {
            Some(InternalFormat::ARGB8)
        } else if v == 7 {
            Some(InternalFormat::P8)
        } else if v == 8 {
            Some(InternalFormat::ARGB1555)
        } else if v == 9 {
            Some(InternalFormat::ARGB8Linear)
        } else if v == 10 {
            Some(InternalFormat::Dxt3)
        } else if v == 11 {
            Some(InternalFormat::Dxt4)
        } else if v == 12 {
            Some(InternalFormat::Dxt5)
        } else {
            None
        }
    }

    /// Looks a format up by its number.
    pub fn n(v: u8) -> (r: Option<InternalFormat>)
        ensures
            r == Self::from_number(v),
    {
        match v {
            0 => Some(InternalFormat::RGB565),
            1 => Some(InternalFormat::XRGB1555),
            2 => Some(InternalFormat::Dxt1),
            3 => Some(InternalFormat::Dxt1Alpha),
            4 => Some(InternalFormat::Dxt2),
            5 => Some(InternalFormat::ARGB4),
            6 => Some(InternalFormat::ARGB8),
            7 => Some(InternalFormat::P8),
            8 => Some(InternalFormat::ARGB1555),
            9 => Some(InternalFormat::ARGB8Linear),
            10 => Some(InternalFormat::Dxt3),
            11 => Some(InternalFormat::Dxt4),
            12 => Some(InternalFormat::Dxt5),
            _ => None,
        }
    }

    /// Bits per pixel.
    pub open spec fn bits_per_pixel(self) -> nat {
        match self {
            InternalFormat::RGB565 | InternalFormat::ARGB1555 | InternalFormat::XRGB1555 => 16,
            InternalFormat::ARGB4 => 16,
            InternalFormat::ARGB8 | InternalFormat::ARGB8Linear => 32,
            InternalFormat::Dxt1 | InternalFormat::Dxt1Alpha => 4,
            InternalFormat::Dxt2 | InternalFormat::Dxt3 | InternalFormat::Dxt4 | InternalFormat::Dxt5 => 8,
            InternalFormat::P8 => 8,
        }
    }

    /// Bits per pixel.
    pub fn bpp(&self) -> (r: usize)
        ensures
            r == self.bits_per_pixel(),
    {
        match self {
            InternalFormat::RGB565 | InternalFormat::ARGB1555 | InternalFormat::XRGB1555 => 16,
            InternalFormat::ARGB4 => 16,
            InternalFormat::ARGB8 | InternalFormat::ARGB8Linear => 32,
            InternalFormat::Dxt1 | InternalFormat::Dxt1Alpha => 4,
            InternalFormat::Dxt2 => 8,
            InternalFormat::Dxt3 => 8,
            InternalFormat::Dxt4 => 8,
            InternalFormat::Dxt5 => 8,
            InternalFormat::P8 => 8,
        }
    }

    /// Whether pixels are stored in Morton order.
    pub open spec fn swizzled(self) -> bool {
        match self {
            InternalFormat::RGB565 | InternalFormat::ARGB4 | InternalFormat::ARGB8
            | InternalFormat::P8 | InternalFormat::ARGB1555 => true,
            _ => false,
        }
    }

    /// Whether pixels are stored in Morton order.
    pub fn is_swizzled(&self) -> (r: bool)
        ensures
            r == self.swizzled(),
    {
        match self {
            InternalFormat::RGB565 | InternalFormat::ARGB4 | InternalFormat::ARGB8
            | InternalFormat::P8 | InternalFormat::ARGB1555 => true,
            InternalFormat::XRGB1555 => false,
            InternalFormat::ARGB8Linear => false,
            InternalFormat::Dxt1 | InternalFormat::Dxt1Alpha | InternalFormat::Dxt2
            | InternalFormat::Dxt3 | InternalFormat::Dxt4 | InternalFormat::Dxt5 => false,
        }
    }

    /// The block-compression format of the DXT formats.
    pub open spec fn bc(self) -> Option<BcFormat> {
        match self {
            InternalFormat::Dxt1 | InternalFormat::Dxt1Alpha => Some(BcFormat::Bc1),
            InternalFormat::Dxt2 | InternalFormat::Dxt3 => Some(BcFormat::Bc2),
            InternalFormat::Dxt4 | InternalFormat::Dxt5 => Some(BcFormat::Bc3),
            _ => None,
        }
    }
}

/// The Morton offset computed from bit `shift` on, `offset` holding the
/// bits already placed: the low bits of `x` and `y` interleave (x in the
/// even positions) while `2^shift` is below the smaller side, then the
/// remaining high bits of either coordinate follow.
pub open spec fn deswizzle_from(x: u32, y: u32, min_dim: u32, shift: u32, offset: u32) -> u32
    decreases 16 - shift,
{
    if shift < 16 && (1u32 << shift) < min_dim {
        let mask = 1u32 << shift;
        deswizzle_from(x, y, min_dim, (shift + 1) as u32, offset | ((((y & mask) << 1u32) | (x & mask)) << shift))
    } else {
        offset | (((x | y) >> shift) << ((shift * 2) as u32))
    }
}

/// The linear position that Morton-ordered pixel (x, y) is stored at.
pub open spec fn deswizzle_spec(x: u32, y: u32, width: u32, height: u32) -> u32 {
    let min_dim = if width <= height { width } else { height };
    deswizzle_from(x, y, min_dim, 0, 0)
}

proof fn lemma_mask_step(shift: u32)
    requires
        shift <= 15,
    ensures
        (1u32 << shift) << 1u32 == 1u32 << ((shift + 1) as u32),
        (1u32 << shift) < 32768 ==> shift < 15,
        (1u32 << shift) >= 1,
{
    assert({
        &&& (1u32 << shift) << 1u32 == 1u32 << ((shift + 1) as u32)
        &&& (1u32 << shift) < 32768 ==> shift < 15
        &&& (1u32 << shift) >= 1
    }) by (bit_vector)
        requires
            shift <= 15,
    ;
}

/// The position in the Morton-ordered stream of pixel (x, y).
pub fn deswizzle(x: u32, y: u32, width: u32, height: u32) -> (r: u32)
    requires
        width <= 32768 || height <= 32768,
    ensures
        r == deswizzle_spec(x, y, width, height),
{
    let min_dim = if width <= height { width } else { height };
    let mut offset: u32 = 0;
    let mut shift: u32 = 0;
    let mut mask: u32 = 1;
    assert(1u32 << 0u32 == 1) by (bit_vector);
    while mask < min_dim
        invariant
            min_dim <= 32768,
            shift <= 15,
            mask == 1u32 << shift,
            deswizzle_from(x, y, min_dim, shift, offset) == deswizzle_spec(x, y, width, height),
        decreases 15 - shift,
    {
        proof {
            lemma_mask_step(shift);
        }
        offset = offset | ((((y & mask) << 1) | (x & mask)) << shift);
        shift = shift + 1;
        mask = mask << 1;
    }
    proof {
        lemma_mask_step(shift);
    }
    offset = offset | (((x | y) >> shift) << (shift * 2));
    offset
}


/// Bytes each pixel of an uncompressed format takes.
pub open spec fn pixel_size(fmt: InternalFormat) -> nat {
    match fmt {
        InternalFormat::ARGB8 | InternalFormat::ARGB8Linear => 4,
        _ => 2,
    }
}

/// Channel `k` of uncompressed pixel `p` of `input` as the Xbox decoder
/// writes it.
pub open spec fn xbox_channel(fmt: InternalFormat, input: Seq<u8>, p: int, k: int) -> u8 {
    match fmt {
        InternalFormat::ARGB8 | InternalFormat::ARGB8Linear => input[4 * p + k],
        InternalFormat::ARGB4 => {
            let b0 = input[2 * p];
            let b1 = input[2 * p + 1];
            if k == 0 {
                widen4(b0 & 0x0fu8)
            } else if k == 1 {
                widen4(b0 >> 4u8)
            } else if k == 2 {
                widen4(b1 & 0x0fu8)
            } else {
                widen4(b1 >> 4u8)
            }
        },
        InternalFormat::RGB565 => {
            let b0 = input[2 * p];
            let b1 = input[2 * p + 1];
            if k == 0 {
                widen5(b0 & 0x1fu8)
            } else if k == 1 {
                widen6((b0 >> 5u8) | ((b1 & 0x07u8) << 3u8))
            } else if k == 2 {
                widen5(b1 >> 3u8)
            } else {
                255
            }
        },
        InternalFormat::ARGB1555 | InternalFormat::XRGB1555 => {
            let b0 = input[2 * p];
            let b1 = input[2 * p + 1];
            if k == 0 {
                (((b1 & 0x7cu8) >> 2u8) * 8) as u8
            } else if k == 1 {
                (((b0 >> 5u8) | ((b1 & 0x03u8) << 3u8)) * 8) as u8
            } else if k == 2 {
                ((b0 & 0x1fu8) * 8) as u8
            } else {
                ((b1 >> 7u8) * 255) as u8
            }
        },
        _ => 0,
    }
}

/// The intermediate linear buffer: BC output followed by zeros, or one
/// decoded pixel per whole input pixel followed by zeros.
pub open spec fn xbox_buffer(fmt: InternalFormat, input: Seq<u8>, w: int, h: int, len: int) -> Seq<u8> {
    match fmt.bc() {
        Some(bc) => squish_decompressed(bc, input, w as nat, h as nat) + Seq::new((len - w * h * 4) as nat, |i: int| 0u8),
        None => Seq::new(
            len as nat,
            |i: int|
                if i / 4 < input.len() / pixel_size(fmt) {
                    xbox_channel(fmt, input, i / 4, i % 4)
                } else {
                    0
                },
        ),
    }
}

/// What the Xbox decoder returns, checks in order.
pub open spec fn xbox_check(w: u16, h: u16, d: u16, format: u8, out_len: int) -> Result<InternalFormat, TextureError> {
    match InternalFormat::from_number(format) {
        None => Err(TextureError::InvalidFormat(format)),
        Some(f) => if out_len != w * h * d * 4 {
            Err(TextureError::OutputSizeMismatch)
        } else if f == InternalFormat::P8 {
            Err(TextureError::UnsupportedFormat)
        } else {
            Ok(f)
        },
    }
}

/// Sizes on which the decoder stays inside its buffers.
pub open spec fn xbox_in_bounds(fmt: InternalFormat, input_len: int, w: int, h: int, len: int) -> bool {
    &&& match fmt.bc() {
        Some(bc) => bc_data_bytes(bc, w as nat, h as nat) <= input_len && w * h * 4 <= len,
        None => (input_len / (pixel_size(fmt) as int)) * 4 <= len,
    }
    &&& fmt.swizzled() && w > 0 && h > 0 ==> {
        &&& w <= 32768 || h <= 32768
        &&& w * h * 4 <= len
        &&& forall|x: int, y: int| 0 <= x < w && 0 <= y < h
            ==> #[trigger] deswizzle_spec(x as u32, y as u32, w as u32, h as u32) * 4 + 4 <= len
    }
}

/// The decoded texture: the buffer, read in Morton order for swizzled
/// formats (bytes past `w * h` pixels then keep their old value).
pub open spec fn xbox_output(fmt: InternalFormat, input: Seq<u8>, w: int, h: int, old: Seq<u8>) -> Seq<u8> {
    let buf = xbox_buffer(fmt, input, w, h, old.len() as int);
    if fmt.swizzled() {
        Seq::new(
            old.len(),
            |i: int|
                {
                    let p = i / 4;
                    if p < w * h {
                        buf[deswizzle_spec((p % w) as u32, (p / w) as u32, w as u32, h as u32) * 4 + i % 4]
                    } else {
                        old[i]
                    }
                },
        )
    } else {
        buf
    }
}

/// Decodes uncompressed pixel `p` of `input`.
fn xbox_pixel(fmt: InternalFormat, input: &[u8], p: usize) -> (r: (u8, u8, u8, u8))
    requires
        fmt.bc() is None,
        fmt != InternalFormat::P8,
        (p + 1) * pixel_size(fmt) <= input.len(),
    ensures
        r.0 == xbox_channel(fmt, input@, p as int, 0),
        r.1 == xbox_channel(fmt, input@, p as int, 1),
        r.2 == xbox_channel(fmt, input@, p as int, 2),
        r.3 == xbox_channel(fmt, input@, p as int, 3),
{
    match fmt {
        InternalFormat::ARGB8 | InternalFormat::ARGB8Linear => {
            (input[4 * p], input[4 * p + 1], input[4 * p + 2], input[4 * p + 3])
        },
        InternalFormat::ARGB4 => {
            let b0 = input[2 * p];
            let b1 = input[2 * p + 1];
            (
                convert_4_to_8(b0 & 0x0f),
                convert_4_to_8(b0 >> 4),
                convert_4_to_8(b1 & 0x0f),
                convert_4_to_8(b1 >> 4),
            )
        },
        InternalFormat::RGB565 => {
            let b0 = input[2 * p];
            let b1 = input[2 * p + 1];
            (
                convert_5_to_8(b0 & 0x1f),
                convert_6_to_8((b0 >> 5) | ((b1 & 0x07) << 3)),
                convert_5_to_8(b1 >> 3),
                255,
            )
        },
        _ => {
            let b0 = input[2 * p];
            let b1 = input[2 * p + 1];
            let b = b0 & 0x1f;
            let g = (b0 >> 5) | ((b1 & 0x03) << 3);
            let r = (b1 & 0x7c) >> 2;
            let a = b1 >> 7;
            proof {
                lemma_1555_ranges(b0, b1);
            }
            (r * 8, g * 8, b * 8, a * 255)
        },
    }
}

/// The 1555 channels fit five bits (one for alpha).
proof fn lemma_1555_ranges(b0: u8, b1: u8)
    ensures
        b0 & 0x1fu8 < 32,
        (b0 >> 5u8) | ((b1 & 0x03u8) << 3u8) < 32,
        (b1 & 0x7cu8) >> 2u8 < 32,
        b1 >> 7u8 < 2,
{
    assert({
        &&& b0 & 0x1fu8 < 32
        &&& (b0 >> 5u8) | ((b1 & 0x03u8) << 3u8) < 32
        &&& (b1 & 0x7cu8) >> 2u8 < 32
        &&& b1 >> 7u8 < 2
    }) by (bit_vector);
}

/// The block-compression format of a DXT format.
fn bc_of(fmt: InternalFormat) -> (r: Option<BcFormat>)
    ensures
        r == fmt.bc(),
{
    match fmt {
        InternalFormat::Dxt1 | InternalFormat::Dxt1Alpha => Some(BcFormat::Bc1),
        InternalFormat::Dxt2 | InternalFormat::Dxt3 => Some(BcFormat::Bc2),
        InternalFormat::Dxt4 | InternalFormat::Dxt5 => Some(BcFormat::Bc3),
        _ => None,
    }
}

/// Decodes whole uncompressed pixels of `input` into the zeroed `buffer`.
fn fill_linear(fmt: InternalFormat, input: &[u8], buffer: &mut Vec<u8>)
    requires
        fmt.bc() is None,
        fmt != InternalFormat::P8,
        (input@.len() / pixel_size(fmt)) * 4 <= old(buffer).len(),
        forall|i: int| 0 <= i < old(buffer)@.len() ==> old(buffer)@[i] == 0,
    ensures
        final(buffer)@ == Seq::new(
            old(buffer)@.len(),
            |i: int|
                if i / 4 < input@.len() / pixel_size(fmt) {
                    xbox_channel(fmt, input@, i / 4, i % 4)
                } else {
                    0
                },
        ),
{
    let ghost len = buffer@.len();
    let ps: usize = if fmt == InternalFormat::ARGB8 || fmt == InternalFormat::ARGB8Linear { 4 } else { 2 };
    let npix = input.len() / ps;
    let mut p: usize = 0;
    while p < npix
        invariant
            fmt.bc() is None,
            fmt != InternalFormat::P8,
            ps == pixel_size(fmt),
            npix == input@.len() / pixel_size(fmt),
            npix * 4 <= buffer.len(),
            buffer@.len() == len,
            p <= npix,
            forall|i: int| 0 <= i < 4 * p ==> buffer@[i] == xbox_channel(fmt, input@, i / 4, i % 4),
            forall|i: int| 4 * p <= i < len ==> buffer@[i] == 0,
        decreases npix - p,
    {
        proof {
            assert((p + 1) * ps <= npix * ps) by (nonlinear_arith)
                requires p < npix;
            vstd::arithmetic::div_mod::lemma_fundamental_div_mod(input.len() as int, ps as int);
        }
        let px = xbox_pixel(fmt, input, p);
        buffer[4 * p] = px.0;
        buffer[4 * p + 1] = px.1;
        buffer[4 * p + 2] = px.2;
        buffer[4 * p + 3] = px.3;
        proof {
            assert forall|i: int| 0 <= i < 4 * (p + 1) implies buffer@[i] == xbox_channel(fmt, input@, i / 4, i % 4) by {
                if i >= 4 * p {
                    vstd::arithmetic::div_mod::lemma_fundamental_div_mod_converse(i, 4, p as int, i - 4 * p);
                }
            }
        }
        p = p + 1;
    }
    proof {
        assert forall|i: int| 0 <= i < len implies buffer@[i] == (if i / 4 < input@.len() / pixel_size(fmt) {
            xbox_channel(fmt, input@, i / 4, i % 4)
        } else {
            0
        }) by {
            if i < 4 * npix {
                assert(i / 4 < npix);
            } else {
                assert(i / 4 >= npix);
            }
        }
    }
    assert(buffer@ =~= Seq::new(
        len,
        |i: int|
            if i / 4 < input@.len() / pixel_size(fmt) {
                xbox_channel(fmt, input@, i / 4, i % 4)
            } else {
                0
            },
    ));
}


/// Whether every pixel of a swizzled `width` x `height` image is read from
/// inside a buffer of `len` bytes.
fn swizzle_targets_fit(width: u16, height: u16, len: usize) -> (r: bool)
    requires
        width <= 32768 || height <= 32768,
    ensures
        r == forall|x: int, y: int| 0 <= x < width && 0 <= y < height
            ==> #[trigger] deswizzle_spec(x as u32, y as u32, width as u32, height as u32) * 4 + 4 <= len,
{
    let mut y: u16 = 0;
    while y < height
        invariant
            y <= height,
            width <= 32768 || height <= 32768,
            forall|x: int, yy: int| 0 <= x < width && 0 <= yy < y
                ==> #[trigger] deswizzle_spec(x as u32, yy as u32, width as u32, height as u32) * 4 + 4 <= len,
        decreases height - y,
    {
        let mut x: u16 = 0;
        while x < width
            invariant
                x <= width,
                y < height,
                width <= 32768 || height <= 32768,
                forall|xx: int, yy: int| 0 <= xx < width && 0 <= yy < y
                    ==> #[trigger] deswizzle_spec(xx as u32, yy as u32, width as u32, height as u32) * 4 + 4 <= len,
                forall|xx: int| 0 <= xx < x
                    ==> #[trigger] deswizzle_spec(xx as u32, y as u32, width as u32, height as u32) * 4 + 4 <= len,
            decreases width - x,
        {
            let at = deswizzle(x as u32, y as u32, width as u32, height as u32);
            if at as u128 * 4 + 4 > len as u128 {
                assert(!(deswizzle_spec(x as u32, y as u32, width as u32, height as u32) * 4 + 4 <= len));
                return false;
            }
            x = x + 1;
        }
        proof {
            assert forall|xx: int, yy: int| 0 <= xx < width && 0 <= yy < y + 1
                implies #[trigger] deswizzle_spec(xx as u32, yy as u32, width as u32, height as u32) * 4 + 4 <= len by {
                if yy == y {
                    assert(deswizzle_spec(xx as u32, y as u32, width as u32, height as u32) * 4 + 4 <= len);
                }
            }
        }
        y = y + 1;
    }
    true
}

impl XboxTextureDecoder {
    /// Bytes of pixel data a texture needs, or `None` for an unknown format.
    pub fn get_data_size(&self, width: u16, height: u16, depth: u16, format: u8) -> (r: Option<usize>)
        requires
            width as u32 * height as u32 <= usize::MAX,
            width as u32 * height as u32 * depth as u32 <= usize::MAX,
            InternalFormat::from_number(format) matches Some(f) ==> super::dims_fit(width as u32, height as u32, depth as u32, f.bits_per_pixel()),
        ensures
            match InternalFormat::from_number(format) {
                Some(f) => r == Some(super::data_bytes(width as u32, height as u32, depth as u32, f.bits_per_pixel()) as usize),
                None => r is None,
            },
    {
        let pixels = super::pixel_count(width as u32, height as u32, depth as u32);
        let fmt = InternalFormat::n(format)?;
        Some(super::rounded_bytes(pixels, fmt.bpp()))
    }

    /// Whether `decode` accepts these sizes: an input of `input_len` bytes
    /// and an output of `output_len` bytes for a texture of this size and
    /// format. Where `decode` would fail with an error this holds too.
    pub fn decodable(&self, input_len: usize, width: u16, height: u16, depth: u16, format: u8, output_len: usize) -> (r: bool)
        ensures
            r == ((InternalFormat::from_number(format) is Some ==> super::output_fits(width as u32, height as u32, depth as u32))
                && (xbox_check(
                width,
                height,
                depth,
                format,
                output_len as int,
            ) matches Ok(f) ==> xbox_in_bounds(f, input_len as int, width as int, height as int, output_len as int))),
    {
        let fmt = match InternalFormat::n(format) {
            Some(f) => f,
            None => return true,
        };
        if !super::output_size_fits(width as u32, height as u32, depth as u32) {
            return false;
        }
        let pixels = super::pixel_count(width as u32, height as u32, depth as u32);
        if output_len != pixels * 4 || matches!(fmt, InternalFormat::P8) {
            return true;
        }
        let wh4 = width as u128 * height as u128 * 4;
        let buffer_fits = match bc_of(fmt) {
            Some(bc) => super::bcn::bc_fits(bc, width as u32, height as u32, input_len) && wh4 <= output_len as u128,
            None => {
                let size: usize = match fmt {
                    InternalFormat::ARGB8 | InternalFormat::ARGB8Linear => 4,
                    _ => 2,
                };
                (input_len / size) as u128 * 4 <= output_len as u128
            },
        };
        if !buffer_fits {
            return false;
        }
        if fmt.is_swizzled() && width > 0 && height > 0 {
            (width <= 32768 || height <= 32768) && wh4 <= output_len as u128 && swizzle_targets_fit(width, height, output_len)
        } else {
            true
        }
    }

    /// Decodes an Xbox texture into RGBA8 `output` (row width `width`).
    pub fn decode(
        &self,
        input: &[u8],
        output: &mut Vec<u8>,
        width: u16,
        height: u16,
        depth: u16,
        format: u8,
    ) -> (res: Result<(), TextureError>)
        requires
            InternalFormat::from_number(format) is Some ==> super::output_fits(width as u32, height as u32, depth as u32),
            xbox_check(width, height, depth, format, old(output)@.len() as int) matches Ok(f)
                ==> xbox_in_bounds(f, input@.len() as int, width as int, height as int, old(output)@.len() as int),
        ensures
            match xbox_check(width, height, depth, format, old(output)@.len() as int) {
                Ok(f) => res is Ok && final(output)@ == xbox_output(f, input@, width as int, height as int, old(output)@),
                Err(e) => res == Err::<(), TextureError>(e) && final(output)@ == old(output)@,
            },
    {
        let fmt = match InternalFormat::n(format) {
            Some(f) => f,
            None => return Err(TextureError::InvalidFormat(format)),
        };
        let pixels = super::pixel_count(width as u32, height as u32, depth as u32);
        if output.len() != pixels * 4 {
            return Err(TextureError::OutputSizeMismatch);
        }
        let len = output.len();
        let ghost w = width as int;
        let ghost h = height as int;
        let mut buffer: Vec<u8> = vec![0u8; len];
        match bc_of(fmt) {
            Some(bc) => {
                let ghost zeros = buffer@;
                squish_decompress(bc, input, width as usize, height as usize, &mut buffer);
                proof {
                    let n = w * h * 4;
                    assert(buffer@ =~= buffer@.subrange(0, n) + buffer@.subrange(n, len as int));
                    assert(zeros.subrange(n, len as int) =~= Seq::new((len - n) as nat, |i: int| 0u8));
                }
            },
            None => {
                if fmt == InternalFormat::P8 {
                    return Err(TextureError::UnsupportedFormat);
                }
                fill_linear(fmt, input, &mut buffer);
            },
        }
        let ghost buf = buffer@;
        assert(buf == xbox_buffer(fmt, input@, w, h, len as int));
        if fmt.is_swizzled() {
            if width > 0 && height > 0 {
                let wz = width as usize;
                let total = wz * (height as usize);
                let ghost start = output@;
                let mut p: usize = 0;
                while p < total
                    invariant
                        fmt.swizzled(),
                        w == wz, w == width, w > 0, h == height, h > 0,
                        total == w * h,
                        total * 4 <= len,
                        len == output.len(),
                        output@.len() == len,
                        start.len() == len,
                        buffer@ == buf,
                        buf == xbox_buffer(fmt, input@, w, h, len as int),
                        buf.len() == len,
                        w <= 32768 || h <= 32768,
                        forall|x: int, y: int| 0 <= x < w && 0 <= y < h
                            ==> #[trigger] deswizzle_spec(x as u32, y as u32, w as u32, h as u32) * 4 + 4 <= len,
                        p <= total,
                        forall|i: int| 0 <= i < 4 * p ==> output@[i] == #[trigger] xbox_output(fmt, input@, w, h, start)[i],
                        forall|i: int| 4 * p <= i < len ==> output@[i] == start[i],
                    decreases total - p,
                {
                    let x = p % wz;
                    let y = p / wz;
                    proof {
                        vstd::arithmetic::div_mod::lemma_fundamental_div_mod(p as int, w);
                        assert(y < h) by (nonlinear_arith)
                            requires p == w * y + x, x >= 0, p < w * h, w > 0;
                        assert(x < w);
                    }
                    let load = deswizzle(x as u32, y as u32, width as u32, height as u32) as usize;
                    proof {
                        assert(deswizzle_spec(x as u32, y as u32, w as u32, h as u32) * 4 + 4 <= len);
                    }
                    let ghost before = output@;
                    output[4 * p] = buffer[load * 4];
                    output[4 * p + 1] = buffer[load * 4 + 1];
                    output[4 * p + 2] = buffer[load * 4 + 2];
                    output[4 * p + 3] = buffer[load * 4 + 3];
                    proof {
                        assert forall|i: int| 0 <= i < 4 * (p + 1) implies output@[i] == #[trigger] xbox_output(fmt, input@, w, h, start)[i] by {
                            if i >= 4 * p {
                                vstd::arithmetic::div_mod::lemma_fundamental_div_mod_converse(i, 4, p as int, i - 4 * p);
                                assert(i / 4 == p && i % 4 == i - 4 * p);
                                assert((p as int) % w == x && (p as int) / w == y);
                                assert(output@[i] == buf[load * 4 + (i - 4 * p)]);
                            } else {
                                assert(output@[i] == before[i]);
                            }
                        }
                    }
                    p = p + 1;
                }
                proof {
                    assert forall|i: int| 0 <= i < len implies output@[i] == #[trigger] xbox_output(fmt, input@, w, h, start)[i] by {
                        if i >= 4 * total {
                            assert(i / 4 >= total);
                        }
                    }
                    assert(output@ =~= xbox_output(fmt, input@, w, h, start));
                }
            } else {
                proof {
                    assert(w * h == 0) by (nonlinear_arith)
                        requires w == 0 || h == 0;
                    assert(output@ =~= xbox_output(fmt, input@, w, h, output@));
                }
            }
        } else {
            *output = buffer;
        }
        Ok(())
    }
}

/// The narrow channels of little-endian 16-bit pixels as arithmetic on the
/// bytes.
proof fn lemma_xbox_fields(b0: u8, b1: u8)
    ensures
        b0 & 0x1fu8 == (b0 + 256 * b1) % 32,
        (b0 >> 5u8) | ((b1 & 0x07u8) << 3u8) == ((b0 + 256 * b1) / 32) % 64,
        b1 >> 3u8 == (b0 + 256 * b1) / 2048,
        b0 & 0x0fu8 == b0 % 16,
        b0 >> 4u8 == b0 / 16,
        b1 & 0x0fu8 == b1 % 16,
        b1 >> 4u8 == b1 / 16,
        (((b1 & 0x7cu8) >> 2u8) * 8) as u8 == (((b0 + 256 * b1) / 1024) % 32) * 8,
        (((b0 >> 5u8) | ((b1 & 0x03u8) << 3u8)) * 8) as u8 == (((b0 + 256 * b1) / 32) % 32) * 8,
        ((b0 & 0x1fu8) * 8) as u8 == ((b0 + 256 * b1) % 32) * 8,
        ((b1 >> 7u8) * 255) as u8 == ((b0 + 256 * b1) / 32768) * 255,
{
    assert({
        &&& b0 & 0x1fu8 == (b0 + 256 * b1) % 32
        &&& (b0 >> 5u8) | ((b1 & 0x07u8) << 3u8) == ((b0 + 256 * b1) / 32) % 64
        &&& b1 >> 3u8 == (b0 + 256 * b1) / 2048
        &&& b0 & 0x0fu8 == b0 % 16
        &&& b0 >> 4u8 == b0 / 16
        &&& b1 & 0x0fu8 == b1 % 16
        &&& b1 >> 4u8 == b1 / 16
        &&& (((b1 & 0x7cu8) >> 2u8) * 8) as u8 == (((b0 + 256 * b1) / 1024) % 32) * 8
        &&& (((b0 >> 5u8) | ((b1 & 0x03u8) << 3u8)) * 8) as u8 == (((b0 + 256 * b1) / 32) % 32) * 8
        &&& ((b0 & 0x1fu8) * 8) as u8 == ((b0 + 256 * b1) % 32) * 8
        &&& ((b1 >> 7u8) * 255) as u8 == ((b0 + 256 * b1) / 32768) * 255
    }) by (bit_vector);
}

/// What the Xbox decoder shows as pixel `q` of the texture, taken from input
/// pixel `s` (its Morton position where the format is swizzled): ARGB8 is
/// copied as stored; ARGB4 holds B and G in the first byte, R and A in the
/// second, each nibble scaled by 17; RGB565 is a little-endian 16-bit value
/// whose 5- and 6-bit channels are widened by repeating their top bits;
/// ARGB1555 channels are scaled by 8 and its alpha bit becomes 0 or 255.
pub proof fn law_xbox_pixels(fmt: InternalFormat, input: Seq<u8>, w: int, h: int, old: Seq<u8>, q: int)
    requires
        fmt.bc() is None,
        fmt != InternalFormat::P8,
        0 <= w,
        0 <= h,
        0 <= q < w * h,
        4 * q + 4 <= old.len(),
        ({
            let s = (if fmt == InternalFormat::ARGB8Linear || fmt == InternalFormat::XRGB1555 { q } else { deswizzle_spec((q % w) as u32, (q / w) as u32, w as u32, h as u32) as int });
            4 * s + 4 <= old.len() && s * pixel_size(fmt) + pixel_size(fmt) <= input.len()
        }),
    ensures
        ({
            let out = xbox_output(fmt, input, w, h, old);
            let s = (if fmt == InternalFormat::ARGB8Linear || fmt == InternalFormat::XRGB1555 { q } else { deswizzle_spec((q % w) as u32, (q / w) as u32, w as u32, h as u32) as int });
            let b0 = input[2 * s];
            let b1 = input[2 * s + 1];
            let n = b0 + 256 * b1;
            let c5 = n % 32;
            let c6 = (n / 32) % 64;
            let c5h = n / 2048;
            &&& (fmt == InternalFormat::ARGB8 || fmt == InternalFormat::ARGB8Linear) ==> {
                &&& out[4 * q] == input[4 * s]
                &&& out[4 * q + 1] == input[4 * s + 1]
                &&& out[4 * q + 2] == input[4 * s + 2]
                &&& out[4 * q + 3] == input[4 * s + 3]
            }
            &&& fmt == InternalFormat::ARGB4 ==> {
                &&& out[4 * q] == (b0 % 16) * 17
                &&& out[4 * q + 1] == (b0 / 16) * 17
                &&& out[4 * q + 2] == (b1 % 16) * 17
                &&& out[4 * q + 3] == (b1 / 16) * 17
            }
            &&& fmt == InternalFormat::RGB565 ==> {
                &&& out[4 * q] == c5 * 8 + c5 / 4
                &&& out[4 * q + 1] == c6 * 4 + c6 / 16
                &&& out[4 * q + 2] == c5h * 8 + c5h / 4
                &&& out[4 * q + 3] == 255
            }
            &&& (fmt == InternalFormat::ARGB1555 || fmt == InternalFormat::XRGB1555) ==> {
                &&& out[4 * q] == ((n / 1024) % 32) * 8
                &&& out[4 * q + 1] == ((n / 32) % 32) * 8
                &&& out[4 * q + 2] == (n % 32) * 8
                &&& out[4 * q + 3] == (n / 32768) * 255
            }
        }),
{
    let s = (if fmt == InternalFormat::ARGB8Linear || fmt == InternalFormat::XRGB1555 { q } else { deswizzle_spec((q % w) as u32, (q / w) as u32, w as u32, h as u32) as int });
    assert(fmt.swizzled() <==> !(fmt == InternalFormat::ARGB8Linear || fmt == InternalFormat::XRGB1555));
    super::pc::lemma_pixel_in_input(input.len() as int, pixel_size(fmt) as int, s);
    super::pc::lemma_pixel_bytes(q);
    super::pc::lemma_pixel_bytes(s);
    if fmt.swizzled() {
        assert(w > 0) by (nonlinear_arith)
            requires 0 <= q < w * h, h >= 0, w >= 0;
        assert(q / w < h) by (nonlinear_arith)
            requires 0 <= q < w * h, w > 0;
    }
    if fmt != InternalFormat::ARGB8 && fmt != InternalFormat::ARGB8Linear {
        let b0 = input[2 * s];
        let b1 = input[2 * s + 1];
        lemma_xbox_fields(b0, b1);
        super::bits::lemma_widening_arith(b0 & 0x1fu8);
        super::bits::lemma_widening_arith((b0 >> 5u8) | ((b1 & 0x07u8) << 3u8));
        super::bits::lemma_widening_arith(b1 >> 3u8);
        super::bits::lemma_widening_arith(b0 & 0x0fu8);
        super::bits::lemma_widening_arith(b0 >> 4u8);
        super::bits::lemma_widening_arith(b1 & 0x0fu8);
        super::bits::lemma_widening_arith(b1 >> 4u8);
    }
}

} // verus!
