//! PC textures: BC formats and plain 16/32-bit formats, stored linearly.
use vstd::prelude::*;
use super::bcn::{BcFormat, bc_data_bytes, squish_decompressed, squish_decompress};
use super::TextureError;

verus! {

/// Decoder for PC textures.
pub struct PcTextureDecoder;

/// The PC texture formats.
#[derive(Debug, Clone, Copy, PartialEq, Eq, Structural)]
pub enum InternalFormat {
    RGB565,
    ARGB1555,
    Dxt1,
    Dxt1Alpha,
    Dxt2,
    ARGB4,
    ARGB8,
    Dxt3,
    Dxt4,
    Dxt5,
}

impl InternalFormat {
    /// The format numbered `v`.
    pub open spec fn from_number(v: u8) -> Option<InternalFormat> {
        if v == 0 {
            Some(InternalFormat::RGB565)
        } else if v == 1 {
            Some(InternalFormat::ARGB1555)
        } else if v == 2 {
            Some(InternalFormat::Dxt1)
        } else if v == 3 {
            Some(InternalFormat::Dxt1Alpha)
        } else if v == 4 {
            Some(InternalFormat::Dxt2)
        } else if v == 5 {
            Some(InternalFormat::ARGB4)
        } else if v == 6 {
            Some(InternalFormat::ARGB8)
        } else if v == 7 {
            Some(InternalFormat::Dxt3)
        } else if v == 8 {
            Some(InternalFormat::Dxt4)
        } else if v == 9 {
            Some(InternalFormat::Dxt5)
        } else {
            None
        }
    }

    /// Looks a format up by its number.
    pub fn n(v: u8) -> (r: Option<InternalFormat>)
        ensures
            r == Self::from_number(v),
    {
        match v {
            0 => Some(InternalFormat::RGB565),
            1 => Some(InternalFormat::ARGB1555),
            2 => Some(InternalFormat::Dxt1),
            3 => Some(InternalFormat::Dxt1Alpha),
            4 => Some(InternalFormat::Dxt2),
            5 => Some(InternalFormat::ARGB4),
            6 => Some(InternalFormat::ARGB8),
            7 => Some(InternalFormat::Dxt3),
            8 => Some(InternalFormat::Dxt4),
            9 => Some(InternalFormat::Dxt5),
            _ => None,
        }
    }

    /// Bits per pixel.
    pub open spec fn bits_per_pixel(self) -> nat {
        match self {
            InternalFormat::RGB565 | InternalFormat::ARGB1555 | InternalFormat::ARGB4 => 16,
            InternalFormat::ARGB8 => 32,
            InternalFormat::Dxt1 | InternalFormat::Dxt1Alpha => 4,
            _ => 8,
        }
    }

    /// Bits per pixel.
    pub fn bpp(&self) -> (r: usize)
        ensures
            r == self.bits_per_pixel(),
    {
        match self {
            InternalFormat::RGB565 | InternalFormat::ARGB1555 => 16,
            InternalFormat::ARGB4 => 16,
            InternalFormat::ARGB8 => 32,
            InternalFormat::Dxt1 | InternalFormat::Dxt1Alpha => 4,
            InternalFormat::Dxt2 => 8,
            InternalFormat::Dxt3 => 8,
            InternalFormat::Dxt4 => 8,
            InternalFormat::Dxt5 => 8,
        }
    }

    /// The block-compression format of the DXT formats.
    pub open spec fn bc(self) -> Option<BcFormat> {
        match self {
            InternalFormat::Dxt1 | InternalFormat::Dxt1Alpha => Some(BcFormat::Bc1),
            InternalFormat::Dxt2 | InternalFormat::Dxt3 => Some(BcFormat::Bc2),
            InternalFormat::Dxt4 | InternalFormat::Dxt5 => Some(BcFormat::Bc3),
            _ => None,
        }
    }
}

/// Bytes per pixel of the uncompressed formats this decoder converts.
pub open spec fn pixel_size(fmt: InternalFormat) -> nat {
    if fmt == InternalFormat::ARGB8 { 4 } else { 2 }
}

/// Channel `k` of uncompressed pixel `p`: BGRA8 swapped to RGBA, RGB565
/// (little endian) with channels scaled by shifting, or ARGB1555.
pub open spec fn pc_channel(fmt: InternalFormat, input: Seq<u8>, p: int, k: int) -> u8 {
    match fmt {
        InternalFormat::ARGB8 => if k == 0 {
            input[4 * p + 2]
        } else if k == 1 {
            input[4 * p + 1]
        } else if k == 2 {
            input[4 * p]
        } else {
            input[4 * p + 3]
        },
        InternalFormat::RGB565 => {
            let v = ((input[2 * p + 1] as u16) << 8u16) | (input[2 * p] as u16);
            if k == 0 {
                ((((v >> 11u16) as u8) & 0x1fu8) * 8) as u8
            } else if k == 1 {
                ((((v >> 5u16) as u8) & 0x3fu8) * 4) as u8
            } else if k == 2 {
                (((v as u8) & 0x1fu8) * 8) as u8
            } else {
                255
            }
        },
        _ => {
            let b0 = input[2 * p];
            let b1 = input[2 * p + 1];
            if k == 0 {
                (((b1 & 0x7cu8) >> 2u8) * 8) as u8
            } else if k == 1 {
                (((b0 >> 5u8) | ((b1 & 0x03u8) << 3u8)) * 8) as u8
            } else if k == 2 {
                ((b0 & 0x1fu8) * 8) as u8
            } else {
                ((b1 >> 7u8) * 255) as u8
            }
        },
    }
}

/// What the PC decoder returns, checks in order.
pub open spec fn pc_check(w: u32, h: u32, d: u32, format: u8, out_len: int) -> Result<InternalFormat, TextureError> {
    match InternalFormat::from_number(format) {
        None => Err(TextureError::InvalidFormat(format)),
        Some(f) => if out_len != w * h * d * 4 {
            Err(TextureError::OutputSizeMismatch)
        } else if f == InternalFormat::ARGB4 {
            Err(TextureError::UnsupportedFormat)
        } else {
            Ok(f)
        },
    }
}

/// Sizes on which the decoder stays inside its buffers: the compressed
/// blocks are all there, and every whole input pixel lands on a pixel of the
/// output, which holds all `depth` slices.
pub open spec fn pc_in_bounds(fmt: InternalFormat, input_len: int, w: int, h: int, len: int) -> bool {
    match fmt.bc() {
        Some(bc) => w + 3 <= usize::MAX && h + 3 <= usize::MAX && bc_data_bytes(bc, w as nat, h as nat) <= input_len
            && w * h * 4 <= len,
        None => (input_len / (pixel_size(fmt) as int)) * 4 <= len,
    }
}

/// The decoded texture.
pub open spec fn pc_output(fmt: InternalFormat, input: Seq<u8>, w: int, h: int, old: Seq<u8>) -> Seq<u8> {
    match fmt.bc() {
        Some(bc) => squish_decompressed(bc, input, w as nat, h as nat) + old.subrange(w * h * 4, old.len() as int),
        None => Seq::new(
            old.len(),
            |i: int|
                if i / 4 < input.len() / pixel_size(fmt) {
                    pc_channel(fmt, input, i / 4, i % 4)
                } else {
                    old[i]
                },
        ),
    }
}

fn pc_bc(fmt: InternalFormat) -> (r: Option<BcFormat>)
    ensures
        r == fmt.bc(),
{
    match fmt {
        InternalFormat::Dxt1 | InternalFormat::Dxt1Alpha => Some(BcFormat::Bc1),
        InternalFormat::Dxt2 | InternalFormat::Dxt3 => Some(BcFormat::Bc2),
        InternalFormat::Dxt4 | InternalFormat::Dxt5 => Some(BcFormat::Bc3),
        _ => None,
    }
}

/// The 1555 and 565 channels stay below 32 (64 for green, 2 for alpha).
proof fn lemma_pc_ranges(b0: u8, b1: u8, v: u16)
    ensures
        b0 & 0x1fu8 < 32,
        (b0 >> 5u8) | ((b1 & 0x03u8) << 3u8) < 32,
        (b1 & 0x7cu8) >> 2u8 < 32,
        b1 >> 7u8 < 2,
        ((v >> 11u16) as u8) & 0x1fu8 < 32,
        ((v >> 5u16) as u8) & 0x3fu8 < 64,
        (v as u8) & 0x1fu8 < 32,
{
    assert({
        &&& b0 & 0x1fu8 < 32
        &&& (b0 >> 5u8) | ((b1 & 0x03u8) << 3u8) < 32
        &&& (b1 & 0x7cu8) >> 2u8 < 32
        &&& b1 >> 7u8 < 2
        &&& ((v >> 11u16) as u8) & 0x1fu8 < 32
        &&& ((v >> 5u16) as u8) & 0x3fu8 < 64
        &&& (v as u8) & 0x1fu8 < 32
    }) by (bit_vector);
}

fn pc_pixel(fmt: InternalFormat, input: &[u8], p: usize) -> (r: (u8, u8, u8, u8))
    requires
        fmt.bc() is None,
        fmt != InternalFormat::ARGB4,
        (p + 1) * pixel_size(fmt) <= input.len(),
    ensures
        r.0 == pc_channel(fmt, input@, p as int, 0),
        r.1 == pc_channel(fmt, input@, p as int, 1),
        r.2 == pc_channel(fmt, input@, p as int, 2),
        r.3 == pc_channel(fmt, input@, p as int, 3),
{
    match fmt {
        InternalFormat::ARGB8 => (input[4 * p + 2], input[4 * p + 1], input[4 * p], input[4 * p + 3]),
        InternalFormat::RGB565 => {
            let value = ((input[2 * p + 1] as u16) << 8) | (input[2 * p] as u16);
            proof {
                lemma_pc_ranges(0, 0, value);
            }
            (
                ((value >> 11) as u8 & 0x1f) * 8,
                ((value >> 5) as u8 & 0x3f) * 4,
                (value as u8 & 0x1f) * 8,
                0xff,
            )
        },
        _ => {
            let b0 = input[2 * p];
            let b1 = input[2 * p + 1];
            let b = b0 & 0x1f;
            let g = (b0 >> 5) | ((b1 & 0x03) << 3);
            let r = (b1 & 0x7c) >> 2;
            let a = b1 >> 7;
            proof {
                lemma_pc_ranges(b0, b1, 0);
            }
            (r * 8, g * 8, b * 8, a * 255)
        },
    }
}

impl PcTextureDecoder {
    /// Bytes of pixel data a texture of this size and format needs.
    pub fn get_data_size(&self, width: u32, height: u32, depth: u32, format: u8) -> (r: Result<usize, TextureError>)
        requires
            width * height <= usize::MAX,
            width * height * depth <= usize::MAX,
            InternalFormat::from_number(format) matches Some(f) ==> super::dims_fit(width, height, depth, f.bits_per_pixel()),
        ensures
            match InternalFormat::from_number(format) {
                Some(f) => r == Ok::<usize, TextureError>(super::data_bytes(width, height, depth, f.bits_per_pixel()) as usize),
                None => r == Err::<usize, TextureError>(TextureError::InvalidFormat(format)),
            },
    {
        let pixels = super::pixel_count(width, height, depth);
        let fmt = match InternalFormat::n(format) {
            Some(f) => f,
            None => return Err(TextureError::InvalidFormat(format)),
        };
        Ok(super::rounded_bytes(pixels, fmt.bpp()))
    }

    /// Whether `decode` accepts these sizes: an input of `input_len` bytes
    /// and an output of `output_len` bytes for a texture of this size and
    /// format. Where `decode` would fail with an error this holds too.
    pub fn decodable(&self, input_len: usize, width: u32, height: u32, depth: u32, format: u8, output_len: usize) -> (r: bool)
        ensures
            r == ((InternalFormat::from_number(format) is Some ==> super::output_fits(width, height, depth)) && (pc_check(
                width,
                height,
                depth,
                format,
                output_len as int,
            ) matches Ok(f) ==> pc_in_bounds(f, input_len as int, width as int, height as int, output_len as int))),
    {
        let fmt = match InternalFormat::n(format) {
            Some(f) => f,
            None => return true,
        };
        if !super::output_size_fits(width, height, depth) {
            return false;
        }
        let pixels = super::pixel_count(width, height, depth);
        if output_len != pixels * 4 || matches!(fmt, InternalFormat::ARGB4) {
            return true;
        }
        let wh4 = width as u128 * height as u128 * 4;
        match pc_bc(fmt) {
            Some(bc) => (width as usize) < usize::MAX - 2 && (height as usize) < usize::MAX - 2
                && super::bcn::bc_fits(bc, width, height, input_len) && wh4 <= output_len as u128,
            None => {
                let size: usize = if matches!(fmt, InternalFormat::ARGB8) { 4 } else { 2 };
                (input_len / size) as u128 * 4 <= output_len as u128
            },
        }
    }

    /// Decodes a PC texture into RGBA8 `output` (row width `width`).
    pub fn decode(
        &self,
        input: &[u8],
        output: &mut Vec<u8>,
        width: u32,
        height: u32,
        depth: u32,
        format: u8,
    ) -> (res: Result<(), TextureError>)
        requires
            InternalFormat::from_number(format) is Some ==> super::output_fits(width, height, depth),
            pc_check(width, height, depth, format, old(output)@.len() as int) matches Ok(f)
                ==> pc_in_bounds(f, input@.len() as int, width as int, height as int, old(output)@.len() as int),
        ensures
            match pc_check(width, height, depth, format, old(output)@.len() as int) {
                Ok(f) => res is Ok && final(output)@ == pc_output(f, input@, width as int, height as int, old(output)@),
                Err(e) => res == Err::<(), TextureError>(e) && final(output)@ == old(output)@,
            },
    {
        let fmt = match InternalFormat::n(format) {
            Some(f) => f,
            None => return Err(TextureError::InvalidFormat(format)),
        };
        let pixels = super::pixel_count(width, height, depth);
        if output.len() != pixels * 4 {
            return Err(TextureError::OutputSizeMismatch);
        }
        let ghost start = output@;
        let ghost w = width as int;
        let ghost h = height as int;
        match pc_bc(fmt) {
            Some(bc) => {
                squish_decompress(bc, input, width as usize, height as usize, output);
                proof {
                    let n = w * h * 4;
                    assert(output@ =~= output@.subrange(0, n) + output@.subrange(n, start.len() as int));
                }
            },
            None => {
                if fmt == InternalFormat::ARGB4 {
                    return Err(TextureError::UnsupportedFormat);
                }
                let ps: usize = if fmt == InternalFormat::ARGB8 { 4 } else { 2 };
                let npix = input.len() / ps;
                let len = output.len();
                let mut p: usize = 0;
                while p < npix
                    invariant
                        fmt.bc() is None,
                        fmt != InternalFormat::ARGB4,
                        ps == pixel_size(fmt),
                        npix == input@.len() / pixel_size(fmt),
                        npix * 4 <= len,
                        len == output.len(),
                        output@.len() == start.len(),
                        p <= npix,
                        forall|i: int| 0 <= i < 4 * p ==> output@[i] == pc_channel(fmt, input@, i / 4, i % 4),
                        forall|i: int| 4 * p <= i < len ==> output@[i] == start[i],
                    decreases npix - p,
                {
                    proof {
                        assert((p + 1) * ps <= npix * ps) by (nonlinear_arith)
                            requires p < npix;
                        vstd::arithmetic::div_mod::lemma_fundamental_div_mod(input.len() as int, ps as int);
                    }
                    let px = pc_pixel(fmt, input, p);
                    output[4 * p] = px.0;
                    output[4 * p + 1] = px.1;
                    output[4 * p + 2] = px.2;
                    output[4 * p + 3] = px.3;
                    proof {
                        assert forall|i: int| 0 <= i < 4 * (p + 1) implies output@[i] == pc_channel(fmt, input@, i / 4, i % 4) by {
                            if i >= 4 * p {
                                vstd::arithmetic::div_mod::lemma_fundamental_div_mod_converse(i, 4, p as int, i - 4 * p);
                            }
                        }
                    }
                    p = p + 1;
                }
                proof {
                    assert forall|i: int| 0 <= i < len implies output@[i] == #[trigger] pc_output(fmt, input@, w, h, start)[i] by {
                        if i < 4 * npix {
                            assert(i / 4 < npix);
                        } else {
                            assert(i / 4 >= npix);
                        }
                    }
                    assert(output@ =~= pc_output(fmt, input@, w, h, start));
                }
            },
        }
        Ok(())
    }
}

/// The channels of RGB565 and ARGB1555 pixels as arithmetic on the
/// little-endian 16-bit value.
proof fn lemma_pc_16bit(b0: u8, b1: u8)
    ensures
        ({
            let v = ((b1 as u16) << 8u16) | (b0 as u16);
            let n = b0 + 256 * b1;
            &&& ((((v >> 11u16) as u8) & 0x1fu8) * 8) as u8 == (n / 2048) * 8
            &&& ((((v >> 5u16) as u8) & 0x3fu8) * 4) as u8 == ((n / 32) % 64) * 4
            &&& (((v as u8) & 0x1fu8) * 8) as u8 == (n % 32) * 8
        }),
        (((b1 & 0x7cu8) >> 2u8) * 8) as u8 == (((b0 + 256 * b1) / 1024) % 32) * 8,
        (((b0 >> 5u8) | ((b1 & 0x03u8) << 3u8)) * 8) as u8 == (((b0 + 256 * b1) / 32) % 32) * 8,
        ((b0 & 0x1fu8) * 8) as u8 == ((b0 + 256 * b1) % 32) * 8,
        ((b1 >> 7u8) * 255) as u8 == ((b0 + 256 * b1) / 32768) * 255,
{
    assert({
        let v = ((b1 as u16) << 8u16) | (b0 as u16);
        let n = b0 + 256 * b1;
        &&& ((((v >> 11u16) as u8) & 0x1fu8) * 8) as u8 == (n / 2048) * 8
        &&& ((((v >> 5u16) as u8) & 0x3fu8) * 4) as u8 == ((n / 32) % 64) * 4
        &&& (((v as u8) & 0x1fu8) * 8) as u8 == (n % 32) * 8
        &&& (((b1 & 0x7cu8) >> 2u8) * 8) as u8 == ((n / 1024) % 32) * 8
        &&& (((b0 >> 5u8) | ((b1 & 0x03u8) << 3u8)) * 8) as u8 == ((n / 32) % 32) * 8
        &&& ((b0 & 0x1fu8) * 8) as u8 == (n % 32) * 8
        &&& ((b1 >> 7u8) * 255) as u8 == (n / 32768) * 255
    }) by (bit_vector);
}

/// Bytes `4p` to `4p + 3` belong to pixel `p`.
pub proof fn lemma_pixel_bytes(p: int)
    requires
        0 <= p,
    ensures
        (4 * p) / 4 == p && (4 * p) % 4 == 0,
        (4 * p + 1) / 4 == p && (4 * p + 1) % 4 == 1,
        (4 * p + 2) / 4 == p && (4 * p + 2) % 4 == 2,
        (4 * p + 3) / 4 == p && (4 * p + 3) % 4 == 3,
{
    vstd::arithmetic::div_mod::lemma_fundamental_div_mod_converse(4 * p, 4, p, 0);
    vstd::arithmetic::div_mod::lemma_fundamental_div_mod_converse(4 * p + 1, 4, p, 1);
    vstd::arithmetic::div_mod::lemma_fundamental_div_mod_converse(4 * p + 2, 4, p, 2);
    vstd::arithmetic::div_mod::lemma_fundamental_div_mod_converse(4 * p + 3, 4, p, 3);
}

/// A pixel whose bytes the input holds lies below the pixel count.
pub proof fn lemma_pixel_in_input(len: int, size: int, p: int)
    requires
        size > 0,
        0 <= p,
        p * size + size <= len,
    ensures
        p < len / size,
{
    vstd::arithmetic::div_mod::lemma_fundamental_div_mod(len, size);
    let q = len / size;
    vstd::arithmetic::div_mod::lemma_mod_bound(len, size);
    let r = len % size;
    assert(p < q) by (nonlinear_arith)
        requires
            len == size * q + r,
            r < size,
            p * size + size <= len,
            size > 0,
    ;
}

/// What the PC decoder makes of uncompressed pixel `p`, for every pixel
/// the input holds: ARGB8 is stored B, G, R, A; RGB565 and ARGB1555 are
/// little-endian 16-bit values whose 5- and 6-bit channels are scaled by 8
/// and 4 (ARGB1555 alpha bit to 0 or 255).
pub proof fn law_pc_pixels(fmt: InternalFormat, input: Seq<u8>, w: int, h: int, old: Seq<u8>, p: int)
    requires
        fmt == InternalFormat::ARGB8 || fmt == InternalFormat::RGB565 || fmt == InternalFormat::ARGB1555,
        0 <= p,
        4 * p + 4 <= old.len(),
        fmt == InternalFormat::ARGB8 ==> 4 * p + 4 <= input.len(),
        fmt != InternalFormat::ARGB8 ==> 2 * p + 2 <= input.len(),
    ensures
        ({
            let out = pc_output(fmt, input, w, h, old);
            let n = input[2 * p] + 256 * input[2 * p + 1];
            &&& fmt == InternalFormat::ARGB8 ==> {
                &&& out[4 * p] == input[4 * p + 2]
                &&& out[4 * p + 1] == input[4 * p + 1]
                &&& out[4 * p + 2] == input[4 * p]
                &&& out[4 * p + 3] == input[4 * p + 3]
            }
            &&& fmt == InternalFormat::RGB565 ==> {
                &&& out[4 * p] == (n / 2048) * 8
                &&& out[4 * p + 1] == ((n / 32) % 64) * 4
                &&& out[4 * p + 2] == (n % 32) * 8
                &&& out[4 * p + 3] == 255
            }
            &&& fmt == InternalFormat::ARGB1555 ==> {
                &&& out[4 * p] == ((n / 1024) % 32) * 8
                &&& out[4 * p + 1] == ((n / 32) % 32) * 8
                &&& out[4 * p + 2] == (n % 32) * 8
                &&& out[4 * p + 3] == (n / 32768) * 255
            }
        }),
{
    lemma_pixel_in_input(input.len() as int, pixel_size(fmt) as int, p);
    lemma_pixel_bytes(p);
    if fmt != InternalFormat::ARGB8 {
        lemma_pc_16bit(input[2 * p], input[2 * p + 1]);
    }
}

} // verus!
