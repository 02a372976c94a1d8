//! Xbox 360 (Xenon) textures: BC formats stored as big-endian 16-bit words,
//! and plain 16/32-bit formats.
use vstd::prelude::*;
use super::bits::{widen4, widen5, widen6, convert_4_to_8, convert_5_to_8, convert_6_to_8};
use super::bcn::{BcFormat, bc_data_bytes, squish_decompressed, squish_decompress};
use super::TextureError;

verus! {

/// Decoder for Xbox 360 textures.
pub struct XenonTextureDecoder;

/// The Xbox 360 texture formats.
#[derive(Debug, Clone, Copy, PartialEq, Eq, Structural)]
pub enum InternalFormat {
    Dxt1,
    Dxt2,
    Dxt3,
    Dxt5,
    RGB565,
    ARGB4,
    ARGB8,
}

impl InternalFormat {
    /// The format numbered `v`.
    pub open spec fn from_number(v: u8) -> Option<InternalFormat> {
        if v == 0 {
            Some(InternalFormat::Dxt1)
        } else if v == 1 {
            Some(InternalFormat::Dxt2)
        } else if v == 3 {
            Some(InternalFormat::Dxt3)
        } else if v == 5 {
            Some(InternalFormat::Dxt5)
        } else if v == 6 {
            Some(InternalFormat::RGB565)
        } else if v == 8 {
            Some(InternalFormat::ARGB4)
        } else if v == 9 {
            Some(InternalFormat::ARGB8)
        } else {
            None
        }
    }

    /// Looks a format up by its number.
    pub fn n(v: u8) -> (r: Option<InternalFormat>)
        ensures
            r == Self::from_number(v),
    {
        match v {
            0 => Some(InternalFormat::Dxt1),
            1 => Some(InternalFormat::Dxt2),
            3 => Some(InternalFormat::Dxt3),
            5 => Some(InternalFormat::Dxt5),
            6 => Some(InternalFormat::RGB565),
            8 => Some(InternalFormat::ARGB4),
            9 => Some(InternalFormat::ARGB8),
            _ => None,
        }
    }

    /// Bits per pixel.
    pub open spec fn bits_per_pixel(self) -> nat {
        match self {
            InternalFormat::RGB565 | InternalFormat::ARGB4 => 16,
            InternalFormat::ARGB8 => 32,
            InternalFormat::Dxt1 | InternalFormat::Dxt2 => 4,
            InternalFormat::Dxt3 | InternalFormat::Dxt5 => 8,
        }
    }

    /// Bits per pixel.
    pub fn bpp(&self) -> (r: usize)
        ensures
            r == self.bits_per_pixel(),
    {
        match self {
            InternalFormat::RGB565 | InternalFormat::ARGB4 => 16,
            InternalFormat::ARGB8 => 32,
            InternalFormat::Dxt1 | InternalFormat::Dxt2 => 4,
            InternalFormat::Dxt3 | InternalFormat::Dxt5 => 8,
        }
    }

    /// The block-compression format of the DXT formats.
    pub open spec fn bc(self) -> Option<BcFormat> {
        match self {
            InternalFormat::Dxt1 | InternalFormat::Dxt2 => Some(BcFormat::Bc1),
            InternalFormat::Dxt3 => Some(BcFormat::Bc2),
            InternalFormat::Dxt5 => Some(BcFormat::Bc3),
            _ => None,
        }
    }
}

/// `buf` with the two bytes of every 16-bit word exchanged.
pub open spec fn swapped16(buf: Seq<u8>) -> Seq<u8> {
    Seq::new(buf.len(), |i: int| if i % 2 == 0 { buf[i + 1] } else { buf[i - 1] })
}

/// Exchanges the two bytes of every 16-bit word of `buffer`.
pub fn swap_endianness16(buffer: &mut Vec<u8>)
    requires
        old(buffer)@.len() % 2 == 0,
    ensures
        final(buffer)@ == swapped16(old(buffer)@),
{
    let ghost start = buffer@;
    let len = buffer.len();
    let mut i: usize = 0;
    while i < len
        invariant
            len == buffer.len(),
            len == start.len(),
            len % 2 == 0,
            i % 2 == 0,
            i <= len,
            forall|j: int| 0 <= j < i ==> buffer@[j] == swapped16(start)[j],
            forall|j: int| i <= j < len ==> buffer@[j] == start[j],
        decreases len - i,
    {
        let a = buffer[i];
        buffer[i] = buffer[i + 1];
        buffer[i + 1] = a;
        i = i + 2;
    }
    assert(buffer@ =~= swapped16(start));
}

/// Swapping the bytes of every word twice gives the words back.
pub proof fn law_swap_endianness_involution(buf: Seq<u8>)
    requires
        buf.len() % 2 == 0,
    ensures
        swapped16(swapped16(buf)) == buf,
{
    assert(swapped16(swapped16(buf)) =~= buf);
}

/// After the swap every 16-bit word reads little-endian as it read
/// big-endian before: its high byte comes second, its low byte first.
pub proof fn law_swap_endianness_words(buf: Seq<u8>, j: int)
    requires
        buf.len() % 2 == 0,
        0 <= j,
        2 * j + 2 <= buf.len(),
    ensures
        swapped16(buf)[2 * j] + 256 * swapped16(buf)[2 * j + 1] == 256 * buf[2 * j] + buf[2 * j + 1],
        swapped16(buf).len() == buf.len(),
{
    vstd::arithmetic::div_mod::lemma_fundamental_div_mod_converse(2 * j, 2, j, 0);
    vstd::arithmetic::div_mod::lemma_fundamental_div_mod_converse(2 * j + 1, 2, j, 1);
}

/// Bytes per pixel of the uncompressed formats.
pub open spec fn pixel_size(fmt: InternalFormat) -> nat {
    if fmt == InternalFormat::ARGB8 { 4 } else { 2 }
}

/// Channel `k` of uncompressed pixel `p` as the Xenon decoder writes it.
pub open spec fn xenon_channel(fmt: InternalFormat, input: Seq<u8>, p: int, k: int) -> u8 {
    match fmt {
        InternalFormat::ARGB8 => if k == 3 { input[4 * p] } else { input[4 * p + k + 1] },
        InternalFormat::ARGB4 => {
            let b0 = input[2 * p];
            let b1 = input[2 * p + 1];
            if k == 0 {
                widen4(b0 & 0x0fu8)
            } else if k == 1 {
                widen4(b1 >> 4u8)
            } else if k == 2 {
                widen4(b1 & 0x0fu8)
            } else {
                widen4(b0 >> 4u8)
            }
        },
        _ => {
            let b0 = input[2 * p];
            let b1 = input[2 * p + 1];
            if k == 0 {
                widen5(b0 >> 3u8)
            } else if k == 1 {
                widen6((b1 >> 5u8) | ((b0 & 0x07u8) << 3u8))
            } else if k == 2 {
                widen5(b1 & 0x1fu8)
            } else {
                255
            }
        },
    }
}

/// What the Xenon decoder returns.
pub open spec fn xenon_check(w: u32, h: u32, d: u32, format: u8, out_len: int) -> Result<InternalFormat, TextureError> {
    match InternalFormat::from_number(format) {
        None => Err(TextureError::InvalidFormat(format)),
        Some(f) => if out_len != w * h * d * 4 {
            Err(TextureError::OutputSizeMismatch)
        } else {
            Ok(f)
        },
    }
}

/// Sizes on which the decoder stays inside its buffers (and BC input is
/// whole 16-bit words).
pub open spec fn xenon_in_bounds(fmt: InternalFormat, input_len: int, w: int, h: int, len: int) -> bool {
    match fmt.bc() {
        Some(bc) => input_len % 2 == 0 && w + 3 <= usize::MAX && h + 3 <= usize::MAX && bc_data_bytes(bc, w as nat, h as nat)
            <= input_len && w * h * 4 <= len,
        None => (input_len / (pixel_size(fmt) as int)) * 4 <= len,
    }
}

/// The decoded texture: BC data with its words byte-swapped, decompressed
/// and padded with zeros, or one decoded pixel per whole input pixel padded
/// with zeros.
pub open spec fn xenon_output(fmt: InternalFormat, input: Seq<u8>, w: int, h: int, len: int) -> Seq<u8> {
    match fmt.bc() {
        Some(bc) => squish_decompressed(bc, swapped16(input), w as nat, h as nat) + Seq::new((len - w * h * 4) as nat, |i: int| 0u8),
        None => Seq::new(
            len as nat,
            |i: int|
                if i / 4 < input.len() / pixel_size(fmt) {
                    xenon_channel(fmt, input, i / 4, i % 4)
                } else {
                    0
                },
        ),
    }
}

fn xenon_bc(fmt: InternalFormat) -> (r: Option<BcFormat>)
    ensures
        r == fmt.bc(),
{
    match fmt {
        InternalFormat::Dxt1 | InternalFormat::Dxt2 => Some(BcFormat::Bc1),
        InternalFormat::Dxt3 => Some(BcFormat::Bc2),
        InternalFormat::Dxt5 => Some(BcFormat::Bc3),
        _ => None,
    }
}

fn xenon_pixel(fmt: InternalFormat, input: &[u8], p: usize) -> (r: (u8, u8, u8, u8))
    requires
        fmt.bc() is None,
        (p + 1) * pixel_size(fmt) <= input.len(),
    ensures
        r.0 == xenon_channel(fmt, input@, p as int, 0),
        r.1 == xenon_channel(fmt, input@, p as int, 1),
        r.2 == xenon_channel(fmt, input@, p as int, 2),
        r.3 == xenon_channel(fmt, input@, p as int, 3),
{
    match fmt {
        InternalFormat::ARGB8 => (input[4 * p + 1], input[4 * p + 2], input[4 * p + 3], input[4 * p]),
        InternalFormat::ARGB4 => {
            let b0 = input[2 * p];
            let b1 = input[2 * p + 1];
            let r = b1 & 0x0f;
            let g = b1 >> 4;
            let b = b0 & 0x0f;
            let a = b0 >> 4;
            (convert_4_to_8(b), convert_4_to_8(g), convert_4_to_8(r), convert_4_to_8(a))
        },
        _ => {
            let b0 = input[2 * p];
            let b1 = input[2 * p + 1];
            let r = b1 & 0x1f;
            let g = (b1 >> 5) | ((b0 & 0x07) << 3);
            let b = b0 >> 3;
            (convert_5_to_8(b), convert_6_to_8(g), convert_5_to_8(r), 255)
        },
    }
}

impl XenonTextureDecoder {
    /// Bytes of pixel data a texture of this size and format needs.
    pub fn get_data_size(&self, width: u32, height: u32, depth: u32, format: u8) -> (r: Result<usize, TextureError>)
        requires
            width * height <= usize::MAX,
            width * height * depth <= usize::MAX,
            InternalFormat::from_number(format) matches Some(f) ==> super::dims_fit(width, height, depth, f.bits_per_pixel()),
        ensures
            match InternalFormat::from_number(format) {
                Some(f) => r == Ok::<usize, TextureError>(super::data_bytes(width, height, depth, f.bits_per_pixel()) as usize),
                None => r == Err::<usize, TextureError>(TextureError::InvalidFormat(format)),
            },
    {
        let pixels = super::pixel_count(width, height, depth);
        let fmt = match InternalFormat::n(format) {
            Some(f) => f,
            None => return Err(TextureError::InvalidFormat(format)),
        };
        Ok(super::rounded_bytes(pixels, fmt.bpp()))
    }

    /// Whether `decode` accepts these sizes: an input of `input_len` bytes
    /// and an output of `output_len` bytes for a texture of this size and
    /// format. Where `decode` would fail with an error this holds too.
    pub fn decodable(&self, input_len: usize, width: u32, height: u32, depth: u32, format: u8, output_len: usize) -> (r: bool)
        ensures
            r == ((InternalFormat::from_number(format) is Some ==> super::output_fits(width, height, depth)) && (xenon_check(
                width,
                height,
                depth,
                format,
                output_len as int,
            ) matches Ok(f) ==> xenon_in_bounds(f, input_len as int, width as int, height as int, output_len as int))),
    {
        let fmt = match InternalFormat::n(format) {
            Some(f) => f,
            None => return true,
        };
        if !super::output_size_fits(width, height, depth) {
            return false;
        }
        let pixels = super::pixel_count(width, height, depth);
        if output_len != pixels * 4 {
            return true;
        }
        match xenon_bc(fmt) {
            Some(bc) => input_len % 2 == 0 && (width as usize) < usize::MAX - 2 && (height as usize) < usize::MAX - 2 && super::bcn::bc_fits(bc, width, height, input_len)
                && width as u128 * height as u128 * 4 <= output_len as u128,
            None => {
                let size: usize = if matches!(fmt, InternalFormat::ARGB8) { 4 } else { 2 };
                (input_len / size) as u128 * 4 <= output_len as u128
            },
        }
    }

    /// Decodes an Xbox 360 texture into RGBA8 `output` (row width `width`).
    pub fn decode(
        &self,
        input: &[u8],
        _clut: Option<&[u8]>,
        output: &mut Vec<u8>,
        width: u32,
        height: u32,
        depth: u32,
        format: u8,
        _version: u32,
    ) -> (res: Result<(), TextureError>)
        requires
            InternalFormat::from_number(format) is Some ==> super::output_fits(width, height, depth),
            xenon_check(width, height, depth, format, old(output)@.len() as int) matches Ok(f)
                ==> xenon_in_bounds(f, input@.len() as int, width as int, height as int, old(output)@.len() as int),
        ensures
            match xenon_check(width, height, depth, format, old(output)@.len() as int) {
                Ok(f) => res is Ok && final(output)@ == xenon_output(f, input@, width as int, height as int, old(output)@.len() as int),
                Err(e) => res == Err::<(), TextureError>(e) && final(output)@ == old(output)@,
            },
    {
        let fmt = match InternalFormat::n(format) {
            Some(f) => f,
            None => return Err(TextureError::InvalidFormat(format)),
        };
        let pixels = super::pixel_count(width, height, depth);
        if output.len() != pixels * 4 {
            return Err(TextureError::OutputSizeMismatch);
        }
        let len = output.len();
        let ghost w = width as int;
        let ghost h = height as int;
        let mut buffer: Vec<u8> = vec![0u8; len];
        let ghost zeros = buffer@;
        match xenon_bc(fmt) {
            Some(bc) => {
                let mut swapped = super::copy_bytes(input);
                swap_endianness16(&mut swapped);
                squish_decompress(bc, swapped.as_slice(), width as usize, height as usize, &mut buffer);
                proof {
                    let n = w * h * 4;
                    assert(buffer@ =~= buffer@.subrange(0, n) + buffer@.subrange(n, len as int));
                    assert(zeros.subrange(n, len as int) =~= Seq::new((len - n) as nat, |i: int| 0u8));
                }
            },
            None => {
                let ps: usize = if fmt == InternalFormat::ARGB8 { 4 } else { 2 };
                let npix = input.len() / ps;
                let mut p: usize = 0;
                while p < npix
                    invariant
                        fmt.bc() is None,
                        ps == pixel_size(fmt),
                        npix == input@.len() / pixel_size(fmt),
                        npix * 4 <= len,
                        len == buffer.len(),
                        buffer@.len() == len,
                        p <= npix,
                        forall|i: int| 0 <= i < 4 * p ==> buffer@[i] == xenon_channel(fmt, input@, i / 4, i % 4),
                        forall|i: int| 4 * p <= i < len ==> buffer@[i] == 0,
                    decreases npix - p,
                {
                    proof {
                        assert((p + 1) * ps <= npix * ps) by (nonlinear_arith)
                            requires p < npix;
                        vstd::arithmetic::div_mod::lemma_fundamental_div_mod(input.len() as int, ps as int);
                    }
                    let px = xenon_pixel(fmt, input, p);
                    buffer[4 * p] = px.0;
                    buffer[4 * p + 1] = px.1;
                    buffer[4 * p + 2] = px.2;
                    buffer[4 * p + 3] = px.3;
                    proof {
                        assert forall|i: int| 0 <= i < 4 * (p + 1) implies buffer@[i] == xenon_channel(fmt, input@, i / 4, i % 4) by {
                            if i >= 4 * p {
                                vstd::arithmetic::div_mod::lemma_fundamental_div_mod_converse(i, 4, p as int, i - 4 * p);
                            }
                        }
                    }
                    p = p + 1;
                }
                proof {
                    assert forall|i: int| 0 <= i < len implies buffer@[i] == #[trigger] xenon_output(fmt, input@, w, h, len as int)[i] by {
                        if i < 4 * npix {
                            assert(i / 4 < npix);
                        } else {
                            assert(i / 4 >= npix);
                        }
                    }
                }
            },
        }
        assert(buffer@ =~= xenon_output(fmt, input@, w, h, len as int));
        *output = buffer;
        Ok(())
    }
}

/// The narrow channels of big-endian 16-bit pixels as arithmetic on the
/// bytes.
proof fn lemma_xenon_fields(b0: u8, b1: u8)
    ensures
        b0 >> 3u8 == (256 * b0 + b1) / 2048,
        (b1 >> 5u8) | ((b0 & 0x07u8) << 3u8) == ((256 * b0 + b1) / 32) % 64,
        b1 & 0x1fu8 == (256 * b0 + b1) % 32,
        b0 & 0x0fu8 == b0 % 16,
        b0 >> 4u8 == b0 / 16,
        b1 & 0x0fu8 == b1 % 16,
        b1 >> 4u8 == b1 / 16,
{
    assert({
        &&& b0 >> 3u8 == (256 * b0 + b1) / 2048
        &&& (b1 >> 5u8) | ((b0 & 0x07u8) << 3u8) == ((256 * b0 + b1) / 32) % 64
        &&& b1 & 0x1fu8 == (256 * b0 + b1) % 32
        &&& b0 & 0x0fu8 == b0 % 16
        &&& b0 >> 4u8 == b0 / 16
        &&& b1 & 0x0fu8 == b1 % 16
        &&& b1 >> 4u8 == b1 / 16
    }) by (bit_vector);
}

/// What the Xbox 360 decoder makes of uncompressed pixel `p`, for every
/// pixel the input holds: ARGB8 is stored A, R, G, B; ARGB4 holds A and B
/// in the first byte, G and R in the second, each nibble scaled by 17;
/// RGB565 is a big-endian 16-bit value whose 5- and 6-bit channels are
/// widened by repeating their top bits.
pub proof fn law_xenon_pixels(fmt: InternalFormat, input: Seq<u8>, w: int, h: int, len: int, p: int)
    requires
        fmt == InternalFormat::ARGB8 || fmt == InternalFormat::ARGB4 || fmt == InternalFormat::RGB565,
        0 <= p,
        4 * p + 4 <= len,
        fmt == InternalFormat::ARGB8 ==> 4 * p + 4 <= input.len(),
        fmt != InternalFormat::ARGB8 ==> 2 * p + 2 <= input.len(),
    ensures
        ({
            let out = xenon_output(fmt, input, w, h, len);
            let b0 = input[2 * p];
            let b1 = input[2 * p + 1];
            let n = 256 * b0 + b1;
            let r = n / 2048;
            let g = (n / 32) % 64;
            let b = n % 32;
            &&& fmt == InternalFormat::ARGB8 ==> {
                &&& out[4 * p] == input[4 * p + 1]
                &&& out[4 * p + 1] == input[4 * p + 2]
                &&& out[4 * p + 2] == input[4 * p + 3]
                &&& out[4 * p + 3] == input[4 * p]
            }
            &&& fmt == InternalFormat::ARGB4 ==> {
                &&& out[4 * p] == (b0 % 16) * 17
                &&& out[4 * p + 1] == (b1 / 16) * 17
                &&& out[4 * p + 2] == (b1 % 16) * 17
                &&& out[4 * p + 3] == (b0 / 16) * 17
            }
            &&& fmt == InternalFormat::RGB565 ==> {
                &&& out[4 * p] == r * 8 + r / 4
                &&& out[4 * p + 1] == g * 4 + g / 16
                &&& out[4 * p + 2] == b * 8 + b / 4
                &&& out[4 * p + 3] == 255
            }
        }),
{
    super::pc::lemma_pixel_in_input(input.len() as int, pixel_size(fmt) as int, p);
    super::pc::lemma_pixel_bytes(p);
    if fmt != InternalFormat::ARGB8 {
        let b0 = input[2 * p];
        let b1 = input[2 * p + 1];
        lemma_xenon_fields(b0, b1);
        super::bits::lemma_widening_arith(b0 >> 3u8);
        super::bits::lemma_widening_arith((b1 >> 5u8) | ((b0 & 0x07u8) << 3u8));
        super::bits::lemma_widening_arith(b1 & 0x1fu8);
        super::bits::lemma_widening_arith(b0 & 0x0fu8);
        super::bits::lemma_widening_arith(b0 >> 4u8);
        super::bits::lemma_widening_arith(b1 & 0x0fu8);
        super::bits::lemma_widening_arith(b1 >> 4u8);
    }
}

} // verus!
