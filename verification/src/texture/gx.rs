//! GameCube / Wii (GX) textures: tiled intensity and colour formats and the
//! CMPR (DXT1-like) block format.
use vstd::prelude::*;
use super::bits::{widen3, widen4, widen5, widen6, convert_3_to_8, convert_4_to_8, convert_5_to_8, convert_6_to_8, rgba_word, word_byte, make_rgba, blend_dxt, blend_value, lemma_rgba_word_bytes};
use super::TextureError;

verus! {

/// Decoder for GX textures. The input starts with a 64-byte header whose
/// byte 27 names the GX format; the pixel data follows it.
pub struct GxTextureDecoder;

/// The GX hardware formats.
#[derive(Debug, Clone, Copy, PartialEq, Eq, Structural)]
pub enum InternalFormat {
    I4,
    I8,
    IA4,
    IA8,
    RGB565,
    RGB5A3,
    RGBA8,
    C4,
    C8,
    C14X2,
    CMPR,
}

impl InternalFormat {
    /// The format whose GX number is `v`.
    pub open spec fn from_number(v: u8) -> Option<InternalFormat> {
        if v == 0 {
            Some(InternalFormat::I4)
        } else if v == 1 {
            Some(InternalFormat::I8)
        } else if v == 2 {
            Some(InternalFormat::IA4)
        } else if v == 3 {
            Some(InternalFormat::IA8)
        } else if v == 4 {
            Some(InternalFormat::RGB565)
        } else if v == 5 {
            Some(InternalFormat::RGB5A3)
        } else if v == 6 {
            Some(InternalFormat::RGBA8)
        } else if v == 8 {
            Some(InternalFormat::C4)
        } else if v == 9 {
            Some(InternalFormat::C8)
        } else if v == 10 {
            Some(InternalFormat::C14X2)
        } else if v == 14 {
            Some(InternalFormat::CMPR)
        } else {
            None
        }
    }

    /// Looks a format up by its GX number.
    pub fn n(v: u8) -> (r: Option<InternalFormat>)
        ensures
            r == Self::from_number(v),
    {
        match v {
            0 => Some(InternalFormat::I4),
            1 => Some(InternalFormat::I8),
            2 => Some(InternalFormat::IA4),
            3 => Some(InternalFormat::IA8),
            4 => Some(InternalFormat::RGB565),
            5 => Some(InternalFormat::RGB5A3),
            6 => Some(InternalFormat::RGBA8),
            8 => Some(InternalFormat::C4),
            9 => Some(InternalFormat::C8),
            10 => Some(InternalFormat::C14X2),
            14 => Some(InternalFormat::CMPR),
            _ => None,
        }
    }

    /// Bits per pixel.
    pub open spec fn bits_per_pixel(self) -> nat {
        match self {
            InternalFormat::I4 => 4,
            InternalFormat::I8 => 8,
            InternalFormat::IA4 => 8,
            InternalFormat::IA8 => 16,
            InternalFormat::RGB565 => 16,
            InternalFormat::RGB5A3 => 16,
            InternalFormat::RGBA8 => 32,
            InternalFormat::C4 => 4,
            InternalFormat::C8 => 8,
            InternalFormat::C14X2 => 16,
            InternalFormat::CMPR => 4,
        }
    }

    /// Bits per pixel.
    pub fn bpp(&self) -> (r: usize)
        ensures
            r == self.bits_per_pixel(),
    {
        match self {
            InternalFormat::I4 => 4,
            InternalFormat::I8 => 8,
            InternalFormat::IA4 => 8,
            InternalFormat::IA8 => 16,
            InternalFormat::RGB565 => 16,
            InternalFormat::RGB5A3 => 16,
            InternalFormat::RGBA8 => 32,
            InternalFormat::C4 => 4,
            InternalFormat::C8 => 8,
            InternalFormat::C14X2 => 16,
            InternalFormat::CMPR => 4,
        }
    }

    /// Width and height of a tile, in pixels.
    pub open spec fn tile(self) -> (nat, nat) {
        match self {
            InternalFormat::I4 => (8, 8),
            InternalFormat::I8 => (8, 4),
            InternalFormat::IA4 => (8, 4),
            InternalFormat::IA8 => (4, 4),
            InternalFormat::RGB565 => (4, 4),
            InternalFormat::RGB5A3 => (4, 4),
            InternalFormat::RGBA8 => (4, 4),
            InternalFormat::C4 => (8, 8),
            InternalFormat::C8 => (8, 4),
            InternalFormat::C14X2 => (4, 4),
            InternalFormat::CMPR => (8, 8),
        }
    }

    /// Width and height of a tile, in pixels.
    pub fn block_size(&self) -> (r: (usize, usize))
        ensures
            r.0 == self.tile().0,
            r.1 == self.tile().1,
    {
        match self {
            InternalFormat::I4 => (8, 8),
            InternalFormat::I8 => (8, 4),
            InternalFormat::IA4 => (8, 4),
            InternalFormat::IA8 => (4, 4),
            InternalFormat::RGB565 => (4, 4),
            InternalFormat::RGB5A3 => (4, 4),
            InternalFormat::RGBA8 => (4, 4),
            InternalFormat::C4 => (8, 8),
            InternalFormat::C8 => (8, 4),
            InternalFormat::C14X2 => (4, 4),
            InternalFormat::CMPR => (8, 8),
        }
    }

    /// The GX format that an exported format byte stands for.
    pub open spec fn exformat(fmt: u8) -> Option<InternalFormat> {
        if fmt == 0 {
            Some(InternalFormat::CMPR)
        } else if fmt == 1 {
            Some(InternalFormat::RGBA8)
        } else if fmt == 3 {
            Some(InternalFormat::RGB5A3)
        } else if fmt == 4 {
            Some(InternalFormat::I4)
        } else if fmt == 5 {
            Some(InternalFormat::I8)
        } else if fmt == 7 {
            Some(InternalFormat::IA4)
        } else if fmt == 8 {
            Some(InternalFormat::IA8)
        } else {
            None
        }
    }

    /// Maps an exported format byte to its GX format; unknown bytes are an
    /// error.
    pub fn from_exformat(fmt: u8) -> (r: Result<InternalFormat, TextureError>)
        ensures
            match Self::exformat(fmt) {
                Some(f) => r == Ok::<InternalFormat, TextureError>(f),
                None => r == Err::<InternalFormat, TextureError>(TextureError::UnknownExformat(fmt)),
            },
    {
        match fmt {
            0 => Ok(InternalFormat::CMPR),
            1 => Ok(InternalFormat::RGBA8),
            3 => Ok(InternalFormat::RGB5A3),
            4 => Ok(InternalFormat::I4),
            5 => Ok(InternalFormat::I8),
            7 => Ok(InternalFormat::IA4),
            8 => Ok(InternalFormat::IA8),
            _ => Err(TextureError::UnknownExformat(fmt)),
        }
    }
}


/// A big-endian 16-bit value.
pub open spec fn be16(hi: u8, lo: u8) -> u16 {
    ((hi as u16) << 8u16) | (lo as u16)
}

/// Reads a big-endian 16-bit value.
pub fn read_be16(hi: u8, lo: u8) -> (r: u16)
    ensures
        r == be16(hi, lo),
{
    ((hi as u16) << 8) | (lo as u16)
}

/// Channel `k` (0 red, 1 green, 2 blue, 3 alpha) of DXT palette entry
/// `code` for the 8-byte block `src`: two RGB565 end points, then the two
/// derived entries (blends when the first end point is larger, otherwise
/// their average and transparent black's alpha).
pub open spec fn dxt_palette(src: Seq<u8>, code: int, k: int) -> u8 {
    let c1 = be16(src[0], src[1]);
    let c2 = be16(src[2], src[3]);
    let blue1 = widen5((c1 & 0x1Fu16) as u8) as u32;
    let blue2 = widen5((c2 & 0x1Fu16) as u8) as u32;
    let green1 = widen6(((c1 >> 5u16) & 0x3Fu16) as u8) as u32;
    let green2 = widen6(((c2 >> 5u16) & 0x3Fu16) as u8) as u32;
    let red1 = widen5(((c1 >> 11u16) & 0x1Fu16) as u8) as u32;
    let red2 = widen5(((c2 >> 11u16) & 0x1Fu16) as u8) as u32;
    let ch: u32 = if code == 0 {
        if k == 0 { red1 } else if k == 1 { green1 } else if k == 2 { blue1 } else { 255 }
    } else if code == 1 {
        if k == 0 { red2 } else if k == 1 { green2 } else if k == 2 { blue2 } else { 255 }
    } else if code == 2 {
        if c1 > c2 {
            if k == 0 {
                blend_value(red2, red1)
            } else if k == 1 {
                blend_value(green2, green1)
            } else if k == 2 {
                blend_value(blue2, blue1)
            } else {
                255
            }
        } else {
            if k == 0 {
                ((red1 + red2) / 2) as u32
            } else if k == 1 {
                ((green1 + green2) / 2) as u32
            } else if k == 2 {
                ((blue1 + blue2) / 2) as u32
            } else {
                255
            }
        }
    } else {
        if c1 > c2 {
            if k == 0 {
                blend_value(red1, red2)
            } else if k == 1 {
                blend_value(green1, green2)
            } else if k == 2 {
                blend_value(blue1, blue2)
            } else {
                255
            }
        } else {
            if k == 0 {
                ((red1 + red2) / 2) as u32
            } else if k == 1 {
                ((green1 + green2) / 2) as u32
            } else if k == 2 {
                ((blue1 + blue2) / 2) as u32
            } else {
                0
            }
        }
    };
    ch as u8
}

/// The 2-bit palette index of pixel (`xx`, `yy`) of a DXT block.
pub open spec fn dxt_code(src: Seq<u8>, yy: int, xx: int) -> u8 {
    ((src[4 + yy] << ((2 * xx) as u8)) >> 6u8) & 3u8
}

/// `buf` after a 4x4 DXT block `src` was written at byte `base`, with rows
/// `pitch` pixels apart.
pub open spec fn dxt_write(buf: Seq<u8>, base: int, src: Seq<u8>, pitch: int) -> Seq<u8> {
    dxt_write_first(buf, base, src, pitch, 16)
}

/// `buf` after the first `n` pixels (row by row) of a DXT block were written.
pub open spec fn dxt_write_first(buf: Seq<u8>, base: int, src: Seq<u8>, pitch: int, n: int) -> Seq<u8> {
    Seq::new(
        buf.len(),
        |i: int|
            {
                let rel = i - base;
                let q = rel / 4;
                let yy = q / pitch;
                let xx = q % pitch;
                if rel >= 0 && yy < 4 && xx < 4 && yy * 4 + xx < n {
                    dxt_palette(src, dxt_code(src, yy, xx) as int, rel % 4)
                } else {
                    buf[i]
                }
            },
    )
}

/// Masking with 3 leaves a 2-bit value.
pub proof fn lemma_two_bits(v: u8)
    ensures
        v & 3u8 < 4,
{
    assert(v & 3u8 < 4) by (bit_vector);
}

/// A byte inside a block's footprint sits at its pixel's position.
proof fn lemma_block_inverse(rel: int, pitch: int)
    requires
        rel >= 0,
        pitch >= 4,
    ensures
        rel == ((rel / 4) / pitch * pitch + (rel / 4) % pitch) * 4 + rel % 4,
        0 <= rel % 4 < 4,
{
    let q = rel / 4;
    vstd::arithmetic::div_mod::lemma_fundamental_div_mod(rel, 4);
    vstd::arithmetic::div_mod::lemma_fundamental_div_mod(q, pitch);
    let yy = q / pitch;
    let xx = q % pitch;
    assert(q == yy * pitch + xx) by (nonlinear_arith)
        requires q == pitch * (q / pitch) + q % pitch, yy == q / pitch, xx == q % pitch;
}

/// The pixel position of a byte written for block pixel (`xx`, `yy`).
proof fn lemma_block_position(yy: int, xx: int, c: int, pitch: int)
    requires
        0 <= yy < 4,
        0 <= xx < 4,
        0 <= c < 4,
        pitch >= 4,
    ensures
        ((yy * pitch + xx) * 4 + c) / 4 == yy * pitch + xx,
        ((yy * pitch + xx) * 4 + c) % 4 == c,
        (yy * pitch + xx) / pitch == yy,
        (yy * pitch + xx) % pitch == xx,
{
    vstd::arithmetic::div_mod::lemma_fundamental_div_mod_converse(
        (yy * pitch + xx) * 4 + c,
        4,
        yy * pitch + xx,
        c,
    );
    vstd::arithmetic::div_mod::lemma_fundamental_div_mod_converse(yy * pitch + xx, pitch, yy, xx);
}

/// Decodes one 4x4 DXT block of `src` (8 bytes from `src_off`) into `dst`
/// at byte `base`, rows `pitch` pixels apart.
pub fn decode_dxt_block(dst: &mut Vec<u8>, base: usize, src: &[u8], src_off: usize, pitch: u32)
    requires
        pitch >= 4,
        base + (3 * pitch + 4) * 4 <= old(dst)@.len(),
        src_off + 8 <= src@.len(),
    ensures
        final(dst)@ == dxt_write(old(dst)@, base as int, src@.subrange(src_off as int, src_off + 8), pitch as int),
{
    let ghost blk = src@.subrange(src_off as int, src_off + 8);
    let c1 = read_be16(src[src_off], src[src_off + 1]);
    let c2 = read_be16(src[src_off + 2], src[src_off + 3]);
    let blue1 = convert_5_to_8((c1 & 0x1F) as u8) as u32;
    let blue2 = convert_5_to_8((c2 & 0x1F) as u8) as u32;
    let green1 = convert_6_to_8(((c1 >> 5) & 0x3F) as u8) as u32;
    let green2 = convert_6_to_8(((c2 >> 5) & 0x3F) as u8) as u32;
    let red1 = convert_5_to_8(((c1 >> 11) & 0x1F) as u8) as u32;
    let red2 = convert_5_to_8(((c2 >> 11) & 0x1F) as u8) as u32;

    let mut colours: [u32; 4] = [0u32; 4];
    colours[0] = make_rgba(red1, green1, blue1, 255);
    colours[1] = make_rgba(red2, green2, blue2, 255);
    if c1 > c2 {
        colours[2] = make_rgba(
            blend_dxt(red2, red1),
            blend_dxt(green2, green1),
            blend_dxt(blue2, blue1),
            255,
        );
        colours[3] = make_rgba(
            blend_dxt(red1, red2),
            blend_dxt(green1, green2),
            blend_dxt(blue1, blue2),
            255,
        );
    } else {
        colours[2] = make_rgba((red1 + red2) / 2, (green1 + green2) / 2, (blue1 + blue2) / 2, 255);
        colours[3] = make_rgba((red1 + red2) / 2, (green1 + green2) / 2, (blue1 + blue2) / 2, 0);
    }
    proof {
        assert(blk[0] == src@[src_off as int] && blk[1] == src@[src_off + 1]);
        assert(blk[2] == src@[src_off + 2] && blk[3] == src@[src_off + 3]);
        lemma_rgba_word_bytes(red1, green1, blue1, 255);
        lemma_rgba_word_bytes(red2, green2, blue2, 255);
        if c1 > c2 {
            lemma_rgba_word_bytes(blend_value(red2, red1), blend_value(green2, green1), blend_value(blue2, blue1), 255);
            lemma_rgba_word_bytes(blend_value(red1, red2), blend_value(green1, green2), blend_value(blue1, blue2), 255);
        } else {
            lemma_rgba_word_bytes(((red1 + red2) / 2) as u32, ((green1 + green2) / 2) as u32, ((blue1 + blue2) / 2) as u32, 255);
            lemma_rgba_word_bytes(((red1 + red2) / 2) as u32, ((green1 + green2) / 2) as u32, ((blue1 + blue2) / 2) as u32, 0);
        }
        assert forall|code: int, k: int| 0 <= code < 4 && 0 <= k < 4 implies
            #[trigger] word_byte(colours[code], k) == dxt_palette(blk, code, k) by {}
    }

    let ghost start = dst@;
    let mut y: usize = 0;
    while y < 4
        invariant
            y <= 4,
            pitch >= 4,
            base + (3 * pitch + 4) * 4 <= dst.len(),
            src_off + 8 <= src.len(),
            start.len() == dst@.len(),
            blk == src@.subrange(src_off as int, src_off + 8),
            forall|code: int, k: int| 0 <= code < 4 && 0 <= k < 4 ==>
                #[trigger] word_byte(colours[code], k) == dxt_palette(blk, code, k),
            dst@ == dxt_write_first(start, base as int, blk, pitch as int, 4 * y),
        decreases 4 - y,
    {
        let line = src[src_off + 4 + y];
        let mut x: usize = 0;
        while x < 4
            invariant
                y < 4,
                x <= 4,
                pitch >= 4,
                base + (3 * pitch + 4) * 4 <= dst.len(),
                src_off + 8 <= src.len(),
                start.len() == dst@.len(),
                blk == src@.subrange(src_off as int, src_off + 8),
                line == blk[4 + y],
                forall|code: int, k: int| 0 <= code < 4 && 0 <= k < 4 ==>
                    #[trigger] word_byte(colours[code], k) == dxt_palette(blk, code, k),
                dst@ == dxt_write_first(start, base as int, blk, pitch as int, 4 * y + x),
            decreases 4 - x,
        {
            let code = ((line << ((2 * x) as u8)) >> 6) & 3;
            assert(code == dxt_code(blk, y as int, x as int));
            proof {
                lemma_two_bits(((line << ((2 * x) as u8)) >> 6));
            }
            let colour = colours[code as usize];
            proof {
                assert(y * pitch + x <= 3 * pitch + 3) by (nonlinear_arith)
                    requires y < 4, x < 4, pitch >= 4;
            }
            let offset = base + (y * pitch as usize + x) * 4;
            let ghost before = dst@;
            dst[offset] = (colour & 0xff) as u8;
            dst[offset + 1] = ((colour >> 8) & 0xff) as u8;
            dst[offset + 2] = ((colour >> 16) & 0xff) as u8;
            dst[offset + 3] = ((colour >> 24) & 0xff) as u8;
            proof {
                let n = 4 * y + x;
                assert(word_byte(colour, 0) == dxt_palette(blk, code as int, 0));
                assert(word_byte(colour, 1) == dxt_palette(blk, code as int, 1));
                assert(word_byte(colour, 2) == dxt_palette(blk, code as int, 2));
                assert(word_byte(colour, 3) == dxt_palette(blk, code as int, 3));
                assert forall|i: int| 0 <= i < dst@.len() implies dst@[i] == dxt_write_first(
                    start, base as int, blk, pitch as int, n + 1)[i] by {
                    let rel = i - base;
                    if offset <= i < offset + 4 {
                        let c = i - offset;
                        lemma_block_position(y as int, x as int, c, pitch as int);
                        assert(rel == (y * pitch + x) * 4 + c);
                        assert(dst@[i] == word_byte(colour, c));
                    } else {
                        assert(dst@[i] == before[i]);
                        if rel >= 0 && (rel / 4) / (pitch as int) < 4 && (rel / 4) % (pitch as int) < 4 {
                            lemma_block_inverse(rel, pitch as int);
                            let yy = (rel / 4) / (pitch as int);
                            let xx = (rel / 4) % (pitch as int);
                            if yy * 4 + xx == n {
                                assert(yy == y && xx == x);
                                assert(false);
                            }
                        }
                    }
                }
                assert(dst@ =~= dxt_write_first(start, base as int, blk, pitch as int, n + 1));
            }
            x = x + 1;
        }
        y = y + 1;
    }
    assert(dst@ == dxt_write_first(start, base as int, blk, pitch as int, 16));
}


/// Channel `k` of an RGB5A3 pixel: opaque RGB555 when the top bit is set,
/// otherwise RGB444 with a 3-bit alpha.
pub open spec fn rgb5a3_channel(v: u16, k: int) -> u8 {
    if v & 0x8000u16 != 0 {
        if k == 0 {
            widen5(((v >> 10u16) & 0x1fu16) as u8)
        } else if k == 1 {
            widen5(((v >> 5u16) & 0x1fu16) as u8)
        } else if k == 2 {
            widen5((v & 0x1fu16) as u8)
        } else {
            255
        }
    } else {
        if k == 0 {
            widen4(((v >> 8u16) & 0xfu16) as u8)
        } else if k == 1 {
            widen4(((v >> 4u16) & 0xfu16) as u8)
        } else if k == 2 {
            widen4((v & 0xfu16) as u8)
        } else {
            widen3(((v >> 12u16) & 0x7u16) as u8)
        }
    }
}

/// Channel `k` of the `s`-th pixel of the pixel stream `data`, for the
/// formats that are decoded pixel by pixel before untiling.
pub open spec fn linear_channel(fmt: InternalFormat, data: Seq<u8>, s: int, k: int) -> u8 {
    match fmt {
        InternalFormat::I4 => {
            let v = data[s / 2];
            let n = if s % 2 == 0 { v >> 4u8 } else { v & 0x0fu8 };
            if k < 3 { widen4(n) } else { 255 }
        },
        InternalFormat::I8 => if k < 3 { data[s] } else { 255 },
        InternalFormat::IA4 => {
            let v = data[s];
            if k < 3 { widen4(v & 0x0fu8) } else { widen4(v >> 4u8) }
        },
        InternalFormat::IA8 => if k < 3 { data[2 * s + 1] } else { data[2 * s] },
        InternalFormat::RGB5A3 => rgb5a3_channel(be16(data[2 * s], data[2 * s + 1]), k),
        _ => 0,
    }
}

/// Bytes of the pixel stream that `n` pixels of a pixel-by-pixel format use.
pub open spec fn linear_bytes(fmt: InternalFormat, n: int) -> int {
    match fmt {
        InternalFormat::I4 => (n + 1) / 2,
        InternalFormat::IA8 | InternalFormat::RGB5A3 => 2 * n,
        _ => n,
    }
}

/// Position in the tiled stream of pixel (`x`, `y`): tiles of `bw` x `bh`
/// pixels are stored row by row, and so are the pixels inside a tile.
pub open spec fn tile_index(w: int, bw: int, bh: int, x: int, y: int) -> int {
    let nbx = (w + bw - 1) / bw;
    ((y / bh) * nbx + x / bw) * (bw * bh) + (y % bh) * bw + x % bw
}

/// Number of pixels the tiles covering a `w` x `h` texture hold.
pub open spec fn tiles_span(w: int, h: int, bw: int, bh: int) -> int {
    ((w + bw - 1) / bw) * bw * (((h + bh - 1) / bh) * bh)
}

/// Output of the pixel-by-pixel formats: pixel (x, y) is the pixel read at
/// its tiled position, or transparent black when that position lies past the
/// pixel stream; bytes past `w * h` pixels keep their old value.
pub open spec fn untiled(fmt: InternalFormat, data: Seq<u8>, w: int, h: int, old: Seq<u8>) -> Seq<u8> {
    let bw = fmt.tile().0 as int;
    let bh = fmt.tile().1 as int;
    Seq::new(
        old.len(),
        |i: int|
            {
                let p = i / 4;
                if p < w * h {
                    let s = tile_index(w, bw, bh, p % w, p / w);
                    if s < w * h {
                        linear_channel(fmt, data, s, i % 4)
                    } else {
                        0
                    }
                } else {
                    old[i]
                }
            },
    )
}

/// Offset in the stream of the 4x4 RGBA8 tile data for pixel (`px`, `py`).
/// Each 64-byte tile holds alpha/red pairs, then green/blue pairs.
pub open spec fn rgba8_offset(w: int, px: int, py: int) -> int {
    ((py / 4) * (w / 4) + px / 4) * 64 + (py % 4) * 8 + (px % 4) * 2
}

/// Output of RGBA8: every pixel of the buffer comes from its tile.
pub open spec fn rgba8_tiles(data: Seq<u8>, w: int, len: int) -> Seq<u8> {
    Seq::new(
        len as nat,
        |i: int|
            {
                let p = i / 4;
                let o = rgba8_offset(w, p % w, p / w);
                let k = i % 4;
                if k == 0 {
                    data[o + 1]
                } else if k == 1 {
                    data[o + 32]
                } else if k == 2 {
                    data[o + 33]
                } else {
                    data[o]
                }
            },
    )
}

/// Byte offset at which CMPR sub-block `j` is written: sub-blocks come in
/// groups of four per 8x8 tile (top left, top right, bottom left, bottom
/// right), tiles row by row.
pub open spec fn s3tc_base(w: int, nbx8: int, j: int) -> int {
    let m = j / 4;
    let q = j % 4;
    let col = (m % nbx8) * 8 + (q % 2) * 4;
    let row = (m / nbx8) * 8 + (q / 2) * 4;
    (row * w + col) * 4
}

/// `buf` after the first `j` CMPR sub-blocks of `data` were written, in order.
pub open spec fn s3tc_after(buf: Seq<u8>, data: Seq<u8>, w: int, nbx8: int, j: nat) -> Seq<u8>
    decreases j,
{
    if j == 0 {
        buf
    } else {
        dxt_write(
            s3tc_after(buf, data, w, nbx8, (j - 1) as nat),
            s3tc_base(w, nbx8, j - 1),
            data.subrange(8 * (j - 1), 8 * j as int),
            w,
        )
    }
}

/// Output of CMPR: a zeroed buffer with every sub-block written in order.
pub open spec fn s3tc_output(data: Seq<u8>, w: int, h: int, len: int) -> Seq<u8> {
    let nbx8 = (w + 7) / 8;
    let nby8 = (h + 7) / 8;
    s3tc_after(Seq::new(len as nat, |i: int| 0u8), data, w, nbx8, (4 * nbx8 * nby8) as nat)
}

/// What `decode` returns: the checks in the order the decoder makes them.
pub open spec fn gx_check(input: Seq<u8>, w: u32, h: u32, d: u32, format: u8, out_len: int) -> Result<InternalFormat, TextureError> {
    match InternalFormat::from_number(input[27]) {
        None => Err(TextureError::InvalidFormat(input[27])),
        Some(fmt) => match InternalFormat::exformat(format) {
            None => Err(TextureError::UnknownExformat(format)),
            Some(ef) => if fmt != ef {
                Err(TextureError::FormatMismatch)
            } else if input.len() - 64 < super::data_bytes(w, h, d, fmt.bits_per_pixel()) {
                Err(TextureError::InputTooShort)
            } else if out_len != w * h * d * 4 {
                Err(TextureError::OutputSizeMismatch)
            } else if fmt == InternalFormat::CMPR && (w % 4 != 0 || h % 4 != 0) {
                Err(TextureError::OddResolution)
            } else {
                Ok(fmt)
            },
        },
    }
}

/// Sizes on which the decoding steps stay inside their buffers (outside them
/// the decoder indexes out of bounds).
pub open spec fn gx_in_bounds(fmt: InternalFormat, w: int, h: int, d: int, data_len: int) -> bool {
    if w == 0 || h == 0 {
        fmt == InternalFormat::RGB5A3 && w == 0 ==> data_len < 2
    } else {
        let bhr = ((h + 3) / 4) * 4;
        match fmt {
            InternalFormat::RGBA8 => w % 4 == 0 && bhr == h * d,
            InternalFormat::CMPR => {
                let nbx8 = (w + 7) / 8;
                let nby8 = (h + 7) / 8;
                &&& ((nby8 - 1) * 8 + 7) * w + (nbx8 - 1) * 8 + 7 < w * h * d
                &&& 32 * nbx8 * nby8 <= data_len
            },
            _ => d >= 1 && tiles_span(w, h, fmt.tile().0 as int, fmt.tile().1 as int) <= w * bhr,
        }
    }
}

/// What a successful decode leaves in the output buffer.
pub open spec fn gx_output(fmt: InternalFormat, data: Seq<u8>, w: int, h: int, old: Seq<u8>) -> Seq<u8> {
    match fmt {
        InternalFormat::RGBA8 => rgba8_tiles(data, w, old.len() as int),
        InternalFormat::CMPR => s3tc_output(data, w, h, old.len() as int),
        _ => untiled(fmt, data, w, h, old),
    }
}


/// Reads pixel `s` of a pixel-by-pixel format from the stream that starts
/// at byte 64 of `input`.
fn linear_pixel(fmt: InternalFormat, input: &[u8], s: usize) -> (r: (u8, u8, u8, u8))
    requires
        fmt == InternalFormat::I4 || fmt == InternalFormat::I8 || fmt == InternalFormat::IA4
            || fmt == InternalFormat::IA8 || fmt == InternalFormat::RGB5A3,
        64 + linear_bytes(fmt, s + 1) <= input.len(),
    ensures
        ({
            let data = input@.subrange(64, input@.len() as int);
            &&& r.0 == linear_channel(fmt, data, s as int, 0)
            &&& r.1 == linear_channel(fmt, data, s as int, 1)
            &&& r.2 == linear_channel(fmt, data, s as int, 2)
            &&& r.3 == linear_channel(fmt, data, s as int, 3)
        }),
{
    match fmt {
        InternalFormat::I4 => {
            let v = input[64 + s / 2];
            let l = convert_4_to_8(if s % 2 == 0 { v >> 4 } else { v & 0x0f });
            (l, l, l, 0xff)
        },
        InternalFormat::I8 => {
            let l = input[64 + s];
            (l, l, l, 0xff)
        },
        InternalFormat::IA4 => {
            let v = input[64 + s];
            let l = convert_4_to_8(v & 0x0f);
            let a = convert_4_to_8(v >> 4);
            (l, l, l, a)
        },
        InternalFormat::IA8 => {
            let a = input[64 + s * 2];
            let l = input[64 + s * 2 + 1];
            (l, l, l, a)
        },
        _ => {
            let value = read_be16(input[64 + s * 2], input[64 + s * 2 + 1]);
            if (value & 0x8000) != 0 {
                (
                    convert_5_to_8(((value >> 10) & 0x1f) as u8),
                    convert_5_to_8(((value >> 5) & 0x1f) as u8),
                    convert_5_to_8((value & 0x1f) as u8),
                    0xff,
                )
            } else {
                (
                    convert_4_to_8(((value >> 8) & 0xf) as u8),
                    convert_4_to_8(((value >> 4) & 0xf) as u8),
                    convert_4_to_8((value & 0xf) as u8),
                    convert_3_to_8(((value >> 12) & 0x7) as u8),
                )
            }
        },
    }
}

/// Tile positions stay inside the tiles that cover the texture.
proof fn lemma_tile_index(w: int, h: int, bw: int, bh: int, x: int, y: int)
    requires
        0 <= x < w,
        0 <= y < h,
        bw == 4 || bw == 8,
        bh == 4 || bh == 8,
    ensures
        ({
            let nbx = (w + bw - 1) / bw;
            let nby = (h + bh - 1) / bh;
            &&& 0 <= (y / bh) * nbx + x / bw < nbx * nby
            &&& 0 <= tile_index(w, bw, bh, x, y) < tiles_span(w, h, bw, bh)
            &&& tiles_span(w, h, bw, bh) <= (w + 7) * (h + 7)
            &&& nbx * nby <= tiles_span(w, h, bw, bh)
        }),
{
    let nbx = (w + bw - 1) / bw;
    let nby = (h + bh - 1) / bh;
    vstd::arithmetic::div_mod::lemma_fundamental_div_mod(w + bw - 1, bw);
    vstd::arithmetic::div_mod::lemma_fundamental_div_mod(h + bh - 1, bh);
    vstd::arithmetic::div_mod::lemma_fundamental_div_mod(x, bw);
    vstd::arithmetic::div_mod::lemma_fundamental_div_mod(y, bh);
    let xb = x / bw;
    let yb = y / bh;
    let xr = x % bw;
    let yr = y % bh;
    assert(w <= bw * nbx <= w + bw - 1);
    assert(h <= bh * nby <= h + bh - 1);
    assert(0 <= xb < nbx) by (nonlinear_arith)
        requires x == bw * xb + xr, 0 <= xr < bw, x < w, w <= bw * nbx, 0 <= x, bw > 0;
    assert(0 <= yb < nby) by (nonlinear_arith)
        requires y == bh * yb + yr, 0 <= yr < bh, y < h, h <= bh * nby, 0 <= y, bh > 0;
    let t = yb * nbx + xb;
    assert(0 <= t < nbx * nby) by (nonlinear_arith)
        requires 0 <= xb < nbx, 0 <= yb < nby, t == yb * nbx + xb;
    assert(0 <= yr * bw + xr < bw * bh) by (nonlinear_arith)
        requires 0 <= xr < bw, 0 <= yr < bh, bw > 0;
    assert(0 <= t * (bw * bh) + yr * bw + xr < nbx * bw * (nby * bh)) by (nonlinear_arith)
        requires 0 <= t < nbx * nby, 0 <= yr * bw + xr < bw * bh, bw > 0, bh > 0;
    assert(nbx * bw * (nby * bh) <= (w + 7) * (h + 7)) by (nonlinear_arith)
        requires 0 <= bw * nbx <= w + 7, 0 <= bh * nby <= h + 7, nbx >= 0, nby >= 0;
    assert(nbx * nby <= nbx * bw * (nby * bh)) by (nonlinear_arith)
        requires nbx >= 0, nby >= 0, bw >= 1, bh >= 1;
}

/// The stream holds every pixel a pixel-by-pixel format reads.
proof fn lemma_linear_bytes(fmt: InternalFormat, w: u32, h: u32, d: u32, s: int)
    requires
        fmt == InternalFormat::I4 || fmt == InternalFormat::I8 || fmt == InternalFormat::IA4
            || fmt == InternalFormat::IA8 || fmt == InternalFormat::RGB5A3,
        d >= 1,
        0 <= s < w * h,
    ensures
        linear_bytes(fmt, s + 1) <= super::data_bytes(w, h, d, fmt.bits_per_pixel()),
{
    let n = w * h;
    assert(n <= n * d) by (nonlinear_arith)
        requires d >= 1, n >= 0;
    assert(w * h * d == n * d);
    let m = w * h * d;
    assert(m >= s + 1);
    let bpp = fmt.bits_per_pixel() as int;
    assert(m * bpp == bpp * m) by (nonlinear_arith);
    if fmt == InternalFormat::I4 {
        assert((s + 2) / 2 <= (4 * m + 7) / 8);
    } else if fmt == InternalFormat::IA8 || fmt == InternalFormat::RGB5A3 {
        assert(2 * (s + 1) <= (16 * m + 7) / 8);
    } else {
        assert(s + 1 <= (8 * m + 7) / 8);
    }
}

/// The GX format that the header byte and the exported format byte agree
/// on, if they name one and the same format.
pub open spec fn gx_format(input: Seq<u8>, format: u8) -> Option<InternalFormat> {
    match InternalFormat::from_number(input[27]) {
        Some(f) => match InternalFormat::exformat(format) {
            Some(e) => if f == e { Some(f) } else { None },
            None => None,
        },
        None => None,
    }
}

/// Whether the decoder gets past its format and size checks: the formats
/// agree, the input holds the pixel data and the output has the size of the
/// texture. Only the resolution check of CMPR can still fail.
pub open spec fn gx_sizes_checked(input: Seq<u8>, w: u32, h: u32, d: u32, format: u8, out_len: int) -> bool {
    match gx_format(input, format) {
        Some(f) => input.len() - 64 >= super::data_bytes(w, h, d, f.bits_per_pixel()) && out_len == w * h * d * 4,
        None => false,
    }
}

/// The decoder's working buffer, the texture rounded up to whole 4x4 blocks,
/// can be sized: its sides stay in `u32` and its bytes in `usize`.
pub open spec fn gx_buffer_fits(w: u32, h: u32) -> bool {
    &&& w + 3 <= u32::MAX
    &&& h + 3 <= u32::MAX
    &&& ((w + 3) / 4) * 4 * (((h + 3) / 4) * 4) * 4 <= usize::MAX
}

/// What `decode` requires of its arguments: a header, sizes whose data size
/// can be computed once the formats agree, a buffer that can be sized once
/// the size checks pass, and, for a texture it decodes, sizes its decoding
/// steps stay within.
pub open spec fn gx_decodable(input: Seq<u8>, w: u32, h: u32, d: u32, format: u8, out_len: int) -> bool {
    &&& input.len() >= 64
    &&& gx_format(input, format) matches Some(f) ==> super::dims_fit(w, h, d, f.bits_per_pixel())
    &&& gx_sizes_checked(input, w, h, d, format, out_len) ==> gx_buffer_fits(w, h)
    &&& gx_check(input, w, h, d, format, out_len) matches Ok(fmt) ==> {
        &&& w + 8 <= u32::MAX
        &&& h + 8 <= u32::MAX
        &&& w > 0 && h > 0 ==> (w + 7) * (h + 7) <= u32::MAX
        &&& gx_in_bounds(fmt, w as int, h as int, d as int, input.len() - 64)
    }
}

/// Sizes that fit at a pixel width of at least 4 bits hold the output size.
proof fn lemma_gx_output_fits(width: u32, height: u32, depth: u32, bpp: nat)
    requires
        super::dims_fit(width, height, depth, bpp),
        bpp >= 4,
    ensures
        width * height * depth * 4 <= usize::MAX,
{
    let n = width * height * depth;
    assert(n * 4 <= n * bpp) by (nonlinear_arith)
        requires n >= 0, bpp >= 4;
}

impl GxTextureDecoder {
    /// Whether `decode` accepts `input` and an output of `output_len` bytes
    /// for a texture of this size and exported format. Where `decode` would
    /// fail with an error this holds too.
    pub fn decodable(&self, input: &[u8], width: u32, height: u32, depth: u32, format: u8, output_len: usize) -> (r: bool)
        ensures
            r == gx_decodable(input@, width, height, depth, format, output_len as int),
    {
        if input.len() < 64 {
            return false;
        }
        let w = width as u128;
        let h = height as u128;
        let d = depth as u128;
        proof {
            assert(w * h <= 0xffff_ffff * 0xffff_ffff) by (nonlinear_arith)
                requires w <= 0xffff_ffff, h <= 0xffff_ffff;
            assert(w * h * d <= 0xffff_ffff * 0xffff_ffff * 0xffff_ffff) by (nonlinear_arith)
                requires w * h <= 0xffff_ffff * 0xffff_ffff, d <= 0xffff_ffff;
            assert((w + 7) * (h + 7) <= 0x1_0000_0007 * 0x1_0000_0007) by (nonlinear_arith)
                requires w <= 0xffff_ffff, h <= 0xffff_ffff;
            assert(h * d <= 0xffff_ffff * 0xffff_ffff) by (nonlinear_arith)
                requires d <= 0xffff_ffff, h <= 0xffff_ffff;
        }
        let fmt = match InternalFormat::n(input[27]) {
            Some(f) => f,
            None => return true,
        };
        let ef = match InternalFormat::from_exformat(format) {
            Ok(f) => f,
            Err(_) => return true,
        };
        if fmt != ef {
            return true;
        }
        let bpp = fmt.bpp() as u128;
        proof {
            assert(w * h * d * bpp <= 0xffff_ffff * 0xffff_ffff * 0xffff_ffff * 32) by (nonlinear_arith)
                requires w * h * d <= 0xffff_ffff * 0xffff_ffff * 0xffff_ffff, bpp <= 32;
        }
        if !(w * h <= usize::MAX as u128 && w * h * d <= usize::MAX as u128 && w * h * d * bpp + 7 <= usize::MAX as u128) {
            return false;
        }
        proof {
            lemma_gx_output_fits(width, height, depth, fmt.bits_per_pixel());
        }
        let need = match self.get_data_size(width, height, depth, format) {
            Ok(n) => n,
            Err(_) => return true,
        };
        if input.len() - 64 < need {
            return true;
        }
        let pixels = super::pixel_count(width, height, depth);
        if output_len != pixels * 4 {
            return true;
        }
        let rw = ((w + 3) / 4) * 4;
        let rh = ((h + 3) / 4) * 4;
        proof {
            assert(rw * rh * 4 <= 0x1_0000_0002 * 0x1_0000_0002 * 4) by (nonlinear_arith)
                requires rw <= 0x1_0000_0002, rh <= 0x1_0000_0002;
        }
        if !(width <= u32::MAX - 3 && height <= u32::MAX - 3 && rw * rh * 4 <= usize::MAX as u128) {
            return false;
        }
        let compressed = matches!(fmt, InternalFormat::CMPR);
        if compressed && (width % 4 != 0 || height % 4 != 0) {
            return true;
        }
        if width > u32::MAX - 8 || height > u32::MAX - 8 {
            return false;
        }
        if width > 0 && height > 0 && (w + 7) * (h + 7) > u32::MAX as u128 {
            return false;
        }
        let data_len = (input.len() - 64) as u128;
        if width == 0 || height == 0 {
            return !(matches!(fmt, InternalFormat::RGB5A3) && width == 0) || data_len < 2;
        }
        let bhr = ((h + 3) / 4) * 4;
        proof {
            assert(w * bhr <= 0xffff_ffff * 0x1_0000_0002) by (nonlinear_arith)
                requires w <= 0xffff_ffff, bhr <= 0x1_0000_0002;
        }
        match fmt {
            InternalFormat::RGBA8 => width % 4 == 0 && bhr == h * d,
            InternalFormat::CMPR => {
                let nbx8 = (w + 7) / 8;
                let nby8 = (h + 7) / 8;
                proof {
                    assert(((nby8 - 1) * 8 + 7) * w <= 0x1_0000_0007 * 0xffff_ffff) by (nonlinear_arith)
                        requires nby8 >= 1, (nby8 - 1) * 8 + 7 <= 0x1_0000_0007, w <= 0xffff_ffff;
                    assert(32 * nbx8 * nby8 <= 32 * 0x2000_0001 * 0x2000_0001) by (nonlinear_arith)
                        requires nbx8 <= 0x2000_0001, nby8 <= 0x2000_0001;
                }
                ((nby8 - 1) * 8 + 7) * w + (nbx8 - 1) * 8 + 7 < w * h * d && 32 * nbx8 * nby8 <= data_len
            },
            _ => {
                let (bw, bh) = fmt.block_size();
                let bwu = bw as u128;
                let bhu = bh as u128;
                proof {
                    assert(((w + bwu - 1) as u128 / bwu) * bwu <= w + bwu - 1) by (nonlinear_arith)
                        requires bwu == 4 || bwu == 8, w <= 0xffff_ffff;
                    assert(((h + bhu - 1) as u128 / bhu) * bhu <= h + bhu - 1) by (nonlinear_arith)
                        requires bhu == 4 || bhu == 8, h <= 0xffff_ffff;
                }
                let sw = ((w + bwu - 1) / bwu) * bwu;
                let sh = ((h + bhu - 1) / bhu) * bhu;
                proof {
                    assert(sw * sh <= 0x1_0000_0008 * 0x1_0000_0008) by (nonlinear_arith)
                        requires sw <= 0x1_0000_0008, sh <= 0x1_0000_0008;
                }
                depth >= 1 && sw * sh <= w * bhr
            },
        }
    }

    /// Bytes of pixel data a texture of this size and exported format needs.
    pub fn get_data_size(&self, width: u32, height: u32, depth: u32, format: u8) -> (r: Result<usize, TextureError>)
        requires
            width * height <= usize::MAX,
            width * height * depth <= usize::MAX,
            InternalFormat::exformat(format) matches Some(f) ==> super::dims_fit(width, height, depth, f.bits_per_pixel()),
        ensures
            match InternalFormat::exformat(format) {
                Some(f) => r == Ok::<usize, TextureError>(super::data_bytes(width, height, depth, f.bits_per_pixel()) as usize),
                None => r == Err::<usize, TextureError>(TextureError::UnknownExformat(format)),
            },
    {
        let pixels = super::pixel_count(width, height, depth);
        let fmt = InternalFormat::from_exformat(format)?;
        Ok(super::rounded_bytes(pixels, fmt.bpp()))
    }
}


/// Byte `i` of pixel `p` splits into pixel and channel.
proof fn lemma_pixel_byte(p: int, k: int)
    requires
        0 <= k < 4,
        p >= 0,
    ensures
        (4 * p + k) / 4 == p,
        (4 * p + k) % 4 == k,
{
    vstd::arithmetic::div_mod::lemma_fundamental_div_mod_converse(4 * p + k, 4, p, k);
}

/// Row and column of a pixel index.
proof fn lemma_row_col(p: int, w: int, h: int)
    requires
        0 <= p < w * h,
        w > 0,
    ensures
        0 <= p % w < w,
        0 <= p / w < h,
{
    vstd::arithmetic::div_mod::lemma_fundamental_div_mod(p, w);
    let y = p / w;
    let x = p % w;
    assert(y < h) by (nonlinear_arith)
        requires p == w * y + x, 0 <= x, p < w * h, w > 0;
    assert(y >= 0) by (nonlinear_arith)
        requires p == w * y + x, x < w, p >= 0, w > 0;
}

/// Decodes the pixel-by-pixel formats and untiles them into `output`.
fn decode_untiled(fmt: InternalFormat, input: &[u8], output: &mut Vec<u8>, width: u32, height: u32)
    requires
        fmt == InternalFormat::I4 || fmt == InternalFormat::I8 || fmt == InternalFormat::IA4
            || fmt == InternalFormat::IA8 || fmt == InternalFormat::RGB5A3,
        width * height * 4 <= old(output).len(),
        width > 0 && height > 0 ==> (width + 7) * (height + 7) <= u32::MAX,
        width * height > 0 ==> 64 + linear_bytes(fmt, width * height) <= input.len(),
    ensures
        final(output)@ == untiled(fmt, input@.subrange(64, input@.len() as int), width as int, height as int, old(output)@),
{
    let ghost start = output@;
    let ghost data = input@.subrange(64, input@.len() as int);
    let ghost w = width as int;
    let ghost h = height as int;
    if width == 0 || height == 0 {
        assert(output@ =~= untiled(fmt, data, w, h, start));
        return;
    }
    proof {
        assert(w * h > 0 && w + 7 <= (w + 7) * (h + 7)) by (nonlinear_arith)
            requires w > 0, h > 0;
    }
    let wz = width as usize;
    let total = wz * (height as usize);
    let (bw, bh) = fmt.block_size();
    assert(bw <= 8 && bh <= 8 && bw >= 4 && bh >= 4);
    assert(w + 7 <= u32::MAX);
    assert(u32::MAX <= usize::MAX);
    let nbx = (wz + (bw - 1)) / bw;
    let mut p: usize = 0;
    while p < total
        invariant
            fmt == InternalFormat::I4 || fmt == InternalFormat::I8 || fmt == InternalFormat::IA4
                || fmt == InternalFormat::IA8 || fmt == InternalFormat::RGB5A3,
            w == wz, h == height, wz > 0, height > 0,
            total == w * h,
            total * 4 <= output.len(),
            output@.len() == start.len(),
            bw == fmt.tile().0,
            bh == fmt.tile().1,
            nbx == (w + bw - 1) / (bw as int),
            (w + 7) * (h + 7) <= u32::MAX,
            64 + linear_bytes(fmt, total as int) <= input.len(),
            data == input@.subrange(64, input@.len() as int),
            p <= total,
            forall|i: int| 0 <= i < 4 * p ==> output@[i] == #[trigger] untiled(fmt, data, w, h, start)[i],
            forall|i: int| 4 * p <= i < start.len() ==> output@[i] == start[i],
        decreases total - p,
    {
        proof {
            lemma_row_col(p as int, w, h);
        }
        let x = p % wz;
        let y = p / wz;
        proof {
            lemma_tile_index(w, h, bw as int, bh as int, x as int, y as int);
            assert(tile_index(w, bw as int, bh as int, x as int, y as int) < u32::MAX);
        }
        let s = ((y / bh) * nbx + x / bw) * (bw * bh) + (y % bh) * bw + x % bw;
        assert(s == tile_index(w, bw as int, bh as int, x as int, y as int));
        let px = if s < total {
            proof {
                assert(linear_bytes(fmt, s + 1) <= linear_bytes(fmt, total as int));
            }
            linear_pixel(fmt, input, s)
        } else {
            (0u8, 0u8, 0u8, 0u8)
        };
        let ghost before = output@;
        output[4 * p] = px.0;
        output[4 * p + 1] = px.1;
        output[4 * p + 2] = px.2;
        output[4 * p + 3] = px.3;
        proof {
            assert forall|i: int| 0 <= i < 4 * (p + 1) implies output@[i] == #[trigger] untiled(fmt, data, w, h, start)[i] by {
                if i >= 4 * p {
                    lemma_pixel_byte(p as int, i - 4 * p);
                    assert(i / 4 == p);
                    assert(i % 4 == i - 4 * p);
                    assert(p < w * h);
                } else {
                    assert(output@[i] == before[i]);
                }
            }
        }
        p = p + 1;
    }
    proof {
        assert forall|i: int| 0 <= i < start.len() implies output@[i] == #[trigger] untiled(fmt, data, w, h, start)[i] by {
            if i >= 4 * total {
                assert(i / 4 >= total);
            }
        }
        assert(output@ =~= untiled(fmt, data, w, h, start));
    }
}

/// RGBA8 tile offsets stay inside the stream.
proof fn lemma_rgba8_offset(w: int, rows: int, p: int)
    requires
        w > 0,
        w % 4 == 0,
        rows % 4 == 0,
        0 <= p < w * rows,
    ensures
        0 <= rgba8_offset(w, p % w, p / w),
        rgba8_offset(w, p % w, p / w) + 33 < 4 * w * rows,
        0 <= ((p / w) / 4) * (w / 4) <= ((p / w) / 4) * (w / 4) + (p % w) / 4,
        (((p / w) / 4) * (w / 4) + (p % w) / 4) * 64 <= rgba8_offset(w, p % w, p / w),
{
    lemma_row_col(p, w, rows);
    let px = p % w;
    let py = p / w;
    vstd::arithmetic::div_mod::lemma_fundamental_div_mod(px, 4);
    vstd::arithmetic::div_mod::lemma_fundamental_div_mod(py, 4);
    vstd::arithmetic::div_mod::lemma_fundamental_div_mod(w, 4);
    vstd::arithmetic::div_mod::lemma_fundamental_div_mod(rows, 4);
    let a = (py / 4) * (w / 4) + px / 4;
    let wq = w / 4;
    let rq = rows / 4;
    assert(px / 4 < wq) by (nonlinear_arith)
        requires px == 4 * (px / 4) + px % 4, px % 4 >= 0, px < w, w == 4 * wq;
    assert(py / 4 < rq) by (nonlinear_arith)
        requires py == 4 * (py / 4) + py % 4, py % 4 >= 0, py < rows, rows == 4 * rq;
    assert(0 <= a < rq * wq) by (nonlinear_arith)
        requires a == (py / 4) * wq + px / 4, 0 <= px / 4 < wq, 0 <= py / 4 < rq;
    assert(64 * (rq * wq) == 4 * w * rows) by (nonlinear_arith)
        requires w == 4 * wq, rows == 4 * rq;
}

/// Decodes RGBA8 tiles: each 4x4 tile is 32 bytes of alpha/red pairs, then
/// 32 bytes of green/blue pairs.
fn decode_rgba8(input: &[u8], output: &mut Vec<u8>, width: u32, rows: usize)
    requires
        width > 0,
        width % 4 == 0,
        rows % 4 == 0,
        old(output)@.len() == 4 * width * rows,
        64 + old(output)@.len() <= input.len(),
    ensures
        final(output)@ == rgba8_tiles(input@.subrange(64, input@.len() as int), width as int, old(output)@.len() as int),
{
    let ghost start = output@;
    let ghost data = input@.subrange(64, input@.len() as int);
    let ghost w = width as int;
    let wz = width as usize;
    proof {
        assert(4 * w * rows == (w * rows) * 4) by (nonlinear_arith);
        vstd::arithmetic::div_mod::lemma_fundamental_div_mod_converse(4 * w * rows, 4, w * rows, 0);
    }
    let total = output.len() / 4;
    assert(total == w * rows);
    let mut p: usize = 0;
    while p < total
        invariant
            w == wz, wz > 0, wz % 4 == 0, rows % 4 == 0,
            total == w * rows,
            start.len() == 4 * total,
            output@.len() == start.len(),
            start.len() == output.len(),
            64 + start.len() <= input.len(),
            data == input@.subrange(64, input@.len() as int),
            p <= total,
            forall|i: int| 0 <= i < 4 * p ==> output@[i] == #[trigger] rgba8_tiles(data, w, start.len() as int)[i],
        decreases total - p,
    {
        proof {
            lemma_rgba8_offset(w, rows as int, p as int);
            lemma_row_col(p as int, w, rows as int);
            assert(4 * w * rows == 4 * total) by (nonlinear_arith)
                requires total == w * rows;
        }
        let x = p % wz;
        let y = p / wz;
        let o = ((y / 4) * (wz / 4) + x / 4) * 64 + (y % 4) * 8 + (x % 4) * 2;
        assert(o == rgba8_offset(w, x as int, y as int));
        let a = input[64 + o];
        let r = input[64 + o + 1];
        let g = input[64 + o + 32];
        let b = input[64 + o + 33];
        let ghost before = output@;
        output[4 * p] = r;
        output[4 * p + 1] = g;
        output[4 * p + 2] = b;
        output[4 * p + 3] = a;
        proof {
            assert forall|i: int| 0 <= i < 4 * (p + 1) implies output@[i] == #[trigger] rgba8_tiles(data, w, start.len() as int)[i] by {
                if i >= 4 * p {
                    lemma_pixel_byte(p as int, i - 4 * p);
                } else {
                    assert(output@[i] == before[i]);
                }
            }
        }
        p = p + 1;
    }
    assert(output@ =~= rgba8_tiles(data, w, start.len() as int));
}


/// Where CMPR sub-block `q` of tile (`bx`, `by`) lands, and that it fits.
proof fn lemma_s3tc_block(w: int, h: int, d: int, nbx8: int, nby8: int, bx: int, by: int, q: int)
    requires
        w > 0,
        nbx8 > 0,
        0 <= bx < nbx8,
        0 <= by < nby8,
        0 <= q < 4,
        ((nby8 - 1) * 8 + 7) * w + (nbx8 - 1) * 8 + 7 < w * h * d,
    ensures
        s3tc_base(w, nbx8, 4 * (by * nbx8 + bx) + q) == ((by * 8 + (q / 2) * 4) * w + bx * 8 + (q % 2) * 4) * 4,
        ((by * 8 + (q / 2) * 4) * w + bx * 8 + (q % 2) * 4) * 4 + (3 * w + 4) * 4 <= 4 * (w * h * d),
        0 <= ((by * 8 + (q / 2) * 4) * w + bx * 8 + (q % 2) * 4) * 4,
{
    let m = by * nbx8 + bx;
    let j = 4 * m + q;
    vstd::arithmetic::div_mod::lemma_fundamental_div_mod_converse(j, 4, m, q);
    assert(m == nbx8 * by + bx) by (nonlinear_arith)
        requires m == by * nbx8 + bx;
    vstd::arithmetic::div_mod::lemma_fundamental_div_mod_converse(m, nbx8, by, bx);
    let row = by * 8 + (q / 2) * 4;
    let col = bx * 8 + (q % 2) * 4;
    assert(row + 3 <= (nby8 - 1) * 8 + 7);
    assert(col + 4 <= (nbx8 - 1) * 8 + 8);
    assert((row + 3) * w <= ((nby8 - 1) * 8 + 7) * w) by (nonlinear_arith)
        requires row + 3 <= (nby8 - 1) * 8 + 7, w > 0;
    assert(row * w + col + 3 * w + 4 <= w * h * d) by (nonlinear_arith)
        requires
            (row + 3) * w <= ((nby8 - 1) * 8 + 7) * w,
            col + 4 <= (nbx8 - 1) * 8 + 8,
            ((nby8 - 1) * 8 + 7) * w + (nbx8 - 1) * 8 + 7 < w * h * d;
    assert(row * w >= 0) by (nonlinear_arith)
        requires row >= 0, w > 0;
}

/// Decodes CMPR: 8x8 tiles of four DXT sub-blocks, written in order into a
/// zeroed buffer that then becomes the output.
fn decode_s3tc(input: &[u8], output: &mut Vec<u8>, width: u32, height: u32, depth: u32)
    requires
        width > 0,
        height > 0,
        width % 4 == 0,
        height + 8 <= u32::MAX,
        old(output).len() == 4 * (width * height * depth),
        ({
            let nbx8 = (width + 7) / 8;
            let nby8 = (height + 7) / 8;
            &&& ((nby8 - 1) * 8 + 7) * width + (nbx8 - 1) * 8 + 7 < width * height * depth
            &&& 64 + 32 * nbx8 * nby8 <= input.len()
        }),
    ensures
        final(output)@ == s3tc_output(input@.subrange(64, input@.len() as int), width as int, height as int, old(output)@.len() as int),
{
    let ghost data = input@.subrange(64, input@.len() as int);
    let ghost w = width as int;
    let ghost h = height as int;
    let ghost d = depth as int;
    let len = output.len();
    let wz = width as usize;
    let nbx8 = (wz + 7) / 8;
    let nby8 = (height as usize + 7) / 8;
    let mut buffer: Vec<u8> = vec![0u8; len];
    let ghost zeros = buffer@;
    assert(zeros =~= Seq::new(len as nat, |i: int| 0u8));
    let mut by: usize = 0;
    while by < nby8
        invariant
            w == wz, w == width, h == height, w > 0, w % 4 == 0, h > 0, h + 8 <= u32::MAX,
            nbx8 == (w + 7) / 8,
            nby8 == (h + 7) / 8,
            nbx8 > 0,
            ((nby8 - 1) * 8 + 7) * w + (nbx8 - 1) * 8 + 7 < w * h * d,
            64 + 32 * nbx8 * nby8 <= input.len(),
            len == 4 * (w * h * d),
            buffer@.len() == len,
            buffer.len() == len,
            zeros == Seq::new(len as nat, |i: int| 0u8),
            data == input@.subrange(64, input@.len() as int),
            by <= nby8,
            buffer@ == s3tc_after(zeros, data, w, nbx8 as int, (4 * (by * nbx8)) as nat),
        decreases nby8 - by,
    {
        let mut bx: usize = 0;
        while bx < nbx8
            invariant
                w == wz, w == width, h == height, w > 0, w % 4 == 0, h > 0, h + 8 <= u32::MAX,
                nbx8 == (w + 7) / 8,
                nby8 == (h + 7) / 8,
                nbx8 > 0,
                ((nby8 - 1) * 8 + 7) * w + (nbx8 - 1) * 8 + 7 < w * h * d,
                64 + 32 * nbx8 * nby8 <= input.len(),
                len == 4 * (w * h * d),
                buffer@.len() == len,
                buffer.len() == len,
                zeros == Seq::new(len as nat, |i: int| 0u8),
                data == input@.subrange(64, input@.len() as int),
                by < nby8,
                bx <= nbx8,
                buffer@ == s3tc_after(zeros, data, w, nbx8 as int, (4 * (by * nbx8 + bx)) as nat),
            decreases nbx8 - bx,
        {
            let ghost m = by * nbx8 + bx;
            proof {
                assert(m + 1 <= nbx8 * nby8) by (nonlinear_arith)
                    requires m == by * nbx8 + bx, bx < nbx8, by < nby8;
                assert(0 <= by * nbx8 <= m) by (nonlinear_arith)
                    requires m == by * nbx8 + bx, bx >= 0, by >= 0, nbx8 >= 0;
                assert(4 * m <= 32 * nbx8 * nby8) by (nonlinear_arith)
                    requires m + 1 <= nbx8 * nby8;
                assert(by * 8 <= h + 7);
                assert(u32::MAX <= usize::MAX);
                assert(w >= 4);
            }
            let j = 4 * (by * nbx8 + bx);
            let x = bx * 8;
            let y = by * 8;
            let mut q: usize = 0;
            while q < 4
                invariant
                    w == wz, w == width, h == height, w > 0, w % 4 == 0, h > 0, h + 8 <= u32::MAX,
                    nbx8 == (w + 7) / 8,
                    nby8 == (h + 7) / 8,
                    nbx8 > 0,
                    ((nby8 - 1) * 8 + 7) * w + (nbx8 - 1) * 8 + 7 < w * h * d,
                    64 + 32 * nbx8 * nby8 <= input.len(),
                    len == 4 * (w * h * d),
                    buffer@.len() == len,
                    buffer.len() == len,
                    data == input@.subrange(64, input@.len() as int),
                    by < nby8,
                    bx < nbx8,
                    m == by * nbx8 + bx,
                    m + 1 <= nbx8 * nby8,
                    j == 4 * m,
                    x == bx * 8,
                    y == by * 8,
                    w >= 4,
                    q <= 4,
                    buffer@ == s3tc_after(zeros, data, w, nbx8 as int, (j + q) as nat),
                decreases 4 - q,
            {
                proof {
                    lemma_s3tc_block(w, h, d, nbx8 as int, nby8 as int, bx as int, by as int, q as int);
                    assert(64 + 8 * (j + q) + 8 <= input.len()) by (nonlinear_arith)
                        requires j == 4 * m, m + 1 <= nbx8 * nby8, q < 4, 64 + 32 * nbx8 * nby8 <= input.len();
                }
                let base = ((y + (q / 2) * 4) * wz + x + (q % 2) * 4) * 4;
                assert(width >= 4);
                assert(base + (3 * width + 4) * 4 <= buffer@.len());
                assert(64 + 8 * (j + q) + 8 <= input@.len());
                let ghost before = buffer@;
                decode_dxt_block(&mut buffer, base, input, 64 + 8 * (j + q), width);
                proof {
                    let jj = (j + q) as int;
                    assert(data.subrange(8 * jj, 8 * jj + 8) =~= input@.subrange(64 + 8 * jj, 64 + 8 * jj + 8));
                    assert(s3tc_base(w, nbx8 as int, jj) == base);
                    assert(buffer@ == s3tc_after(zeros, data, w, nbx8 as int, (jj + 1) as nat));
                }
                q = q + 1;
            }
            bx = bx + 1;
        }
        proof {
            assert(4 * (by * nbx8 + nbx8) == 4 * ((by + 1) * nbx8)) by (nonlinear_arith);
        }
        by = by + 1;
    }
    proof {
        assert(4 * (nby8 * nbx8) == 4 * nbx8 * nby8) by (nonlinear_arith);
    }
    *output = buffer;
}

impl GxTextureDecoder {
    /// Decodes a GX texture into RGBA8 `output` (row width `width`). The
    /// input's first 64 bytes are a header whose byte 27 names the GX format,
    /// which must agree with the exported `format`.
    pub fn decode(
        &self,
        input: &[u8],
        _clut: Option<&[u8]>,
        output: &mut Vec<u8>,
        width: u32,
        height: u32,
        depth: u32,
        format: u8,
        _version: u32,
    ) -> (res: Result<(), TextureError>)
        requires
            gx_decodable(input@, width, height, depth, format, old(output)@.len() as int),
        ensures
            match gx_check(input@, width, height, depth, format, old(output)@.len() as int) {
                Ok(fmt) => res is Ok && final(output)@ == gx_output(
                    fmt,
                    input@.subrange(64, input@.len() as int),
                    width as int,
                    height as int,
                    old(output)@,
                ),
                Err(e) => res == Err::<(), TextureError>(e) && final(output)@ == old(output)@,
            },
    {
        let gxformat = input[27];
        let fmt = match InternalFormat::n(gxformat) {
            Some(f) => f,
            None => return Err(TextureError::InvalidFormat(gxformat)),
        };
        let ef = InternalFormat::from_exformat(format)?;
        if fmt != ef {
            return Err(TextureError::FormatMismatch);
        }
        proof {
            lemma_gx_output_fits(width, height, depth, fmt.bits_per_pixel());
        }
        let need = self.get_data_size(width, height, depth, format)?;
        if input.len() - 64 < need {
            return Err(TextureError::InputTooShort);
        }
        let pixels = super::pixel_count(width, height, depth);
        if output.len() != pixels * 4 {
            return Err(TextureError::OutputSizeMismatch);
        }
        let ghost w = width as int;
        let ghost h = height as int;
        let ghost d = depth as int;
        match fmt {
            InternalFormat::RGBA8 => {
                if width > 0 && height > 0 {
                    let rows = ((height as usize + 3) / 4) * 4;
                    proof {
                        assert(w * h * d * 4 == 4 * w * (h * d)) by (nonlinear_arith);
                        let n = w * h * d;
                        assert((n * 32 + 7) / 8 == n * 4) by (nonlinear_arith)
                            requires n >= 0;
                        assert(64 + output@.len() <= input@.len());
                    }
                    decode_rgba8(input, output, width, rows);
                } else {
                    proof {
                        assert(w * h == 0) by (nonlinear_arith)
                            requires w == 0 || h == 0;
                        assert(w * h * d == 0) by (nonlinear_arith)
                            requires w * h == 0;
                        assert(output@ =~= rgba8_tiles(input@.subrange(64, input@.len() as int), w, 0));
                    }
                }
            },
            InternalFormat::CMPR => {
                if width % 4 != 0 || height % 4 != 0 {
                    return Err(TextureError::OddResolution);
                }
                if width > 0 && height > 0 {
                    proof {
                        assert(w * h * d * 4 == 4 * (w * h * d)) by (nonlinear_arith);
                        assert(32 * ((w + 7) / 8) * ((h + 7) / 8) == 32 * ((width + 7) / 8) * ((height + 7) / 8));
                    }
                    decode_s3tc(input, output, width, height, depth);
                } else {
                    proof {
                        assert(w * h == 0) by (nonlinear_arith)
                            requires w == 0 || h == 0;
                        assert(w * h * d == 0) by (nonlinear_arith)
                            requires w * h == 0;
                        let nbx8 = (w + 7) / 8;
                        let nby8 = (h + 7) / 8;
                        assert(nbx8 == 0 || nby8 == 0);
                        assert(4 * nbx8 * nby8 == 0) by (nonlinear_arith)
                            requires nbx8 == 0 || nby8 == 0;
                        assert(output@ =~= Seq::new(0, |i: int| 0u8));
                    }
                }
            },
            _ => {
                proof {
                    if w * h > 0 {
                        assert(w > 0 && h > 0) by (nonlinear_arith)
                            requires w * h > 0, w >= 0, h >= 0;
                        lemma_linear_bytes(fmt, width, height, depth, w * h - 1);
                    }
                    assert(w * h * d * 4 >= w * h * 4 || w * h == 0) by (nonlinear_arith)
                        requires d >= 1 || w * h == 0, w >= 0, h >= 0;
                }
                decode_untiled(fmt, input, output, width, height);
            },
        }
        Ok(())
    }
}

/// The fields of a big-endian RGB565 colour as arithmetic on its value.
proof fn lemma_dxt_colour_fields(hi: u8, lo: u8)
    ensures
        be16(hi, lo) == 256 * hi + lo,
        (be16(hi, lo) & 0x1Fu16) as u8 == (256 * hi + lo) % 32,
        ((be16(hi, lo) >> 5u16) & 0x3Fu16) as u8 == ((256 * hi + lo) / 32) % 64,
        ((be16(hi, lo) >> 11u16) & 0x1Fu16) as u8 == (256 * hi + lo) / 2048,
{
    assert({
        &&& (((hi as u16) << 8u16) | (lo as u16)) == 256 * hi + lo
        &&& ((((hi as u16) << 8u16) | (lo as u16)) & 0x1Fu16) as u8 == (256 * hi + lo) % 32
        &&& (((((hi as u16) << 8u16) | (lo as u16)) >> 5u16) & 0x3Fu16) as u8 == ((256 * hi + lo) / 32) % 64
        &&& (((((hi as u16) << 8u16) | (lo as u16)) >> 11u16) & 0x1Fu16) as u8 == (256 * hi + lo) / 2048
    }) by (bit_vector);
}

/// The 2-bit code of pixel `xx` of a row byte: the pairs of bits from the
/// top down.
proof fn lemma_dxt_code_bits(row: u8)
    ensures
        ((row << 0u8) >> 6u8) & 3u8 == (row / 64) % 4,
        ((row << 2u8) >> 6u8) & 3u8 == (row / 16) % 4,
        ((row << 4u8) >> 6u8) & 3u8 == (row / 4) % 4,
        ((row << 6u8) >> 6u8) & 3u8 == row % 4,
{
    assert({
        &&& ((row << 0u8) >> 6u8) & 3u8 == (row / 64) % 4
        &&& ((row << 2u8) >> 6u8) & 3u8 == (row / 16) % 4
        &&& ((row << 4u8) >> 6u8) & 3u8 == (row / 4) % 4
        &&& ((row << 6u8) >> 6u8) & 3u8 == row % 4
    }) by (bit_vector);
}

/// Pixel (`x`, `y`) of a written block shows the palette colour of its
/// code.
proof fn lemma_dxt_write_pixel(buf: Seq<u8>, base: int, src: Seq<u8>, pitch: int, x: int, y: int)
    requires
        src.len() >= 8,
        base >= 0,
        pitch >= 4,
        0 <= x < 4,
        0 <= y < 4,
        base + 4 * (y * pitch + x) + 4 <= buf.len(),
    ensures
        ({
            let out = dxt_write(buf, base, src, pitch);
            let pos = base + 4 * (y * pitch + x);
            let shift = if x == 0 { 64int } else if x == 1 { 16int } else if x == 2 { 4int } else { 1int };
            let code = (src[4 + y] as int / shift) % 4;
            &&& out[pos] == dxt_palette(src, code, 0)
            &&& out[pos + 1] == dxt_palette(src, code, 1)
            &&& out[pos + 2] == dxt_palette(src, code, 2)
            &&& out[pos + 3] == dxt_palette(src, code, 3)
        }),
{
    let q = y * pitch + x;
    assert(0 <= q) by (nonlinear_arith)
        requires q == y * pitch + x, y >= 0, pitch >= 4, x >= 0;
    super::pc::lemma_pixel_bytes(q);
    vstd::arithmetic::div_mod::lemma_fundamental_div_mod_converse(q, pitch, y, x);
    lemma_dxt_code_bits(src[4 + y]);
}

/// The palette of a DXT block as arithmetic on its two colours.
proof fn lemma_dxt_palette_arith(src: Seq<u8>)
    requires
        src.len() >= 8,
    ensures
        ({
            let c1 = 256 * src[0] + src[1];
            let c2 = 256 * src[2] + src[3];
            let (r1, g1, b1) = (c1 / 2048, (c1 / 32) % 64, c1 % 32);
            let (r2, g2, b2) = (c2 / 2048, (c2 / 32) % 64, c2 % 32);
            let (rr1, gg1, bb1) = (r1 * 8 + r1 / 4, g1 * 4 + g1 / 16, b1 * 8 + b1 / 4);
            let (rr2, gg2, bb2) = (r2 * 8 + r2 / 4, g2 * 4 + g2 / 16, b2 * 8 + b2 / 4);
            let is = |code: int, r: int, g: int, b: int, a: int|
                dxt_palette(src, code, 0) == r && dxt_palette(src, code, 1) == g && dxt_palette(src, code, 2) == b
                    && dxt_palette(src, code, 3) == a;
            &&& is(0, rr1, gg1, bb1, 255)
            &&& is(1, rr2, gg2, bb2, 255)
            &&& c1 > c2 ==> is(2, (3 * rr2 + 5 * rr1) / 8, (3 * gg2 + 5 * gg1) / 8, (3 * bb2 + 5 * bb1) / 8, 255)
            &&& c1 > c2 ==> is(3, (3 * rr1 + 5 * rr2) / 8, (3 * gg1 + 5 * gg2) / 8, (3 * bb1 + 5 * bb2) / 8, 255)
            &&& c1 <= c2 ==> is(2, (rr1 + rr2) / 2, (gg1 + gg2) / 2, (bb1 + bb2) / 2, 255)
            &&& c1 <= c2 ==> is(3, (rr1 + rr2) / 2, (gg1 + gg2) / 2, (bb1 + bb2) / 2, 0)
        }),
{
    lemma_dxt_colour_fields(src[0], src[1]);
    lemma_dxt_colour_fields(src[2], src[3]);
    let c1 = be16(src[0], src[1]);
    let c2 = be16(src[2], src[3]);
    super::bits::lemma_widening_arith((c1 & 0x1Fu16) as u8);
    super::bits::lemma_widening_arith((c2 & 0x1Fu16) as u8);
    super::bits::lemma_widening_arith(((c1 >> 5u16) & 0x3Fu16) as u8);
    super::bits::lemma_widening_arith(((c2 >> 5u16) & 0x3Fu16) as u8);
    super::bits::lemma_widening_arith(((c1 >> 11u16) & 0x1Fu16) as u8);
    super::bits::lemma_widening_arith(((c2 >> 11u16) & 0x1Fu16) as u8);
}

/// How a DXT (CMPR) block is decoded, for every pixel (`x`, `y`) of the
/// block. The block holds two big-endian RGB565 colours `c1`, `c2` and four
/// rows of 2-bit codes, the leftmost pixel in the top bits. Code 0 and 1
/// give the two colours, widened to 8 bits per channel. Where `c1 > c2`,
/// codes 2 and 3 give the colours mixed 5:3 and 3:5, opaque; otherwise
/// code 2 gives their average, opaque, and code 3 their average,
/// transparent.
pub proof fn law_dxt_block(buf: Seq<u8>, base: int, src: Seq<u8>, pitch: int, x: int, y: int)
    requires
        src.len() >= 8,
        base >= 0,
        pitch >= 4,
        0 <= x < 4,
        0 <= y < 4,
        base + 4 * (y * pitch + x) + 4 <= buf.len(),
    ensures
        ({
            let out = dxt_write(buf, base, src, pitch);
            let pos = base + 4 * (y * pitch + x);
            let shift = if x == 0 { 64int } else if x == 1 { 16int } else if x == 2 { 4int } else { 1int };
            let code = (src[4 + y] as int / shift) % 4;
            let c1 = 256 * src[0] + src[1];
            let c2 = 256 * src[2] + src[3];
            let (r1, g1, b1) = (c1 / 2048, (c1 / 32) % 64, c1 % 32);
            let (r2, g2, b2) = (c2 / 2048, (c2 / 32) % 64, c2 % 32);
            let (rr1, gg1, bb1) = (r1 * 8 + r1 / 4, g1 * 4 + g1 / 16, b1 * 8 + b1 / 4);
            let (rr2, gg2, bb2) = (r2 * 8 + r2 / 4, g2 * 4 + g2 / 16, b2 * 8 + b2 / 4);
            let is = |r: int, g: int, b: int, a: int|
                out[pos] == r && out[pos + 1] == g && out[pos + 2] == b && out[pos + 3] == a;
            &&& code == 0 ==> is(rr1, gg1, bb1, 255)
            &&& code == 1 ==> is(rr2, gg2, bb2, 255)
            &&& c1 > c2 && code == 2 ==> is((3 * rr2 + 5 * rr1) / 8, (3 * gg2 + 5 * gg1) / 8, (3 * bb2 + 5 * bb1) / 8, 255)
            &&& c1 > c2 && code == 3 ==> is((3 * rr1 + 5 * rr2) / 8, (3 * gg1 + 5 * gg2) / 8, (3 * bb1 + 5 * bb2) / 8, 255)
            &&& c1 <= c2 && code == 2 ==> is((rr1 + rr2) / 2, (gg1 + gg2) / 2, (bb1 + bb2) / 2, 255)
            &&& c1 <= c2 && code == 3 ==> is((rr1 + rr2) / 2, (gg1 + gg2) / 2, (bb1 + bb2) / 2, 0)
        }),
{
    lemma_dxt_write_pixel(buf, base, src, pitch, x, y);
    lemma_dxt_palette_arith(src);
}

/// The fields of a big-endian RGB5A3 value as arithmetic on the value.
proof fn lemma_rgb5a3_fields(v: u16)
    ensures
        (v & 0x8000u16 != 0) == (v >= 32768),
        ((v >> 10u16) & 0x1fu16) as u8 == (v / 1024) % 32,
        ((v >> 5u16) & 0x1fu16) as u8 == (v / 32) % 32,
        (v & 0x1fu16) as u8 == v % 32,
        ((v >> 8u16) & 0xfu16) as u8 == (v / 256) % 16,
        ((v >> 4u16) & 0xfu16) as u8 == (v / 16) % 16,
        (v & 0xfu16) as u8 == v % 16,
        ((v >> 12u16) & 0x7u16) as u8 == (v / 4096) % 8,
{
    assert({
        &&& (v & 0x8000u16 != 0) == (v >= 32768)
        &&& ((v >> 10u16) & 0x1fu16) as u8 == (v / 1024) % 32
        &&& ((v >> 5u16) & 0x1fu16) as u8 == (v / 32) % 32
        &&& (v & 0x1fu16) as u8 == v % 32
        &&& ((v >> 8u16) & 0xfu16) as u8 == (v / 256) % 16
        &&& ((v >> 4u16) & 0xfu16) as u8 == (v / 16) % 16
        &&& (v & 0xfu16) as u8 == v % 16
        &&& ((v >> 12u16) & 0x7u16) as u8 == (v / 4096) % 8
    }) by (bit_vector);
}

/// How the GX decoder reads pixel `s` of the pixel stream of the formats
/// decoded pixel by pixel: I4 holds two 4-bit intensities per byte, the
/// first in the high nibble; I8 one intensity per byte; IA4 intensity in
/// the low and alpha in the high nibble; IA8 alpha then intensity; RGB5A3 a
/// big-endian 16-bit value that is opaque RGB555 when its top bit is set
/// and otherwise 3-bit alpha and RGB444. Narrow channels are widened by
/// repeating their bits.
pub proof fn law_gx_linear_pixels(fmt: InternalFormat, data: Seq<u8>, s: int)
    requires
        0 <= s,
        linear_bytes(fmt, s + 1) <= data.len(),
    ensures
        ({
            let c = |k: int| linear_channel(fmt, data, s, k) as int;
            let grey = |v: int, a: int| c(0) == v && c(1) == v && c(2) == v && c(3) == a;
            let n = 256 * data[2 * s] + data[2 * s + 1];
            &&& fmt == InternalFormat::I4 ==> grey(
                (if s % 2 == 0 { data[s / 2] / 16 } else { data[s / 2] % 16 }) * 17,
                255,
            )
            &&& fmt == InternalFormat::I8 ==> grey(data[s] as int, 255)
            &&& fmt == InternalFormat::IA4 ==> grey((data[s] % 16) * 17, (data[s] / 16) * 17)
            &&& fmt == InternalFormat::IA8 ==> grey(data[2 * s + 1] as int, data[2 * s] as int)
            &&& fmt == InternalFormat::RGB5A3 && n >= 32768 ==> {
                let (r, g, b) = ((n / 1024) % 32, (n / 32) % 32, n % 32);
                c(0) == r * 8 + r / 4 && c(1) == g * 8 + g / 4 && c(2) == b * 8 + b / 4 && c(3) == 255
            }
            &&& fmt == InternalFormat::RGB5A3 && n < 32768 ==> {
                let (a, r, g, b) = ((n / 4096) % 8, (n / 256) % 16, (n / 16) % 16, n % 16);
                c(0) == r * 17 && c(1) == g * 17 && c(2) == b * 17 && c(3) == a * 32 + a * 4 + a / 2
            }
        }),
{
    if fmt == InternalFormat::I4 {
        let v = data[s / 2];
        assert(v >> 4u8 == v / 16 && v & 0x0fu8 == v % 16) by (bit_vector);
        super::bits::lemma_widening_arith(v >> 4u8);
        super::bits::lemma_widening_arith(v & 0x0fu8);
    } else if fmt == InternalFormat::IA4 {
        let v = data[s];
        assert(v >> 4u8 == v / 16 && v & 0x0fu8 == v % 16) by (bit_vector);
        super::bits::lemma_widening_arith(v >> 4u8);
        super::bits::lemma_widening_arith(v & 0x0fu8);
    } else if fmt == InternalFormat::RGB5A3 {
        let v = be16(data[2 * s], data[2 * s + 1]);
        lemma_dxt_colour_fields(data[2 * s], data[2 * s + 1]);
        lemma_rgb5a3_fields(v);
        super::bits::lemma_widening_arith(((v >> 10u16) & 0x1fu16) as u8);
        super::bits::lemma_widening_arith(((v >> 5u16) & 0x1fu16) as u8);
        super::bits::lemma_widening_arith((v & 0x1fu16) as u8);
        super::bits::lemma_widening_arith(((v >> 8u16) & 0xfu16) as u8);
        super::bits::lemma_widening_arith(((v >> 4u16) & 0xfu16) as u8);
        super::bits::lemma_widening_arith((v & 0xfu16) as u8);
        super::bits::lemma_widening_arith(((v >> 12u16) & 0x7u16) as u8);
    }
}

} // verus!
