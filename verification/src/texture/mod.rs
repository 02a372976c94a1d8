//! Platform texture decoders. Every decoder writes RGBA8 pixels, row-major,
//! into a byte buffer whose row width is the texture width.
use vstd::prelude::*;

pub mod bcn;
pub mod bits;
pub mod gx;
pub mod morton;
pub mod pc;
pub mod ps2;
pub mod xbox;
pub mod xenon;

verus! {

/// Why a texture could not be decoded.
#[derive(Debug, Clone, Copy, PartialEq, Eq, Structural)]
pub enum TextureError {
    /// The platform format byte names no format of this platform.
    InvalidFormat(u8),
    /// The exported (platform independent) format byte is not known.
    UnknownExformat(u8),
    /// The GX header names another format than the exported format byte.
    FormatMismatch,
    /// The input holds fewer bytes than the texture needs.
    InputTooShort,
    /// The output buffer is not `width * height * depth * 4` bytes long.
    OutputSizeMismatch,
    /// CMPR textures whose sides are not multiples of four.
    OddResolution,
    /// The format is known but this decoder does not convert it.
    UnsupportedFormat,
    /// A palette was given where the format has none, or none where it has one.
    PaletteMismatch,
}

} // verus!

verus! {

/// The products that a texture's size is computed from stay inside `usize`.
pub open spec fn dims_fit(width: u32, height: u32, depth: u32, bpp: nat) -> bool {
    &&& width * height <= usize::MAX
    &&& width * height * depth <= usize::MAX
    &&& width * height * depth * bpp + 7 <= usize::MAX
}

/// The output size of a texture, `width * height * depth * 4` bytes,
/// computed in `usize` without overflow.
pub open spec fn output_fits(width: u32, height: u32, depth: u32) -> bool {
    &&& width * height <= usize::MAX
    &&& width * height * depth * 4 <= usize::MAX
}

/// Bytes needed for `width * height * depth` pixels of `bpp` bits each,
/// rounded up to whole bytes.
pub open spec fn data_bytes(width: u32, height: u32, depth: u32, bpp: nat) -> nat {
    ((width * height * depth * bpp + 7) / 8) as nat
}

/// `width * height * depth`, computed the way the decoders compute it.
pub fn pixel_count(width: u32, height: u32, depth: u32) -> (r: usize)
    requires
        width * height <= usize::MAX,
        width * height * depth <= usize::MAX,
    ensures
        r == width * height * depth,
{
    (width as usize * height as usize) * depth as usize
}

/// Whether `output_fits(width, height, depth)` holds.
pub fn output_size_fits(width: u32, height: u32, depth: u32) -> (r: bool)
    ensures
        r == output_fits(width, height, depth),
{
    let w = width as u128;
    let h = height as u128;
    let d = depth as u128;
    proof {
        assert(w * h <= 0xffff_ffff * 0xffff_ffff) by (nonlinear_arith)
            requires w <= 0xffff_ffff, h <= 0xffff_ffff;
        assert(w * h * d <= 0xffff_ffff * 0xffff_ffff * 0xffff_ffff) by (nonlinear_arith)
            requires w * h <= 0xffff_ffff * 0xffff_ffff, d <= 0xffff_ffff;
    }
    w * h <= usize::MAX as u128 && w * h * d * 4 <= usize::MAX as u128
}

/// Whole bytes needed for `pixels` pixels of `bpp` bits, rounded up.
pub fn rounded_bytes(pixels: usize, bpp: usize) -> (r: usize)
    requires
        pixels * bpp + 7 <= usize::MAX,
    ensures
        r == (pixels * bpp + 7) / 8,
{
    (pixels * bpp + 7) / 8
}

} // verus!

verus! {

/// An owned copy of `input`.
pub fn copy_bytes(input: &[u8]) -> (r: Vec<u8>)
    ensures
        r@ == input@,
{
    let mut r: Vec<u8> = Vec::with_capacity(input.len());
    let mut i: usize = 0;
    while i < input.len()
        invariant
            i <= input.len(),
            r@ == input@.subrange(0, i as int),
        decreases input.len() - i,
    {
        r.push(input[i]);
        i = i + 1;
    }
    assert(r@ =~= input@);
    r
}

} // verus!
