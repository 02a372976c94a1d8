//! Block-compressed (BC1-BC3 / DXT) textures, decompressed by `squish`.
use vstd::prelude::*;

verus! {

/// The block-compression formats `squish` decompresses.
#[derive(Debug, Clone, Copy, PartialEq, Eq, Structural)]
pub enum BcFormat {
    Bc1,
    Bc2,
    Bc3,
}

/// Bytes per 4x4 block.
pub open spec fn bc_block_bytes(format: BcFormat) -> nat {
    match format {
        BcFormat::Bc1 => 8,
        _ => 16,
    }
}

/// Number of 4-pixel blocks along a side of `size` pixels.
pub open spec fn num_blocks(size: nat) -> nat {
    ((size + 3) / 4) as nat
}

/// Compressed bytes that a `width` x `height` image occupies.
pub open spec fn bc_data_bytes(format: BcFormat, width: nat, height: nat) -> nat {
    num_blocks(width) * num_blocks(height) * bc_block_bytes(format)
}

/// Whether `len` bytes hold the compressed blocks of a `width` x `height`
/// image.
pub fn bc_fits(format: BcFormat, width: u32, height: u32, len: usize) -> (r: bool)
    ensures
        r == (bc_data_bytes(format, width as nat, height as nat) <= len),
{
    let bx = (width as u128 + 3) / 4;
    let by = (height as u128 + 3) / 4;
    let block: u128 = match format {
        BcFormat::Bc1 => 8,
        _ => 16,
    };
    proof {
        assert(bx * by <= 0x4000_0000 * 0x4000_0000) by (nonlinear_arith)
            requires bx <= 0x4000_0000, by <= 0x4000_0000;
        assert(bx * by * block <= 0x4000_0000 * 0x4000_0000 * 16) by (nonlinear_arith)
            requires bx * by <= 0x4000_0000 * 0x4000_0000, block <= 16;
    }
    bx * by * block <= len as u128
}

/// The RGBA8 pixels, row by row, that squish decompresses `data` into for a
/// `width` x `height` image of the given format.
pub uninterp spec fn squish_decompressed(format: BcFormat, data: Seq<u8>, width: nat, height: nat) -> Seq<u8>;

/// Calls `squish::Format::decompress`: it decodes every block of `data` and
/// writes the first `width * height * 4` bytes of `output` (pixel
/// (x, y) at `4 * (x + y * width)`), leaving the rest of `output` as it was.
/// It indexes out of bounds when `data` holds fewer bytes than the blocks
/// need or `output` fewer than `width * height * 4`, and overflows when it
/// rounds a side of more than `usize::MAX - 3` up to whole blocks;
/// `requires` excludes these.
/// What the decoded pixels are is left to the name `squish_decompressed`.
#[verifier::external_body]
pub(crate) fn squish_decompress(format: BcFormat, data: &[u8], width: usize, height: usize, output: &mut Vec<u8>)
    requires
        width + 3 <= usize::MAX,
        height + 3 <= usize::MAX,
        bc_data_bytes(format, width as nat, height as nat) <= data.len(),
        width * height * 4 <= old(output).len(),
    ensures
        final(output)@.len() == old(output)@.len(),
        final(output)@.subrange(0, width * height * 4) == squish_decompressed(format, data@, width as nat, height as nat),
        final(output)@.subrange(width * height * 4, old(output)@.len() as int)
            == old(output)@.subrange(width * height * 4, old(output)@.len() as int),
{
    let f = match format {
        BcFormat::Bc1 => squish::Format::Bc1,
        BcFormat::Bc2 => squish::Format::Bc2,
        BcFormat::Bc3 => squish::Format::Bc3,
    };
    f.decompress(data, width, height, output);
}

} // verus!
