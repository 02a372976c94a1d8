use eurochef::texture::bits::{blend_dxt, convert_3_to_8, convert_4_to_8, convert_5_to_8, convert_6_to_8, make_rgba};
use eurochef::texture::gx::{decode_dxt_block, GxTextureDecoder};
use eurochef::texture::pc::PcTextureDecoder;
use eurochef::texture::ps2::{swizzle4_targets_fit, swizzle4_to_32, swizzle8_to_32, Ps2TextureDecoder};
use eurochef::texture::xbox::{deswizzle, XboxTextureDecoder};
use eurochef::texture::xenon::{swap_endianness16, XenonTextureDecoder};
use eurochef::texture::TextureError;
use eurochef::texture::gx::InternalFormat as GxFormat;
use eurochef::texture::pc::InternalFormat as PcFormat;
use eurochef::texture::ps2::InternalFormat as Ps2Format;
use eurochef::texture::xbox::InternalFormat as XboxFormat;

#[test]
fn channel_widening_values() {
    assert_eq!(convert_3_to_8(5), 182);
    assert_eq!(convert_3_to_8(7), 255);
    assert_eq!(convert_4_to_8(0xa), 0xaa);
    assert_eq!(convert_5_to_8(31), 255);
    assert_eq!(convert_5_to_8(0x10), 132);
    assert_eq!(convert_6_to_8(63), 255);
    assert_eq!(convert_6_to_8(32), 130);
}

#[test]
fn widening_keeps_the_channel_in_the_high_bits() {
    for x in 0u8..32 {
        assert_eq!(convert_5_to_8(x) >> 3, x);
    }
    for x in 0u8..64 {
        assert_eq!(convert_6_to_8(x) >> 2, x);
    }
    for x in 0u8..16 {
        assert_eq!(convert_4_to_8(x) >> 4, x);
    }
    for x in 0u8..8 {
        assert_eq!(convert_3_to_8(x) >> 5, x);
    }
}

#[test]
fn rgba_packing_and_blending() {
    assert_eq!(make_rgba(1, 2, 3, 4), 0x0403_0201);
    assert_eq!(blend_dxt(8, 16), 13);
    assert_eq!(blend_dxt(0, 255), 159);
    assert_eq!(blend_dxt(255, 0), 95);
}

#[test]
fn dxt_block_colours_and_rows() {
    let src = [0xff, 0xff, 0x00, 0x00, 0x00, 0x55, 0xaa, 0xff];
    let mut dst = vec![0u8; 64];
    decode_dxt_block(&mut dst, 0, &src, 0, 4);
    assert_eq!(&dst[0..4], &[255, 255, 255, 255]);
    assert_eq!(&dst[16..20], &[0, 0, 0, 255]);
    assert_eq!(&dst[32..36], &[159, 159, 159, 255]);
    assert_eq!(&dst[48..52], &[95, 95, 95, 255]);
}

#[test]
fn gx_formats() {
    assert_eq!(GxFormat::I4.bpp(), 4);
    assert_eq!(GxFormat::RGBA8.bpp(), 32);
    assert_eq!(GxFormat::I8.block_size(), (8, 4));
    assert_eq!(GxFormat::CMPR.block_size(), (8, 8));
    assert_eq!(GxFormat::from_exformat(5), Ok(GxFormat::I8));
    assert_eq!(GxFormat::from_exformat(0), Ok(GxFormat::CMPR));
    assert_eq!(GxFormat::from_exformat(2), Err(TextureError::UnknownExformat(2)));
}

fn gx_input(gx_format: u8, data: &[u8]) -> Vec<u8> {
    let mut input = vec![0u8; 64];
    input[27] = gx_format;
    input.extend_from_slice(data);
    input
}

#[test]
fn gx_i8_tiles_are_untiled() {
    let data: Vec<u8> = (0u8..64).collect();
    let input = gx_input(1, &data);
    let mut output = vec![0u8; 16 * 4 * 4];
    let r = GxTextureDecoder.decode(&input, None, &mut output, 16, 4, 1, 5, 0);
    assert_eq!(r, Ok(()));
    assert_eq!(&output[0..4], &[0, 0, 0, 255]);
    // Pixel (9, 0) lies in the second 8x4 tile, at index 1 of it.
    assert_eq!(&output[4 * 9..4 * 9 + 4], &[33, 33, 33, 255]);
    // Pixel (0, 1) is index 8 of the first tile.
    assert_eq!(&output[4 * 16..4 * 16 + 4], &[8, 8, 8, 255]);
}

#[test]
fn gx_errors() {
    let mut output = vec![0u8; 8 * 4 * 4];
    let bad_header = gx_input(7, &[0u8; 32]);
    assert_eq!(GxTextureDecoder.decode(&bad_header, None, &mut output, 8, 4, 1, 5, 0), Err(TextureError::InvalidFormat(7)));
    let i8_input = gx_input(1, &[0u8; 32]);
    assert_eq!(GxTextureDecoder.decode(&i8_input, None, &mut output, 8, 4, 1, 2, 0), Err(TextureError::UnknownExformat(2)));
    assert_eq!(GxTextureDecoder.decode(&i8_input, None, &mut output, 8, 4, 1, 4, 0), Err(TextureError::FormatMismatch));
    let short = gx_input(1, &[0u8; 31]);
    assert_eq!(GxTextureDecoder.decode(&short, None, &mut output, 8, 4, 1, 5, 0), Err(TextureError::InputTooShort));
    let mut wrong = vec![0u8; 10];
    assert_eq!(GxTextureDecoder.decode(&i8_input, None, &mut wrong, 8, 4, 1, 5, 0), Err(TextureError::OutputSizeMismatch));
    let cmpr = gx_input(14, &[0u8; 64]);
    let mut out6 = vec![0u8; 6 * 8 * 4];
    assert_eq!(GxTextureDecoder.decode(&cmpr, None, &mut out6, 6, 8, 1, 0, 0), Err(TextureError::OddResolution));
    assert_eq!(output, vec![0u8; 8 * 4 * 4]);
}

#[test]
fn gx_data_size() {
    assert_eq!(GxTextureDecoder.get_data_size(8, 8, 1, 4), Ok(32));
    assert_eq!(GxTextureDecoder.get_data_size(8, 8, 1, 1), Ok(256));
    assert_eq!(GxTextureDecoder.get_data_size(3, 1, 1, 4), Ok(2));
    assert_eq!(GxTextureDecoder.get_data_size(8, 8, 1, 9), Err(TextureError::UnknownExformat(9)));
}

#[test]
fn pc_formats_and_sizes() {
    assert_eq!(PcFormat::ARGB8.bpp(), 32);
    assert_eq!(PcFormat::Dxt1.bpp(), 4);
    assert_eq!(PcTextureDecoder.get_data_size(4, 4, 1, 2), Ok(8));
    assert_eq!(PcTextureDecoder.get_data_size(4, 4, 1, 6), Ok(64));
    assert_eq!(PcTextureDecoder.get_data_size(4, 4, 1, 42), Err(TextureError::InvalidFormat(42)));
}

#[test]
fn pc_plain_pixels() {
    let mut out = vec![0u8; 8];
    assert_eq!(PcTextureDecoder.decode(&[1, 2, 3, 4, 5, 6, 7, 8], &mut out, 2, 1, 1, 6), Ok(()));
    assert_eq!(out, vec![3, 2, 1, 4, 7, 6, 5, 8]);
    let mut out = vec![0u8; 4];
    assert_eq!(PcTextureDecoder.decode(&[0x00, 0xf8], &mut out, 1, 1, 1, 0), Ok(()));
    assert_eq!(out, vec![248, 0, 0, 255]);
    let mut out = vec![0u8; 4];
    assert_eq!(PcTextureDecoder.decode(&[0x1f, 0x80], &mut out, 1, 1, 1, 1), Ok(()));
    assert_eq!(out, vec![0, 0, 248, 255]);
}

#[test]
fn pc_dxt1_goes_through_squish() {
    let block = [0xff, 0xff, 0x00, 0x00, 0x00, 0x00, 0x00, 0x00];
    let mut out = vec![0u8; 64];
    assert_eq!(PcTextureDecoder.decode(&block, &mut out, 4, 4, 1, 2), Ok(()));
    assert_eq!(out, vec![255u8; 64]);
}

#[test]
fn pc_errors() {
    let mut out = vec![0u8; 4];
    assert_eq!(PcTextureDecoder.decode(&[0, 0], &mut out, 1, 1, 1, 42), Err(TextureError::InvalidFormat(42)));
    assert_eq!(PcTextureDecoder.decode(&[0, 0], &mut out, 2, 1, 1, 0), Err(TextureError::OutputSizeMismatch));
    assert_eq!(PcTextureDecoder.decode(&[0, 0], &mut out, 1, 1, 1, 5), Err(TextureError::UnsupportedFormat));
    assert_eq!(out, vec![0u8; 4]);
}

#[test]
fn xbox_morton_order() {
    assert_eq!(deswizzle(0, 0, 4, 4), 0);
    assert_eq!(deswizzle(1, 0, 4, 4), 1);
    assert_eq!(deswizzle(0, 1, 4, 4), 2);
    assert_eq!(deswizzle(1, 1, 4, 4), 3);
    assert_eq!(deswizzle(2, 0, 4, 4), 4);
    assert_eq!(deswizzle(2, 0, 4, 2), 4);
    assert_eq!(deswizzle(3, 1, 4, 2), 7);
}

#[test]
fn xbox_swizzled_argb8() {
    assert!(XboxFormat::ARGB8.is_swizzled());
    assert!(!XboxFormat::ARGB8Linear.is_swizzled());
    assert_eq!(XboxFormat::P8.bpp(), 8);
    assert_eq!(XboxTextureDecoder.get_data_size(4, 2, 1, 6), Some(32));
    assert_eq!(XboxTextureDecoder.get_data_size(4, 2, 1, 99), None);
    let mut input = vec![];
    for i in 0u8..8 {
        input.extend_from_slice(&[i, i, i, i]);
    }
    let mut out = vec![0u8; 32];
    assert_eq!(XboxTextureDecoder.decode(&input, &mut out, 4, 2, 1, 6), Ok(()));
    assert_eq!(out[4 * 1], 1);
    assert_eq!(out[4 * 2], 4);
    assert_eq!(out[4 * 4], 2);
    assert_eq!(out[4 * 5], 3);
    let mut linear = vec![0u8; 32];
    assert_eq!(XboxTextureDecoder.decode(&input, &mut linear, 4, 2, 1, 9), Ok(()));
    assert_eq!(linear, input);
}

#[test]
fn xenon_swaps_words() {
    let mut buf = vec![1u8, 2, 3, 4];
    swap_endianness16(&mut buf);
    assert_eq!(buf, vec![2, 1, 4, 3]);
    swap_endianness16(&mut buf);
    assert_eq!(buf, vec![1, 2, 3, 4]);
}

#[test]
fn xenon_plain_and_bc_pixels() {
    let mut out = vec![0u8; 4];
    assert_eq!(XenonTextureDecoder.decode(&[9, 1, 2, 3], None, &mut out, 1, 1, 1, 9, 0), Ok(()));
    assert_eq!(out, vec![1, 2, 3, 9]);
    let block = [0xff, 0xff, 0x00, 0x00, 0x00, 0x00, 0x00, 0x00];
    let mut out = vec![0u8; 64];
    assert_eq!(XenonTextureDecoder.decode(&block, None, &mut out, 4, 4, 1, 0, 0), Ok(()));
    assert_eq!(out, vec![255u8; 64]);
    let mut out = vec![0u8; 4];
    assert_eq!(XenonTextureDecoder.decode(&[0; 4], None, &mut out, 1, 1, 1, 2, 0), Err(TextureError::InvalidFormat(2)));
}

#[test]
fn ps2_formats_and_sizes() {
    assert_eq!(Ps2Format::P16x32.bpp(), 4);
    assert_eq!(Ps2Format::_32BIT.bpp(), 32);
    assert_eq!(Ps2Format::P256x32.clut_size(), 1024);
    assert_eq!(Ps2Format::P16x16.clut_size(), 32);
    assert_eq!(Ps2Format::_16BIT.clut_size(), 0);
    assert_eq!(Ps2TextureDecoder.get_data_size(3, 1, 1, 1), Ok(1));
    assert_eq!(Ps2TextureDecoder.get_data_size(4, 4, 1, 3), Ok(16));
    assert_eq!(Ps2TextureDecoder.get_clut_size(1), Ok(64));
    assert_eq!(Ps2TextureDecoder.get_clut_size(7), Err(TextureError::InvalidFormat(7)));
}

#[test]
fn ps2_swizzle8() {
    let input: Vec<u8> = (0u8..64).collect();
    let out = swizzle8_to_32(&input, 16, 4);
    assert_eq!(out.len(), 64);
    assert_eq!(out[0], 0);
    assert_eq!(out[1], 4);
    assert_eq!(out[2], 8);
    assert_eq!(out[4], 16);
    assert_eq!(out[8], 2);
    assert_eq!(out[16], 32);
    assert_eq!(out[32], 17);
}

#[test]
fn ps2_swizzle4() {
    let input: Vec<u8> = (0u8..16).map(|k| ((2 * k) % 16) | (((2 * k + 1) % 16) << 4)).collect();
    let unpacked = swizzle4_to_32(&input, 8, 4, 163);
    assert_eq!(unpacked.len(), 32);
    for (i, v) in unpacked.iter().enumerate() {
        assert_eq!(*v as usize, i % 16);
    }
    assert!(swizzle4_targets_fit(8, 4));
    let out = swizzle4_to_32(&input, 8, 4, 0);
    assert_eq!(out[0], 0);
    assert_eq!(out[1], 4);
    assert_eq!(out[2], 8);
    assert_eq!(out[16], 1);
    assert_eq!(out[8], 0);
}

#[test]
fn ps2_swizzle4_targets_outside() {
    assert!(!swizzle4_targets_fit(8, 6));
}

#[test]
fn ps2_decode_palette_formats() {
    let mut clut16 = vec![];
    for e in 0u8..16 {
        clut16.extend_from_slice(&[e * 10, e * 10 + 1, e * 10 + 2, 0x40]);
    }
    let mut out = vec![0u8; 16];
    let r = Ps2TextureDecoder.decode(&[0x21, 0x03], Some(&clut16), &mut out, 2, 2, 1, 1, 163);
    assert_eq!(r, Ok(()));
    assert_eq!(out, vec![10, 11, 12, 128, 20, 21, 22, 128, 30, 31, 32, 128, 0, 1, 2, 128]);

    let mut clut256 = vec![];
    for e in 0..256u32 {
        clut256.extend_from_slice(&[e as u8, 1, 2, 0x7f]);
    }
    let input: Vec<u8> = (0u8..64).collect();
    let mut out = vec![0u8; 16 * 4 * 4];
    let r = Ps2TextureDecoder.decode(&input, Some(&clut256), &mut out, 16, 4, 1, 3, 0);
    assert_eq!(r, Ok(()));
    assert_eq!(&out[4..8], &[4, 1, 2, 254]);
    // Index 8 is read from entry 16: the second and third groups of eight are exchanged.
    assert_eq!(&out[8..12], &[16, 1, 2, 254]);
    assert_eq!(&out[64..68], &[32, 1, 2, 254]);
}

#[test]
fn ps2_decode_32bit_and_errors() {
    let input = [1u8, 2, 3, 4, 5, 6, 7, 8, 9];
    let mut out = vec![0u8; 8];
    assert_eq!(Ps2TextureDecoder.decode(&input, None, &mut out, 1, 2, 1, 5, 0), Ok(()));
    assert_eq!(out, vec![1, 2, 3, 4, 5, 6, 7, 8]);
    let mut out = vec![0u8; 8];
    assert_eq!(Ps2TextureDecoder.decode(&input, None, &mut out, 1, 2, 1, 9, 0), Err(TextureError::InvalidFormat(9)));
    assert_eq!(Ps2TextureDecoder.decode(&input[..7], None, &mut out, 1, 2, 1, 5, 0), Err(TextureError::InputTooShort));
    let mut wrong = vec![0u8; 4];
    assert_eq!(Ps2TextureDecoder.decode(&input, None, &mut wrong, 1, 2, 1, 5, 0), Err(TextureError::OutputSizeMismatch));
    let clut = [0u8; 32];
    assert_eq!(Ps2TextureDecoder.decode(&input, Some(&clut), &mut out, 1, 2, 1, 5, 0), Err(TextureError::PaletteMismatch));
    let mut out16 = vec![0u8; 16];
    assert_eq!(Ps2TextureDecoder.decode(&input, None, &mut out16, 2, 2, 1, 1, 0), Err(TextureError::PaletteMismatch));
    assert_eq!(Ps2TextureDecoder.decode(&input, Some(&clut), &mut out, 1, 2, 1, 0, 0), Err(TextureError::UnsupportedFormat));
    assert_eq!(out, vec![0u8; 8]);
}

#[test]
fn pc_decodable_sizes() {
    let d = PcTextureDecoder;
    // A 4x4 DXT1 texture needs one 8-byte block.
    assert!(d.decodable(8, 4, 4, 1, 2, 64));
    assert!(!d.decodable(7, 4, 4, 1, 2, 64));
    // Sizes that `decode` turns down with an error are accepted here.
    assert!(d.decodable(0, 4, 4, 1, 2, 63));
    assert!(d.decodable(0, 4, 4, 1, 42, 64));
    // More RGB565 pixels than the image holds.
    assert!(d.decodable(32, 4, 4, 1, 0, 64));
    assert!(!d.decodable(34, 4, 4, 1, 0, 64));
    // Pixels of later depth slices follow the first slice.
    assert!(d.decodable(64, 4, 4, 2, 0, 128));
    assert!(!d.decodable(66, 4, 4, 2, 0, 128));
    // Sizes whose products leave usize.
    assert!(!d.decodable(0, u32::MAX, u32::MAX, u32::MAX, 0, 0));
}

#[test]
fn other_decoders_decodable_sizes() {
    assert!(XenonTextureDecoder.decodable(8, 4, 4, 1, 0, 64));
    assert!(!XenonTextureDecoder.decodable(7, 4, 4, 1, 0, 64));
    assert!(XboxTextureDecoder.decodable(64, 4, 4, 1, 6, 64));
    assert!(!XboxTextureDecoder.decodable(68, 4, 4, 1, 6, 64));
    let mut gx_input = vec![0u8; 64 + 32];
    gx_input[27] = 14;
    assert!(GxTextureDecoder.decodable(&gx_input, 8, 8, 1, 0, 256));
    assert!(!GxTextureDecoder.decodable(&gx_input[..32], 8, 8, 1, 0, 256));
    let clut = vec![0u8; 1024];
    assert!(Ps2TextureDecoder.decodable(16, Some(&clut), 4, 4, 1, 3, 0, 64));
    assert!(!Ps2TextureDecoder.decodable(16, Some(&clut[..1020]), 4, 4, 1, 3, 0, 64));
}

#[test]
fn deswizzle_is_one_to_one_on_power_of_two_textures() {
    assert_eq!(deswizzle(1, 0, 4, 4), 1);
    assert_eq!(deswizzle(0, 1, 4, 4), 2);
    assert_eq!(deswizzle(2, 0, 4, 4), 4);
    assert_eq!(deswizzle(2, 0, 4, 2), 4);
    for (w, h) in [(1u32, 1u32), (4, 4), (8, 2), (2, 16), (32, 8)] {
        let mut seen = vec![false; (w * h) as usize];
        for y in 0..h {
            for x in 0..w {
                let p = deswizzle(x, y, w, h) as usize;
                assert!(p < seen.len());
                assert!(!seen[p]);
                seen[p] = true;
            }
        }
        assert!(seen.iter().all(|&s| s));
    }
}

#[test]
fn format_errors_come_before_size_limits() {
    // An unknown format is reported whatever the sizes are.
    assert!(PcTextureDecoder.decodable(0, u32::MAX, u32::MAX, u32::MAX, 42, 0));
    let mut out = vec![];
    assert_eq!(PcTextureDecoder.decode(&[], &mut out, u32::MAX, u32::MAX, u32::MAX, 42), Err(TextureError::InvalidFormat(42)));
    assert!(XenonTextureDecoder.decodable(0, u32::MAX, u32::MAX, u32::MAX, 2, 0));
    assert!(Ps2TextureDecoder.decodable(0, None, 1 << 20, 1 << 20, 1 << 20, 7, 0, 0));
    assert_eq!(
        Ps2TextureDecoder.decode(&[], None, &mut out, 1 << 20, 1 << 20, 1 << 20, 7, 0),
        Err(TextureError::InvalidFormat(7))
    );
    let mut gx_input = vec![0u8; 64];
    gx_input[27] = 14;
    assert!(GxTextureDecoder.decodable(&gx_input, 0xffff_fff0, 1, 1, 200, 0));
    assert_eq!(
        GxTextureDecoder.decode(&gx_input, None, &mut out, 0xffff_fff0, 1, 1, 200, 0),
        Err(TextureError::UnknownExformat(200))
    );
    // A CMPR texture whose sides are no multiples of four is turned down.
    let gx_data = [gx_input.clone(), vec![0u8; 32]].concat();
    let mut gx_out = vec![0u8; 5 * 4 * 4];
    assert!(GxTextureDecoder.decodable(&gx_data, 5, 4, 1, 0, gx_out.len()));
    assert_eq!(
        GxTextureDecoder.decode(&gx_data, None, &mut gx_out, 5, 4, 1, 0, 0),
        Err(TextureError::OddResolution)
    );
}
