//! The game platforms, and the texture decoder each one needs.
use vstd::prelude::*;

use crate::bytes::Endian;
use crate::texture::gx::GxTextureDecoder;
use crate::texture::pc::PcTextureDecoder;
use crate::texture::ps2::Ps2TextureDecoder;
use crate::texture::xbox::XboxTextureDecoder;
use crate::texture::xenon::XenonTextureDecoder;

verus! {

/// A platform that the games were released on.
#[derive(Debug, Clone, Copy, PartialEq, Eq, Structural)]
pub enum Platform {
    Pc,
    Xbox,
    Xbox360,
    Ps2,
    Ps3,
    GameCube,
    Wii,
    WiiU,
}

/// The byte order of a platform's files.
pub open spec fn endian_of(platform: Platform) -> Endian {
    match platform {
        Platform::Pc | Platform::Xbox | Platform::Ps2 => Endian::Little,
        _ => Endian::Big,
    }
}

impl Platform {
    /// The byte order of the platform's files: little-endian on PC, Xbox
    /// and PlayStation 2, big-endian on the others.
    pub fn endianness(&self) -> (r: Endian)
        ensures
            r == endian_of(*self),
    {
        match self {
            Platform::Pc | Platform::Xbox | Platform::Ps2 => Endian::Little,
            _ => Endian::Big,
        }
    }
}

/// A platform as the command line names it.
#[derive(Debug, Clone, Copy, PartialEq, Eq, Structural)]
pub enum PlatformArg {
    Pc,
    Xbox,
    Xbox360,
    Ps2,
    Ps3,
    Gamecube,
    Wii,
    WiiU,
}

/// The platform a command-line name stands for.
pub open spec fn platform_of(arg: PlatformArg) -> Platform {
    match arg {
        PlatformArg::Pc => Platform::Pc,
        PlatformArg::Xbox => Platform::Xbox,
        PlatformArg::Xbox360 => Platform::Xbox360,
        PlatformArg::Ps2 => Platform::Ps2,
        PlatformArg::Ps3 => Platform::Ps3,
        PlatformArg::Gamecube => Platform::GameCube,
        PlatformArg::Wii => Platform::Wii,
        PlatformArg::WiiU => Platform::WiiU,
    }
}

impl From<PlatformArg> for Platform {
    fn from(arg: PlatformArg) -> (r: Platform) {
        match arg {
            PlatformArg::Pc => Platform::Pc,
            PlatformArg::Xbox => Platform::Xbox,
            PlatformArg::Xbox360 => Platform::Xbox360,
            PlatformArg::Ps2 => Platform::Ps2,
            PlatformArg::Ps3 => Platform::Ps3,
            PlatformArg::Gamecube => Platform::GameCube,
            PlatformArg::Wii => Platform::Wii,
            PlatformArg::WiiU => Platform::WiiU,
        }
    }
}

impl vstd::std_specs::convert::FromSpecImpl<PlatformArg> for Platform {
    open spec fn obeys_from_spec() -> bool {
        true
    }

    open spec fn from_spec(arg: PlatformArg) -> Platform {
        platform_of(arg)
    }
}

/// The texture decoder of a platform.
pub enum TextureDecoder {
    Pc(PcTextureDecoder),
    Gx(GxTextureDecoder),
    Xbox(XboxTextureDecoder),
    Xenon(XenonTextureDecoder),
    Ps2(Ps2TextureDecoder),
}

/// Whether textures of the platform can be decoded.
pub open spec fn has_texture_decoder(platform: Platform) -> bool {
    match platform {
        Platform::Pc | Platform::GameCube | Platform::Wii | Platform::Xbox | Platform::Xbox360 | Platform::Ps2 => true,
        _ => false,
    }
}

/// The decoder for the textures of `platform`: GameCube and Wii share the
/// GX decoder; PlayStation 3 and Wii U textures cannot be decoded.
pub fn create_for_platform(platform: Platform) -> (r: TextureDecoder)
    requires
        has_texture_decoder(platform),
    ensures
        match platform {
            Platform::Pc => r is Pc,
            Platform::GameCube | Platform::Wii => r is Gx,
            Platform::Xbox => r is Xbox,
            Platform::Ps2 => r is Ps2,
            _ => r is Xenon,
        },
{
    match platform {
        Platform::Pc => TextureDecoder::Pc(PcTextureDecoder),
        Platform::GameCube | Platform::Wii => TextureDecoder::Gx(GxTextureDecoder),
        Platform::Xbox => TextureDecoder::Xbox(XboxTextureDecoder),
        Platform::Ps2 => TextureDecoder::Ps2(Ps2TextureDecoder),
        _ => TextureDecoder::Xenon(XenonTextureDecoder),
    }
}

} // verus!
