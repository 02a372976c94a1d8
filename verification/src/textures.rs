//! Decoded textures and the problems found in them.
use vstd::prelude::*;

verus! {

/// Problems found in a decoded texture, as a set of flags.
#[derive(Debug, Clone, Copy, PartialEq, Eq, Structural)]
pub struct UXTextureDiagnostics {
    bits: u32,
}

impl UXTextureDiagnostics {
    /// The flag bits that name problems.
    pub open spec fn all_bits() -> u32 {
        3
    }

    #[verifier::type_invariant]
    spec fn known_bits(self) -> bool {
        self.bits & !Self::all_bits() == 0
    }

    /// The set flags, as bits: 1 for a mismatching colour average, 2 for no
    /// frames.
    pub closed spec fn flag_bits(self) -> u32 {
        self.bits
    }

    /// No problems.
    pub fn empty() -> (r: Self)
        ensures
            r.flag_bits() == 0,
    {
        assert(0u32 & !3u32 == 0) by (bit_vector);
        UXTextureDiagnostics { bits: 0 }
    }

    /// The texture data does not match its colour average.
    pub fn mismatching_average() -> (r: Self)
        ensures
            r.flag_bits() == 1,
    {
        assert(1u32 & !3u32 == 0) by (bit_vector);
        UXTextureDiagnostics { bits: 1 }
    }

    /// The texture has no frames.
    pub fn no_frames() -> (r: Self)
        ensures
            r.flag_bits() == 2,
    {
        assert(2u32 & !3u32 == 0) by (bit_vector);
        UXTextureDiagnostics { bits: 2 }
    }

    /// The set flags, as bits.
    pub fn bits(&self) -> (r: u32)
        ensures
            r == self.flag_bits(),
    {
        self.bits
    }

    /// Whether every flag of `other` is set.
    pub fn contains(&self, other: Self) -> (r: bool)
        ensures
            r == (self.flag_bits() & other.flag_bits() == other.flag_bits()),
    {
        (self.bits & other.bits) == other.bits
    }

    /// Sets the flags of `other` too.
    pub fn insert(&mut self, other: Self)
        ensures
            final(self).flag_bits() == old(self).flag_bits() | other.flag_bits(),
    {
        proof {
            use_type_invariant(&*self);
            use_type_invariant(&other);
        }
        let a = self.bits;
        let b = other.bits;
        assert((a | b) & !3u32 == 0) by (bit_vector)
            requires
                a & !3u32 == 0,
                b & !3u32 == 0,
        ;
        *self = UXTextureDiagnostics { bits: a | b };
    }

    /// The descriptions of the set flags, in flag order.
    pub open spec fn descriptions(self) -> Seq<Seq<char>> {
        let first: Seq<Seq<char>> = if self.flag_bits() & 1 != 0 {
            seq!["Texture data does not match color average"@]
        } else {
            seq![]
        };
        if self.flag_bits() & 2 != 0 {
            first.push("Texture has no frames"@)
        } else {
            first
        }
    }

    /// The descriptions of the set flags, in flag order.
    pub fn to_strings(&self) -> (r: Vec<&'static str>)
        ensures
            r@.map_values(|s: &str| s@) == self.descriptions(),
    {
        let mut strings: Vec<&'static str> = Vec::new();
        if self.bits & 1 != 0 {
            strings.push("Texture data does not match color average");
        }
        if self.bits & 2 != 0 {
            strings.push("Texture has no frames");
        }
        assert(strings@.map_values(|s: &str| s@) =~= self.descriptions());
        strings
    }
}

impl Default for UXTextureDiagnostics {
    fn default() -> (r: Self)
        ensures
            r.flag_bits() == 0,
    {
        UXTextureDiagnostics::empty()
    }
}

/// A decoded texture: its size, format and flags, and its frames as RGBA8
/// pixels.
#[derive(Clone, Debug)]
pub struct UXGeoTexture {
    pub width: u16,
    pub height: u16,
    pub depth: u16,
    /// The platform's format number, for diagnostics only.
    pub format_internal: u8,
    pub flags: u32,
    pub game_flags: u16,
    /// Scroll rate of the texture coordinates, in pixels per second.
    pub scroll: [i16; 2],
    /// Frames per second.
    pub framerate: u8,
    pub frame_count: u8,
    /// The decoded RGBA frames.
    pub frames: Vec<Vec<u8>>,
    pub color: [u8; 4],
    /// The file and texture hashcodes of a texture stored in another file.
    pub external_texture: Option<(u32, u32)>,
    pub diagnostics: UXTextureDiagnostics,
}

impl UXGeoTexture {
    /// Whether the texture's flags are set; all-ones flags mark an unused
    /// slot.
    pub fn is_valid(&self) -> (r: bool)
        ensures
            r == (self.flags != u32::MAX && self.game_flags != u16::MAX),
    {
        self.flags != u32::MAX && self.game_flags != u16::MAX
    }

    /// Recomputes the diagnostics: a texture without frames is flagged.
    pub fn calculate_diagnostics(&mut self)
        ensures
            final(self).diagnostics.flag_bits() == (if old(self).frames@.len() == 0 { 2u32 } else { 0u32 }),
            final(self).frames == old(self).frames,
            final(self).width == old(self).width,
            final(self).height == old(self).height,
            final(self).depth == old(self).depth,
            final(self).format_internal == old(self).format_internal,
            final(self).flags == old(self).flags,
            final(self).game_flags == old(self).game_flags,
            final(self).scroll == old(self).scroll,
            final(self).framerate == old(self).framerate,
            final(self).frame_count == old(self).frame_count,
            final(self).color == old(self).color,
            final(self).external_texture == old(self).external_texture,
    {
        self.diagnostics = UXTextureDiagnostics::empty();
        if self.frames.len() == 0 {
            self.diagnostics.insert(UXTextureDiagnostics::no_frames());
            assert(0u32 | 2u32 == 2u32) by (bit_vector);
        }
    }
}

} // verus!
