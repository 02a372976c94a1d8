//! What the viewer decides while drawing: blending, the grid, picking and
//! the camera.
use vstd::prelude::*;

use crate::entities::TriStrip;
use crate::platform::Platform;
use crate::text::push_str;

verus! {

/// What the viewer is doing.
#[derive(Debug, Clone)]
pub enum AppState {
    Ready,
    SelectPlatform,
    Loading(String),
    /// Loading failed, with this message.
    Error(String),
}

/// How a surface is blended with what is behind it.
#[derive(Debug, Clone, Copy, PartialEq, Eq, Structural)]
pub enum BlendMode {
    /// No blending.
    Disabled,
    Cutout,
    Blend,
    Additive,
    ReverseSubtract,
}

/// A factor of the blend function.
#[derive(Debug, Clone, Copy, PartialEq, Eq, Structural)]
pub enum BlendFactor {
    SrcAlpha,
    OneMinusSrcAlpha,
    One,
}

/// The equation that combines source and destination.
#[derive(Debug, Clone, Copy, PartialEq, Eq, Structural)]
pub enum BlendEquation {
    Add,
    ReverseSubtract,
}

/// How source and destination are combined.
#[derive(Debug, Clone, Copy, PartialEq, Eq, Structural)]
pub struct BlendFunction {
    pub equation: BlendEquation,
    pub src: BlendFactor,
    pub dst: BlendFactor,
}

/// The blending state a mode asks of the renderer.
#[derive(Debug, Clone, Copy, PartialEq, Eq, Structural)]
pub struct BlendSettings {
    /// Whether blending is on.
    pub blend: bool,
    /// Whether alpha-to-coverage is on.
    pub alpha_to_coverage: bool,
    /// The equation and the source and destination factors, where they are set.
    pub function: Option<BlendFunction>,
}

/// The blending state of each mode: cut-out surfaces use alpha-to-coverage
/// without blending; blended ones mix by source alpha, additive ones add,
/// and reverse-subtract ones subtract themselves from what is behind.
pub open spec fn settings_of(mode: BlendMode) -> BlendSettings {
    match mode {
        BlendMode::Disabled => BlendSettings { blend: false, alpha_to_coverage: false, function: None },
        BlendMode::Cutout => BlendSettings { blend: false, alpha_to_coverage: true, function: None },
        BlendMode::Blend => BlendSettings {
            blend: true,
            alpha_to_coverage: false,
            function: Some(BlendFunction { equation: BlendEquation::Add, src: BlendFactor::SrcAlpha, dst: BlendFactor::OneMinusSrcAlpha }),
        },
        BlendMode::Additive => BlendSettings {
            blend: true,
            alpha_to_coverage: false,
            function: Some(BlendFunction { equation: BlendEquation::Add, src: BlendFactor::SrcAlpha, dst: BlendFactor::One }),
        },
        BlendMode::ReverseSubtract => BlendSettings {
            blend: true,
            alpha_to_coverage: false,
            function: Some(BlendFunction { equation: BlendEquation::ReverseSubtract, src: BlendFactor::SrcAlpha, dst: BlendFactor::One }),
        },
    }
}

/// The blending state that `mode` asks of the renderer.
pub fn blend_settings(mode: BlendMode) -> (r: BlendSettings)
    ensures
        r == settings_of(mode),
{
    let blend = match mode {
        BlendMode::Disabled | BlendMode::Cutout => false,
        _ => true,
    };
    let alpha_to_coverage = match mode {
        BlendMode::Cutout => true,
        _ => false,
    };
    let function = match mode {
        BlendMode::Blend => Some(BlendFunction { equation: BlendEquation::Add, src: BlendFactor::SrcAlpha, dst: BlendFactor::OneMinusSrcAlpha }),
        BlendMode::Additive => Some(BlendFunction { equation: BlendEquation::Add, src: BlendFactor::SrcAlpha, dst: BlendFactor::One }),
        BlendMode::ReverseSubtract => Some(BlendFunction { equation: BlendEquation::ReverseSubtract, src: BlendFactor::SrcAlpha, dst: BlendFactor::One }),
        _ => None,
    };
    BlendSettings { blend, alpha_to_coverage, function }
}

/// The ground grid, `size` cells from the centre to each side.
#[derive(Debug, Clone)]
pub struct GridRenderer {
    size: i32,
}

impl GridRenderer {
    /// The grid's size.
    pub closed spec fn grid_size(self) -> i32 {
        self.size
    }

    pub fn new(size: i32) -> (r: Self)
        ensures
            r.grid_size() == size,
    {
        Self { size }
    }

    /// The vertices the grid is drawn with: two per line, `size + 1` lines
    /// in each of two directions, on both sides.
    pub fn line_vertex_count(&self) -> (r: i32)
        requires
            i32::MIN <= (self.grid_size() + 1) * 4 <= i32::MAX,
        ensures
            r == (self.grid_size() + 1) * 2 * 2,
    {
        (self.size + 1) * 2 * 2
    }
}

/// What an object drawn into the pick buffer is.
#[derive(Debug, Clone, Copy, PartialEq, Eq, Structural)]
pub enum PickBufferType {
    Trigger,
}

impl PickBufferType {
    /// The number that marks the kind in the pick buffer.
    pub fn id(&self) -> (r: u32)
        ensures
            r == 1,
    {
        match self {
            PickBufferType::Trigger => 1,
        }
    }
}

/// Draws the lines between linked triggers.
#[derive(Debug, Clone, Copy)]
pub struct LinkLineRenderer;

impl LinkLineRenderer {
    pub fn new() -> (r: Result<Self, String>)
        ensures
            r is Ok,
    {
        Ok(LinkLineRenderer)
    }
}

/// How the camera moves.
#[derive(Debug, Clone, Copy, PartialEq, Eq, Structural)]
pub enum CameraType {
    /// Around a centre.
    Orbit,
    /// Freely.
    Fly,
}

impl CameraType {
    /// The name shown for the camera type.
    pub fn to_string(&self) -> (r: String)
        ensures
            r@ == (match self {
                CameraType::Orbit => "Orbit"@,
                CameraType::Fly => "Fly"@,
            }),
    {
        let mut s = String::new();
        match self {
            CameraType::Orbit => push_str(&mut s, "Orbit"),
            CameraType::Fly => push_str(&mut s, "Fly"),
        }
        s
    }
}

} // verus!

verus! {

/// How a strip is blended: by its transparency type (2 subtracts, 1 adds),
/// and blended by alpha where it has no type but is flagged translucent
/// (flag 0x8) or alpha-tested (flag 0x1).
pub open spec fn strip_blend(t: TriStrip) -> BlendMode {
    let kind = t.transparency & 0xff;
    let base = if kind == 2 {
        BlendMode::ReverseSubtract
    } else if kind == 1 {
        BlendMode::Additive
    } else {
        BlendMode::Disabled
    };
    if (t.flags & 0x8 != 0 || t.flags & 0x1 != 0) && base == BlendMode::Disabled {
        BlendMode::Blend
    } else {
        base
    }
}

/// Whether a strip's back faces are culled: not where the strip is flagged
/// two-sided (flag 0x40), nor on GameCube, Wii and PlayStation 2.
pub open spec fn strip_culls(t: TriStrip, platform: Platform) -> bool {
    if t.flags & 0x40 != 0 {
        false
    } else {
        match platform {
            Platform::GameCube | Platform::Wii | Platform::Ps2 => false,
            _ => true,
        }
    }
}

/// How one strip is drawn.
#[derive(Debug, Clone, Copy, PartialEq, Eq, Structural)]
pub struct StripDraw {
    pub blend: BlendMode,
    pub cull_faces: bool,
}

/// How a strip is drawn, or `None` for a hidden strip (flag 0x10).
pub fn strip_draw(t: &TriStrip, platform: Platform) -> (r: Option<StripDraw>)
    ensures
        r == (if t.flags & 0x10 != 0 {
            None
        } else {
            Some(StripDraw { blend: strip_blend(*t), cull_faces: strip_culls(*t, platform) })
        }),
{
    if (t.flags & 0x10) != 0 {
        return None;
    }
    let kind = t.transparency & 0xff;
    let mut blend = if kind == 2 {
        BlendMode::ReverseSubtract
    } else if kind == 1 {
        BlendMode::Additive
    } else {
        BlendMode::Disabled
    };
    if ((t.flags & 0x8) != 0 || (t.flags & 0x1) != 0) && blend == BlendMode::Disabled {
        blend = BlendMode::Blend;
    }
    let cull_faces = if (t.flags & 0x40) != 0 {
        false
    } else {
        match platform {
            Platform::GameCube | Platform::Wii | Platform::Ps2 => false,
            _ => true,
        }
    };
    Some(StripDraw { blend, cull_faces })
}

/// Whether a strip is drawn in the transparent pass, after the opaque ones.
pub fn is_transparent_strip(t: &TriStrip) -> (r: bool)
    ensures
        r == (t.transparency != 0 || t.flags & 0x8 != 0),
{
    t.transparency != 0 || (t.flags & 0x8) != 0
}

/// The strips with transparency type `k`, in their order.
pub open spec fn with_transparency(s: Seq<TriStrip>, k: u16) -> Seq<TriStrip>
    decreases s.len(),
{
    if s.len() == 0 {
        seq![]
    } else {
        let rest = with_transparency(s.drop_last(), k);
        if s.last().transparency == k {
            rest.push(s.last())
        } else {
            rest
        }
    }
}

/// Whether the strips are ordered by transparency type.
pub open spec fn by_transparency(s: Seq<TriStrip>) -> bool {
    forall|i: int, j: int| 0 <= i <= j < s.len() ==> s[i].transparency <= s[j].transparency
}

proof fn lemma_with_transparency_concat(a: Seq<TriStrip>, b: Seq<TriStrip>, k: u16)
    ensures
        with_transparency(a + b, k) == with_transparency(a, k) + with_transparency(b, k),
    decreases b.len(),
{
    if b.len() == 0 {
        assert(a + b =~= a);
        assert(with_transparency(a, k) + seq![] =~= with_transparency(a, k));
    } else {
        lemma_with_transparency_concat(a, b.drop_last(), k);
        assert((a + b).drop_last() =~= a + b.drop_last());
        assert((a + b).last() == b.last());
        if b.last().transparency == k {
            assert(with_transparency(a, k) + with_transparency(b.drop_last(), k).push(b.last()) =~= (
            with_transparency(a, k) + with_transparency(b.drop_last(), k)).push(b.last()));
        }
    }
}

proof fn lemma_with_transparency_none(b: Seq<TriStrip>, k: u16)
    requires
        forall|m: int| 0 <= m < b.len() ==> b[m].transparency != k,
    ensures
        with_transparency(b, k) == Seq::<TriStrip>::empty(),
    decreases b.len(),
{
    if b.len() > 0 {
        lemma_with_transparency_none(b.drop_last(), k);
    }
}

proof fn lemma_insert_keeps(a: Seq<TriStrip>, b: Seq<TriStrip>, x: TriStrip, prefix: Seq<TriStrip>, k: u16)
    requires
        forall|m: int| 0 <= m < b.len() ==> b[m].transparency > x.transparency,
        with_transparency(a + b, k) == with_transparency(prefix, k),
    ensures
        with_transparency(a + seq![x] + b, k) == with_transparency(prefix.push(x), k),
{
    let e = Seq::<TriStrip>::empty();
    lemma_with_transparency_concat(a + seq![x], b, k);
    lemma_with_transparency_concat(a, seq![x], k);
    lemma_with_transparency_concat(a, b, k);
    assert(seq![x].drop_last() =~= e);
    assert(seq![x].last() == x);
    assert(with_transparency(e, k) == e);
    assert(prefix.push(x).drop_last() =~= prefix);
    assert(prefix.push(x).last() == x);
    let wa = with_transparency(a, k);
    let wb = with_transparency(b, k);
    if k == x.transparency {
        assert(with_transparency(seq![x], k) =~= seq![x]);
        lemma_with_transparency_none(b, k);
        assert(with_transparency(prefix.push(x), k) == with_transparency(prefix, k).push(x));
        assert(wa + wb =~= wa);
        assert(wa + seq![x] + wb =~= wa.push(x));
    } else {
        assert(with_transparency(seq![x], k) =~= e);
        assert(with_transparency(prefix.push(x), k) == with_transparency(prefix, k));
        assert(wa + e + wb =~= wa + wb);
    }
}

/// Orders the strips by transparency type, keeping the order of strips of
/// one type (a stable sort), so that opaque strips come first.
pub fn sort_by_transparency(strips: &mut Vec<TriStrip>)
    ensures
        final(strips)@.len() == old(strips)@.len(),
        by_transparency(final(strips)@),
        forall|k: u16| #[trigger] with_transparency(final(strips)@, k) == with_transparency(old(strips)@, k),
{
    let ghost start = strips@;
    let n = strips.len();
    let mut out: Vec<TriStrip> = Vec::new();
    let mut i: usize = 0;
    assert(start.take(0) =~= Seq::<TriStrip>::empty());
    while i < n
        invariant
            n == start.len(),
            start == strips@,
            i <= n,
            out@.len() == i,
            by_transparency(out@),
            forall|k: u16| #[trigger] with_transparency(out@, k) == with_transparency(start.take(i as int), k),
        decreases n - i,
    {
        let x = strips[i];
        let mut p: usize = out.len();
        while p > 0 && out[p - 1].transparency > x.transparency
            invariant
                p <= out@.len(),
                forall|m: int| p <= m < out@.len() ==> (#[trigger] out@[m]).transparency > x.transparency,
            decreases p,
        {
            p = p - 1;
        }
        let ghost a = out@.take(p as int);
        let ghost b = out@.skip(p as int);
        let ghost old_out = out@;
        proof {
            assert(forall|m: int| 0 <= m < p ==> (#[trigger] out@[m]).transparency <= x.transparency) by {
                if p > 0 {
                    assert(out@[p - 1].transparency <= x.transparency);
                    assert forall|m: int| 0 <= m < p implies (#[trigger] out@[m]).transparency <= x.transparency by {
                        assert(out@[m].transparency <= out@[p - 1].transparency);
                    }
                }
            }
        }
        out.insert(p, x);
        proof {
            assert(old_out =~= a + b);
            assert(out@ =~= a + seq![x] + b);
            assert(start.take(i + 1) =~= start.take(i as int).push(x));
            assert(start.take(i + 1).drop_last() =~= start.take(i as int));
            assert forall|k: u16| #[trigger] with_transparency(out@, k) == with_transparency(start.take(i + 1), k) by {
                assert(with_transparency(old_out, k) == with_transparency(start.take(i as int), k));
                assert forall|m: int| 0 <= m < b.len() implies b[m].transparency > x.transparency by {
                    assert(b[m] == old_out[p + m]);
                }
                lemma_insert_keeps(a, b, x, start.take(i as int), k);
            }
            assert forall|u: int, v: int| 0 <= u <= v < out@.len() implies out@[u].transparency <= out@[v].transparency by {
                if u < p && v > p {
                    assert(out@[u] == old_out[u]);
                    assert(out@[v] == old_out[v - 1]);
                } else if u < p && v < p {
                    assert(out@[u] == old_out[u]);
                    assert(out@[v] == old_out[v]);
                } else if u > p && v > p {
                    assert(out@[u] == old_out[u - 1]);
                    assert(out@[v] == old_out[v - 1]);
                } else if u < p && v == p {
                    assert(out@[u] == old_out[u]);
                } else if u == p && v > p {
                    assert(out@[v] == old_out[v - 1]);
                }
            }
        }
        i = i + 1;
    }
    assert(start.take(n as int) =~= start);
    *strips = out;
}

} // verus!
