//! Mesh entities: turning a mesh's triangle strips into the index lists and
//! draw ranges that a renderer draws.
use vstd::prelude::*;

verus! {

/// A range of indices drawn with one texture.
#[derive(Debug, Clone, Copy, PartialEq, Eq, Structural)]
pub struct TriStrip {
    pub start_index: u32,
    pub index_count: u32,
    pub texture_index: u32,
    pub transparency: u16,
    pub flags: u16,
    pub tri_count: u32,
}

/// A triangle strip as a mesh stores it.
#[derive(Debug, Clone, Copy, PartialEq, Eq, Structural)]
pub struct EntityTriStrip {
    pub tricount: u32,
    pub texture_index: i32,
    pub min_index: u16,
    pub num_indices: u16,
    pub flags: u16,
    pub trans_type: u16,
}

/// The texture a strip is drawn with: with bit 0 of the mesh flags set, the
/// strip names an entry of the mesh's own texture list (-1 where there is
/// no such entry); otherwise it names a texture of the file.
pub open spec fn texture_slot(mesh_flags: u32, texture_index: i32, textures: Seq<u32>) -> i32 {
    if mesh_flags & 1 != 0 {
        if texture_index < textures.len() {
            textures[texture_index as int] as i32
        } else {
            -1i32
        }
    } else {
        texture_index
    }
}

/// The texture a strip is drawn with (see `texture_slot`).
pub fn resolve_texture(mesh_flags: u32, texture_index: i32, textures: &[u32]) -> (r: i32)
    requires
        textures@.len() <= i32::MAX,
        mesh_flags & 1 != 0 ==> texture_index >= 0,
    ensures
        r == texture_slot(mesh_flags, texture_index, textures@),
{
    if mesh_flags & 1 != 0 {
        if texture_index < textures.len() as i32 {
            textures[texture_index as usize] as i32
        } else {
            -1i32
        }
    } else {
        texture_index
    }
}

/// The texture a PlayStation 2 strip is drawn with. The index is compared
/// with the list's length cut to 16 bits.
pub open spec fn ps2_texture_slot(mesh_flags: u32, texture_index: u16, textures: Seq<u32>) -> i32 {
    if mesh_flags & 1 != 0 {
        if texture_index < (textures.len() as u16) {
            textures[texture_index as int] as i32
        } else {
            -1i32
        }
    } else {
        texture_index as i32
    }
}

/// The texture a PlayStation 2 strip is drawn with (see `ps2_texture_slot`).
pub fn resolve_ps2_texture(mesh_flags: u32, texture_index: u16, textures: &[u32]) -> (r: i32)
    ensures
        r == ps2_texture_slot(mesh_flags, texture_index, textures@),
{
    if mesh_flags & 1 != 0 {
        let full = textures.len();
        let len = full as u16;
        if texture_index < len {
            proof {
                assert((full as u16) <= full) by (bit_vector);
            }
            textures[texture_index as usize] as i32
        } else {
            -1i32
        }
    } else {
        texture_index as i32
    }
}

/// What a mesh gives the strips drawn from it: its strip indices, where its
/// vertices start in the vertex list, its flags and texture list, and the
/// choices of the caller.
#[derive(Debug, Clone)]
pub struct StripSource {
    pub new_indices: Vec<u32>,
    pub vertex_offset: u32,
    pub mesh_flags: u32,
    pub textures: Vec<u32>,
    /// Leave out the strips with a transparency type.
    pub remove_transparent: bool,
    /// Turn strips into lists of separate triangles.
    pub convert_strips: bool,
}

/// Index `j` of the mesh, moved past the vertices before the mesh.
pub open spec fn vertex_at(src: StripSource, j: int) -> int {
    src.vertex_offset + src.new_indices@[j]
}

/// The `n` triangles of the strip that starts at index `off`, as separate
/// triangles; every second one is turned round so that all face one way.
pub open spec fn strip_triangles(src: StripSource, off: int, n: int) -> Seq<u32> {
    Seq::new(
        (3 * n) as nat,
        |k: int|
            {
                let i = off + k / 3;
                let m = k % 3;
                let j = if (k / 3) % 2 == 0 {
                    i + 2 - m
                } else {
                    i + m
                };
                vertex_at(src, j) as u32
            },
    )
}

/// The `n` indices from `off` on, moved past the vertices before the mesh.
pub open spec fn strip_indices(src: StripSource, off: int, n: int) -> Seq<u32> {
    Seq::new(n as nat, |k: int| vertex_at(src, off + k) as u32)
}

/// Where strip assembly stands: the mesh index it has reached, whether it
/// has stopped, and the indices and strips made so far.
pub type AssemblyState = (int, bool, Seq<u32>, Seq<TriStrip>);

/// Strip assembly after strip `t`. A strip without triangles ends the
/// assembly; a transparent strip is skipped where the caller asks so; any
/// other strip adds its indices (as a strip, or turned into separate
/// triangles) and a draw range.
pub open spec fn strip_step(st: AssemblyState, t: EntityTriStrip, src: StripSource) -> AssemblyState {
    let (off, done, idx, out) = st;
    let next = off + t.tricount + 2;
    if done || t.tricount < 1 {
        (off, true, idx, out)
    } else if t.trans_type != 0 && src.remove_transparent {
        (next, false, idx, out)
    } else {
        let tex = texture_slot(src.mesh_flags, t.texture_index, src.textures@) as u32;
        if src.convert_strips {
            let range = TriStrip {
                start_index: idx.len() as u32,
                index_count: (t.tricount * 3) as u32,
                texture_index: tex,
                transparency: t.trans_type,
                flags: t.flags,
                tri_count: t.tricount,
            };
            (next, false, idx + strip_triangles(src, off, t.tricount as int), out.push(range))
        } else {
            let range = TriStrip {
                start_index: idx.len() as u32,
                index_count: (t.tricount + 2) as u32,
                texture_index: tex,
                transparency: t.trans_type,
                flags: t.flags,
                tri_count: t.tricount,
            };
            (next, false, idx + strip_indices(src, off, t.tricount + 2), out.push(range))
        }
    }
}

/// Whether strip `t` can be assembled from this state: the running index
/// stays in `u32`, and a drawn strip's indices exist, stay in `u32` once
/// moved, and name a texture without a negative list entry.
pub open spec fn strip_fits(st: AssemblyState, t: EntityTriStrip, src: StripSource) -> bool {
    let (off, done, idx, out) = st;
    (!done && t.tricount >= 1) ==> {
        &&& off + t.tricount + 2 <= u32::MAX
        &&& !(t.trans_type != 0 && src.remove_transparent) ==> {
            &&& off + t.tricount + 2 <= src.new_indices@.len()
            &&& forall|j: int| off <= j < off + t.tricount + 2 ==> #[trigger] vertex_at(src, j) <= u32::MAX
            &&& src.convert_strips ==> t.tricount * 3 <= u32::MAX
            &&& src.mesh_flags & 1 != 0 ==> t.texture_index >= 0
            &&& src.textures@.len() <= i32::MAX
        }
    }
}

/// The assembly after the first `k` strips.
pub open spec fn assembly(src: StripSource, ts: Seq<EntityTriStrip>, k: nat, indices: Seq<u32>, strips: Seq<TriStrip>) -> AssemblyState
    decreases k,
{
    if k == 0 {
        (0, false, indices, strips)
    } else {
        strip_step(assembly(src, ts, (k - 1) as nat, indices, strips), ts[k - 1], src)
    }
}

/// Whether every strip can be assembled.
pub open spec fn assembly_fits(src: StripSource, ts: Seq<EntityTriStrip>, indices: Seq<u32>, strips: Seq<TriStrip>) -> bool {
    forall|j: nat| j < ts.len() ==> strip_fits(#[trigger] assembly(src, ts, j, indices, strips), ts[j as int], src)
}

proof fn lemma_assembly_stays_done(src: StripSource, ts: Seq<EntityTriStrip>, j: nat, k: nat, indices: Seq<u32>, strips: Seq<TriStrip>)
    requires
        j <= k,
        assembly(src, ts, j, indices, strips).1,
    ensures
        assembly(src, ts, k, indices, strips) == assembly(src, ts, j, indices, strips),
    decreases k - j,
{
    if k > j {
        lemma_assembly_stays_done(src, ts, j, (k - 1) as nat, indices, strips);
    }
}

/// Appends one strip's indices to `indices` and its draw range to `strips`.
fn assemble_one(src: &StripSource, t: EntityTriStrip, off: u32, indices: &mut Vec<u32>, strips: &mut Vec<TriStrip>)
    requires
        strip_fits((off as int, false, old(indices)@, old(strips)@), t, *src),
        t.tricount >= 1,
        !(t.trans_type != 0 && src.remove_transparent),
    ensures
        strip_step((off as int, false, old(indices)@, old(strips)@), t, *src) == (
            off + t.tricount + 2,
            false,
            final(indices)@,
            final(strips)@,
        ),
{
    let texture = resolve_texture(src.mesh_flags, t.texture_index, src.textures.as_slice());
    let start = indices.len() as u32;
    let ghost before = indices@;
    let n = t.tricount;
    let voff = src.vertex_offset;
    let ni = &src.new_indices;
    if src.convert_strips {
        strips.push(TriStrip {
            start_index: start,
            index_count: n * 3,
            texture_index: texture as u32,
            transparency: t.trans_type,
            flags: t.flags,
            tri_count: n,
        });
        let mut i: u32 = 0;
        while i < n
            invariant
                n == t.tricount,
                voff == src.vertex_offset,
                ni@ == src.new_indices@,
                strip_fits((off as int, false, before, old(strips)@), t, *src),
                t.tricount >= 1,
                !(t.trans_type != 0 && src.remove_transparent),
                i <= n,
                indices@ == before + strip_triangles(*src, off as int, i as int),
            decreases n - i,
        {
            let j = (off + i) as usize;
            assert(vertex_at(*src, j as int) <= u32::MAX);
            assert(vertex_at(*src, j + 1) <= u32::MAX);
            assert(vertex_at(*src, j + 2) <= u32::MAX);
            let a = voff + ni[j];
            let b = voff + ni[j + 1];
            let c = voff + ni[j + 2];
            if i % 2 == 0 {
                indices.push(c);
                indices.push(b);
                indices.push(a);
            } else {
                indices.push(a);
                indices.push(b);
                indices.push(c);
            }
            proof {
                let tri = strip_triangles(*src, off as int, i + 1);
                assert forall|k: int| 0 <= k < 3 * (i + 1) implies indices@[before.len() + k] == tri[k] by {
                    if k < 3 * i {
                        assert(tri[k] == strip_triangles(*src, off as int, i as int)[k]);
                    } else {
                        assert(k / 3 == i as int);
                    }
                }
                assert(indices@ =~= before + tri);
            }
            i = i + 1;
        }
    } else {
        strips.push(TriStrip {
            start_index: start,
            index_count: n + 2,
            texture_index: texture as u32,
            transparency: t.trans_type,
            flags: t.flags,
            tri_count: n,
        });
        let mut k: u32 = 0;
        while k < n + 2
            invariant
                n == t.tricount,
                voff == src.vertex_offset,
                ni@ == src.new_indices@,
                strip_fits((off as int, false, before, old(strips)@), t, *src),
                t.tricount >= 1,
                !(t.trans_type != 0 && src.remove_transparent),
                k <= n + 2,
                indices@ == before + strip_indices(*src, off as int, k as int),
            decreases n + 2 - k,
        {
            let j = (off + k) as usize;
            assert(vertex_at(*src, j as int) <= u32::MAX);
            indices.push(voff + ni[j]);
            assert(indices@ =~= before + strip_indices(*src, off as int, k + 1));
            k = k + 1;
        }
    }
}

/// Appends the indices and draw ranges of a mesh's strips to `indices` and
/// `strips`, in the order the mesh stores them, as `assembly` says.
pub fn assemble_strips(src: &StripSource, tristrips: &[EntityTriStrip], indices: &mut Vec<u32>, strips: &mut Vec<TriStrip>)
    requires
        assembly_fits(*src, tristrips@, old(indices)@, old(strips)@),
    ensures
        ({
            let st = assembly(*src, tristrips@, tristrips@.len(), old(indices)@, old(strips)@);
            final(indices)@ == st.2 && final(strips)@ == st.3
        }),
{
    let ghost i0 = indices@;
    let ghost s0 = strips@;
    let ghost ts = tristrips@;
    let mut off: u32 = 0;
    let mut k: usize = 0;
    while k < tristrips.len()
        invariant
            ts == tristrips@,
            i0 == old(indices)@,
            s0 == old(strips)@,
            assembly_fits(*src, ts, i0, s0),
            k <= ts.len(),
            assembly(*src, ts, k as nat, i0, s0) == (off as int, false, indices@, strips@),
        decreases tristrips.len() - k,
    {
        let t = tristrips[k];
        assert(strip_fits(assembly(*src, ts, k as nat, i0, s0), ts[k as int], *src));
        if t.tricount < 1 {
            proof {
                assert(assembly(*src, ts, (k + 1) as nat, i0, s0) == strip_step(assembly(*src, ts, k as nat, i0, s0), ts[k as int], *src));
                assert(assembly(*src, ts, (k + 1) as nat, i0, s0) == (off as int, true, indices@, strips@));
                lemma_assembly_stays_done(*src, ts, (k + 1) as nat, ts.len(), i0, s0);
            }
            return;
        }
        if t.trans_type != 0 && src.remove_transparent {
            off = off + t.tricount + 2;
        } else {
            assemble_one(src, t, off, indices, strips);
            off = off + t.tricount + 2;
        }
        k = k + 1;
    }
}

} // verus!

verus! {

/// The operation bits of a PlayStation 2 strip vertex.
pub open spec fn ps2_op(v: u16) -> u16 {
    (v >> 12u16) & 0xfu16
}

/// The indices a PlayStation 2 strip adds when its vertices are numbered
/// from `vstart` on: each vertex adds its own number, and a vertex with
/// operation 5 first repeats the previous vertex and its own, which makes
/// the degenerate triangles that restart the strip.
pub open spec fn ps2_strip_indices(vstart: int, vertices: Seq<u16>) -> Seq<u32>
    decreases vertices.len(),
{
    if vertices.len() == 0 {
        seq![]
    } else {
        let k = vertices.len() - 1;
        let n = (vstart + k) as u32;
        let before = ps2_strip_indices(vstart, vertices.drop_last());
        if ps2_op(vertices.last()) == 5 {
            before + seq![(n - 1) as u32, n, n]
        } else {
            before.push(n)
        }
    }
}

/// The number of vertices of the strip with operation 5.
pub open spec fn ps2_restarts(vertices: Seq<u16>) -> nat
    decreases vertices.len(),
{
    if vertices.len() == 0 {
        0
    } else {
        ps2_restarts(vertices.drop_last()) + if ps2_op(vertices.last()) == 5 {
            1nat
        } else {
            0nat
        }
    }
}

/// The strip can be read without failing: each vertex names a source
/// vertex, a restart has a vertex before it, and the counts stay in `u32`
/// with at least one triangle.
pub open spec fn ps2_strip_fits(vstart: int, vertices: Seq<u16>, source_count: int) -> bool {
    &&& forall|k: int| 0 <= k < vertices.len() ==> (#[trigger] vertices[k] & 0x0fffu16) < source_count
    &&& forall|k: int| 0 <= k < vertices.len() && ps2_op(#[trigger] vertices[k]) == 5 ==> ((vstart + k) as u32) >= 1
    &&& vertices.len() + 2 * ps2_restarts(vertices) <= u32::MAX
    &&& vertices.len() + 2 * ps2_restarts(vertices) >= 2
    &&& vstart + vertices.len() <= usize::MAX
}

proof fn lemma_ps2_indices_len(vstart: int, vertices: Seq<u16>)
    ensures
        ps2_strip_indices(vstart, vertices).len() == vertices.len() + 2 * ps2_restarts(vertices),
    decreases vertices.len(),
{
    if vertices.len() > 0 {
        lemma_ps2_indices_len(vstart, vertices.drop_last());
    }
}

proof fn lemma_ps2_restarts_prefix(vertices: Seq<u16>, k: int)
    requires
        0 <= k <= vertices.len(),
    ensures
        ps2_restarts(vertices.take(k)) <= ps2_restarts(vertices),
    decreases vertices.len() - k,
{
    if k < vertices.len() {
        lemma_ps2_restarts_prefix(vertices, k + 1);
        assert(vertices.take(k + 1).drop_last() =~= vertices.take(k));
    } else {
        assert(vertices.take(k) =~= vertices);
    }
}

/// Appends to `indices` the indices of a PlayStation 2 strip whose
/// vertices are numbered from `vstart` on, and gives its draw range.
pub fn ps2_strip(indices: &mut Vec<u32>, vstart: usize, vertices: &[u16], source_count: usize, texture_index: i32) -> (r: TriStrip)
    requires
        ps2_strip_fits(vstart as int, vertices@, source_count as int),
    ensures
        final(indices)@ == old(indices)@ + ps2_strip_indices(vstart as int, vertices@),
        r == (TriStrip {
            start_index: vstart as u32,
            index_count: (vertices@.len() + 2 * ps2_restarts(vertices@)) as u32,
            texture_index: texture_index as u32,
            transparency: 0,
            flags: 0,
            tri_count: (vertices@.len() + 2 * ps2_restarts(vertices@) - 2) as u32,
        }),
{
    let ghost start = indices@;
    let mut index_count: u32 = 0;
    let mut k: usize = 0;
    while k < vertices.len()
        invariant
            ps2_strip_fits(vstart as int, vertices@, source_count as int),
            k <= vertices@.len(),
            index_count == k + 2 * ps2_restarts(vertices@.take(k as int)),
            indices@ == start + ps2_strip_indices(vstart as int, vertices@.take(k as int)),
        decreases vertices.len() - k,
    {
        let v = vertices[k];
        proof {
            lemma_ps2_restarts_prefix(vertices@, k + 1);
            assert(vertices@.take(k + 1).drop_last() =~= vertices@.take(k as int));
            assert(vertices@.take(k + 1).last() == v);
            assert((v & 0x0fffu16) < source_count);
        }
        let operation = (v >> 12) & 0xf;
        let n = (vstart + k) as u32;
        if operation == 5 {
            assert(ps2_op(vertices@[k as int]) == 5);
            indices.push(n - 1);
            indices.push(n);
            index_count = index_count + 2;
        }
        indices.push(n);
        index_count = index_count + 1;
        proof {
            let pre = start + ps2_strip_indices(vstart as int, vertices@.take(k as int));
            if operation == 5 {
                assert(indices@ =~= pre + seq![(n - 1) as u32, n, n]);
            }
            assert(indices@ =~= start + ps2_strip_indices(vstart as int, vertices@.take(k + 1)));
        }
        k = k + 1;
    }
    assert(vertices@.take(vertices@.len() as int) =~= vertices@);
    TriStrip {
        start_index: vstart as u32,
        index_count,
        texture_index: texture_index as u32,
        transparency: 0,
        flags: 0,
        tri_count: index_count - 2,
    }
}

} // verus!

verus! {

/// The attribute indices of one GX vertex: position, an unknown one,
/// colour and texture coordinate.
#[derive(Debug, Clone, Copy, PartialEq, Eq, Structural)]
pub struct GxIndex {
    pub pos: u16,
    pub unk0: u16,
    pub color: u16,
    pub uv: u16,
}

/// Calls `bytemuck::cast_slice` from `u16` values to 4-value arrays: the
/// same memory read as `values.len() / 4` arrays, array `i` holding values
/// `4 * i .. 4 * i + 4`. It panics when the length is no multiple of 4.
#[verifier::external_body]
fn cast_quads<'a>(values: &'a [u16]) -> (r: &'a [[u16; 4]])
    requires
        values@.len() % 4 == 0,
    ensures
        r@.len() == values@.len() / 4,
        forall|i: int, k: int| 0 <= i < r@.len() && 0 <= k < 4 ==> #[trigger] r@[i]@[k] == values@[4 * i + k],
{
    bytemuck::cast_slice(values)
}

/// The vertices of a GX draw command whose `count` vertices start at `at`.
pub open spec fn gx_group(values: Seq<u16>, at: int, count: int) -> Seq<GxIndex> {
    Seq::new(
        count as nat,
        |i: int|
            GxIndex {
                pos: values[at + 4 * i],
                unk0: values[at + 4 * i + 1],
                color: values[at + 4 * i + 2],
                uv: values[at + 4 * i + 3],
            },
    )
}

/// The GX draw commands from `at` on: a command is `0x98`, a vertex count
/// and four values per vertex; anything else ends the list.
pub open spec fn gx_groups(values: Seq<u16>, at: int) -> Seq<Seq<GxIndex>>
    decreases values.len() - at,
{
    if at < 0 || at >= values.len() || at + 1 >= values.len() || values[at] != 0x98 {
        seq![]
    } else {
        let count = values[at + 1] as int;
        let next = at + 2 + 4 * count;
        if next > values.len() {
            seq![]
        } else {
            seq![gx_group(values, at + 2, count)] + gx_groups(values, next)
        }
    }
}

/// The commands can be read without failing: the vertex count follows
/// every value read, and every command's vertices are there.
pub open spec fn gx_groups_fit(values: Seq<u16>, at: int) -> bool
    decreases values.len() - at,
{
    if at < 0 || at >= values.len() {
        true
    } else if at + 1 >= values.len() {
        false
    } else if values[at] != 0x98 {
        true
    } else {
        let next = at + 2 + 4 * (values[at + 1] as int);
        next <= values.len() && gx_groups_fit(values, next)
    }
}

/// The draw commands of a GX strip.
pub fn read_gx_groups(values: &[u16]) -> (r: Vec<Vec<GxIndex>>)
    requires
        gx_groups_fit(values@, 0),
    ensures
        r@.len() == gx_groups(values@, 0).len(),
        forall|i: int| 0 <= i < r@.len() ==> #[trigger] r@[i]@ == gx_groups(values@, 0)[i],
{
    let mut groups: Vec<Vec<GxIndex>> = Vec::new();
    let mut offset: usize = 0;
    let ghost all = gx_groups(values@, 0);
    while offset < values.len()
        invariant
            gx_groups_fit(values@, offset as int),
            all == gx_groups(values@, 0),
            groups@.len() + gx_groups(values@, offset as int).len() == all.len(),
            forall|i: int| 0 <= i < groups@.len() ==> #[trigger] groups@[i]@ == all[i],
            forall|i: int|
                0 <= i < gx_groups(values@, offset as int).len() ==> #[trigger] gx_groups(values@, offset as int)[i]
                    == all[groups@.len() + i],
        ensures
            groups@.len() == all.len(),
            forall|i: int| 0 <= i < groups@.len() ==> #[trigger] groups@[i]@ == all[i],
        decreases values.len() - offset,
    {
        let h = values[offset];
        let face_count = values[offset + 1];
        if h != 0x98 {
            break;
        }
        let at = offset + 2;
        let end = at + face_count as usize * 4;
        let chunk = cast_quads(&values[at..end]);
        let mut group: Vec<GxIndex> = Vec::new();
        let mut i: usize = 0;
        while i < chunk.len()
            invariant
                chunk@.len() == face_count,
                end == at + 4 * face_count,
                end <= values@.len(),
                forall|j: int, k: int| 0 <= j < chunk@.len() && 0 <= k < 4 ==> #[trigger] chunk@[j]@[k] == values@[at + 4 * j + k],
                i <= chunk@.len(),
                group@ == gx_group(values@, at as int, i as int),
            decreases chunk.len() - i,
        {
            let c = chunk[i];
            assert(c@[0] == values@[at + 4 * i]);
            assert(c@[1] == values@[at + 4 * i + 1]);
            assert(c@[2] == values@[at + 4 * i + 2]);
            assert(c@[3] == values@[at + 4 * i + 3]);
            group.push(GxIndex { pos: c[0], unk0: c[1], color: c[2], uv: c[3] });
            assert(group@ =~= gx_group(values@, at as int, i + 1));
            i = i + 1;
        }
        let ghost rest = gx_groups(values@, end as int);
        assert(gx_groups(values@, offset as int) == seq![group@] + rest);
        groups.push(group);
        offset = end;
        assert forall|i: int| 0 <= i < groups@.len() implies #[trigger] groups@[i]@ == all[i] by {
            if i == groups@.len() - 1 {
                assert(gx_groups(values@, (at - 2) as int)[0] == all[i]);
            }
        }
        assert forall|i: int| 0 <= i < rest.len() implies #[trigger] rest[i] == all[groups@.len() + i] by {
            assert(gx_groups(values@, (at - 2) as int)[i + 1] == rest[i]);
        }
    }
    groups
}

} // verus!

verus! {

/// Reading GX draw commands into one strip: the index count so far, the
/// number of the next vertex (counted from the mesh's first vertex) and
/// the indices made. Every command after the first begins by repeating the
/// last vertex and the next one, which joins the strips with degenerate
/// triangles; each vertex then adds its own number.
pub open spec fn gx_scan(groups: Seq<Seq<GxIndex>>, first: int) -> (int, int, Seq<u32>)
    decreases groups.len(),
{
    if groups.len() == 0 {
        (0, first, seq![])
    } else {
        let (count, next, made) = gx_scan(groups.drop_last(), first);
        let g = groups.last();
        let (count1, made1) = if count != 0 {
            (count + 2, made + seq![(next - 1) as u32, next as u32])
        } else {
            (count, made)
        };
        (count1 + g.len(), next + g.len(), made1 + Seq::new(g.len(), |i: int| (next + i) as u32))
    }
}

/// The number of vertices of the commands.
pub open spec fn gx_vertex_total(groups: Seq<Seq<GxIndex>>) -> nat
    decreases groups.len(),
{
    if groups.len() == 0 {
        0
    } else {
        gx_vertex_total(groups.drop_last()) + groups.last().len()
    }
}

proof fn lemma_gx_scan_counts(groups: Seq<Seq<GxIndex>>, first: int)
    ensures
        gx_scan(groups, first).1 == first + gx_vertex_total(groups),
        0 <= gx_scan(groups, first).0 <= gx_vertex_total(groups) + 2 * groups.len(),
        gx_scan(groups, first).0 != 0 ==> gx_vertex_total(groups) > 0,
    decreases groups.len(),
{
    if groups.len() > 0 {
        lemma_gx_scan_counts(groups.drop_last(), first);
    }
}

proof fn lemma_gx_total_prefix(groups: Seq<Seq<GxIndex>>, k: int)
    requires
        0 <= k <= groups.len(),
    ensures
        gx_vertex_total(groups.take(k)) <= gx_vertex_total(groups),
    decreases groups.len() - k,
{
    if k < groups.len() {
        lemma_gx_total_prefix(groups, k + 1);
        assert(groups.take(k + 1).drop_last() =~= groups.take(k));
    } else {
        assert(groups.take(k) =~= groups);
    }
}

/// The strip can be built without failing: every vertex names a source
/// vertex, the numbers stay in `u32` and the count in `i32`, and there is
/// at least one triangle.
pub open spec fn gx_strip_fits(groups: Seq<Seq<GxIndex>>, vertex_len: int, vertex_offset: int, source_count: int) -> bool {
    &&& vertex_offset <= vertex_len
    &&& vertex_len + gx_vertex_total(groups) <= u32::MAX
    &&& gx_vertex_total(groups) + 2 * groups.len() <= i32::MAX
    &&& gx_scan(groups, vertex_len - vertex_offset).0 >= 2
    &&& forall|g: int, i: int|
        0 <= g < groups.len() && 0 <= i < groups[g].len() ==> (#[trigger] groups[g][i]).pos < source_count
}

/// Appends to `new_indices` the indices of a GX strip made of the draw
/// commands `groups`, whose vertices are added to the vertex list from
/// `vertex_len` on, and gives the strip as a mesh stores it.
pub fn gx_strip(
    new_indices: &mut Vec<u32>,
    groups: &Vec<Vec<GxIndex>>,
    vertex_len: usize,
    vertex_offset: u32,
    source_count: usize,
    texture_index: i32,
    flags: u16,
    transparency: u16,
) -> (r: EntityTriStrip)
    requires
        gx_strip_fits(groups@.map_values(|g: Vec<GxIndex>| g@), vertex_len as int, vertex_offset as int, source_count as int),
    ensures
        ({
            let (count, _, made) = gx_scan(groups@.map_values(|g: Vec<GxIndex>| g@), vertex_len - vertex_offset);
            &&& final(new_indices)@ == old(new_indices)@ + made
            &&& r == (EntityTriStrip {
                tricount: (count - 2) as u32,
                texture_index,
                min_index: old(new_indices)@.len() as u16,
                num_indices: count as u16,
                flags,
                trans_type: transparency,
            })
        }),
{
    let ghost gs = groups@.map_values(|g: Vec<GxIndex>| g@);
    let ghost first = vertex_len - vertex_offset;
    let ghost start = new_indices@;
    let start_index = new_indices.len();
    let mut index_count: i32 = 0;
    let mut vlen: usize = vertex_len;
    let mut k: usize = 0;
    proof {
        lemma_gx_scan_counts(gs, first);
    }
    while k < groups.len()
        invariant
            gs == groups@.map_values(|g: Vec<GxIndex>| g@),
            first == vertex_len - vertex_offset,
            gx_strip_fits(gs, vertex_len as int, vertex_offset as int, source_count as int),
            k <= groups@.len(),
            ({
                let (count, next, made) = gx_scan(gs.take(k as int), first);
                &&& index_count == count
                &&& vlen - vertex_offset == next
                &&& new_indices@ == start + made
            }),
        decreases groups.len() - k,
    {
        let group = &groups[k];
        proof {
            assert(gs.take(k + 1).drop_last() =~= gs.take(k as int));
            assert(gs.take(k + 1).last() == group@);
            lemma_gx_scan_counts(gs.take(k + 1), first);
            lemma_gx_scan_counts(gs.take(k as int), first);
            lemma_gx_total_prefix(gs, k + 1);
        }
        let ghost before = new_indices@;
        let ghost c0 = index_count as int;
        let ghost v0 = vlen as int;
        if index_count != 0 {
            new_indices.push(vlen as u32 - 1 - vertex_offset);
            new_indices.push(vlen as u32 - vertex_offset);
            index_count = index_count + 2;
        }
        let ghost mid = new_indices@;
        let mut i: usize = 0;
        while i < group.len()
            invariant
                gs == groups@.map_values(|g: Vec<GxIndex>| g@),
                group@ == gs[k as int],
                gx_strip_fits(gs, vertex_len as int, vertex_offset as int, source_count as int),
                k < groups@.len(),
                i <= group@.len(),
                vertex_offset <= vlen,
                vlen + group@.len() - i <= vertex_len + gx_vertex_total(gs),
                index_count + group@.len() - i <= gx_vertex_total(gs) + 2 * groups@.len(),
                vlen == v0 + i,
                index_count == (if c0 != 0 { c0 + 2 } else { c0 }) + i,
                new_indices@ == mid + Seq::new(i as nat, |j: int| (vlen - i - vertex_offset + j) as u32),
            decreases group.len() - i,
        {
            assert(group@[i as int].pos < source_count) by {
                assert(gs[k as int][i as int] == group@[i as int]);
            }
            new_indices.push(vlen as u32 - vertex_offset);
            index_count = index_count + 1;
            vlen = vlen + 1;
            i = i + 1;
            assert(new_indices@ =~= mid + Seq::new(i as nat, |j: int| (vlen - i - vertex_offset + j) as u32));
        }
        proof {
            let next = v0 - vertex_offset;
            let made = gx_scan(gs.take(k as int), first).2;
            let extra = if c0 != 0 { seq![(next - 1) as u32, next as u32] } else { seq![] };
            assert(mid =~= start + made + extra);
            assert(new_indices@ =~= start + gx_scan(gs.take(k + 1), first).2);
        }
        k = k + 1;
    }
    assert(gs.take(groups@.len() as int) =~= gs);
    EntityTriStrip {
        tricount: index_count as u32 - 2,
        texture_index,
        min_index: start_index as u16,
        num_indices: index_count as u16,
        flags,
        trans_type: transparency,
    }
}

} // verus!

verus! {

/// The indices that the draw ranges cover together.
pub open spec fn range_total(ranges: Seq<TriStrip>) -> nat
    decreases ranges.len(),
{
    if ranges.len() == 0 {
        0
    } else {
        range_total(ranges.drop_last()) + ranges.last().index_count as nat
    }
}

/// The draw ranges from `first` on follow one another without gap from
/// index `base` on, and end where the index list ends.
pub open spec fn ranges_tile(ranges: Seq<TriStrip>, first: int, base: int, index_len: int) -> bool {
    &&& 0 <= first <= ranges.len()
    &&& index_len == base + range_total(ranges.subrange(first, ranges.len() as int))
    &&& forall|m: int|
        first <= m < ranges.len() ==> (#[trigger] ranges[m]).start_index == (base + range_total(
            ranges.subrange(first, m),
        )) as u32
}

proof fn lemma_step_extends(st: AssemblyState, t: EntityTriStrip, src: StripSource)
    requires
        strip_fits(st, t, src),
        st.0 >= 0,
    ensures
        strip_step(st, t, src).0 >= 0,
        ({
            let next = strip_step(st, t, src);
            ||| (next.2 == st.2 && next.3 == st.3)
            ||| {
                &&& next.3.len() == st.3.len() + 1
                &&& next.3.drop_last() == st.3
                &&& next.3.last().start_index == st.2.len() as u32
                &&& next.2.len() == st.2.len() + next.3.last().index_count
            }
        }),
{
    let (off, done, idx, out) = st;
    if !(done || t.tricount < 1) && !(t.trans_type != 0 && src.remove_transparent) {
        let next = strip_step(st, t, src);
        assert(next.3.drop_last() =~= out);
        if src.convert_strips {
            assert(strip_triangles(src, off, t.tricount as int).len() == 3 * t.tricount);
            assert(next.3.last().index_count == t.tricount * 3);
        } else {
            assert(strip_indices(src, off, t.tricount + 2).len() == t.tricount + 2);
            assert(next.3.last().index_count == t.tricount + 2);
        }
    }
}

proof fn lemma_assembly_tiles(src: StripSource, ts: Seq<EntityTriStrip>, k: nat, indices: Seq<u32>, strips: Seq<TriStrip>)
    requires
        k <= ts.len(),
        assembly_fits(src, ts, indices, strips),
    ensures
        assembly(src, ts, k, indices, strips).0 >= 0,
        ranges_tile(
            assembly(src, ts, k, indices, strips).3,
            strips.len() as int,
            indices.len() as int,
            assembly(src, ts, k, indices, strips).2.len() as int,
        ),
    decreases k,
{
    let n0 = strips.len() as int;
    let base = indices.len() as int;
    if k == 0 {
        assert(strips.subrange(n0, n0) =~= Seq::<TriStrip>::empty());
    } else {
        let j = (k - 1) as nat;
        lemma_assembly_tiles(src, ts, j, indices, strips);
        let st = assembly(src, ts, j, indices, strips);
        assert(strip_fits(assembly(src, ts, j, indices, strips), ts[j as int], src));
        lemma_step_extends(st, ts[j as int], src);
        let next = assembly(src, ts, k, indices, strips);
        assert(next == strip_step(st, ts[j as int], src));
        if next.3.len() == st.3.len() + 1 {
            let out = st.3;
            assert(next.3.subrange(n0, next.3.len() as int).drop_last() =~= out.subrange(n0, out.len() as int));
            assert forall|m: int| n0 <= m < next.3.len() implies (#[trigger] next.3[m]).start_index == (base
                + range_total(next.3.subrange(n0, m))) as u32 by {
                if m < out.len() {
                    assert(next.3.subrange(n0, m) =~= out.subrange(n0, m));
                    assert(next.3[m] == out[m]);
                } else {
                    assert(next.3.subrange(n0, m) =~= out.subrange(n0, out.len() as int));
                }
            }
        }
    }
}

/// Strip assembly lays its draw ranges end to end: each new range starts
/// where the indices of the ones before it end (counted from the indices
/// there were before), and together they cover exactly the indices added.
pub proof fn law_ranges_cover_indices(src: StripSource, ts: Seq<EntityTriStrip>, indices: Seq<u32>, strips: Seq<TriStrip>)
    requires
        assembly_fits(src, ts, indices, strips),
    ensures
        ({
            let st = assembly(src, ts, ts.len(), indices, strips);
            ranges_tile(st.3, strips.len() as int, indices.len() as int, st.2.len() as int)
        }),
{
    lemma_assembly_tiles(src, ts, ts.len(), indices, strips);
}

} // verus!

verus! {

/// An entity as a model file nests it: a split holding further entities, or
/// a mesh.
#[derive(Debug)]
pub enum EntityTree<M> {
    Split(Vec<EntityTree<M>>),
    Mesh(M),
}

/// Why the meshes of an entity could not be collected.
#[derive(Debug, Clone, Copy, PartialEq, Eq, Structural)]
pub enum EntityError {
    /// Splits are nested deeper than the depth limit allows.
    RecursionLimit,
}

/// The meshes of `tree` in pre-order, read with `limit` levels left, and
/// whether the walk got through: every entity, split or mesh, takes one
/// level, and an entity reached with no level left stops the walk with the
/// meshes found before it.
pub open spec fn entity_walk<M>(tree: EntityTree<M>, limit: nat) -> (Seq<M>, bool)
    decreases tree, 1nat,
{
    if limit == 0 {
        (Seq::empty(), false)
    } else {
        match tree {
            EntityTree::Mesh(m) => (seq![m], true),
            EntityTree::Split(children) => entity_walk_list(children@, (limit - 1) as nat),
        }
    }
}

/// The meshes of the entities `children` in order, each read with `limit`
/// levels left; the walk stops at the first entity that fails.
pub open spec fn entity_walk_list<M>(children: Seq<EntityTree<M>>, limit: nat) -> (Seq<M>, bool)
    decreases children, 0nat,
{
    if children.len() == 0 {
        (Seq::empty(), true)
    } else {
        let before = entity_walk_list(children.drop_last(), limit);
        if !before.1 {
            before
        } else {
            let last = entity_walk(children.last(), limit);
            (before.0 + last.0, last.1)
        }
    }
}


/// The meshes that a walk of `children` gives once it has failed on a
/// prefix of them.
proof fn lemma_walk_stays_failed<M>(children: Seq<EntityTree<M>>, k: int, j: int, limit: nat)
    requires
        0 <= k <= j <= children.len(),
        !entity_walk_list(children.take(k), limit).1,
    ensures
        entity_walk_list(children.take(j), limit) == entity_walk_list(children.take(k), limit),
    decreases j - k,
{
    if j > k {
        lemma_walk_stays_failed(children, k, j - 1, limit);
        assert(children.take(j).drop_last() =~= children.take(j - 1));
    }
}

/// The meshes of `refs`, each read through its reference.
pub open spec fn referenced<M>(refs: Seq<&M>) -> Seq<M> {
    refs.map_values(|m: &M| *m)
}

/// Adds the meshes of `tree` to `out` in pre-order, each entity taking one
/// of `depth_limit` levels. An entity reached with no level left stops the
/// walk with an error; the meshes found before it stay in `out`.
pub fn collect_meshes<'a, M>(tree: &'a EntityTree<M>, depth_limit: u32, out: &mut Vec<&'a M>) -> (r: Result<(), EntityError>)
    ensures
        referenced(final(out)@) == referenced(old(out)@) + entity_walk(*tree, depth_limit as nat).0,
        r is Ok <==> entity_walk(*tree, depth_limit as nat).1,
        r is Err ==> r == Err::<(), EntityError>(EntityError::RecursionLimit),
    decreases tree,
{
    if depth_limit == 0 {
        assert(referenced(out@) =~= referenced(out@) + Seq::<M>::empty());
        return Err(EntityError::RecursionLimit);
    }
    match tree {
        EntityTree::Mesh(m) => {
            out.push(m);
            assert(referenced(out@) =~= referenced(old(out)@) + seq![*m]);
            Ok(())
        },
        EntityTree::Split(children) => {
            let limit = depth_limit - 1;
            let ghost start = referenced(out@);
            let mut i: usize = 0;
            proof {
                assert(children@.take(0) =~= Seq::<EntityTree<M>>::empty());
                assert(start =~= start + Seq::<M>::empty());
            }
            while i < children.len()
                invariant
                    i <= children@.len(),
                    limit == depth_limit - 1,
                    depth_limit > 0,
                    *tree == EntityTree::Split(*children),
                    start == referenced(old(out)@),
                    referenced(out@) == start + entity_walk_list(children@.take(i as int), limit as nat).0,
                    entity_walk_list(children@.take(i as int), limit as nat).1,
                decreases children.len() - i,
            {
                let ghost before = referenced(out@);
                proof {
                    assert(decreases_to!(*tree => (*tree)->Split_0));
                    assert((*tree)->Split_0 == *children);
                    assert(decreases_to!(*children => children@));
                    assert(decreases_to!(children@ => children@[i as int]));
                }
                let r = collect_meshes(&children[i], limit, out);
                proof {
                    let t = children@.take(i + 1);
                    assert(t.drop_last() =~= children@.take(i as int));
                    assert(t.last() == children@[i as int]);
                    assert(referenced(out@) =~= start + entity_walk_list(t, limit as nat).0);
                }
                if r.is_err() {
                    proof {
                        lemma_walk_stays_failed(children@, i + 1, children@.len() as int, limit as nat);
                        assert(children@.take(children@.len() as int) =~= children@);
                    }
                    return r;
                }
                i = i + 1;
            }
            proof {
                assert(children@.take(children@.len() as int) =~= children@);
            }
            Ok(())
        },
    }
}

/// A mesh of an entity: how many vertices it adds, its strip indices,
/// flags and texture list, and its strips.
#[derive(Debug, Clone)]
pub struct EntityMesh {
    pub vertex_count: u32,
    pub new_indices: Vec<u32>,
    pub mesh_flags: u32,
    pub textures: Vec<u32>,
    pub tristrips: Vec<EntityTriStrip>,
}

/// The strip source of mesh `m` whose vertices start at `offset`.
pub open spec fn mesh_source(m: EntityMesh, offset: u32, remove_transparent: bool, convert_strips: bool) -> StripSource {
    StripSource {
        new_indices: m.new_indices,
        vertex_offset: offset,
        mesh_flags: m.mesh_flags,
        textures: m.textures,
        remove_transparent,
        convert_strips,
    }
}

/// Where the vertices of the next mesh start, and the indices and strips,
/// after the first `k` of `meshes` are assembled one after the other from
/// vertex `offset` on.
pub open spec fn meshes_assembly(
    meshes: Seq<EntityMesh>,
    k: nat,
    offset: int,
    indices: Seq<u32>,
    strips: Seq<TriStrip>,
    remove_transparent: bool,
    convert_strips: bool,
) -> (int, Seq<u32>, Seq<TriStrip>)
    decreases k,
{
    if k == 0 {
        (offset, indices, strips)
    } else {
        let (o, i, s) = meshes_assembly(meshes, (k - 1) as nat, offset, indices, strips, remove_transparent, convert_strips);
        let m = meshes[k - 1];
        let st = assembly(mesh_source(m, o as u32, remove_transparent, convert_strips), m.tristrips@, m.tristrips@.len(), i, s);
        (o + m.vertex_count, st.2, st.3)
    }
}

/// Whether every mesh of `meshes` can be assembled in turn: the vertex
/// positions stay in `u32` and each mesh's strips fit.
pub open spec fn meshes_fit(
    meshes: Seq<EntityMesh>,
    offset: int,
    indices: Seq<u32>,
    strips: Seq<TriStrip>,
    remove_transparent: bool,
    convert_strips: bool,
) -> bool {
    forall|k: nat| k < meshes.len() ==> {
        let (o, i, s) = #[trigger] meshes_assembly(meshes, k, offset, indices, strips, remove_transparent, convert_strips);
        &&& o + meshes[k as int].vertex_count <= u32::MAX
        &&& assembly_fits(mesh_source(meshes[k as int], o as u32, remove_transparent, convert_strips), meshes[k as int].tristrips@, i, s)
    }
}

/// A copy of `v`.
fn copy_u32s(v: &Vec<u32>) -> (r: Vec<u32>)
    ensures
        r@ == v@,
{
    let mut r: Vec<u32> = Vec::new();
    let mut i: usize = 0;
    while i < v.len()
        invariant
            i <= v@.len(),
            r@ == v@.take(i as int),
        decreases v.len() - i,
    {
        r.push(v[i]);
        i = i + 1;
    }
    assert(v@.take(v@.len() as int) =~= v@);
    r
}

/// Strip assembly reads a source only through the contents of its lists.
proof fn lemma_same_source(a: StripSource, b: StripSource, ts: Seq<EntityTriStrip>, k: nat, indices: Seq<u32>, strips: Seq<TriStrip>)
    requires
        a.new_indices@ == b.new_indices@,
        a.textures@ == b.textures@,
        a.vertex_offset == b.vertex_offset,
        a.mesh_flags == b.mesh_flags,
        a.remove_transparent == b.remove_transparent,
        a.convert_strips == b.convert_strips,
    ensures
        assembly(a, ts, k, indices, strips) == assembly(b, ts, k, indices, strips),
        k < ts.len() ==> (strip_fits(assembly(a, ts, k, indices, strips), ts[k as int], a)
            <==> strip_fits(assembly(b, ts, k, indices, strips), ts[k as int], b)),
    decreases k,
{
    if k > 0 {
        lemma_same_source(a, b, ts, (k - 1) as nat, indices, strips);
        let st = assembly(a, ts, (k - 1) as nat, indices, strips);
        let t = ts[k - 1];
        assert(strip_triangles(a, st.0, t.tricount as int) =~= strip_triangles(b, st.0, t.tricount as int));
        assert(strip_indices(a, st.0, t.tricount + 2) =~= strip_indices(b, st.0, t.tricount + 2));
    }
    assert forall|j: int| #![trigger vertex_at(a, j)] #![trigger vertex_at(b, j)] vertex_at(a, j) == vertex_at(b, j) by {}
}

/// Assembles the strips of every mesh of the entity `tree`, in pre-order,
/// the vertices of the first mesh starting at `vertex_start` and those of
/// each further mesh after the vertices of the one before. Each entity takes
/// one of `depth_limit` levels; an entity reached with no level left ends
/// the walk with an error, after the meshes before it are assembled. On
/// success the result is where the vertices of a next mesh would start.
pub fn assemble_entity(
    tree: &EntityTree<EntityMesh>,
    depth_limit: u32,
    remove_transparent: bool,
    convert_strips: bool,
    vertex_start: u32,
    indices: &mut Vec<u32>,
    strips: &mut Vec<TriStrip>,
) -> (r: Result<u32, EntityError>)
    requires
        meshes_fit(entity_walk(*tree, depth_limit as nat).0, vertex_start as int, old(indices)@, old(strips)@, remove_transparent, convert_strips),
    ensures
        ({
            let meshes = entity_walk(*tree, depth_limit as nat).0;
            let (o, i, s) = meshes_assembly(meshes, meshes.len(), vertex_start as int, old(indices)@, old(strips)@, remove_transparent, convert_strips);
            &&& final(indices)@ == i
            &&& final(strips)@ == s
            &&& match r {
                Ok(v) => entity_walk(*tree, depth_limit as nat).1 && v == o,
                Err(e) => !entity_walk(*tree, depth_limit as nat).1 && e == EntityError::RecursionLimit,
            }
        }),
{
    let mut list: Vec<&EntityMesh> = Vec::new();
    let walked = collect_meshes(tree, depth_limit, &mut list);
    let ghost meshes = entity_walk(*tree, depth_limit as nat).0;
    proof {
        assert(referenced(Seq::<&EntityMesh>::empty()) =~= Seq::<EntityMesh>::empty());
        assert(referenced(list@) =~= meshes);
    }
    let mut offset = vertex_start;
    let mut k: usize = 0;
    while k < list.len()
        invariant
            referenced(list@) == meshes,
            meshes.len() == list@.len(),
            k <= list@.len(),
            meshes_fit(meshes, vertex_start as int, old(indices)@, old(strips)@, remove_transparent, convert_strips),
            ({
                let (o, i, s) = meshes_assembly(meshes, k as nat, vertex_start as int, old(indices)@, old(strips)@, remove_transparent, convert_strips);
                &&& offset == o
                &&& indices@ == i
                &&& strips@ == s
            }),
        decreases list.len() - k,
    {
        let m = list[k];
        proof {
            assert(meshes[k as int] == *m);
            let _ = meshes_assembly(meshes, k as nat, vertex_start as int, old(indices)@, old(strips)@, remove_transparent, convert_strips);
        }
        let src = StripSource {
            new_indices: copy_u32s(&m.new_indices),
            vertex_offset: offset,
            mesh_flags: m.mesh_flags,
            textures: copy_u32s(&m.textures),
            remove_transparent,
            convert_strips,
        };
        proof {
            assert(src.new_indices@ == m.new_indices@);
            lemma_same_source(
                src,
                mesh_source(*m, offset, remove_transparent, convert_strips),
                m.tristrips@,
                m.tristrips@.len(),
                indices@,
                strips@,
            );
            assert(assembly_fits(src, m.tristrips@, indices@, strips@)) by {
                assert forall|j: nat| j < m.tristrips@.len() implies strip_fits(
                    #[trigger] assembly(src, m.tristrips@, j, indices@, strips@),
                    m.tristrips@[j as int],
                    src,
                ) by {
                    lemma_same_source(
                        src,
                        mesh_source(*m, offset, remove_transparent, convert_strips),
                        m.tristrips@,
                        j,
                        indices@,
                        strips@,
                    );
                }
            }
        }
        assemble_strips(&src, m.tristrips.as_slice(), indices, strips);
        offset = offset + m.vertex_count;
        k = k + 1;
    }
    match walked {
        Ok(()) => Ok(offset),
        Err(e) => Err(e),
    }
}

} // verus!
