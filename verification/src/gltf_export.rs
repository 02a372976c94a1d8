//! The glTF scene of one mesh: two buffers holding the vertex and index data
//! as base64 data URIs, the views and accessors over them, and one image,
//! texture and material for each distinct texture the strips draw with.
//!
//! The bounds of the vertex positions are floating point and are not part of
//! this model; whoever writes the scene out adds them to the first accessor.
use base64::Engine;
use std::collections::HashMap;
use vstd::prelude::*;

use crate::text::{hex8, push_hex8, push_str};

verus! {

broadcast use vstd::std_specs::hash::group_hash_axioms;

/// A run of `index_count` indices starting at index `start_index`, drawn
/// with the texture whose hashcode is `texture_hash`.
#[derive(Clone, Copy, Debug, PartialEq, Eq)]
pub struct TriStrip {
    pub start_index: u32,
    pub index_count: u32,
    pub texture_hash: u32,
}

/// What a buffer view is bound to.
#[derive(Clone, Copy, Debug, PartialEq, Eq)]
pub enum BufferTarget {
    ArrayBuffer,
    ElementArrayBuffer,
}

/// The type of one component of an accessor's elements.
#[derive(Clone, Copy, Debug, PartialEq, Eq)]
pub enum ComponentType {
    F32,
    U32,
}

/// The shape of an accessor's elements.
#[derive(Clone, Copy, Debug, PartialEq, Eq)]
pub enum AccessorType {
    Scalar,
    Vec2,
    Vec3,
}

/// A buffer: its length in bytes and its contents as a data URI.
#[derive(Clone, Debug)]
pub struct SceneBuffer {
    pub byte_length: u32,
    pub uri: String,
}

/// A range of a buffer.
#[derive(Clone, Copy, Debug, PartialEq, Eq)]
pub struct BufferView {
    pub buffer: u32,
    pub byte_length: u32,
    pub byte_offset: Option<u32>,
    pub byte_stride: Option<u32>,
    pub target: BufferTarget,
}

/// Typed elements read from a buffer view.
#[derive(Clone, Copy, Debug, PartialEq, Eq)]
pub struct Accessor {
    pub buffer_view: u32,
    pub byte_offset: u32,
    pub count: u32,
    pub component_type: ComponentType,
    pub accessor_type: AccessorType,
}

/// One drawn strip: the accessor of its indices and its material. Positions
/// are read from accessor 0, texture coordinates from accessor 2 and, where
/// `normals` is set, normals from accessor 1.
#[derive(Clone, Copy, Debug, PartialEq, Eq)]
pub struct Primitive {
    pub indices: u32,
    pub material: u32,
    pub normals: bool,
}

/// The scene of one mesh. `images` holds the image URIs, `textures[i]` the
/// image of texture `i` and `materials[i]` the base colour texture of
/// material `i`; the mesh is drawn by `primitives`.
#[derive(Clone, Debug)]
pub struct MeshScene {
    pub buffers: Vec<SceneBuffer>,
    pub buffer_views: Vec<BufferView>,
    pub accessors: Vec<Accessor>,
    pub images: Vec<String>,
    pub textures: Vec<u32>,
    pub materials: Vec<u32>,
    pub primitives: Vec<Primitive>,
}

/// Bytes taken by one vertex: a position, a normal and texture coordinates,
/// eight 32-bit floats.
pub const VERTEX_STRIDE: u32 = 32;

/// The standard base64 alphabet.
pub open spec fn base64_char(v: int) -> char {
    if v < 26 {
        (65 + v) as char
    } else if v < 52 {
        (71 + v) as char
    } else if v < 62 {
        (v - 4) as char
    } else if v == 62 {
        '+'
    } else {
        '/'
    }
}

/// `data` in standard base64: each three bytes become four characters, and
/// a last group of one or two bytes is padded with `=`.
pub open spec fn base64(data: Seq<u8>) -> Seq<char>
    decreases data.len(),
{
    if data.len() == 0 {
        seq![]
    } else if data.len() == 1 {
        let a = data[0] as int;
        seq![base64_char(a / 4), base64_char((a % 4) * 16), '=', '=']
    } else if data.len() == 2 {
        let a = data[0] as int;
        let b = data[1] as int;
        seq![base64_char(a / 4), base64_char((a % 4) * 16 + b / 16), base64_char((b % 16) * 4), '=']
    } else {
        let a = data[0] as int;
        let b = data[1] as int;
        let c = data[2] as int;
        seq![
            base64_char(a / 4),
            base64_char((a % 4) * 16 + b / 16),
            base64_char((b % 16) * 4 + c / 64),
            base64_char(c % 64),
        ] + base64(data.subrange(3, data.len() as int))
    }
}

/// Calls `Engine::encode_string` of base64's `general_purpose::STANDARD`
/// engine, which appends `data` in standard base64 with `=` padding.
#[verifier::external_body]
fn push_base64(s: &mut String, data: &[u8])
    ensures
        final(s)@ == old(s)@ + base64(data@),
{
    base64::engine::general_purpose::STANDARD.encode_string(data, s);
}

/// `data` as an octet-stream data URI.
pub open spec fn data_uri(data: Seq<u8>) -> Seq<char> {
    "data:application/octet-stream;base64,"@ + base64(data)
}

/// The data URI of `data`.
pub fn create_data_uri(data: &[u8]) -> (r: String)
    ensures
        r@ == data_uri(data@),
{
    let mut uri = String::new();
    push_str(&mut uri, "data:application/octet-stream;base64,");
    push_base64(&mut uri, data);
    uri
}

/// Byte `i` of `values` laid out least significant byte first.
pub open spec fn le_byte(values: Seq<u32>, i: int) -> u8 {
    ((values[i / 4] as int / pow256(i % 4)) % 256) as u8
}

/// Byte `i` of `values` laid out most significant byte first.
pub open spec fn be_byte(values: Seq<u32>, i: int) -> u8 {
    ((values[i / 4] as int / pow256(3 - i % 4)) % 256) as u8
}

/// 256 to the power `n`, for `n` from 0 to 3.
pub open spec fn pow256(n: int) -> int {
    if n <= 0 {
        1
    } else if n == 1 {
        256
    } else if n == 2 {
        65536
    } else {
        16777216
    }
}

/// The bytes of `values` in one of the two byte orders.
pub open spec fn u32_bytes(values: Seq<u32>, little: bool) -> Seq<u8> {
    Seq::new(
        4 * values.len(),
        |i: int|
            if little {
                le_byte(values, i)
            } else {
                be_byte(values, i)
            },
    )
}

/// Calls `bytemuck::cast_slice` from `u32` values to bytes: the memory of
/// the values, four bytes each in the machine's byte order, which is either
/// order.
#[verifier::external_body]
fn index_bytes(values: &[u32]) -> (r: Vec<u8>)
    ensures
        r@ == u32_bytes(values@, true) || r@ == u32_bytes(values@, false),
{
    let bytes: &[u8] = bytemuck::cast_slice(values);
    bytes.to_vec()
}

/// The texture hashcodes of `strips`, each once, in the order they first
/// occur.
pub open spec fn distinct_textures(strips: Seq<TriStrip>) -> Seq<u32>
    decreases strips.len(),
{
    if strips.len() == 0 {
        seq![]
    } else {
        let prev = distinct_textures(strips.drop_last());
        if prev.contains(strips.last().texture_hash) {
            prev
        } else {
            prev.push(strips.last().texture_hash)
        }
    }
}

/// The image of a texture: the file name that `names` gives it, or the file
/// of its first frame.
pub open spec fn image_uri(names: Map<u32, String>, hash: u32) -> Seq<char> {
    if names.contains_key(hash) {
        names[hash]@
    } else {
        hex8(hash) + "_frame0.png"@
    }
}

/// The view of the vertex buffer, `len` bytes long.
pub open spec fn vertex_view(len: u32) -> BufferView {
    BufferView {
        buffer: 0,
        byte_length: len,
        byte_offset: None,
        byte_stride: Some(VERTEX_STRIDE),
        target: BufferTarget::ArrayBuffer,
    }
}

/// The view of the indices of strip `t` in the index buffer.
pub open spec fn strip_view(t: TriStrip) -> BufferView {
    BufferView {
        buffer: 1,
        byte_length: (t.index_count * 4) as u32,
        byte_offset: Some((t.start_index * 4) as u32),
        byte_stride: None,
        target: BufferTarget::ElementArrayBuffer,
    }
}

/// The accessors of `count` vertices: positions, normals and texture
/// coordinates, at offsets 0, 12 and 24 of each vertex.
pub open spec fn vertex_accessors(count: u32) -> Seq<Accessor> {
    seq![
        Accessor { buffer_view: 0, byte_offset: 0, count, component_type: ComponentType::F32, accessor_type: AccessorType::Vec3 },
        Accessor { buffer_view: 0, byte_offset: 12, count, component_type: ComponentType::F32, accessor_type: AccessorType::Vec3 },
        Accessor { buffer_view: 0, byte_offset: 24, count, component_type: ComponentType::F32, accessor_type: AccessorType::Vec2 },
    ]
}

/// The accessor of the indices of strip `k`, read through view `k + 1`.
pub open spec fn strip_accessor(k: int, t: TriStrip) -> Accessor {
    Accessor {
        buffer_view: (k + 1) as u32,
        byte_offset: 0,
        count: t.index_count,
        component_type: ComponentType::U32,
        accessor_type: AccessorType::Scalar,
    }
}

/// Strips whose byte ranges fit in 32 bits, few enough to be numbered in 32
/// bits after the three vertex accessors.
pub open spec fn strips_fit(strips: Seq<TriStrip>) -> bool {
    &&& strips.len() + 3 <= u32::MAX
    &&& forall|k: int| 0 <= k < strips.len() ==> {
        &&& (#[trigger] strips[k]).index_count * 4 <= u32::MAX
        &&& strips[k].start_index * 4 <= u32::MAX
    }
}

proof fn lemma_distinct_step(strips: Seq<TriStrip>, k: int)
    requires
        0 <= k < strips.len(),
    ensures
        distinct_textures(strips.take(k + 1)) == (if distinct_textures(strips.take(k)).contains(strips[k].texture_hash) {
            distinct_textures(strips.take(k))
        } else {
            distinct_textures(strips.take(k)).push(strips[k].texture_hash)
        }),
{
    assert(strips.take(k + 1).drop_last() =~= strips.take(k));
}

proof fn lemma_distinct_facts(strips: Seq<TriStrip>)
    ensures
        distinct_textures(strips).no_duplicates(),
        distinct_textures(strips).len() <= strips.len(),
        forall|k: int| 0 <= k < strips.len() ==> distinct_textures(strips).contains(#[trigger] strips[k].texture_hash),
        forall|h: u32| distinct_textures(strips).contains(h) ==> exists|k: int| 0 <= k < strips.len() && #[trigger] strips[k].texture_hash == h,
    decreases strips.len(),
{
    if strips.len() > 0 {
        let prev = strips.drop_last();
        lemma_distinct_facts(prev);
        let d = distinct_textures(prev);
        assert forall|k: int| 0 <= k < strips.len() implies distinct_textures(strips).contains(#[trigger] strips[k].texture_hash) by {
            if k < strips.len() - 1 {
                assert(prev[k] == strips[k]);
                assert(d.contains(prev[k].texture_hash));
                let i = choose|i: int| 0 <= i < d.len() && d[i] == prev[k].texture_hash;
                if !d.contains(strips.last().texture_hash) {
                    assert(d.push(strips.last().texture_hash)[i] == d[i]);
                }
            } else if !d.contains(strips.last().texture_hash) {
                assert(d.push(strips.last().texture_hash)[d.len() as int] == strips.last().texture_hash);
            }
        }
        assert forall|h: u32| distinct_textures(strips).contains(h) implies exists|k: int| 0 <= k < strips.len() && #[trigger] strips[k].texture_hash == h by {
            if d.contains(h) {
                let k = choose|k: int| 0 <= k < prev.len() && #[trigger] prev[k].texture_hash == h;
                assert(strips[k] == prev[k]);
            } else {
                let i = choose|i: int| 0 <= i < distinct_textures(strips).len() && distinct_textures(strips)[i] == h;
                assert(i == d.len());
                assert(strips[strips.len() - 1].texture_hash == h);
            }
        }
    }
}

/// The images, textures and materials made for the distinct textures `d`,
/// and the map from each texture's hashcode to its material.
spec fn materials_made(
    images: Seq<String>,
    textures: Seq<u32>,
    materials: Seq<u32>,
    map: Map<u32, u32>,
    d: Seq<u32>,
    names: Map<u32, String>,
) -> bool {
    &&& images.len() == d.len()
    &&& forall|i: int| 0 <= i < d.len() ==> #[trigger] images[i]@ == image_uri(names, d[i])
    &&& textures == Seq::new(d.len(), |i: int| i as u32)
    &&& materials == Seq::new(d.len(), |i: int| i as u32)
    &&& forall|h: u32| #[trigger] map.contains_key(h) <==> d.contains(h)
    &&& forall|i: int| 0 <= i < d.len() ==> #[trigger] map[d[i]] == i
}

/// The primitives of the first `k` strips, drawing with the materials of the
/// distinct textures `d`.
spec fn primitives_made(prims: Seq<Primitive>, strips: Seq<TriStrip>, k: int, d: Seq<u32>, normals: bool) -> bool {
    &&& prims.len() == k
    &&& forall|j: int| #![trigger prims[j]] 0 <= j < k ==> {
        &&& prims[j].indices == j + 3
        &&& prims[j].normals == normals
        &&& prims[j].material < d.len()
        &&& d[prims[j].material as int] == strips[j].texture_hash
    }
}

/// The material of the texture `hash`, made with its image and texture the
/// first time the texture is seen.
fn material_of(
    hash: u32,
    names: &HashMap<u32, String>,
    images: &mut Vec<String>,
    textures: &mut Vec<u32>,
    materials: &mut Vec<u32>,
    map: &mut HashMap<u32, u32>,
    Ghost(d): Ghost<Seq<u32>>,
) -> (m: u32)
    requires
        materials_made(old(images)@, old(textures)@, old(materials)@, old(map)@, d, names@),
        d.len() < u32::MAX,
    ensures
        ({
            let d1 = if d.contains(hash) { d } else { d.push(hash) };
            &&& materials_made(final(images)@, final(textures)@, final(materials)@, final(map)@, d1, names@)
            &&& m < d1.len()
            &&& d1[m as int] == hash
        }),
{
    if !map.contains_key(&hash) {
        let uri = match names.get(&hash) {
            Some(name) => name.clone(),
            None => {
                let mut s = String::new();
                push_hex8(&mut s, hash);
                push_str(&mut s, "_frame0.png");
                s
            },
        };
        images.push(uri);
        textures.push((images.len() - 1) as u32);
        materials.push((textures.len() - 1) as u32);
        let material_index = (materials.len() - 1) as u32;
        map.insert(hash, material_index);
        proof {
            let d1 = d.push(hash);
            assert(textures@ =~= Seq::new(d1.len(), |i: int| i as u32));
            assert(materials@ =~= Seq::new(d1.len(), |i: int| i as u32));
            assert forall|i: int| 0 <= i < d1.len() implies #[trigger] map@[d1[i]] == i by {
                if i < d.len() {
                    assert(d1[i] == d[i]);
                    assert(d.contains(d[i]));
                }
            }
            assert forall|h: u32| #[trigger] map@.contains_key(h) <==> d1.contains(h) by {
                if d1.contains(h) && h != hash {
                    let i = choose|i: int| 0 <= i < d1.len() && d1[i] == h;
                    assert(d[i] == h);
                }
                if d.contains(h) {
                    let i = choose|i: int| 0 <= i < d.len() && d[i] == h;
                    assert(d1[i] == h);
                }
                if h == hash {
                    assert(d1[d.len() as int] == h);
                }
            }
            assert forall|i: int| 0 <= i < d1.len() implies #[trigger] images@[i]@ == image_uri(names@, d1[i]) by {
                if i < d.len() {
                    assert(d1[i] == d[i]);
                }
            }
        }
        material_index
    } else {
        let m = match map.get(&hash) {
            Some(m) => *m,
            None => 0,
        };
        proof {
            let i = choose|i: int| 0 <= i < d.len() && d[i] == hash;
            assert(map@[d[i]] == i);
        }
        m
    }
}

proof fn lemma_primitives_grow(prev: Seq<Primitive>, strips: Seq<TriStrip>, k: int, d0: Seq<u32>, p: Primitive, normals: bool)
    requires
        primitives_made(prev, strips, k, d0, normals),
        0 <= k < strips.len(),
        p.indices == k + 3,
        p.normals == normals,
        ({
            let h = strips[k].texture_hash;
            let d1 = if d0.contains(h) { d0 } else { d0.push(h) };
            p.material < d1.len() && d1[p.material as int] == h
        }),
    ensures
        primitives_made(
            prev.push(p),
            strips,
            k + 1,
            if d0.contains(strips[k].texture_hash) { d0 } else { d0.push(strips[k].texture_hash) },
            normals,
        ),
{
    let h = strips[k].texture_hash;
    let d1 = if d0.contains(h) { d0 } else { d0.push(h) };
    let ps = prev.push(p);
    assert forall|j: int| #![trigger ps[j]] 0 <= j < k + 1 implies {
        &&& ps[j].indices == j + 3
        &&& ps[j].normals == normals
        &&& ps[j].material < d1.len()
        &&& d1[ps[j].material as int] == strips[j].texture_hash
    } by {
        if j < k {
            assert(ps[j] == prev[j]);
            if !d0.contains(h) {
                assert(d1[prev[j].material as int] == d0[prev[j].material as int]);
            }
        }
    }
}

/// The scene of one mesh, as the glTF exporter writes it. `vertex_data` holds
/// the vertices, `VERTEX_STRIDE` bytes each, and `texture_map` the image file
/// names of the textures.
#[verifier::rlimit(30)]
pub fn dump_single_mesh_to_scene(
    vertex_data: &[u8],
    indices: &[u32],
    strips: &[TriStrip],
    use_normals: bool,
    texture_map: &HashMap<u32, String>,
) -> (r: MeshScene)
    requires
        strips_fit(strips@),
    ensures
        r.buffers@.len() == 2,
        r.buffers@[0].byte_length == vertex_data@.len() as u32,
        r.buffers@[0].uri@ == data_uri(vertex_data@),
        r.buffers@[1].byte_length == (4 * indices@.len()) as u32,
        r.buffers@[1].uri@ == data_uri(u32_bytes(indices@, true))
            || r.buffers@[1].uri@ == data_uri(u32_bytes(indices@, false)),
        r.buffer_views@ == seq![vertex_view(vertex_data@.len() as u32)] + strips@.map_values(|t: TriStrip| strip_view(t)),
        r.accessors@ == vertex_accessors((vertex_data@.len() / 32) as u32) + Seq::new(
            strips@.len(),
            |k: int| strip_accessor(k, strips@[k]),
        ),
        distinct_textures(strips@).no_duplicates(),
        r.images@.len() == distinct_textures(strips@).len(),
        forall|i: int| 0 <= i < distinct_textures(strips@).len()
            ==> #[trigger] r.images@[i]@ == image_uri(texture_map@, distinct_textures(strips@)[i]),
        r.textures@ == Seq::new(distinct_textures(strips@).len(), |i: int| i as u32),
        r.materials@ == Seq::new(distinct_textures(strips@).len(), |i: int| i as u32),
        r.primitives@.len() == strips@.len(),
        forall|k: int| #![trigger r.primitives@[k]] 0 <= k < strips@.len() ==> {
            &&& r.primitives@[k].indices == k + 3
            &&& r.primitives@[k].normals == use_normals
            &&& r.primitives@[k].material < distinct_textures(strips@).len()
            &&& distinct_textures(strips@)[r.primitives@[k].material as int] == strips@[k].texture_hash
        },
{
    let idata = index_bytes(indices);
    let vertex_buffer = SceneBuffer { byte_length: vertex_data.len() as u32, uri: create_data_uri(vertex_data) };
    let index_buffer = SceneBuffer { byte_length: idata.len() as u32, uri: create_data_uri(idata.as_slice()) };
    let count = (vertex_data.len() / 32) as u32;
    let mut buffer_views: Vec<BufferView> = Vec::new();
    buffer_views.push(BufferView {
        buffer: 0,
        byte_length: vertex_data.len() as u32,
        byte_offset: None,
        byte_stride: Some(VERTEX_STRIDE),
        target: BufferTarget::ArrayBuffer,
    });
    let mut accessors: Vec<Accessor> = Vec::new();
    accessors.push(Accessor { buffer_view: 0, byte_offset: 0, count, component_type: ComponentType::F32, accessor_type: AccessorType::Vec3 });
    accessors.push(Accessor { buffer_view: 0, byte_offset: 12, count, component_type: ComponentType::F32, accessor_type: AccessorType::Vec3 });
    accessors.push(Accessor { buffer_view: 0, byte_offset: 24, count, component_type: ComponentType::F32, accessor_type: AccessorType::Vec2 });
    let mut images: Vec<String> = Vec::new();
    let mut textures: Vec<u32> = Vec::new();
    let mut materials: Vec<u32> = Vec::new();
    let mut primitives: Vec<Primitive> = Vec::new();
    let mut material_map: HashMap<u32, u32> = HashMap::new();
    proof {
        lemma_distinct_facts(strips@);
        assert(strips@.take(0) =~= Seq::<TriStrip>::empty());
        assert(textures@ =~= Seq::new(0, |i: int| i as u32));
    }
    let mut k: usize = 0;
    while k < strips.len()
        invariant
            strips_fit(strips@),
            k <= strips@.len(),
            distinct_textures(strips@.take(k as int)).len() <= k,
            materials_made(images@, textures@, materials@, material_map@, distinct_textures(strips@.take(k as int)), texture_map@),
            primitives_made(primitives@, strips@, k as int, distinct_textures(strips@.take(k as int)), use_normals),
            buffer_views@ == seq![vertex_view(vertex_data@.len() as u32)] + strips@.take(k as int).map_values(|t: TriStrip| strip_view(t)),
            accessors@ == vertex_accessors(count) + Seq::new(k as nat, |j: int| strip_accessor(j, strips@[j])),
        decreases strips.len() - k,
    {
        let t = strips[k];
        let ghost d0 = distinct_textures(strips@.take(k as int));
        proof {
            lemma_distinct_step(strips@, k as int);
        }
        let material_id = material_of(
            t.texture_hash,
            texture_map,
            &mut images,
            &mut textures,
            &mut materials,
            &mut material_map,
            Ghost(d0),
        );
        buffer_views.push(BufferView {
            buffer: 1,
            byte_length: t.index_count * 4,
            byte_offset: Some(t.start_index * 4),
            byte_stride: None,
            target: BufferTarget::ElementArrayBuffer,
        });
        accessors.push(Accessor {
            buffer_view: (buffer_views.len() - 1) as u32,
            byte_offset: 0,
            count: t.index_count,
            component_type: ComponentType::U32,
            accessor_type: AccessorType::Scalar,
        });
        let ghost prev = primitives@;
        primitives.push(Primitive {
            indices: (accessors.len() - 1) as u32,
            material: material_id,
            normals: use_normals,
        });
        proof {
            lemma_primitives_grow(prev, strips@, k as int, d0, primitives@.last(), use_normals);
            assert(strips@.take(k + 1).map_values(|t: TriStrip| strip_view(t)) =~= strips@.take(k as int).map_values(
                |t: TriStrip| strip_view(t),
            ).push(strip_view(t)));
            assert(Seq::new((k + 1) as nat, |j: int| strip_accessor(j, strips@[j])) =~= Seq::new(
                k as nat,
                |j: int| strip_accessor(j, strips@[j]),
            ).push(strip_accessor(k as int, t)));
        }
        k = k + 1;
    }
    proof {
        assert(strips@.take(strips@.len() as int) =~= strips@);
    }
    let mut buffers: Vec<SceneBuffer> = Vec::new();
    buffers.push(vertex_buffer);
    buffers.push(index_buffer);
    MeshScene { buffers, buffer_views, accessors, images, textures, materials, primitives }
}

} // verus!
