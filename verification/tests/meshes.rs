use eurochef::entities::{
    assemble_entity, collect_meshes, EntityError, EntityMesh, EntityTree,
    assemble_strips, gx_strip, ps2_strip, read_gx_groups, resolve_ps2_texture, resolve_texture, EntityTriStrip, GxIndex,
    StripSource, TriStrip,
};

fn strip(tricount: u32, texture_index: i32, trans_type: u16) -> EntityTriStrip {
    EntityTriStrip { tricount, texture_index, min_index: 0, num_indices: 0, flags: 0, trans_type }
}

fn source(convert_strips: bool, remove_transparent: bool) -> StripSource {
    StripSource {
        new_indices: (0u32..12).collect(),
        vertex_offset: 100,
        mesh_flags: 0,
        textures: vec![],
        remove_transparent,
        convert_strips,
    }
}

#[test]
fn strip_textures() {
    assert_eq!(resolve_texture(1, 2, &[10, 20, 30]), 30);
    assert_eq!(resolve_texture(1, 5, &[10, 20, 30]), -1);
    assert_eq!(resolve_texture(0, 5, &[10, 20, 30]), 5);
    assert_eq!(resolve_ps2_texture(1, 1, &[10, 20]), 20);
    assert_eq!(resolve_ps2_texture(1, 2, &[10, 20]), -1);
    assert_eq!(resolve_ps2_texture(0, 2, &[10, 20]), 2);
}

#[test]
fn strips_turned_into_triangles() {
    let mut indices = vec![];
    let mut strips = vec![];
    assemble_strips(&source(true, false), &[strip(2, 3, 0), strip(1, 4, 1)], &mut indices, &mut strips);
    assert_eq!(indices, vec![102, 101, 100, 101, 102, 103, 106, 105, 104]);
    assert_eq!(strips.len(), 2);
    assert_eq!((strips[0].start_index, strips[0].index_count, strips[0].texture_index, strips[0].tri_count), (0, 6, 3, 2));
    assert_eq!((strips[1].start_index, strips[1].index_count, strips[1].transparency), (6, 3, 1));
}

#[test]
fn strips_kept_as_strips() {
    let mut indices = vec![7u32];
    let mut strips = vec![];
    assemble_strips(&source(false, false), &[strip(2, 3, 0), strip(1, 4, 0)], &mut indices, &mut strips);
    assert_eq!(indices, vec![7, 100, 101, 102, 103, 104, 105, 106]);
    assert_eq!((strips[0].start_index, strips[0].index_count), (1, 4));
    assert_eq!((strips[1].start_index, strips[1].index_count), (5, 3));
}

#[test]
fn transparent_strips_left_out_and_empty_strip_ends() {
    let mut indices = vec![];
    let mut strips = vec![];
    assemble_strips(&source(false, true), &[strip(1, 0, 2), strip(1, 1, 0), strip(0, 0, 0), strip(1, 2, 0)], &mut indices, &mut strips);
    assert_eq!(indices, vec![103, 104, 105]);
    assert_eq!(strips.len(), 1);
    assert_eq!(strips[0].texture_index, 1);
}

#[test]
fn draw_ranges_follow_one_another() {
    let mut indices = vec![1u32, 2];
    let mut strips: Vec<TriStrip> = vec![];
    assemble_strips(&source(true, false), &[strip(1, 0, 0), strip(2, 0, 0), strip(3, 0, 0)], &mut indices, &mut strips);
    let mut next = 2;
    for s in &strips {
        assert_eq!(s.start_index, next);
        next += s.index_count;
    }
    assert_eq!(next as usize, indices.len());
}

#[test]
fn ps2_strip_restarts() {
    let mut indices = vec![];
    let t = ps2_strip(&mut indices, 10, &[0x0001, 0x5002, 0x0003], 4, 7);
    assert_eq!(indices, vec![10, 10, 11, 11, 12]);
    assert_eq!((t.start_index, t.index_count, t.tri_count, t.texture_index), (10, 5, 3, 7));
}

#[test]
fn gx_draw_commands() {
    let values = [0x98, 1, 1, 2, 3, 4, 0x98, 2, 5, 6, 7, 8, 9, 10, 11, 12, 0, 0];
    let groups = read_gx_groups(&values);
    assert_eq!(groups.len(), 2);
    assert_eq!(groups[0], vec![GxIndex { pos: 1, unk0: 2, color: 3, uv: 4 }]);
    assert_eq!(groups[1][1], GxIndex { pos: 9, unk0: 10, color: 11, uv: 12 });
    let mut new_indices = vec![0u32; 7];
    let t = gx_strip(&mut new_indices, &groups, 50, 40, 10, 3, 1, 2);
    assert_eq!(&new_indices[7..], &[10, 10, 11, 11, 12]);
    assert_eq!((t.tricount, t.min_index, t.num_indices, t.texture_index, t.flags, t.trans_type), (3, 7, 5, 3, 1, 2));
}

#[test]
fn gx_draw_commands_end_at_other_values() {
    let groups = read_gx_groups(&[0x90, 3]);
    assert!(groups.is_empty());
    assert!(read_gx_groups(&[]).is_empty());
}

#[test]
fn entity_meshes_in_pre_order() {
    let tree = EntityTree::Split(vec![
        EntityTree::Mesh(1u32),
        EntityTree::Split(vec![EntityTree::Mesh(2), EntityTree::Mesh(3)]),
        EntityTree::Mesh(4),
    ]);
    let mut out = vec![];
    assert_eq!(collect_meshes(&tree, 3, &mut out), Ok(()));
    assert_eq!(out.into_iter().copied().collect::<Vec<_>>(), vec![1, 2, 3, 4]);

    // With two levels the meshes of the inner split are out of reach.
    let mut out = vec![];
    assert_eq!(collect_meshes(&tree, 2, &mut out), Err(EntityError::RecursionLimit));
    assert_eq!(out.into_iter().copied().collect::<Vec<_>>(), vec![1]);

    let mut out = vec![];
    assert_eq!(collect_meshes(&EntityTree::Mesh(9u32), 0, &mut out), Err(EntityError::RecursionLimit));
    assert!(out.is_empty());
}

fn mesh(vertex_count: u32) -> EntityMesh {
    EntityMesh {
        vertex_count,
        new_indices: vec![0, 1, 2],
        mesh_flags: 0,
        textures: vec![],
        tristrips: vec![strip(1, 5, 0)],
    }
}

#[test]
fn entity_strips_follow_the_vertices_of_earlier_meshes() {
    let tree = EntityTree::Split(vec![EntityTree::Mesh(mesh(3)), EntityTree::Mesh(mesh(4))]);
    let mut indices = vec![];
    let mut strips = vec![];
    assert_eq!(assemble_entity(&tree, 2, false, false, 10, &mut indices, &mut strips), Ok(17));
    assert_eq!(indices, vec![10, 11, 12, 13, 14, 15]);
    assert_eq!(strips.len(), 2);
    assert_eq!((strips[1].start_index, strips[1].index_count, strips[1].texture_index), (3, 3, 5));

    let deep = EntityTree::Split(vec![EntityTree::Mesh(mesh(3)), EntityTree::Split(vec![EntityTree::Mesh(mesh(4))])]);
    let mut indices = vec![];
    let mut strips = vec![];
    assert_eq!(assemble_entity(&deep, 2, false, false, 0, &mut indices, &mut strips), Err(EntityError::RecursionLimit));
    assert_eq!(indices, vec![0, 1, 2]);
    assert_eq!(strips.len(), 1);
}
