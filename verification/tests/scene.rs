use eurochef::gltf_export::{
    create_data_uri, dump_single_mesh_to_scene, AccessorType, BufferTarget, ComponentType, TriStrip,
};
use std::collections::HashMap;

#[test]
fn data_uri_pads_with_equals() {
    assert_eq!(create_data_uri(b"hello"), "data:application/octet-stream;base64,aGVsbG8=");
    assert_eq!(create_data_uri(b"hi"), "data:application/octet-stream;base64,aGk=");
    assert_eq!(create_data_uri(b"abc"), "data:application/octet-stream;base64,YWJj");
    assert_eq!(create_data_uri(&[0xfb, 0xff]), "data:application/octet-stream;base64,+/8=");
    assert_eq!(create_data_uri(&[]), "data:application/octet-stream;base64,");
}

#[test]
fn one_material_per_distinct_texture() {
    let strips = vec![
        TriStrip { start_index: 0, index_count: 3, texture_hash: 0x10 },
        TriStrip { start_index: 3, index_count: 6, texture_hash: 0x20 },
        TriStrip { start_index: 9, index_count: 3, texture_hash: 0x10 },
    ];
    let mut names = HashMap::new();
    names.insert(0x20u32, "wall.png".to_string());
    let vertices = vec![0u8; 64];
    let indices: Vec<u32> = (0..12).collect();
    let scene = dump_single_mesh_to_scene(&vertices, &indices, &strips, true, &names);

    assert_eq!(scene.images, vec!["00000010_frame0.png".to_string(), "wall.png".to_string()]);
    assert_eq!(scene.textures, vec![0, 1]);
    assert_eq!(scene.materials, vec![0, 1]);
    let materials: Vec<u32> = scene.primitives.iter().map(|p| p.material).collect();
    assert_eq!(materials, vec![0, 1, 0]);
    let accessors: Vec<u32> = scene.primitives.iter().map(|p| p.indices).collect();
    assert_eq!(accessors, vec![3, 4, 5]);
    assert!(scene.primitives.iter().all(|p| p.normals));

    assert_eq!(scene.buffers.len(), 2);
    assert_eq!(scene.buffers[0].byte_length, 64);
    assert_eq!(scene.buffers[1].byte_length, 48);
    assert!(scene.buffers[1].uri.starts_with("data:application/octet-stream;base64,AAAAAAEAAAACAAAA"));

    assert_eq!(scene.buffer_views.len(), 4);
    assert_eq!(scene.buffer_views[0].byte_stride, Some(32));
    assert_eq!(scene.buffer_views[0].target, BufferTarget::ArrayBuffer);
    assert_eq!(scene.buffer_views[2].buffer, 1);
    assert_eq!(scene.buffer_views[2].byte_length, 24);
    assert_eq!(scene.buffer_views[2].byte_offset, Some(12));
    assert_eq!(scene.buffer_views[2].target, BufferTarget::ElementArrayBuffer);

    assert_eq!(scene.accessors.len(), 6);
    assert_eq!(scene.accessors[0].count, 2);
    assert_eq!(scene.accessors[1].byte_offset, 12);
    assert_eq!(scene.accessors[2].accessor_type, AccessorType::Vec2);
    assert_eq!(scene.accessors[5].buffer_view, 3);
    assert_eq!(scene.accessors[5].count, 3);
    assert_eq!(scene.accessors[5].component_type, ComponentType::U32);
}
