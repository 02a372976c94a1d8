use eurochef::filelist::{
    data_file_path, drive_relative, extracted_length, filename_entry, filename_pointers, has_drive, info_padding, packed_kind,
    plain_file_hashcode, replace_separator, scr_file_paths, sfx_hashcode, virtual_path, DataLayout, PackedKind,
};

#[test]
fn packed_kinds() {
    assert_eq!(packed_kind("x:\\LEVEL.EDB"), PackedKind::Edb);
    assert_eq!(packed_kind("a.Sfx"), PackedKind::Sfx);
    assert_eq!(packed_kind("a.txt"), PackedKind::Other);
    assert_eq!(packed_kind("edb"), PackedKind::Other);
    assert_eq!(plain_file_hashcode(5), 0x8100_0005);
    assert_eq!(sfx_hashcode(0x12), 0x2100_0012);
}

#[test]
fn aligned_layout() {
    let mut l = DataLayout::new(true);
    assert_eq!(l.place(100, 0x8000_0000), (0, 0));
    assert_eq!(l.position, 2048);
    assert_eq!(l.place(5000, 0x8000_0000), (0, 2048));
    assert_eq!(l.position, 8192);
    assert_eq!(l.place(1000, 8192), (1, 0));
    assert_eq!(l.position, 2048);
    let mut big = DataLayout::new(true);
    assert_eq!(big.place(200, 100), (1, 0));
}

#[test]
fn plain_layout() {
    let mut l = DataLayout::new(false);
    assert_eq!(l.place(100, 150), (0, 0));
    assert_eq!(l.place(60, 150), (1, 0));
    assert_eq!(l.place(90, 150), (1, 60));
    assert_eq!(l.position, 150);
}

#[test]
fn filename_table() {
    assert_eq!(filename_pointers(0x30, &[3, 5]), vec![8, 8]);
    assert_eq!(filename_pointers(0x30, &[3, 5, 0]), vec![12, 12, 14]);
    assert!(filename_pointers(0x30, &[]).is_empty());
    assert_eq!(filename_entry("X:\\A.edb", true), b"x:\\a.edb\0".to_vec());
    assert_eq!(filename_entry("X:\\A.edb", false), b"X:\\A.edb\0".to_vec());
    assert_eq!(filename_entry("Ä", true), vec![0xc3, 0xa4, 0]);
}

#[test]
fn padding_and_names() {
    assert_eq!(info_padding(0), 0);
    assert_eq!(info_padding(33), 31);
    assert_eq!(info_padding(64), 0);
    assert_eq!(data_file_path("Filelist.", 0), "Filelist.000");
    assert_eq!(data_file_path("Filelist.", 12), "Filelist.012");
    assert_eq!(data_file_path("Filelist.", 1234), "Filelist.1234");
    assert_eq!(extracted_length(0x4745_4f4d, 10, 20), 20);
    assert_eq!(extracted_length(1, 10, 20), 10);
}

#[test]
fn scr_scripts() {
    let text = "[Options]\nfoo.edb\n[FileList]\n  x:\\a.edb  \nab\n\n[Other]\nx:\\b.edb\n[FileList]\r\nx:\\c.sfx\r\n";
    // A section header seen inside the file list is listed before it closes the list.
    assert_eq!(scr_file_paths(text), vec!["x:\\a.edb".to_string(), "[Other]".to_string(), "x:\\c.sfx".to_string()]);
    assert!(scr_file_paths("").is_empty());
}

#[test]
fn drive_paths() {
    assert!(has_drive("x:\\a"));
    assert!(!has_drive("xy\\a"));
    assert!(!has_drive("é:\\a"));
    assert!(!has_drive("x:"));
    assert_eq!(drive_relative("x:\\dir\\a.edb"), "dir\\a.edb");
    assert_eq!(virtual_path('x', "dir/a.edb"), "x:\\dir\\a.edb");
    assert_eq!(replace_separator("a\\b\\c", '\\', '/'), "a/b/c");
}
