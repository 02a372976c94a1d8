use eurochef::script::{command_data, read_commands, thread_count, AnimScriptCommand, UXGeoScriptCommand, UXGeoScriptCommandData};
use eurochef::bytes::Endian;
use eurochef::spreadsheets::{SpreadsheetError, UXGeoDataSheet, UXGeoSpreadsheet, UXGeoTextItem, UXGeoTextSection};
use eurochef::textures::{UXGeoTexture, UXTextureDiagnostics};

fn command(thread: u8, data: UXGeoScriptCommandData) -> UXGeoScriptCommand {
    UXGeoScriptCommand { start: 0, length: 1, thread, parent_thread: 0, data }
}

#[test]
fn script_command_meanings() {
    let mut data = vec![0u8; 12];
    data[4..8].copy_from_slice(&[0, 0, 0, 7]);
    data[8..12].copy_from_slice(&[1, 0, 0, 2]);
    match command_data(3, data.clone(), Endian::Big) {
        UXGeoScriptCommandData::Entity { hashcode, file } => {
            assert_eq!(hashcode, 0x0100_0002);
            assert_eq!(file, 7);
        }
        other => panic!("unexpected {other:?}"),
    }
    match command_data(6, data.clone(), Endian::Little) {
        UXGeoScriptCommandData::Particle { hashcode, file } => {
            assert_eq!(hashcode, 0x0200_0001);
            assert_eq!(file, 0x0700_0000);
        }
        other => panic!("unexpected {other:?}"),
    }
    match command_data(4, data.clone(), Endian::Big) {
        UXGeoScriptCommandData::SubScript { hashcode, file } => assert_eq!((hashcode, file), (0x0100_0002, 7)),
        other => panic!("unexpected {other:?}"),
    }
    let mut sound = vec![0u8; 24];
    sound[20..24].copy_from_slice(&[0xaa, 0xbb, 0xcc, 0xdd]);
    match command_data(5, sound, Endian::Big) {
        UXGeoScriptCommandData::Sound { hashcode } => assert_eq!(hashcode, 0xaabb_ccdd),
        other => panic!("unexpected {other:?}"),
    }
    match command_data(11, vec![1, 2, 3, 4], Endian::Little) {
        UXGeoScriptCommandData::EventType { event_type } => assert_eq!(event_type, 0x0403_0201),
        other => panic!("unexpected {other:?}"),
    }
    match command_data(0x10, vec![9], Endian::Big) {
        UXGeoScriptCommandData::Unknown { cmd, data } => assert_eq!((cmd, data), (0x10, vec![9])),
        other => panic!("unexpected {other:?}"),
    }
}

#[test]
fn script_commands_in_order() {
    let stored = vec![
        AnimScriptCommand { cmd: 11, start: -2, length: 5, thread: 1, parent_thread: 0, data: vec![0, 0, 0, 9] },
        AnimScriptCommand { cmd: 0x20, start: 4, length: 1, thread: 2, parent_thread: 1, data: vec![] },
    ];
    let commands = read_commands(stored, Endian::Big);
    assert_eq!(commands.len(), 2);
    assert_eq!(commands[0].range(), -2..3);
    assert_eq!(commands[1].range(), 4..5);
    assert_eq!(commands[1].parent_thread, 1);
    assert!(matches!(commands[0].data, UXGeoScriptCommandData::EventType { event_type: 9 }));
}

#[test]
fn timeline_threads() {
    assert_eq!(thread_count(&[]), 0);
    let hidden = UXGeoScriptCommandData::Unknown { cmd: 0x11, data: vec![] };
    let shown = UXGeoScriptCommandData::Unknown { cmd: 0x13, data: vec![] };
    assert_eq!(thread_count(&[command(5, hidden.clone())]), 0);
    assert_eq!(thread_count(&[command(5, shown.clone()), command(2, hidden.clone())]), 6);
    assert_eq!(thread_count(&[command(0xff, shown.clone())]), 0);
    assert_eq!(thread_count(&[command(0x80, shown.clone())]), -127);
    assert_eq!(thread_count(&[command(1, UXGeoScriptCommandData::Sound { hashcode: 1 }), command(3, shown)]), 4);
}

fn sheet() -> UXGeoSpreadsheet {
    UXGeoSpreadsheet::Text(vec![
        UXGeoTextSection { hashcode: 0x10, entries: vec![UXGeoTextItem { hashcode: 1, text: "Hi \"you\"\nthere".to_string(), sound_hashcode: 0xffff_ffff }] },
        UXGeoTextSection {
            hashcode: 0x20,
            entries: vec![
                UXGeoTextItem { hashcode: 2, text: "a".to_string(), sound_hashcode: 3 },
                UXGeoTextItem { hashcode: 4, text: "b".to_string(), sound_hashcode: 5 },
            ],
        },
        UXGeoTextSection { hashcode: 0x20, entries: vec![] },
    ])
}

#[test]
fn csv_export_escapes_text() {
    let csv = sheet().export_text_to_csv(0x10).unwrap();
    assert_eq!(csv, "section,hashcode,sound_hashcode,text\n00000010,00000001,ffffffff,\"Hi \"\"you\"\"\\nthere\"\n");
}

#[test]
fn csv_export_takes_the_first_section() {
    let csv = sheet().export_text_to_csv(0x20).unwrap();
    assert_eq!(csv, "section,hashcode,sound_hashcode,text\n00000020,00000002,00000003,\"a\"\n00000020,00000004,00000005,\"b\"\n");
    assert_eq!(csv.matches('\n').count(), 3);
}

#[test]
fn csv_export_errors() {
    assert_eq!(sheet().export_text_to_csv(0x30), Err(SpreadsheetError::SectionNotFound));
    let data = UXGeoSpreadsheet::Data(vec![UXGeoDataSheet { row_count: 1, address: 0x100 }]);
    assert_eq!(data.export_text_to_csv(0x10), Err(SpreadsheetError::NotText));
}

fn texture(frames: Vec<Vec<u8>>) -> UXGeoTexture {
    UXGeoTexture {
        width: 1,
        height: 1,
        depth: 1,
        format_internal: 0,
        flags: 0,
        game_flags: 0,
        scroll: [0, 0],
        framerate: 0,
        frame_count: frames.len() as u8,
        frames,
        color: [0; 4],
        external_texture: None,
        diagnostics: UXTextureDiagnostics::empty(),
    }
}

#[test]
fn texture_diagnostics() {
    let mut t = texture(vec![]);
    t.calculate_diagnostics();
    assert_eq!(t.diagnostics.to_strings(), vec!["Texture has no frames"]);
    assert!(t.diagnostics.contains(UXTextureDiagnostics::no_frames()));
    let mut t = texture(vec![vec![0, 0, 0, 0]]);
    t.diagnostics = UXTextureDiagnostics::mismatching_average();
    t.calculate_diagnostics();
    assert!(t.diagnostics.to_strings().is_empty());
    let mut d = UXTextureDiagnostics::default();
    d.insert(UXTextureDiagnostics::no_frames());
    d.insert(UXTextureDiagnostics::mismatching_average());
    assert_eq!(d.bits(), 3);
    assert_eq!(d.to_strings(), vec!["Texture data does not match color average", "Texture has no frames"]);
}

#[test]
fn texture_validity() {
    let mut t = texture(vec![]);
    assert!(t.is_valid());
    t.flags = u32::MAX;
    assert!(!t.is_valid());
    t.flags = 0;
    t.game_flags = u16::MAX;
    assert!(!t.is_valid());
}
