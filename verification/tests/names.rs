use std::collections::HashMap;

use eurochef::bytes::{u32_from_index, Endian};
use eurochef::hashcodes::{parse_hashcode, parse_hashcodes, try_parse_hashcodes};
use eurochef::maps::{
    default_engine_values, format_hashcode, hashcode_can_be_named, value_label, DefinitionDataType, TriggerDefinition,
    TriggerValue,
};
use std::collections::BTreeMap;
use eurochef::platform::{create_for_platform, Platform, PlatformArg, TextureDecoder};
use eurochef::viewer::hashcodes::parse_hashcodes as parse_viewer_hashcodes;
use eurochef::IdentifiableResult;

fn names() -> HashMap<u32, String> {
    let mut m = HashMap::new();
    m.insert(0x0100_0000, "HT_File_HASHCODE_BASE".to_string());
    m.insert(0x0100_0003, "HT_File_Known".to_string());
    m.insert(0x0300_0000, "Weird".to_string());
    m
}

#[test]
fn hashcode_special_values() {
    let m = names();
    assert_eq!(format_hashcode(&m, u32::MAX), "HT_None");
    assert_eq!(format_hashcode(&m, 0), "HT_Zero");
}

#[test]
fn hashcode_known_and_derived_names() {
    let m = names();
    assert_eq!(format_hashcode(&m, 0x0100_0003), "HT_File_Known");
    assert_eq!(format_hashcode(&m, 0x0100_0005), "HT_File_Unknown_01000005");
    assert_eq!(format_hashcode(&m, 0x8100_0005), "HT_Local_File_81000005");
    assert_eq!(format_hashcode(&m, 0x0200_0001), "HT_Invalid_02000001");
    assert_eq!(format_hashcode(&m, 0x8200_0001), "HT_Local_Invalid_82000001");
    assert_eq!(format_hashcode(&m, 0x0300_0001), "HT_Invalid_Unknown_03000001");
    assert_eq!(format_hashcode(&m, 0x8300_0001), "HT_Local_Invalid_83000001");
}

#[test]
fn hashcode_base_cut_inside_a_character() {
    let mut m = HashMap::new();
    m.insert(0x0400_0000, "é_HASHCODE_BASE".to_string());
    assert!(!hashcode_can_be_named(&m, 0x8400_0001));
    assert!(hashcode_can_be_named(&m, 0x0400_0001));
    assert_eq!(format_hashcode(&m, 0x0400_0001), "é_Unknown_04000001");
    assert!(hashcode_can_be_named(&names(), 0x8100_0005));
}

#[test]
fn trigger_value_texts() {
    let m = names();
    assert_eq!(DefinitionDataType::U32.to_string(&m, 9999), Some("9999".to_string()));
    assert_eq!(DefinitionDataType::U32.to_string(&m, 10000), Some("0x2710".to_string()));
    assert_eq!(DefinitionDataType::Unknown32.to_string(&m, 5), Some("5 (0x5)".to_string()));
    assert_eq!(DefinitionDataType::Unknown32.to_string(&m, 3), Some("3 (0x3)".to_string()));
    assert_eq!(DefinitionDataType::Unknown32.to_string(&m, u32::MAX), Some("-1 (0xffffffff)".to_string()));
    assert_eq!(DefinitionDataType::Unknown32.to_string(&m, 0xffff_d8f2), Some("-9998 (0xffffd8f2)".to_string()));
    assert_eq!(DefinitionDataType::Unknown32.to_string(&m, 0x0100_0003), Some("HT_File_Known (0x1000003)".to_string()));
    assert_eq!(DefinitionDataType::Unknown32.to_string(&m, 20000), None);
    assert_eq!(DefinitionDataType::Float.to_string(&m, 0x3f80_0000), None);
    assert_eq!(DefinitionDataType::Hashcode.to_string(&m, 0), Some("HT_Zero".to_string()));
}

#[test]
fn trigger_values_and_defaults() {
    assert_eq!(DefinitionDataType::Float.size(), 4);
    assert_eq!(DefinitionDataType::default(), DefinitionDataType::Unknown32);
    let v = TriggerValue::new(Some("Speed"), DefinitionDataType::Float);
    assert_eq!(v.name, Some("Speed".to_string()));
    assert_eq!(v.dtype, DefinitionDataType::Float);
    assert_eq!(TriggerValue::new(None, DefinitionDataType::U32).name, None);
    let d = default_engine_values();
    assert_eq!(d.len(), 5);
    assert_eq!(d[&0].name.as_deref(), Some("Visual Object"));
    assert_eq!(d[&0].dtype, DefinitionDataType::Hashcode);
    assert_eq!(d[&1].name.as_deref(), Some("File"));
    assert_eq!(d[&2].name.as_deref(), Some("GameScript Index"));
    assert_eq!(d[&3].name.as_deref(), Some("Collision Index"));
    assert_eq!(d[&4].name.as_deref(), Some("Trigger Color"));
    assert_eq!(d[&4].dtype, DefinitionDataType::U32);
}

const HEADER: &str = "#define HT_File_Foo 0x10\n#define HT_Two 2 trailing\r\n#define bad zz\nnot a define\n#define HT_File_Bar 0x10\n  #define X 1\n#define Y\n#define HT_Bin 0b101\n#define HT_Oct 0o17\n#define HT_Big 1_000\n";

#[test]
fn hashcode_header_lines() {
    let m = parse_hashcodes(HEADER);
    assert_eq!(m.len(), 5);
    assert_eq!(m[&0x10], "HT_File_Bar");
    assert_eq!(m[&2], "HT_Two");
    assert_eq!(m[&5], "HT_Bin");
    assert_eq!(m[&15], "HT_Oct");
    assert_eq!(m[&1000], "HT_Big");
    assert!(!m.contains_key(&0x11));
}

#[test]
fn viewer_hashcode_lines_hold_three_words() {
    let m = parse_viewer_hashcodes(HEADER);
    assert_eq!(m.len(), 4);
    assert!(!m.contains_key(&2));
    assert_eq!(m[&0x10], "HT_File_Bar");
}

#[test]
fn hashcode_single_lines() {
    assert_eq!(parse_hashcode("#define HT_A 0x20", false), Some((0x20, "HT_A".to_string())));
    assert_eq!(parse_hashcode("#define HT_A 0x20 x", true), None);
    assert_eq!(parse_hashcode("#define HT_A", false), None);
    assert_eq!(parse_hashcode("#define HT_A _5", false), None);
    assert_eq!(parse_hashcode("define HT_A 5", false), None);
}

#[test]
fn hashcode_negative_values() {
    assert!(try_parse_hashcodes("#define N -5\n").is_none());
    assert_eq!(try_parse_hashcodes("#define N --5\n").map(|m| m.len()), Some(0));
    assert_eq!(try_parse_hashcodes("#define N -x\n#define M 3\n").map(|m| m.len()), Some(1));
}

#[test]
fn integers_from_bytes() {
    let data = [1u8, 2, 3, 4, 5];
    assert_eq!(u32_from_index(&data, Endian::Big, 1), 0x0203_0405);
    assert_eq!(u32_from_index(&data, Endian::Little, 1), 0x0504_0302);
}

#[test]
fn platforms() {
    assert!(matches!(create_for_platform(Platform::Wii), TextureDecoder::Gx(_)));
    assert!(matches!(create_for_platform(Platform::GameCube), TextureDecoder::Gx(_)));
    assert!(matches!(create_for_platform(Platform::Pc), TextureDecoder::Pc(_)));
    assert!(matches!(create_for_platform(Platform::Xbox), TextureDecoder::Xbox(_)));
    assert!(matches!(create_for_platform(Platform::Xbox360), TextureDecoder::Xenon(_)));
    assert!(matches!(create_for_platform(Platform::Ps2), TextureDecoder::Ps2(_)));
    assert_eq!(Platform::Ps2.endianness(), Endian::Little);
    assert_eq!(Platform::Wii.endianness(), Endian::Big);
    assert_eq!(Platform::from(PlatformArg::Gamecube), Platform::GameCube);
    assert_eq!(Platform::from(PlatformArg::WiiU), Platform::WiiU);
}

#[test]
fn identifiable_results() {
    let ok: IdentifiableResult<u32> = IdentifiableResult::new(7, Ok(3));
    assert_eq!(ok.hashcode, 7);
    assert_eq!(ok.data, Ok(3));
    let err: IdentifiableResult<u32> = IdentifiableResult::new(8, Err("broken".to_string()));
    let copy = err.clone();
    assert_eq!(copy.hashcode, 8);
    assert_eq!(copy.data, Err("broken".to_string()));
}

#[test]
fn trigger_value_labels() {
    let mut values = BTreeMap::new();
    values.insert(0u32, TriggerValue::new(Some("Speed"), DefinitionDataType::Float));
    values.insert(2u32, TriggerValue::new(None, DefinitionDataType::U32));
    let mut triggers = BTreeMap::new();
    triggers.insert(7u32, TriggerDefinition { name: "Mover".to_string(), icon: None, values });

    let (label, dtype) = value_label(&triggers, 7, 0);
    assert_eq!(label, "Speed");
    assert_eq!(dtype, DefinitionDataType::Float);
    let (label, dtype) = value_label(&triggers, 7, 2);
    assert_eq!(label, "#2 ");
    assert_eq!(dtype, DefinitionDataType::U32);
    let (label, dtype) = value_label(&triggers, 7, 1);
    assert_eq!(label, "#1 ");
    assert_eq!(dtype, DefinitionDataType::Unknown32);
    let (label, dtype) = value_label(&triggers, 8, 0);
    assert_eq!(label, "#0 ");
    assert_eq!(dtype, DefinitionDataType::Unknown32);
}
