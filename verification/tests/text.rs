use eurochef::text::{
    chars_end_with, chars_of, chars_start_with, lines_of, push_decimal, push_hex, push_hex8, string_from_chars,
    trim_chars, utf8_width_of, white_space, words_of,
};
use eurochef::texture::bcn::{bc_fits, BcFormat};
use eurochef::texture::gx::read_be16;
use eurochef::texture::{copy_bytes, pixel_count, output_size_fits, rounded_bytes};

fn rows(v: Vec<Vec<char>>) -> Vec<String> {
    v.into_iter().map(|r| r.into_iter().collect()).collect()
}

#[test]
fn numbers_in_decimal_and_hex() {
    let mut s = String::from("v=");
    push_decimal(&mut s, 0);
    push_str_sep(&mut s);
    push_decimal(&mut s, 4294967295);
    push_str_sep(&mut s);
    push_hex(&mut s, 0xbeef);
    push_str_sep(&mut s);
    push_hex8(&mut s, 0xab);
    assert_eq!(s, "v=0,4294967295,beef,000000ab");
}

fn push_str_sep(s: &mut String) {
    s.push(',');
}

#[test]
fn words_and_lines_split_like_std() {
    let text = "  #define  HT_A\t0x10 \r\nsecond line\n\nlast";
    let cs = chars_of(text);
    assert_eq!(rows(words_of(&cs)), text.split_whitespace().map(|w| w.to_string()).collect::<Vec<_>>());
    assert_eq!(rows(lines_of(&cs)), text.lines().map(|w| w.to_string()).collect::<Vec<_>>());
    let trailing = chars_of("a\n");
    assert_eq!(rows(lines_of(&trailing)), vec!["a".to_string()]);
}

#[test]
fn trimming_and_affixes() {
    let cs = chars_of("\u{3000} [FileList]\t ");
    assert_eq!(trim_chars(&cs, cs.len()), "[FileList]");
    assert_eq!(trim_chars(&cs, 3), "[");
    let name = chars_of("HT_File_HASHCODE_BASE");
    assert!(chars_end_with(&name, 0, name.len(), &chars_of("_HASHCODE_BASE")));
    assert!(!chars_end_with(&name, 0, 10, &chars_of("_HASHCODE_BASE")));
    assert!(chars_start_with(&name, 0, name.len(), &chars_of("HT_")));
    assert!(!chars_start_with(&name, 1, name.len(), &chars_of("HT_")));
    assert_eq!(string_from_chars(&name, 3, 7), "File");
    assert!(white_space('\u{85}'));
    assert!(!white_space('x'));
    assert_eq!(utf8_width_of('a'), 1);
    assert_eq!(utf8_width_of('é'), 2);
    assert_eq!(utf8_width_of('€'), 3);
    assert_eq!(utf8_width_of('🦀'), 4);
}

#[test]
fn texture_size_helpers() {
    assert_eq!(pixel_count(4, 3, 2), 24);
    assert_eq!(rounded_bytes(3, 4), 2);
    assert_eq!(rounded_bytes(16, 32), 64);
    assert!(output_size_fits(1024, 1024, 1));
    assert!(!output_size_fits(u32::MAX, u32::MAX, u32::MAX));
    assert!(bc_fits(BcFormat::Bc1, 5, 5, 32));
    assert!(!bc_fits(BcFormat::Bc1, 5, 5, 31));
    assert!(bc_fits(BcFormat::Bc3, 4, 4, 16));
    assert!(!bc_fits(BcFormat::Bc2, 4, 4, 15));
    assert_eq!(read_be16(0x12, 0x34), 0x1234);
    assert_eq!(copy_bytes(&[1, 2, 3]), vec![1, 2, 3]);
}
