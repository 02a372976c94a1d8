//! Packing files into filelists: where each file's data goes, the
//! identifiers of files without a header, and the filename table.
use vstd::prelude::*;

use crate::text::{
    char_rows, chars_end_with, chars_of, chars_start_with, dec_string, ends_with, lemma_utf8_len_take_le,
    lemma_utf8_len_take_step, lines, lines_of, push_char, push_decimal, starts_with, string_from_chars,
    trim_chars, trimmed, utf8_len, utf8_width_of, lowercase, str_lowercase,
};

verus! {

/// `c` with ASCII letters lowercased (`char::to_ascii_lowercase`).
pub open spec fn ascii_lower(c: char) -> char {
    if 'A' <= c && c <= 'Z' {
        ((c as u32) + 32) as char
    } else {
        c
    }
}

/// What a packed file is, by its name's extension in any case.
#[derive(Debug, Clone, Copy, PartialEq, Eq, Structural)]
pub enum PackedKind {
    /// A `.edb` file: its header gives its hashcode, version and flags.
    Edb,
    /// A `.sfx` file: its header gives its hashcode and version.
    Sfx,
    /// Any other file.
    Other,
}

/// The kind of the file at virtual path `vpath`.
pub open spec fn packed_kind_of(vpath: Seq<char>) -> PackedKind {
    let lower = vpath.map_values(|c: char| ascii_lower(c));
    if ends_with(lower, ".edb"@) {
        PackedKind::Edb
    } else if ends_with(lower, ".sfx"@) {
        PackedKind::Sfx
    } else {
        PackedKind::Other
    }
}

fn lower_ascii(c: char) -> (r: char)
    ensures
        r == ascii_lower(c),
{
    if 'A' <= c && c <= 'Z' {
        ((c as u8) + 32) as char
    } else {
        c
    }
}

/// The kind of the file at virtual path `vpath`.
pub fn packed_kind(vpath: &str) -> (r: PackedKind)
    ensures
        r == packed_kind_of(vpath@),
{
    let cs = chars_of(vpath);
    let mut lower: Vec<char> = Vec::new();
    let mut i: usize = 0;
    while i < cs.len()
        invariant
            cs@ == vpath@,
            i <= cs@.len(),
            lower@ == cs@.take(i as int).map_values(|c: char| ascii_lower(c)),
        decreases cs.len() - i,
    {
        lower.push(lower_ascii(cs[i]));
        assert(lower@ =~= cs@.take(i + 1).map_values(|c: char| ascii_lower(c)));
        i = i + 1;
    }
    assert(cs@.take(cs.len() as int) =~= cs@);
    let n = lower.len();
    assert(lower@.subrange(0, n as int) =~= lower@);
    if chars_end_with(&lower, 0, n, &chars_of(".edb")) {
        PackedKind::Edb
    } else if chars_end_with(&lower, 0, n, &chars_of(".sfx")) {
        PackedKind::Sfx
    } else {
        PackedKind::Other
    }
}

/// The hashcode of packed file number `i` that has no header: the
/// file-hashcode type with the file's number.
pub fn plain_file_hashcode(i: usize) -> (r: u32)
    ensures
        r == 0x8100_0000u32 | (i as u32),
{
    0x8100_0000u32 | (i as u32)
}

/// The hashcode of a sound file whose header holds `raw`.
pub fn sfx_hashcode(raw: u32) -> (r: u32)
    ensures
        r == raw | 0x2100_0000u32,
{
    raw | 0x2100_0000u32
}

/// `p` rounded up to a multiple of 2048.
pub open spec fn align_2048(p: int) -> int {
    if p % 2048 != 0 {
        p + (2048 - p % 2048)
    } else {
        p
    }
}

/// Where packed data goes: the data file being filled and the position in
/// it. With `aligned`, every file's data starts at a multiple of 2048.
#[derive(Debug, Clone, Copy, PartialEq, Eq, Structural)]
pub struct DataLayout {
    pub filelist_num: u32,
    pub position: u64,
    pub aligned: bool,
}

/// Where a file of `len` bytes goes, and the layout after it: a file that
/// would take the data file past `split_size` starts the next data file.
/// Gives the data file's number, the file's address in it, and the layout.
pub open spec fn placed(layout: DataLayout, len: int, split_size: int) -> (u32, int, DataLayout) {
    let new_file = layout.position + len > split_size;
    let num = if new_file { (layout.filelist_num + 1) as u32 } else { layout.filelist_num };
    let addr = if new_file { 0 } else { layout.position as int };
    let end = addr + len;
    let next = if layout.aligned { align_2048(end) } else { end };
    (num, addr, DataLayout { filelist_num: num, position: next as u64, aligned: layout.aligned })
}

impl DataLayout {
    /// An empty first data file.
    pub fn new(aligned: bool) -> (r: Self)
        ensures
            r == (DataLayout { filelist_num: 0, position: 0, aligned }),
    {
        DataLayout { filelist_num: 0, position: 0, aligned }
    }

    /// Places a file of `len` bytes; gives its data file's number and its
    /// address in that file.
    pub fn place(&mut self, len: u64, split_size: u32) -> (r: (u32, u64))
        requires
            old(self).position + len + 2048 <= u64::MAX,
            old(self).position + len > split_size ==> old(self).filelist_num < u32::MAX,
        ensures
            ({
                let (num, addr, next) = placed(*old(self), len as int, split_size as int);
                r == (num, addr as u64) && *final(self) == next
            }),
    {
        if self.position + len > split_size as u64 {
            self.filelist_num = self.filelist_num + 1;
            self.position = 0;
        }
        let addr = self.position;
        let end = addr + len;
        if self.aligned && end % 2048 != 0 {
            self.position = end + (2048 - end % 2048);
        } else {
            self.position = end;
        }
        (self.filelist_num, addr)
    }
}

/// Aligned packing keeps every file at a multiple of 2048, and a file's
/// data ends before the next one starts.
pub proof fn law_layout_aligned(layout: DataLayout, len: int, split_size: int)
    requires
        layout.aligned,
        layout.position % 2048 == 0,
        len >= 0,
        layout.position + len + 2048 <= u64::MAX,
    ensures
        ({
            let (num, addr, next) = placed(layout, len, split_size);
            &&& addr % 2048 == 0
            &&& next.position % 2048 == 0
            &&& next.position >= addr + len
        }),
{
}

/// A file takes its data file past the split size only when it starts the
/// data file, that is, when it is larger than the split size by itself.
pub proof fn law_layout_within_split(layout: DataLayout, len: int, split_size: int)
    requires
        len >= 0,
    ensures
        ({
            let (num, addr, next) = placed(layout, len, split_size);
            addr + len > split_size ==> addr == 0
        }),
{
}

/// The offset of filename `i` in the filename data: the names are stored
/// one after another, each with a NUL after it.
pub open spec fn name_offset(lens: Seq<u64>, i: int) -> int
    decreases i,
{
    if i <= 0 {
        0
    } else {
        name_offset(lens, i - 1) + lens[i - 1] + 1
    }
}

/// The filename table: for each file, the distance from its table entry to
/// its name. The table starts at `table_offset` and the names follow it.
pub fn filename_pointers(table_offset: u64, name_lens: &[u64]) -> (r: Vec<u32>)
    requires
        table_offset + 4 * name_lens@.len() + name_offset(name_lens@, name_lens@.len() as int) <= u64::MAX,
    ensures
        r@.len() == name_lens@.len(),
        forall|i: int|
            0 <= i < r@.len() ==> #[trigger] r@[i] == (table_offset + 4 * name_lens@.len() + name_offset(name_lens@, i) - (
            table_offset + 4 * i)) as u32,
{
    let n = name_lens.len();
    proof {
        lemma_name_offset_monotone(name_lens@, n as int);
    }
    let data_offset = table_offset + (n as u64) * 4;
    let mut offset = data_offset;
    let mut r: Vec<u32> = Vec::new();
    let mut i: usize = 0;
    while i < n
        invariant
            n == name_lens@.len(),
            data_offset == table_offset + 4 * n,
            table_offset + 4 * n + name_offset(name_lens@, n as int) <= u64::MAX,
            forall|j: int| 0 <= j <= n ==> name_offset(name_lens@, j) <= name_offset(name_lens@, n as int),
            forall|j: int| 0 <= j <= n ==> name_offset(name_lens@, j) >= 0,
            i <= n,
            offset == data_offset + name_offset(name_lens@, i as int),
            r@.len() == i,
            forall|j: int|
                0 <= j < i ==> #[trigger] r@[j] == (table_offset + 4 * n + name_offset(name_lens@, j) - (table_offset
                    + 4 * j)) as u32,
        decreases n - i,
    {
        assert(name_offset(name_lens@, i + 1) == name_offset(name_lens@, i as int) + name_lens@[i as int] + 1);
        let ptr_offset = table_offset + i as u64 * 4;
        r.push((offset - ptr_offset) as u32);
        offset = offset + name_lens[i] + 1;
        i = i + 1;
    }
    r
}

proof fn lemma_name_offset_monotone(lens: Seq<u64>, n: int)
    requires
        n >= 0,
    ensures
        forall|j: int| 0 <= j <= n ==> name_offset(lens, j) <= name_offset(lens, n),
        forall|j: int| 0 <= j <= n ==> name_offset(lens, j) >= 0,
    decreases n,
{
    if n > 0 {
        lemma_name_offset_monotone(lens, n - 1);
        assert(name_offset(lens, n) == name_offset(lens, n - 1) + lens[n - 1] + 1);
    }
}

/// The zero bytes that pad a file of `size` bytes to a multiple of 32.
pub fn info_padding(size: u64) -> (r: u64)
    ensures
        r == (if size % 32 != 0 { 32 - size % 32 } else { 0 }),
        (size + r) % 32 == 0,
{
    if size & 0x1f != 0 {
        assert(size & 0x1f == size % 32) by (bit_vector);
        32 - (size % 32)
    } else {
        assert(size & 0x1f == size % 32) by (bit_vector);
        0
    }
}

/// The name of data file `i` of a filelist: the base name and the number in
/// at least three decimal digits.
pub open spec fn data_file_name(base: Seq<char>, i: u32) -> Seq<char> {
    let digits = dec_string(i);
    let pad = if digits.len() < 3 { Seq::new((3 - digits.len()) as nat, |k: int| '0') } else { seq![] };
    base + pad + digits
}

proof fn lemma_dec_string_len(v: u32)
    ensures
        dec_string(v).len() >= 1,
        v < 10 ==> dec_string(v).len() == 1,
        10 <= v < 100 ==> dec_string(v).len() == 2,
        v >= 100 ==> dec_string(v).len() >= 3,
    decreases v,
{
    if v >= 10 {
        lemma_dec_string_len(v / 10);
    }
}

/// The name of data file `i` of the filelist `base` (`{base}{i:03}`).
pub fn data_file_path(base: &str, i: u32) -> (r: String)
    ensures
        r@ == data_file_name(base@, i),
{
    let mut s = base.to_owned();
    proof {
        lemma_dec_string_len(i);
    }
    if i < 10 {
        push_char(&mut s, '0');
        push_char(&mut s, '0');
    } else if i < 100 {
        push_char(&mut s, '0');
    }
    let ghost before = s@;
    push_decimal(&mut s, i);
    proof {
        let digits = dec_string(i);
        let pad = if digits.len() < 3 { Seq::new((3 - digits.len()) as nat, |k: int| '0') } else { seq![] };
        assert(before =~= base@ + pad);
    }
    s
}

/// The bytes to extract of a packed file: a `GEOM` file says its size in
/// its header; any other takes the length the filelist gives.
pub fn extracted_length(magic: u32, listed_length: u32, geo_size: u32) -> (r: u32)
    ensures
        r == (if magic == 0x4745_4F4D { geo_size } else { listed_length }),
{
    if magic == 0x4745_4F4D {
        geo_size
    } else {
        listed_length
    }
}

} // verus!

verus! {

/// Reading the lines of an SCR script: the paths listed so far and whether
/// the `[FileList]` section is open. In that section every trimmed line of
/// more than three bytes is a path; any other `[...]` line closes it.
pub open spec fn scr_scan(ls: Seq<Seq<char>>) -> (Seq<Seq<char>>, bool)
    decreases ls.len(),
{
    if ls.len() == 0 {
        (seq![], false)
    } else {
        let (paths, open) = scr_scan(ls.drop_last());
        let line = trimmed(ls.last());
        let paths1 = if open && utf8_len(line) > 3 { paths.push(line) } else { paths };
        let open1 = if line == "[FileList]"@ {
            true
        } else if starts_with(line, "["@) {
            false
        } else {
            open
        };
        (paths1, open1)
    }
}

/// The paths that an SCR script lists, in order.
pub open spec fn scr_paths(text: Seq<char>) -> Seq<Seq<char>> {
    scr_scan(lines(text)).0
}

/// Whether `cs` takes more than three bytes in UTF-8.
fn more_than_three_bytes(cs: &Vec<char>) -> (r: bool)
    ensures
        r == (utf8_len(cs@) > 3),
{
    let mut acc: u32 = 0;
    let mut i: usize = 0;
    assert(cs@.take(0) =~= Seq::<char>::empty());
    while i < cs.len()
        invariant
            i <= cs@.len(),
            acc == utf8_len(cs@.take(i as int)),
            acc <= 3,
        decreases cs.len() - i,
    {
        proof {
            lemma_utf8_len_take_step(cs@, i as int);
        }
        acc = acc + utf8_width_of(cs[i]);
        if acc > 3 {
            proof {
                lemma_utf8_len_take_le(cs@, i + 1);
            }
            return true;
        }
        i = i + 1;
    }
    assert(cs@.take(cs.len() as int) =~= cs@);
    false
}

/// Whether `cs` equals `other`.
fn chars_equal(cs: &Vec<char>, other: &Vec<char>) -> (r: bool)
    ensures
        r == (cs@ == other@),
{
    let n = cs.len();
    assert(cs@.subrange(0, n as int) =~= cs@);
    if other.len() != n {
        return false;
    }
    let r = chars_start_with(cs, 0, n, other);
    proof {
        if r {
            assert(cs@ =~= other@);
        }
    }
    r
}

/// The paths that the `[FileList]` section of an SCR script lists.
pub fn scr_file_paths(text: &str) -> (r: Vec<String>)
    ensures
        r@.map_values(|p: String| p@) == scr_paths(text@),
{
    let cs = chars_of(text);
    let rows = lines_of(&cs);
    let ghost ls = lines(text@);
    let header = chars_of("[FileList]");
    let bracket = chars_of("[");
    let mut result: Vec<String> = Vec::new();
    let mut in_section = false;
    let mut i: usize = 0;
    assert(ls.take(0) =~= Seq::<Seq<char>>::empty());
    while i < rows.len()
        invariant
            char_rows(rows@) == ls,
            ls == lines(text@),
            header@ == "[FileList]"@,
            bracket@ == "["@,
            i <= rows@.len(),
            (result@.map_values(|p: String| p@), in_section) == scr_scan(ls.take(i as int)),
        decreases rows.len() - i,
    {
        let row = &rows[i];
        let line = trim_chars(row, row.len());
        assert(row@.take(row@.len() as int) =~= row@);
        assert(row@ == ls[i as int]);
        assert(ls.take(i + 1).drop_last() =~= ls.take(i as int));
        let lc = chars_of(line.as_str());
        let long = more_than_three_bytes(&lc);
        let n = lc.len();
        assert(lc@.subrange(0, n as int) =~= lc@);
        let is_header = chars_equal(&lc, &header);
        let opens_section = chars_start_with(&lc, 0, n, &bracket);
        let ghost before = result@.map_values(|p: String| p@);
        if in_section && long {
            result.push(line);
            assert(result@.map_values(|p: String| p@) =~= before.push(lc@));
        }
        if is_header {
            in_section = true;
        } else if opens_section {
            in_section = false;
        }
        i = i + 1;
    }
    assert(ls.take(rows.len() as int) =~= ls);
    result
}

/// Whether a path of an SCR script starts with a drive: an ASCII letter,
/// `:` and a backslash. Reading any other path fails.
pub open spec fn is_drive_path(s: Seq<char>) -> bool {
    s.len() >= 3 && (s[0] as u32) < 0x80 && s[1] == ':' && s[2] == '\\'
}

/// Whether `s` starts with a drive (see `is_drive_path`).
pub fn has_drive(s: &str) -> (r: bool)
    ensures
        r == is_drive_path(s@),
{
    let cs = chars_of(s);
    cs.len() >= 3 && (cs[0] as u32) < 0x80 && cs[1] == ':' && cs[2] == '\\'
}

/// The part of a drive path after the drive.
pub fn drive_relative(s: &str) -> (r: String)
    requires
        is_drive_path(s@),
    ensures
        r@ == s@.skip(3),
{
    let cs = chars_of(s);
    let r = string_from_chars(&cs, 3, cs.len());
    assert(r@ =~= s@.skip(3));
    r
}

/// `s` with every `from` replaced by `to`.
pub open spec fn with_separator(s: Seq<char>, from: char, to: char) -> Seq<char> {
    s.map_values(|c: char| if c == from { to } else { c })
}

/// `s` with every `from` replaced by `to`, as paths change separators.
pub fn replace_separator(s: &str, from: char, to: char) -> (r: String)
    ensures
        r@ == with_separator(s@, from, to),
{
    let cs = chars_of(s);
    let mut r = String::new();
    let mut i: usize = 0;
    while i < cs.len()
        invariant
            cs@ == s@,
            i <= cs@.len(),
            r@ == with_separator(cs@.take(i as int), from, to),
        decreases cs.len() - i,
    {
        let c = cs[i];
        push_char(&mut r, if c == from { to } else { c });
        assert(r@ =~= with_separator(cs@.take(i + 1), from, to));
        i = i + 1;
    }
    assert(cs@.take(cs.len() as int) =~= cs@);
    r
}

/// The path a packed file is listed under: the drive letter, `:\`, and its
/// path relative to the packed folder with backslashes.
pub fn virtual_path(drive_letter: char, relative: &str) -> (r: String)
    ensures
        r@ == seq![drive_letter, ':', '\\'] + with_separator(relative@, '/', '\\'),
{
    let mut r = String::new();
    push_char(&mut r, drive_letter);
    push_char(&mut r, ':');
    push_char(&mut r, '\\');
    let rest = replace_separator(relative, '/', '\\');
    let ghost before = r@;
    let rc = chars_of(rest.as_str());
    crate::text::push_chars(&mut r, &rc, 0, rc.len());
    assert(rc@.subrange(0, rc@.len() as int) =~= rc@);
    assert(before =~= seq![drive_letter, ':', '\\']);
    r
}

} // verus!

verus! {

/// The bytes a filename is stored as in the filename data: its UTF-8 form,
/// lowercased where `lower` is set, and a NUL.
pub open spec fn filename_entry_bytes(name: Seq<char>, lower: bool) -> Seq<u8> {
    let chars = if lower { str_lowercase(name) } else { name };
    vstd::utf8::encode_utf8(chars).push(0u8)
}

fn bytes_of(s: &str) -> (r: Vec<u8>)
    ensures
        r@ == vstd::utf8::encode_utf8(s@),
{
    let b = s.as_bytes();
    let mut r: Vec<u8> = Vec::new();
    let mut i: usize = 0;
    while i < b.len()
        invariant
            b@ == vstd::utf8::encode_utf8(s@),
            i <= b@.len(),
            r@ == b@.take(i as int),
        decreases b.len() - i,
    {
        r.push(b[i]);
        assert(r@ =~= b@.take(i + 1));
        i = i + 1;
    }
    assert(b@.take(b@.len() as int) =~= b@);
    r
}

/// The bytes a filename is stored as in the filename data.
pub fn filename_entry(name: &str, lower: bool) -> (r: Vec<u8>)
    ensures
        r@ == filename_entry_bytes(name@, lower),
{
    let mut r = if lower {
        let l = lowercase(name);
        bytes_of(l.as_str())
    } else {
        bytes_of(name)
    };
    r.push(0);
    r
}

} // verus!
