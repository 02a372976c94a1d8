//! Spreadsheets: text sections of localised strings and data sheets, and
//! the CSV form that a text section is exported in.
use std::collections::HashMap;
use vstd::prelude::*;

use crate::maps::DefinitionDataType;
use crate::text::{hex8, push_char, push_hex8, push_str};

verus! {

/// A spreadsheet: data sheets or text sections.
#[derive(Clone, Debug)]
pub enum UXGeoSpreadsheet {
    Data(Vec<UXGeoDataSheet>),
    Text(Vec<UXGeoTextSection>),
}

/// A data sheet: its number of rows and where its row data starts.
#[derive(Clone, Copy, Debug)]
pub struct UXGeoDataSheet {
    pub row_count: u32,
    /// Absolute location of the row data.
    pub address: u32,
}

/// A section of text items.
#[derive(Clone, Debug)]
pub struct UXGeoTextSection {
    pub hashcode: u32,
    pub entries: Vec<UXGeoTextItem>,
}

/// A text item, with the sound that goes with it.
#[derive(Clone, Debug)]
pub struct UXGeoTextItem {
    pub hashcode: u32,
    pub text: String,
    pub sound_hashcode: u32,
}

/// The spreadsheets of a file, by hashcode.
#[derive(Clone, Debug)]
pub struct SpreadsheetFileDefinition(pub HashMap<u32, SpreadsheetDefinition>);

/// The sheets of a spreadsheet, by index.
#[derive(Clone, Debug)]
pub struct SpreadsheetDefinition(pub HashMap<usize, DataSheetDefinition>);

/// The layout of a data sheet's rows.
#[derive(Clone, Debug)]
pub struct DataSheetDefinition {
    pub row_size: usize,
    pub columns: Vec<DataSheetColumn>,
}

/// A column of a data sheet.
#[derive(Clone, Debug)]
pub struct DataSheetColumn {
    pub name: Option<String>,
    pub dtype: DefinitionDataType,
}

/// Why a text section could not be exported.
#[derive(Debug, Clone, Copy, PartialEq, Eq, Structural)]
pub enum SpreadsheetError {
    /// The spreadsheet holds data sheets, not text.
    NotText,
    /// No section has the hashcode asked for.
    SectionNotFound,
}

/// A text as a CSV field holds it: quotes doubled and line breaks written
/// as `\n`.
pub open spec fn csv_escaped(t: Seq<char>) -> Seq<char>
    decreases t.len(),
{
    if t.len() == 0 {
        seq![]
    } else {
        let c = t.last();
        let tail = if c == '"' {
            seq!['"', '"']
        } else if c == '\n' {
            seq!['\\', 'n']
        } else {
            seq![c]
        };
        csv_escaped(t.drop_last()) + tail
    }
}

/// The first line of an exported section.
pub open spec fn csv_header() -> Seq<char> {
    "section,hashcode,sound_hashcode,text\n"@
}

/// The CSV line of one item of section `section`.
pub open spec fn csv_row(section: u32, item: UXGeoTextItem) -> Seq<char> {
    hex8(section) + ","@ + hex8(item.hashcode) + ","@ + hex8(item.sound_hashcode) + ",\""@ + csv_escaped(
        item.text@,
    ) + "\"\n"@
}

/// The CSV lines of the items, in order.
pub open spec fn csv_rows(section: u32, items: Seq<UXGeoTextItem>) -> Seq<char>
    decreases items.len(),
{
    if items.len() == 0 {
        seq![]
    } else {
        csv_rows(section, items.drop_last()) + csv_row(section, items.last())
    }
}

/// The CSV export of a section.
pub open spec fn section_csv(section: UXGeoTextSection) -> Seq<char> {
    csv_header() + csv_rows(section.hashcode, section.entries@)
}

/// The index of the first section with hashcode `hc`.
pub open spec fn first_section(sections: Seq<UXGeoTextSection>, hc: u32) -> Option<int> {
    if exists|i: int| 0 <= i < sections.len() && (#[trigger] sections[i]).hashcode == hc {
        Some(
            choose|i: int|
                0 <= i < sections.len() && (#[trigger] sections[i]).hashcode == hc && forall|j: int|
                    0 <= j < i ==> (#[trigger] sections[j]).hashcode != hc,
        )
    } else {
        None
    }
}

/// What exporting section `hc` of a spreadsheet gives.
pub open spec fn csv_export(sheet: UXGeoSpreadsheet, hc: u32) -> Result<Seq<char>, SpreadsheetError> {
    match sheet {
        UXGeoSpreadsheet::Data(_) => Err(SpreadsheetError::NotText),
        UXGeoSpreadsheet::Text(sections) => match first_section(sections@, hc) {
            Some(i) => Ok(section_csv(sections@[i])),
            None => Err(SpreadsheetError::SectionNotFound),
        },
    }
}

fn push_escaped(s: &mut String, t: &String)
    ensures
        final(s)@ == old(s)@ + csv_escaped(t@),
{
    let ghost start = s@;
    let cs = crate::text::chars_of(t.as_str());
    let mut i: usize = 0;
    while i < cs.len()
        invariant
            cs@ == t@,
            i <= cs@.len(),
            s@ == start + csv_escaped(cs@.take(i as int)),
        decreases cs.len() - i,
    {
        let c = cs[i];
        assert(cs@.take(i + 1).drop_last() =~= cs@.take(i as int));
        if c == '"' {
            push_char(s, '"');
            push_char(s, '"');
        } else if c == '\n' {
            push_char(s, '\\');
            push_char(s, 'n');
        } else {
            push_char(s, c);
        }
        assert(s@ =~= start + csv_escaped(cs@.take(i + 1)));
        i = i + 1;
    }
    assert(cs@.take(cs.len() as int) =~= cs@);
}

fn section_to_csv(section: &UXGeoTextSection) -> (r: String)
    ensures
        r@ == section_csv(*section),
{
    let mut s = String::new();
    push_str(&mut s, "section,hashcode,sound_hashcode,text\n");
    let items = &section.entries;
    let mut i: usize = 0;
    assert(s@ =~= csv_header() + csv_rows(section.hashcode, items@.take(0)));
    while i < items.len()
        invariant
            items@ == section.entries@,
            i <= items@.len(),
            s@ == csv_header() + csv_rows(section.hashcode, items@.take(i as int)),
        decreases items.len() - i,
    {
        let item = &items[i];
        let ghost before = s@;
        push_hex8(&mut s, section.hashcode);
        push_str(&mut s, ",");
        push_hex8(&mut s, item.hashcode);
        push_str(&mut s, ",");
        push_hex8(&mut s, item.sound_hashcode);
        push_str(&mut s, ",\"");
        push_escaped(&mut s, &item.text);
        push_str(&mut s, "\"\n");
        assert(items@.take(i + 1).drop_last() =~= items@.take(i as int));
        assert(s@ =~= before + csv_row(section.hashcode, *item));
        i = i + 1;
    }
    assert(items@.take(items.len() as int) =~= items@);
    s
}

impl UXGeoSpreadsheet {
    /// The CSV text of the section with hashcode `section_hashcode`: a
    /// header line, then one line per item with the section's, the item's
    /// and the sound's hashcodes in hexadecimal and the quoted text.
    pub fn export_text_to_csv(&self, section_hashcode: u32) -> (r: Result<String, SpreadsheetError>)
        ensures
            match r {
                Ok(s) => csv_export(*self, section_hashcode) == Ok::<Seq<char>, SpreadsheetError>(s@),
                Err(e) => csv_export(*self, section_hashcode) == Err::<Seq<char>, SpreadsheetError>(e),
            },
    {
        let sections = match self {
            UXGeoSpreadsheet::Data(_) => return Err(SpreadsheetError::NotText),
            UXGeoSpreadsheet::Text(v) => v,
        };
        assert(*self == UXGeoSpreadsheet::Text(*sections));
        let mut i: usize = 0;
        while i < sections.len()
            invariant
                *self == UXGeoSpreadsheet::Text(*sections),
                i <= sections@.len(),
                forall|j: int| 0 <= j < i ==> (#[trigger] sections@[j]).hashcode != section_hashcode,
            decreases sections.len() - i,
        {
            if sections[i].hashcode == section_hashcode {
                let ghost found = first_section(sections@, section_hashcode);
                assert(sections@[i as int].hashcode == section_hashcode);
                assert(exists|k: int|
                    0 <= k < sections@.len() && (#[trigger] sections@[k]).hashcode == section_hashcode
                        && forall|j: int| 0 <= j < k ==> (#[trigger] sections@[j]).hashcode != section_hashcode) by {
                    assert(0 <= i < sections@.len() && sections@[i as int].hashcode == section_hashcode);
                }
                assert(found == Some(i as int)) by {
                    let k = found.unwrap();
                    if k < i {
                        assert(sections@[k].hashcode != section_hashcode);
                    }
                    if k > i {
                        assert(sections@[i as int].hashcode != section_hashcode);
                    }
                }
                let text = section_to_csv(&sections[i]);
                return Ok(text);
            }
            i = i + 1;
        }
        Err(SpreadsheetError::SectionNotFound)
    }
}

} // verus!

verus! {

/// The number of line breaks in `s`.
pub open spec fn newline_count(s: Seq<char>) -> nat
    decreases s.len(),
{
    if s.len() == 0 {
        0
    } else {
        newline_count(s.drop_last()) + if s.last() == '\n' {
            1nat
        } else {
            0nat
        }
    }
}

proof fn lemma_newline_count_concat(a: Seq<char>, b: Seq<char>)
    ensures
        newline_count(a + b) == newline_count(a) + newline_count(b),
    decreases b.len(),
{
    if b.len() > 0 {
        lemma_newline_count_concat(a, b.drop_last());
        assert((a + b).drop_last() =~= a + b.drop_last());
    } else {
        assert(a + b =~= a);
    }
}

proof fn lemma_no_newline(s: Seq<char>)
    requires
        forall|i: int| 0 <= i < s.len() ==> s[i] != '\n',
    ensures
        newline_count(s) == 0,
    decreases s.len(),
{
    if s.len() > 0 {
        lemma_no_newline(s.drop_last());
    }
}

proof fn lemma_escaped_one_line(t: Seq<char>)
    ensures
        newline_count(csv_escaped(t)) == 0,
    decreases t.len(),
{
    if t.len() > 0 {
        lemma_escaped_one_line(t.drop_last());
        let c = t.last();
        let tail = if c == '"' {
            seq!['"', '"']
        } else if c == '\n' {
            seq!['\\', 'n']
        } else {
            seq![c]
        };
        lemma_no_newline(tail);
        lemma_newline_count_concat(csv_escaped(t.drop_last()), tail);
    }
}

proof fn lemma_hex8_one_line(v: u32)
    ensures
        newline_count(hex8(v)) == 0,
{
    assert forall|i: int| 0 <= i < hex8(v).len() implies hex8(v)[i] != '\n' by {
        let n = ((v as int / crate::text::pow16(7 - i)) % 16) as u32;
        assert(n < 16);
    }
    lemma_no_newline(hex8(v));
}

proof fn lemma_row_one_line(section: u32, item: UXGeoTextItem)
    ensures
        newline_count(csv_row(section, item)) == 1,
{
    reveal_strlit(",");
    reveal_strlit(",\"");
    reveal_strlit("\"\n");
    lemma_hex8_one_line(section);
    lemma_hex8_one_line(item.hashcode);
    lemma_hex8_one_line(item.sound_hashcode);
    lemma_escaped_one_line(item.text@);
    lemma_no_newline(","@);
    lemma_no_newline(",\""@);
    assert(newline_count("\"\n"@) == 1) by {
        assert("\"\n"@.drop_last() =~= seq!['"']);
        lemma_no_newline(seq!['"']);
    }
    let a = hex8(section);
    let b = a + ","@;
    let c = b + hex8(item.hashcode);
    let d = c + ","@;
    let e = d + hex8(item.sound_hashcode);
    let f = e + ",\""@;
    let g = f + csv_escaped(item.text@);
    lemma_newline_count_concat(a, ","@);
    lemma_newline_count_concat(b, hex8(item.hashcode));
    lemma_newline_count_concat(c, ","@);
    lemma_newline_count_concat(d, hex8(item.sound_hashcode));
    lemma_newline_count_concat(e, ",\""@);
    lemma_newline_count_concat(f, csv_escaped(item.text@));
    lemma_newline_count_concat(g, "\"\n"@);
}

proof fn lemma_rows_lines(section: u32, items: Seq<UXGeoTextItem>)
    ensures
        newline_count(csv_rows(section, items)) == items.len(),
    decreases items.len(),
{
    if items.len() > 0 {
        lemma_rows_lines(section, items.drop_last());
        lemma_row_one_line(section, items.last());
        lemma_newline_count_concat(csv_rows(section, items.drop_last()), csv_row(section, items.last()));
    }
}

/// An exported section has one line for its header and one for each item,
/// whatever the items' texts hold: quotes and line breaks in a text never
/// end or split its line.
pub proof fn law_csv_one_line_per_item(section: UXGeoTextSection)
    ensures
        newline_count(section_csv(section)) == section.entries@.len() + 1,
{
    reveal_strlit("section,hashcode,sound_hashcode,text\n");
    let h = csv_header();
    assert(h.drop_last().len() == 36);
    lemma_no_newline(h.drop_last());
    lemma_rows_lines(section.hashcode, section.entries@);
    lemma_newline_count_concat(h, csv_rows(section.hashcode, section.entries@));
}

} // verus!
