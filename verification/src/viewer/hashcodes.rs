//! The viewer's hashcode tables. The viewer reads only `#define` lines that
//! hold exactly a name and a value.
use std::collections::HashMap;
use vstd::prelude::*;

use crate::hashcodes::{hashcode_table, names_view, read_table, table_fails, table_panics};
use crate::text::lines;

verus! {

/// The table of hashcode names that the `#define NAME VALUE` lines of
/// `string` give; lines with more words are skipped.
pub fn parse_hashcodes(string: &str) -> (r: HashMap<u32, String>)
    requires
        !table_panics(lines(string@), true),
    ensures
        names_view(r@) == hashcode_table(lines(string@), true),
{
    read_table(string, true)
}

/// As `parse_hashcodes`, or `None` where a value would make it panic.
pub fn try_parse_hashcodes(string: &str) -> (r: Option<HashMap<u32, String>>)
    ensures
        r is None <==> table_panics(lines(string@), true),
        r matches Some(m) ==> names_view(m@) == hashcode_table(lines(string@), true),
{
    if table_fails(string, true) {
        None
    } else {
        Some(parse_hashcodes(string))
    }
}

} // verus!
