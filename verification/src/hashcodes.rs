//! Hashcode name tables, read from the `#define NAME VALUE` lines of the
//! game's hashcode headers.
use std::collections::HashMap;
use vstd::prelude::*;

use crate::text::{
    char_rows, chars_of, chars_start_with, is_white_space, lemma_words_are_words, lines,
    lines_of, starts_with, string_from_chars, words, words_of,
};

verus! {

broadcast use vstd::std_specs::hash::group_hash_axioms;

/// What `parse_int::parse::<u32>` gives for a token, `None` for an error.
pub uninterp spec fn parse_int_u32(token: Seq<char>) -> Option<u32>;

/// A token: no white space in it.
pub open spec fn is_token(t: Seq<char>) -> bool {
    forall|j: int| 0 <= j < t.len() ==> !is_white_space(#[trigger] t[j])
}

/// Whether `parse_int::parse::<u32>` panics on the token: after one
/// leading `-` it reads the rest, and where that is a number it multiplies
/// by `0 - 1`, which overflows in `u32`. (A second `-` makes the rest no
/// number, so that is an error and no panic.)
pub open spec fn token_panics(t: Seq<char>) -> bool {
    &&& t.len() > 0
    &&& t[0] == '-'
    &&& !(t.len() > 1 && t[1] == '-')
    &&& parse_int_u32(t.drop_first()) is Some
}

/// Calls `parse_int::parse::<u32>`: a number in decimal, or in hexadecimal,
/// binary or octal after `0x`, `0b` or `0o`, with `_` allowed between
/// digits. Its result is named (`parse_int_u32`), not stated. The tokens on
/// which the call panics are left out (see `token_panics`).
#[verifier::external_body]
fn parse_u32(token: &str) -> (r: Option<u32>)
    requires
        is_token(token@),
        !token_panics(token@),
    ensures
        r == parse_int_u32(token@),
{
    parse_int::parse::<u32>(token).ok()
}

/// The name and the value token of a `#define` line. With `exact`, the line
/// holds these three words and nothing more; without, any words after them
/// are ignored.
pub open spec fn define_words(line: Seq<char>, exact: bool) -> Option<(Seq<char>, Seq<char>)> {
    let ws = words(line);
    if !starts_with(line, "#define"@) {
        None
    } else if (exact && ws.len() != 3) || (!exact && ws.len() < 3) {
        None
    } else {
        Some((ws[1], ws[2]))
    }
}

/// Whether reading this line fails with a panic.
pub open spec fn line_panics(line: Seq<char>, exact: bool) -> bool {
    match define_words(line, exact) {
        Some((_, value)) => token_panics(value),
        None => false,
    }
}

/// The hashcode and name that a line defines.
pub open spec fn line_entry(line: Seq<char>, exact: bool) -> Option<(u32, Seq<char>)> {
    match define_words(line, exact) {
        Some((name, value)) => match parse_int_u32(value) {
            Some(hc) => Some((hc, name)),
            None => None,
        },
        None => None,
    }
}

/// The names that the lines define; a later line wins over an earlier one.
pub open spec fn hashcode_table(lines: Seq<Seq<char>>, exact: bool) -> Map<u32, Seq<char>>
    decreases lines.len(),
{
    if lines.len() == 0 {
        Map::empty()
    } else {
        let earlier = hashcode_table(lines.drop_last(), exact);
        match line_entry(lines.last(), exact) {
            Some((hc, name)) => earlier.insert(hc, name),
            None => earlier,
        }
    }
}

/// Whether some line fails with a panic.
pub open spec fn table_panics(lines: Seq<Seq<char>>, exact: bool) -> bool {
    exists|i: int| 0 <= i < lines.len() && line_panics(#[trigger] lines[i], exact)
}

/// A table's names as plain characters.
pub open spec fn names_view(m: Map<u32, String>) -> Map<u32, Seq<char>> {
    Map::new(|k: u32| m.contains_key(k), |k: u32| m[k]@)
}

/// The words of a line that starts with `#define`, where there are enough.
fn define_line_words(line: &Vec<char>, exact: bool) -> (r: Option<Vec<Vec<char>>>)
    ensures
        match r {
            Some(ws) => {
                &&& define_words(line@, exact) is Some
                &&& char_rows(ws@) == words(line@)
                &&& ws@.len() >= 3
            },
            None => define_words(line@, exact) is None,
        },
{
    let prefix = chars_of("#define");
    let n = line.len();
    assert(line@.subrange(0, n as int) =~= line@);
    if !chars_start_with(line, 0, n, &prefix) {
        return None;
    }
    let ws = words_of(line);
    if (exact && ws.len() != 3) || (!exact && ws.len() < 3) {
        return None;
    }
    Some(ws)
}

/// Whether reading this line fails with a panic.
fn line_fails(line: &Vec<char>, exact: bool) -> (r: bool)
    ensures
        r == line_panics(line@, exact),
{
    match define_line_words(line, exact) {
        Some(ws) => {
            let t = &ws[2];
            proof {
                lemma_words_are_words(line@);
                assert(ws@[2]@ == words(line@)[2]);
            }
            if t.len() > 0 && t[0] == '-' && !(t.len() > 1 && t[1] == '-') {
                let rest = string_from_chars(t, 1, t.len());
                assert(rest@ =~= t@.drop_first());
                assert(is_token(rest@)) by {
                    assert forall|j: int| 0 <= j < rest@.len() implies !is_white_space(
                        #[trigger] rest@[j],
                    ) by {
                        assert(rest@[j] == t@[j + 1]);
                    }
                }
                parse_u32(rest.as_str()).is_some()
            } else {
                false
            }
        },
        None => false,
    }
}

/// The hashcode and name defined by a line of the form
/// `#define NAME VALUE`, whether or not more words follow. With `exact`,
/// a line with more words defines nothing.
pub fn parse_hashcode(line: &str, exact: bool) -> (r: Option<(u32, String)>)
    requires
        !line_panics(line@, exact),
    ensures
        match r {
            Some((hc, name)) => line_entry(line@, exact) == Some((hc, name@)),
            None => line_entry(line@, exact) is None,
        },
{
    let cs = chars_of(line);
    match define_line_words(&cs, exact) {
        Some(ws) => {
            proof {
                lemma_words_are_words(cs@);
                assert(ws@[1]@ == words(cs@)[1]);
                assert(ws@[2]@ == words(cs@)[2]);
            }
            let name = string_from_chars(&ws[1], 0, ws[1].len());
            let value = string_from_chars(&ws[2], 0, ws[2].len());
            assert(name@ =~= ws@[1]@);
            assert(value@ =~= ws@[2]@);
            match parse_u32(value.as_str()) {
                Some(hc) => Some((hc, name)),
                None => None,
            }
        },
        None => None,
    }
}

/// The table of the names that the lines of `text` define.
pub fn read_table(text: &str, exact: bool) -> (r: HashMap<u32, String>)
    requires
        !table_panics(lines(text@), exact),
    ensures
        names_view(r@) == hashcode_table(lines(text@), exact),
{
    let cs = chars_of(text);
    let rows = lines_of(&cs);
    let ghost ls = lines(text@);
    let mut m: HashMap<u32, String> = HashMap::new();
    let mut i: usize = 0;
    assert(names_view(m@) =~= hashcode_table(ls.take(0), exact));
    while i < rows.len()
        invariant
            char_rows(rows@) == ls,
            ls == lines(text@),
            !table_panics(ls, exact),
            i <= rows@.len(),
            names_view(m@) == hashcode_table(ls.take(i as int), exact),
        decreases rows.len() - i,
    {
        let line = string_from_chars(&rows[i], 0, rows[i].len());
        proof {
            assert(line@ =~= ls[i as int]);
            if line_panics(line@, exact) {
                assert(line_panics(ls[i as int], exact));
            }
            assert(ls.take(i + 1).drop_last() =~= ls.take(i as int));
            assert(ls.take(i + 1).last() == ls[i as int]);
        }
        match parse_hashcode(line.as_str(), exact) {
            Some((hc, name)) => {
                let ghost before = m@;
                m.insert(hc, name);
                assert(names_view(m@) =~= names_view(before).insert(hc, name@));
            },
            None => {},
        }
        i = i + 1;
    }
    assert(ls.take(rows.len() as int) =~= ls);
    m
}

/// Whether some line of `text` fails to read with a panic.
pub fn table_fails(text: &str, exact: bool) -> (r: bool)
    ensures
        r == table_panics(lines(text@), exact),
{
    let cs = chars_of(text);
    let rows = lines_of(&cs);
    let ghost ls = lines(text@);
    let mut i: usize = 0;
    while i < rows.len()
        invariant
            char_rows(rows@) == ls,
            ls == lines(text@),
            i <= rows@.len(),
            forall|j: int| 0 <= j < i ==> !line_panics(#[trigger] ls[j], exact),
        decreases rows.len() - i,
    {
        assert(rows@[i as int]@ == ls[i as int]);
        if line_fails(&rows[i], exact) {
            return true;
        }
        i = i + 1;
    }
    false
}

/// The table of hashcode names that the `#define` lines of `string` give.
pub fn parse_hashcodes(string: &str) -> (r: HashMap<u32, String>)
    requires
        !table_panics(lines(string@), false),
    ensures
        names_view(r@) == hashcode_table(lines(string@), false),
{
    read_table(string, false)
}

/// The table of hashcode names that the `#define` lines of `string` give,
/// or `None` where a value would make `parse_hashcodes` panic.
pub fn try_parse_hashcodes(string: &str) -> (r: Option<HashMap<u32, String>>)
    ensures
        r is None <==> table_panics(lines(string@), false),
        r matches Some(m) ==> names_view(m@) == hashcode_table(lines(string@), false),
{
    if table_fails(string, false) {
        None
    } else {
        Some(parse_hashcodes(string))
    }
}

} // verus!
