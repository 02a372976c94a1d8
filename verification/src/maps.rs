//! Trigger value definitions and the names shown for hashcodes and trigger
//! values.
use std::collections::BTreeMap;
use std::collections::HashMap;
use vstd::prelude::*;

use crate::text::{
    chars_end_with, chars_of, dec_string, hex8, hex_string, push_chars, push_decimal, push_hex,
    push_hex8, push_str, utf8_width, utf8_width_of,
};

verus! {

broadcast use vstd::std_specs::hash::group_hash_axioms;

/// How a trigger value is stored and shown.
#[derive(Clone, Copy, Debug, PartialEq, Eq)]
pub enum DefinitionDataType {
    Unknown32,
    U32,
    Float,
    Hashcode,
}

impl Default for DefinitionDataType {
    fn default() -> (r: Self)
        ensures
            r == DefinitionDataType::Unknown32,
    {
        DefinitionDataType::Unknown32
    }
}

/// One named value of a trigger.
#[derive(Clone, Debug)]
pub struct TriggerValue {
    pub name: Option<String>,
    pub dtype: DefinitionDataType,
}

/// A trigger type: its name, icon and the values it carries, by slot.
#[derive(Clone, Debug)]
pub struct TriggerDefinition {
    pub name: String,
    pub icon: Option<String>,
    pub values: BTreeMap<u32, TriggerValue>,
}

/// The name of a trigger value, as plain characters.
pub open spec fn value_name(v: TriggerValue) -> Option<Seq<char>> {
    match v.name {
        Some(n) => Some(n@),
        None => None,
    }
}

impl TriggerValue {
    pub fn new(name: Option<&str>, dtype: DefinitionDataType) -> (r: Self)
        ensures
            value_name(r) == (match name {
                Some(s) => Some(s@),
                None => None::<Seq<char>>,
            }),
            r.dtype == dtype,
    {
        let name = match name {
            Some(s) => Some(s.to_owned()),
            None => None,
        };
        TriggerValue { name, dtype }
    }
}

impl DefinitionDataType {
    /// Bytes that a value of this type takes in a trigger's data.
    pub fn size(&self) -> (r: usize)
        ensures
            r == 4,
    {
        match self {
            DefinitionDataType::Unknown32 => 4,
            DefinitionDataType::U32 => 4,
            DefinitionDataType::Float => 4,
            DefinitionDataType::Hashcode => 4,
        }
    }
}

/// The label and type shown for value `slot` of a trigger of type `ttype`:
/// the name and type that `triggers` gives the slot, where it defines it,
/// with `#slot ` for a slot defined without a name; otherwise `#slot ` and
/// `Unknown32`.
pub open spec fn value_definition(triggers: Map<u32, TriggerDefinition>, ttype: u32, slot: u32) -> (
    Seq<char>,
    DefinitionDataType,
) {
    let numbered = "#"@ + dec_string(slot) + " "@;
    if triggers.contains_key(ttype) && triggers[ttype].values@.contains_key(slot) {
        let v = triggers[ttype].values@[slot];
        (
            match v.name {
                Some(n) => n@,
                None => numbered,
            },
            v.dtype,
        )
    } else {
        (numbered, DefinitionDataType::Unknown32)
    }
}

/// The label and type of value `slot` of a trigger of type `ttype`.
pub fn value_label(triggers: &BTreeMap<u32, TriggerDefinition>, ttype: u32, slot: u32) -> (r: (
    String,
    DefinitionDataType,
))
    ensures
        (r.0@, r.1) == value_definition(triggers@, ttype, slot),
{
    broadcast use vstd::laws_cmp::group_laws_cmp, vstd::std_specs::btree::group_btree_axioms;

    let found = match triggers.get(&ttype) {
        Some(def) => match def.values.get(&slot) {
            Some(v) => Some((v.name.clone(), v.dtype)),
            None => None,
        },
        None => None,
    };
    let mut numbered = String::new();
    push_str(&mut numbered, "#");
    push_decimal(&mut numbered, slot);
    push_str(&mut numbered, " ");
    match found {
        Some((Some(name), dtype)) => (name, dtype),
        Some((None, dtype)) => (numbered, dtype),
        None => (numbered, DefinitionDataType::Unknown32),
    }
}

/// Whether `v` is the value named `name` of type `dtype`.
pub open spec fn is_value(v: TriggerValue, name: Seq<char>, dtype: DefinitionDataType) -> bool {
    value_name(v) == Some(name) && v.dtype == dtype
}

fn insert_value(m: &mut BTreeMap<u32, TriggerValue>, slot: u32, v: TriggerValue)
    ensures
        final(m)@ == old(m)@.insert(slot, v),
{
    broadcast use vstd::laws_cmp::group_laws_cmp;

    m.insert(slot, v);
}

/// The values that every trigger carries in the first five slots.
pub fn default_engine_values() -> (r: BTreeMap<u32, TriggerValue>)
    ensures
        r@.dom() == set![0u32, 1u32, 2u32, 3u32, 4u32],
        is_value(r@[0], "Visual Object"@, DefinitionDataType::Hashcode),
        is_value(r@[1], "File"@, DefinitionDataType::Hashcode),
        is_value(r@[2], "GameScript Index"@, DefinitionDataType::U32),
        is_value(r@[3], "Collision Index"@, DefinitionDataType::U32),
        is_value(r@[4], "Trigger Color"@, DefinitionDataType::U32),
{
    let mut m: BTreeMap<u32, TriggerValue> = BTreeMap::new();
    insert_value(&mut m, 0, TriggerValue::new(Some("Visual Object"), DefinitionDataType::Hashcode));
    insert_value(&mut m, 1, TriggerValue::new(Some("File"), DefinitionDataType::Hashcode));
    insert_value(&mut m, 2, TriggerValue::new(Some("GameScript Index"), DefinitionDataType::U32));
    insert_value(&mut m, 3, TriggerValue::new(Some("Collision Index"), DefinitionDataType::U32));
    insert_value(&mut m, 4, TriggerValue::new(Some("Trigger Color"), DefinitionDataType::U32));
    assert(m@.dom() =~= set![0u32, 1u32, 2u32, 3u32, 4u32]);
    m
}

} // verus!

verus! {

/// How many leading characters of `s` take exactly three bytes in UTF-8,
/// if some do; `None` where byte 3 of `s` is no character boundary.
pub open spec fn chars_in_three_bytes(s: Seq<char>) -> Option<nat> {
    if s.len() >= 1 && utf8_width(s[0]) == 3 {
        Some(1)
    } else if s.len() >= 2 && utf8_width(s[0]) + utf8_width(s[1]) == 3 {
        Some(2)
    } else if s.len() >= 3 && utf8_width(s[0]) + utf8_width(s[1]) + utf8_width(s[2]) == 3 {
        Some(3)
    } else {
        None
    }
}

/// A base hashcode's name with `_HASHCODE_BASE` taken off its end, or
/// `HT_Invalid` where it does not end so.
pub open spec fn stripped_base(name: Seq<char>) -> Seq<char> {
    if crate::text::ends_with(name, "_HASHCODE_BASE"@) {
        name.subrange(0, name.len() - "_HASHCODE_BASE"@.len())
    } else {
        "HT_Invalid"@
    }
}

/// Whether the hashcode has the local bit set.
pub open spec fn is_local(hc: u32) -> bool {
    hc & 0x8000_0000 != 0
}

/// The base hashcode of the type that `hc` belongs to.
pub open spec fn base_of(hc: u32) -> u32 {
    hc & 0x7fff_0000
}

/// Whether the name of `hc` comes from the name of its base.
pub open spec fn named_by_base(names: Map<u32, String>, hc: u32) -> bool {
    &&& hc != u32::MAX
    &&& hc != 0
    &&& !names.contains_key(hc)
    &&& names.contains_key(base_of(hc))
}

/// The inputs on which naming a hashcode does not fail: a local hashcode
/// named after its base drops the base's first three bytes, which must end
/// on a character boundary.
pub open spec fn hashcode_nameable(names: Map<u32, String>, hc: u32) -> bool {
    (named_by_base(names, hc) && is_local(hc)) ==> chars_in_three_bytes(
        stripped_base(names[base_of(hc)]@),
    ) is Some
}

/// The name shown for hashcode `hc`, given the known names.
pub open spec fn hashcode_name(names: Map<u32, String>, hc: u32) -> Seq<char> {
    if hc == u32::MAX {
        "HT_None"@
    } else if hc == 0 {
        "HT_Zero"@
    } else if names.contains_key(hc) {
        names[hc]@
    } else if names.contains_key(base_of(hc)) {
        let stripped = stripped_base(names[base_of(hc)]@);
        if is_local(hc) {
            let k = chars_in_three_bytes(stripped).unwrap() as int;
            "HT_Local_"@ + stripped.subrange(k, stripped.len() as int) + "_"@ + hex8(hc)
        } else {
            stripped + "_Unknown_"@ + hex8(hc)
        }
    } else if is_local(hc) {
        "HT_Local_Invalid_"@ + hex8(hc)
    } else {
        "HT_Invalid_"@ + hex8(hc)
    }
}

/// How many leading characters of `cs` take exactly three bytes.
fn three_byte_prefix(cs: &Vec<char>) -> (r: Option<usize>)
    ensures
        r == (match chars_in_three_bytes(cs@) {
            Some(k) => Some(k as usize),
            None => None::<usize>,
        }),
{
    let n = cs.len();
    if n >= 1 {
        let w0 = utf8_width_of(cs[0]);
        if w0 == 3 {
            return Some(1);
        }
        if n >= 2 {
            let w1 = utf8_width_of(cs[1]);
            if w0 + w1 == 3 {
                return Some(2);
            }
            if n >= 3 {
                let w2 = utf8_width_of(cs[2]);
                if w0 + w1 + w2 == 3 {
                    return Some(3);
                }
            }
        }
    }
    None
}

/// The characters of a base name with `_HASHCODE_BASE` taken off.
fn strip_base_name(name: &String) -> (r: Vec<char>)
    ensures
        r@ == stripped_base(name@),
{
    let cs = chars_of(name.as_str());
    let suffix = chars_of("_HASHCODE_BASE");
    let n = cs.len();
    assert(cs@.subrange(0, n as int) =~= cs@);
    if chars_end_with(&cs, 0, n, &suffix) {
        let mut r: Vec<char> = Vec::new();
        let mut i: usize = 0;
        while i < n - suffix.len()
            invariant
                suffix.len() <= n == cs@.len(),
                i <= n - suffix.len(),
                r@ == cs@.subrange(0, i as int),
            decreases n - suffix.len() - i,
        {
            r.push(cs[i]);
            assert(r@ =~= cs@.subrange(0, i + 1));
            i = i + 1;
        }
        r
    } else {
        chars_of("HT_Invalid")
    }
}

/// Whether `format_hashcode` accepts `hc` with these names.
pub fn hashcode_can_be_named(hashcodes: &HashMap<u32, String>, hc: u32) -> (r: bool)
    ensures
        r == hashcode_nameable(hashcodes@, hc),
{
    if hc == u32::MAX || hc == 0 || (hc & 0x8000_0000) == 0 {
        return true;
    }
    if hashcodes.get(&hc).is_some() {
        return true;
    }
    match hashcodes.get(&(hc & 0x7fff_0000)) {
        Some(base) => {
            let stripped = strip_base_name(base);
            three_byte_prefix(&stripped).is_some()
        },
        None => true,
    }
}

/// The name shown for hashcode `hc`: its known name, or one made from the
/// name of its base hashcode.
pub fn format_hashcode(hashcodes: &HashMap<u32, String>, hc: u32) -> (r: String)
    requires
        hashcode_nameable(hashcodes@, hc),
    ensures
        r@ == hashcode_name(hashcodes@, hc),
{
    let mut s = String::new();
    if hc == u32::MAX {
        push_str(&mut s, "HT_None");
        return s;
    }
    if hc == 0 {
        push_str(&mut s, "HT_Zero");
        return s;
    }
    match hashcodes.get(&hc) {
        Some(name) => {
            return name.clone();
        },
        None => {},
    }
    let local = (hc & 0x8000_0000) != 0;
    match hashcodes.get(&(hc & 0x7fff_0000)) {
        Some(base) => {
            let stripped = strip_base_name(base);
            if local {
                let k = match three_byte_prefix(&stripped) {
                    Some(k) => k,
                    None => {
                        return s;
                    },
                };
                push_str(&mut s, "HT_Local_");
                push_chars(&mut s, &stripped, k, stripped.len());
                push_str(&mut s, "_");
                push_hex8(&mut s, hc);
            } else {
                push_chars(&mut s, &stripped, 0, stripped.len());
                push_str(&mut s, "_Unknown_");
                push_hex8(&mut s, hc);
                assert(stripped@.subrange(0, stripped@.len() as int) =~= stripped@);
            }
        },
        None => {
            if local {
                push_str(&mut s, "HT_Local_Invalid_");
            } else {
                push_str(&mut s, "HT_Invalid_");
            }
            push_hex8(&mut s, hc);
        },
    }
    s
}

/// A `U32` trigger value: decimal up to 9999, hexadecimal with `0x` above.
pub open spec fn u32_value_text(v: u32) -> Seq<char> {
    if v > 9999 {
        "0x"@ + hex_string(v)
    } else {
        dec_string(v)
    }
}

/// `v` read as an `i32`, in decimal, where that number lies strictly
/// between -9999 and 9999.
pub open spec fn small_signed_text(v: u32) -> Option<Seq<char>> {
    if v < 9999 {
        Some(dec_string(v))
    } else if v >= 0x1_0000_0000 - 9998 {
        Some("-"@ + dec_string((0x1_0000_0000 - v) as u32))
    } else {
        None
    }
}

/// The text shown for value `v` of type `t`, or `None` where it is shown
/// as a floating-point number, which this library does not format.
pub open spec fn value_text(t: DefinitionDataType, names: Map<u32, String>, v: u32) -> Option<
    Seq<char>,
> {
    match t {
        DefinitionDataType::Unknown32 => {
            if v & 0xffff_0000 != 0 && names.contains_key(v) {
                Some(names[v]@ + " (0x"@ + hex_string(v) + ")"@)
            } else {
                match small_signed_text(v) {
                    Some(n) => Some(n + " (0x"@ + hex_string(v) + ")"@),
                    None => None,
                }
            }
        },
        DefinitionDataType::U32 => Some(u32_value_text(v)),
        DefinitionDataType::Float => None,
        DefinitionDataType::Hashcode => Some(hashcode_name(names, v)),
    }
}

/// Appends `v` read as an `i32` in decimal, where it lies strictly between
/// -9999 and 9999; returns whether it did.
fn push_small_signed(s: &mut String, v: u32) -> (done: bool)
    ensures
        done == small_signed_text(v) is Some,
        done ==> final(s)@ == old(s)@ + small_signed_text(v).unwrap(),
        !done ==> final(s)@ == old(s)@,
{
    if v < 9999 {
        push_decimal(s, v);
        true
    } else if v >= 0xffff_ffff - 9997 {
        push_str(s, "-");
        let m: u32 = 0xffff_ffff - v + 1;
        push_decimal(s, m);
        true
    } else {
        false
    }
}

impl DefinitionDataType {
    /// The text shown for the trigger value `v` of this type; `None` where
    /// it is shown as a floating-point number.
    pub fn to_string(&self, hashcodes: &HashMap<u32, String>, v: u32) -> (r: Option<String>)
        requires
            *self == DefinitionDataType::Hashcode ==> hashcode_nameable(hashcodes@, v),
        ensures
            (match r {
                Some(t) => Some(t@),
                None => None::<Seq<char>>,
            }) == value_text(*self, hashcodes@, v),
    {
        match self {
            DefinitionDataType::Unknown32 => {
                let mut s = String::new();
                if (v & 0xffff_0000) != 0 {
                    match hashcodes.get(&v) {
                        Some(name) => {
                            let mut t = name.clone();
                            push_str(&mut t, " (0x");
                            push_hex(&mut t, v);
                            push_str(&mut t, ")");
                            return Some(t);
                        },
                        None => {},
                    }
                }
                if push_small_signed(&mut s, v) {
                    push_str(&mut s, " (0x");
                    push_hex(&mut s, v);
                    push_str(&mut s, ")");
                    Some(s)
                } else {
                    None
                }
            },
            DefinitionDataType::U32 => {
                let mut s = String::new();
                if v > 9999 {
                    push_str(&mut s, "0x");
                    push_hex(&mut s, v);
                } else {
                    push_decimal(&mut s, v);
                }
                Some(s)
            },
            DefinitionDataType::Float => None,
            DefinitionDataType::Hashcode => Some(format_hashcode(hashcodes, v)),
        }
    }
}

} // verus!
