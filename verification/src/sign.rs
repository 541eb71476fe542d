//! The block entity that carries the text of a sign.

use crate::nbt::NbtValue;
use vstd::prelude::*;

verus! {

/// A line of sign text as it is stored: between two double quotes.
pub open spec fn quoted(line: Seq<char>) -> Seq<char> {
    "\""@ + line + "\""@
}

/// `v` is the text `s`.
pub open spec fn is_text(v: NbtValue, s: Seq<char>) -> bool {
    v matches NbtValue::String(t) && t@ == s
}

/// `v` is the byte `b`.
pub open spec fn is_byte(v: NbtValue, b: i8) -> bool {
    v matches NbtValue::Byte(x) && x == b
}

/// `v` is the integer `i`.
pub open spec fn is_int(v: NbtValue, i: i32) -> bool {
    v matches NbtValue::Int(x) && x == i
}

/// `v` is the front text of a sign with the four lines: the quoted lines,
/// in black, not glowing.
pub open spec fn is_front_text(
    v: NbtValue,
    l1: Seq<char>,
    l2: Seq<char>,
    l3: Seq<char>,
    l4: Seq<char>,
) -> bool {
    &&& v matches NbtValue::Compound(f)
    &&& f@.len() == 3
    &&& f@[0].0@ == "messages"@
    &&& f@[0].1 matches NbtValue::List(m)
    &&& m@.len() == 4
    &&& is_text(m@[0], quoted(l1))
    &&& is_text(m@[1], quoted(l2))
    &&& is_text(m@[2], quoted(l3))
    &&& is_text(m@[3], quoted(l4))
    &&& f@[1].0@ == "color"@
    &&& is_text(f@[1].1, "black"@)
    &&& f@[2].0@ == "has_glowing_text"@
    &&& is_byte(f@[2].1, 0)
}

/// `v` is the block entity of a sign at `(x, y, z)` with the four lines.
pub open spec fn is_sign_entity(
    v: NbtValue,
    l1: Seq<char>,
    l2: Seq<char>,
    l3: Seq<char>,
    l4: Seq<char>,
    x: i32,
    y: i32,
    z: i32,
) -> bool {
    &&& v matches NbtValue::Compound(f)
    &&& f@.len() == 7
    &&& f@[0].0@ == "front_text"@
    &&& is_front_text(f@[0].1, l1, l2, l3, l4)
    &&& f@[1].0@ == "id"@
    &&& is_text(f@[1].1, "minecraft:sign"@)
    &&& f@[2].0@ == "is_waxed"@
    &&& is_byte(f@[2].1, 0)
    &&& f@[3].0@ == "keepPacked"@
    &&& is_byte(f@[3].1, 0)
    &&& f@[4].0@ == "x"@
    &&& is_int(f@[4].1, x)
    &&& f@[5].0@ == "y"@
    &&& is_int(f@[5].1, y)
    &&& f@[6].0@ == "z"@
    &&& is_int(f@[6].1, z)
}

/// A line of sign text between two double quotes.
pub fn quote_line(line: &str) -> (r: NbtValue)
    ensures
        is_text(r, quoted(line@)),
{
    let mut s: String = "\"".to_owned();
    s.append(line);
    s.append("\"");
    NbtValue::String(s)
}

/// The block entity of a sign at `(x, y, z)` with the four lines.
pub fn sign_entity(line1: &str, line2: &str, line3: &str, line4: &str, x: i32, y: i32, z: i32) -> (r:
    NbtValue)
    ensures
        is_sign_entity(r, line1@, line2@, line3@, line4@, x, y, z),
{
    let mut messages: Vec<NbtValue> = Vec::new();
    messages.push(quote_line(line1));
    messages.push(quote_line(line2));
    messages.push(quote_line(line3));
    messages.push(quote_line(line4));
    let mut text_data: Vec<(String, NbtValue)> = Vec::new();
    text_data.push(("messages".to_owned(), NbtValue::List(messages)));
    text_data.push(("color".to_owned(), NbtValue::String("black".to_owned())));
    text_data.push(("has_glowing_text".to_owned(), NbtValue::Byte(0)));
    let mut entity: Vec<(String, NbtValue)> = Vec::new();
    entity.push(("front_text".to_owned(), NbtValue::Compound(text_data)));
    entity.push(("id".to_owned(), NbtValue::String("minecraft:sign".to_owned())));
    entity.push(("is_waxed".to_owned(), NbtValue::Byte(0)));
    entity.push(("keepPacked".to_owned(), NbtValue::Byte(0)));
    entity.push(("x".to_owned(), NbtValue::Int(x)));
    entity.push(("y".to_owned(), NbtValue::Int(y)));
    entity.push(("z".to_owned(), NbtValue::Int(z)));
    NbtValue::Compound(entity)
}

} // verus!
