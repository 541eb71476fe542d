//! The tagged value tree that chunks carry beside their blocks.

use vstd::prelude::*;

verus! {

/// One value of the game's tagged binary format, without the floating-point
/// tags, which nothing here writes.
pub enum NbtValue {
    Byte(i8),
    Short(i16),
    Int(i32),
    Long(i64),
    ByteArray(Vec<i8>),
    String(String),
    List(Vec<NbtValue>),
    Compound(Vec<(String, NbtValue)>),
    IntArray(Vec<i32>),
    LongArray(Vec<i64>),
}

} // verus!
