//! Element type tags of a typed array and the size in bytes of one element of each.
use vstd::prelude::*;

verus! {

/// 8-bit unsigned integer.
pub const AI_TYPE_BYTE: u8 = 0;
/// 32-bit signed integer.
pub const AI_TYPE_INT: u8 = 1;
/// 32-bit unsigned integer.
pub const AI_TYPE_UINT: u8 = 2;
/// Boolean, one byte (zero is false).
pub const AI_TYPE_BOOLEAN: u8 = 3;
/// Single-precision float.
pub const AI_TYPE_FLOAT: u8 = 4;
/// RGB color, three floats.
pub const AI_TYPE_RGB: u8 = 5;
/// RGBA color, four floats.
pub const AI_TYPE_RGBA: u8 = 6;
/// 3D vector, three floats.
pub const AI_TYPE_VECTOR: u8 = 7;
/// 2D vector, two floats.
pub const AI_TYPE_VECTOR2: u8 = 8;
/// Interned string handle.
pub const AI_TYPE_STRING: u8 = 9;
/// Opaque pointer handle.
pub const AI_TYPE_POINTER: u8 = 10;
/// Opaque node handle.
pub const AI_TYPE_NODE: u8 = 11;
/// Handle of a nested array.
pub const AI_TYPE_ARRAY: u8 = 12;
/// 4x4 row-major float matrix.
pub const AI_TYPE_MATRIX: u8 = 13;
/// Enumeration value, a 32-bit signed integer.
pub const AI_TYPE_ENUM: u8 = 14;
/// Closure handle.
pub const AI_TYPE_CLOSURE: u8 = 15;
/// 16-bit unsigned integer.
pub const AI_TYPE_USHORT: u8 = 16;
/// Half-precision float.
pub const AI_TYPE_HALF: u8 = 17;
/// No element type: nothing can be stored under it.
pub const AI_TYPE_UNDEFINED: u8 = 0xFF;
/// Alias of the undefined type.
pub const AI_TYPE_NONE: u8 = 0xFF;

/// Size in bytes of one element of type `t`, or 0 where `t` names no storable type.
pub open spec fn type_size(t: u8) -> nat {
    if t == AI_TYPE_BYTE || t == AI_TYPE_BOOLEAN {
        1
    } else if t == AI_TYPE_USHORT || t == AI_TYPE_HALF {
        2
    } else if t == AI_TYPE_INT || t == AI_TYPE_UINT || t == AI_TYPE_FLOAT || t == AI_TYPE_ENUM {
        4
    } else if t == AI_TYPE_VECTOR2 || t == AI_TYPE_STRING || t == AI_TYPE_POINTER
        || t == AI_TYPE_NODE || t == AI_TYPE_ARRAY || t == AI_TYPE_CLOSURE {
        8
    } else if t == AI_TYPE_RGB || t == AI_TYPE_VECTOR {
        12
    } else if t == AI_TYPE_RGBA {
        16
    } else if t == AI_TYPE_MATRIX {
        64
    } else {
        0
    }
}

/// Whether `t` names a type that an array can hold.
pub open spec fn is_storable(t: u8) -> bool {
    type_size(t) > 0
}

/// Size in bytes of one element of type `t`; 0 for a tag that names no storable type.
pub fn AiParamGetTypeSize(t: u8) -> (r: usize)
    ensures
        r == type_size(t),
{
    if t == AI_TYPE_BYTE || t == AI_TYPE_BOOLEAN {
        1
    } else if t == AI_TYPE_USHORT || t == AI_TYPE_HALF {
        2
    } else if t == AI_TYPE_INT || t == AI_TYPE_UINT || t == AI_TYPE_FLOAT || t == AI_TYPE_ENUM {
        4
    } else if t == AI_TYPE_VECTOR2 || t == AI_TYPE_STRING || t == AI_TYPE_POINTER
        || t == AI_TYPE_NODE || t == AI_TYPE_ARRAY || t == AI_TYPE_CLOSURE {
        8
    } else if t == AI_TYPE_RGB || t == AI_TYPE_VECTOR {
        12
    } else if t == AI_TYPE_RGBA {
        16
    } else if t == AI_TYPE_MATRIX {
        64
    } else {
        0
    }
}

} // verus!
