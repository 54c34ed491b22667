//! Static facts about instructions, by opcode: the signatures of the
//! numeric instructions and the shape of the memory accesses.
use vstd::prelude::*;
use crate::types::ValType;

verus! {

/// The signature of a numeric instruction: the type of its operands,
/// whether it takes two of them or one, and the type of its result.
#[derive(Clone, Copy, PartialEq, Eq, Structural, Debug)]
pub struct Signature {
    pub operand: ValType,
    pub binary: bool,
    pub result: ValType,
}

/// The signature with the given operand type, arity and result type.
pub open spec fn sig(operand: ValType, binary: bool, result: ValType) -> Signature {
    Signature { operand, binary, result }
}

/// The signature of the numeric instruction with opcode `op`.
pub open spec fn numeric_sig(op: u8) -> Option<Signature> {
    if op < 0x45 || op > 0xBF {
        None
    } else if op == 0x45 {
        Some(sig(ValType::I32, false, ValType::I32))
    } else if op <= 0x4F {
        Some(sig(ValType::I32, true, ValType::I32))
    } else if op == 0x50 {
        Some(sig(ValType::I64, false, ValType::I32))
    } else if op <= 0x5A {
        Some(sig(ValType::I64, true, ValType::I32))
    } else if op <= 0x60 {
        Some(sig(ValType::F32, true, ValType::I32))
    } else if op <= 0x66 {
        Some(sig(ValType::F64, true, ValType::I32))
    } else if op <= 0x69 {
        Some(sig(ValType::I32, false, ValType::I32))
    } else if op <= 0x78 {
        Some(sig(ValType::I32, true, ValType::I32))
    } else if op <= 0x7B {
        Some(sig(ValType::I64, false, ValType::I64))
    } else if op <= 0x8A {
        Some(sig(ValType::I64, true, ValType::I64))
    } else if op <= 0x91 {
        Some(sig(ValType::F32, false, ValType::F32))
    } else if op <= 0x98 {
        Some(sig(ValType::F32, true, ValType::F32))
    } else if op <= 0x9F {
        Some(sig(ValType::F64, false, ValType::F64))
    } else if op <= 0xA6 {
        Some(sig(ValType::F64, true, ValType::F64))
    } else if op == 0xA7 {
        Some(sig(ValType::I64, false, ValType::I32))
    } else if op <= 0xA9 {
        Some(sig(ValType::F32, false, ValType::I32))
    } else if op <= 0xAB {
        Some(sig(ValType::F64, false, ValType::I32))
    } else if op <= 0xAD {
        Some(sig(ValType::I32, false, ValType::I64))
    } else if op <= 0xAF {
        Some(sig(ValType::F32, false, ValType::I64))
    } else if op <= 0xB1 {
        Some(sig(ValType::F64, false, ValType::I64))
    } else if op <= 0xB3 {
        Some(sig(ValType::I32, false, ValType::F32))
    } else if op <= 0xB5 {
        Some(sig(ValType::I64, false, ValType::F32))
    } else if op == 0xB6 {
        Some(sig(ValType::F64, false, ValType::F32))
    } else if op <= 0xB8 {
        Some(sig(ValType::I32, false, ValType::F64))
    } else if op <= 0xBA {
        Some(sig(ValType::I64, false, ValType::F64))
    } else if op == 0xBB {
        Some(sig(ValType::F32, false, ValType::F64))
    } else if op == 0xBC {
        Some(sig(ValType::F32, false, ValType::I32))
    } else if op == 0xBD {
        Some(sig(ValType::F64, false, ValType::I64))
    } else if op == 0xBE {
        Some(sig(ValType::I32, false, ValType::F32))
    } else {
        Some(sig(ValType::I64, false, ValType::F64))
    }
}

/// Looks up the signature of a numeric instruction.
pub fn numeric_signature(op: u8) -> (r: Option<Signature>)
    ensures
        r == numeric_sig(op),
{
    let i32t = ValType::I32;
    let i64t = ValType::I64;
    let f32t = ValType::F32;
    let f64t = ValType::F64;
    let (operand, binary, result) = if op < 0x45 || op > 0xBF {
        return None;
    } else if op == 0x45 {
        (i32t, false, i32t)
    } else if op <= 0x4F {
        (i32t, true, i32t)
    } else if op == 0x50 {
        (i64t, false, i32t)
    } else if op <= 0x5A {
        (i64t, true, i32t)
    } else if op <= 0x60 {
        (f32t, true, i32t)
    } else if op <= 0x66 {
        (f64t, true, i32t)
    } else if op <= 0x69 {
        (i32t, false, i32t)
    } else if op <= 0x78 {
        (i32t, true, i32t)
    } else if op <= 0x7B {
        (i64t, false, i64t)
    } else if op <= 0x8A {
        (i64t, true, i64t)
    } else if op <= 0x91 {
        (f32t, false, f32t)
    } else if op <= 0x98 {
        (f32t, true, f32t)
    } else if op <= 0x9F {
        (f64t, false, f64t)
    } else if op <= 0xA6 {
        (f64t, true, f64t)
    } else if op == 0xA7 {
        (i64t, false, i32t)
    } else if op <= 0xA9 {
        (f32t, false, i32t)
    } else if op <= 0xAB {
        (f64t, false, i32t)
    } else if op <= 0xAD {
        (i32t, false, i64t)
    } else if op <= 0xAF {
        (f32t, false, i64t)
    } else if op <= 0xB1 {
        (f64t, false, i64t)
    } else if op <= 0xB3 {
        (i32t, false, f32t)
    } else if op <= 0xB5 {
        (i64t, false, f32t)
    } else if op == 0xB6 {
        (f64t, false, f32t)
    } else if op <= 0xB8 {
        (i32t, false, f64t)
    } else if op <= 0xBA {
        (i64t, false, f64t)
    } else if op == 0xBB {
        (f32t, false, f64t)
    } else if op == 0xBC {
        (f32t, false, i32t)
    } else if op == 0xBD {
        (f64t, false, i64t)
    } else if op == 0xBE {
        (i32t, false, f32t)
    } else {
        (i64t, false, f64t)
    };
    Some(Signature { operand, binary, result })
}

/// The shape of a memory access: the type of the value on the operand
/// stack, the number of bytes in memory, and whether a narrow load extends
/// the sign.
#[derive(Clone, Copy, PartialEq, Eq, Structural, Debug)]
pub struct Access {
    pub ty: ValType,
    pub width: u8,
    pub signed: bool,
}

/// The access of a value of type `ty` as `width` bytes.
pub open spec fn access(ty: ValType, width: u8, signed: bool) -> Access {
    Access { ty, width, signed }
}

/// The access made by the load or store with opcode `op`.
pub open spec fn access_of(op: u8) -> Option<Access> {
    if op == 0x28 || op == 0x36 {
        Some(access(ValType::I32, 4, false))
    } else if op == 0x29 || op == 0x37 {
        Some(access(ValType::I64, 8, false))
    } else if op == 0x2A || op == 0x38 {
        Some(access(ValType::F32, 4, false))
    } else if op == 0x2B || op == 0x39 {
        Some(access(ValType::F64, 8, false))
    } else if op == 0x2C {
        Some(access(ValType::I32, 1, true))
    } else if op == 0x2D || op == 0x3A {
        Some(access(ValType::I32, 1, false))
    } else if op == 0x2E {
        Some(access(ValType::I32, 2, true))
    } else if op == 0x2F || op == 0x3B {
        Some(access(ValType::I32, 2, false))
    } else if op == 0x30 {
        Some(access(ValType::I64, 1, true))
    } else if op == 0x31 || op == 0x3C {
        Some(access(ValType::I64, 1, false))
    } else if op == 0x32 {
        Some(access(ValType::I64, 2, true))
    } else if op == 0x33 || op == 0x3D {
        Some(access(ValType::I64, 2, false))
    } else if op == 0x34 {
        Some(access(ValType::I64, 4, true))
    } else if op == 0x35 || op == 0x3E {
        Some(access(ValType::I64, 4, false))
    } else {
        None
    }
}

/// Looks up the access that a load or store makes.
pub fn memory_access(op: u8) -> (r: Option<Access>)
    ensures
        r == access_of(op),
{
    let i32t = ValType::I32;
    let i64t = ValType::I64;
    let (ty, width, signed) = if op == 0x28 || op == 0x36 {
        (i32t, 4u8, false)
    } else if op == 0x29 || op == 0x37 {
        (i64t, 8u8, false)
    } else if op == 0x2A || op == 0x38 {
        (ValType::F32, 4u8, false)
    } else if op == 0x2B || op == 0x39 {
        (ValType::F64, 8u8, false)
    } else if op == 0x2C {
        (i32t, 1u8, true)
    } else if op == 0x2D || op == 0x3A {
        (i32t, 1u8, false)
    } else if op == 0x2E {
        (i32t, 2u8, true)
    } else if op == 0x2F || op == 0x3B {
        (i32t, 2u8, false)
    } else if op == 0x30 {
        (i64t, 1u8, true)
    } else if op == 0x31 || op == 0x3C {
        (i64t, 1u8, false)
    } else if op == 0x32 {
        (i64t, 2u8, true)
    } else if op == 0x33 || op == 0x3D {
        (i64t, 2u8, false)
    } else if op == 0x34 {
        (i64t, 4u8, true)
    } else if op == 0x35 || op == 0x3E {
        (i64t, 4u8, false)
    } else {
        return None;
    };
    Some(Access { ty, width, signed })
}

/// The largest alignment exponent allowed for an access of `width` bytes:
/// an access is never aligned to more than its own width.
pub open spec fn max_align(width: u8) -> u32 {
    if width >= 8 {
        3
    } else if width >= 4 {
        2
    } else if width >= 2 {
        1
    } else {
        0
    }
}

/// The largest alignment exponent for an access of `width` bytes.
pub fn natural_alignment(width: u8) -> (r: u32)
    ensures
        r == max_align(width),
{
    if width >= 8 {
        3
    } else if width >= 4 {
        2
    } else if width >= 2 {
        1
    } else {
        0
    }
}

} // verus!
