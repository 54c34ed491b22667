//! The numeric instructions, on integers and, by way of their bits, on
//! floats. Values are bit patterns; a 32-bit operand is the low half of
//! its 64 bits, and a 32-bit result has the high half zero.
use vstd::prelude::*;
use vstd::std_specs::bits::{
    u32_leading_zeros, u32_trailing_zeros, u64_leading_zeros, u64_trailing_zeros,
};
use crate::value::Trap;
use crate::floats::{
    compares, selects, truncates, converts, float_binary, float_truncate, float_convert,
    apply_float_binary, apply_float_truncate, apply_float_convert, float_mul, float_integral,
    apply_float_mul, apply_float_integral, float_add, float_div, float_sqrt, apply_float_add,
    apply_float_div, apply_float_sqrt,
};

verus! {

/// What a numeric instruction gives: a value or a trap.
#[derive(Clone, Copy, PartialEq, Eq, Structural, Debug)]
pub enum Num {
    Value(u64),
    Trap(Trap),
}

/// A truth value as the integer 1 or 0.
pub open spec fn bit(b: bool) -> u64 {
    if b {
        1
    } else {
        0
    }
}

/// The number of one bits.
pub open spec fn popcount(x: u64) -> nat
    decreases x,
{
    if x == 0 {
        0
    } else {
        (x % 2) as nat + popcount(x / 2)
    }
}

/// The quotient rounded toward zero.
pub open spec fn tdiv(x: int, y: int) -> int {
    if x >= 0 && y > 0 {
        x / y
    } else if x >= 0 && y < 0 {
        -(x / (-y))
    } else if x < 0 && y > 0 {
        -((-x) / y)
    } else {
        (-x) / (-y)
    }
}

/// The remainder that has the sign of the dividend.
pub open spec fn trem(x: int, y: int) -> int {
    x - y * tdiv(x, y)
}

/// The comparisons of 32-bit integers, in the order of their opcodes.
pub open spec fn compare32(k: u8, x: u32, y: u32) -> bool {
    if k == 0 {
        x == y
    } else if k == 1 {
        x != y
    } else if k == 2 {
        (x as i32) < (y as i32)
    } else if k == 3 {
        x < y
    } else if k == 4 {
        (x as i32) > (y as i32)
    } else if k == 5 {
        x > y
    } else if k == 6 {
        (x as i32) <= (y as i32)
    } else if k == 7 {
        x <= y
    } else if k == 8 {
        (x as i32) >= (y as i32)
    } else {
        x >= y
    }
}

/// The comparisons of 64-bit integers, in the order of their opcodes.
pub open spec fn compare64(k: u8, x: u64, y: u64) -> bool {
    if k == 0 {
        x == y
    } else if k == 1 {
        x != y
    } else if k == 2 {
        (x as i64) < (y as i64)
    } else if k == 3 {
        x < y
    } else if k == 4 {
        (x as i64) > (y as i64)
    } else if k == 5 {
        x > y
    } else if k == 6 {
        (x as i64) <= (y as i64)
    } else if k == 7 {
        x <= y
    } else if k == 8 {
        (x as i64) >= (y as i64)
    } else {
        x >= y
    }
}

/// The binary operations on 32-bit integers, in the order of their
/// opcodes: add, sub, mul, div_s, div_u, rem_s, rem_u, and, or, xor, shl,
/// shr_s, shr_u, rotl, rotr.
pub open spec fn arith32(k: u8, x: u32, y: u32) -> Num {
    let sx = x as i32;
    let sy = y as i32;
    let n = y % 32;
    if k == 0 {
        Num::Value(x.wrapping_add(y) as u64)
    } else if k == 1 {
        Num::Value(x.wrapping_sub(y) as u64)
    } else if k == 2 {
        Num::Value(x.wrapping_mul(y) as u64)
    } else if 3 <= k <= 6 && y == 0 {
        Num::Trap(Trap::DivisionByZero)
    } else if k == 3 {
        if sx == i32::MIN && sy == -1 {
            Num::Trap(Trap::IntegerOverflow)
        } else {
            Num::Value(((tdiv(sx as int, sy as int) as i32) as u32) as u64)
        }
    } else if k == 4 {
        Num::Value((x / y) as u64)
    } else if k == 5 {
        Num::Value(((trem(sx as int, sy as int) as i32) as u32) as u64)
    } else if k == 6 {
        Num::Value((x % y) as u64)
    } else if k == 7 {
        Num::Value((x & y) as u64)
    } else if k == 8 {
        Num::Value((x | y) as u64)
    } else if k == 9 {
        Num::Value((x ^ y) as u64)
    } else if k == 10 {
        Num::Value((x << n) as u64)
    } else if k == 11 {
        Num::Value(((sx >> n) as u32) as u64)
    } else if k == 12 {
        Num::Value((x >> n) as u64)
    } else if k == 13 {
        Num::Value(
            (if n == 0 {
                x
            } else {
                (x << n) | (x >> ((32 - n) as u32))
            }) as u64,
        )
    } else {
        Num::Value(
            (if n == 0 {
                x
            } else {
                (x >> n) | (x << ((32 - n) as u32))
            }) as u64,
        )
    }
}

/// The binary operations on 64-bit integers, in the same order.
pub open spec fn arith64(k: u8, x: u64, y: u64) -> Num {
    let sx = x as i64;
    let sy = y as i64;
    let n = y % 64;
    if k == 0 {
        Num::Value(x.wrapping_add(y))
    } else if k == 1 {
        Num::Value(x.wrapping_sub(y))
    } else if k == 2 {
        Num::Value(x.wrapping_mul(y))
    } else if 3 <= k <= 6 && y == 0 {
        Num::Trap(Trap::DivisionByZero)
    } else if k == 3 {
        if sx == i64::MIN && sy == -1 {
            Num::Trap(Trap::IntegerOverflow)
        } else {
            Num::Value((tdiv(sx as int, sy as int) as i64) as u64)
        }
    } else if k == 4 {
        Num::Value(x / y)
    } else if k == 5 {
        Num::Value((trem(sx as int, sy as int) as i64) as u64)
    } else if k == 6 {
        Num::Value(x % y)
    } else if k == 7 {
        Num::Value(x & y)
    } else if k == 8 {
        Num::Value(x | y)
    } else if k == 9 {
        Num::Value(x ^ y)
    } else if k == 10 {
        Num::Value(x << n)
    } else if k == 11 {
        Num::Value((sx >> n) as u64)
    } else if k == 12 {
        Num::Value(x >> n)
    } else if k == 13 {
        Num::Value(
            if n == 0 {
                x
            } else {
                (x << n) | (x >> ((64 - n) as u64))
            },
        )
    } else {
        Num::Value(
            if n == 0 {
                x
            } else {
                (x >> n) | (x << ((64 - n) as u64))
            },
        )
    }
}

/// The instruction `op` applied to one operand. An opcode that is none of
/// these is invalid code.
pub open spec fn unary(op: u8, a: u64) -> Num {
    let x = a as u32;
    if op == 0x45 {
        Num::Value(bit(x == 0))
    } else if op == 0x50 {
        Num::Value(bit(a == 0))
    } else if op == 0x67 {
        Num::Value(u32_leading_zeros(x) as u64)
    } else if op == 0x68 {
        Num::Value(u32_trailing_zeros(x) as u64)
    } else if op == 0x69 {
        Num::Value(popcount(x as u64) as u64)
    } else if op == 0x79 {
        Num::Value(u64_leading_zeros(a) as u64)
    } else if op == 0x7A {
        Num::Value(u64_trailing_zeros(a) as u64)
    } else if op == 0x7B {
        Num::Value(popcount(a) as u64)
    } else if op == 0x8B {
        Num::Value((x & 0x7fff_ffffu32) as u64)
    } else if op == 0x8C {
        Num::Value((x ^ 0x8000_0000u32) as u64)
    } else if op == 0x99 {
        Num::Value(a & 0x7fff_ffff_ffff_ffffu64)
    } else if op == 0x9A {
        Num::Value(a ^ 0x8000_0000_0000_0000u64)
    } else if op == 0xA7 || op == 0xAD || op == 0xBC || op == 0xBE {
        Num::Value(x as u64)
    } else if op == 0xAC {
        Num::Value(((x as i32) as i64) as u64)
    } else if op == 0xBD || op == 0xBF {
        Num::Value(a)
    } else if truncates(op) {
        float_truncate(op, a)
    } else if converts(op) {
        Num::Value(float_convert(op, a))
    } else if 0x8D <= op <= 0x90 {
        Num::Value(float_integral((op - 0x8D) as u8, a, false))
    } else if 0x9B <= op <= 0x9E {
        Num::Value(float_integral((op - 0x9B) as u8, a, true))
    } else if op == 0x91 {
        Num::Value(float_sqrt(a, false))
    } else if op == 0x9F {
        Num::Value(float_sqrt(a, true))
    } else {
        Num::Trap(Trap::InvalidCode)
    }
}

/// The instruction `op` applied to two operands, `a` being the first. An
/// opcode that is none of these is invalid code.
pub open spec fn binary(op: u8, a: u64, b: u64) -> Num {
    let x = a as u32;
    let y = b as u32;
    if 0x46 <= op <= 0x4F {
        Num::Value(bit(compare32((op - 0x46) as u8, x, y)))
    } else if 0x51 <= op <= 0x5A {
        Num::Value(bit(compare64((op - 0x51) as u8, a, b)))
    } else if 0x6A <= op <= 0x78 {
        arith32((op - 0x6A) as u8, x, y)
    } else if 0x7C <= op <= 0x8A {
        arith64((op - 0x7C) as u8, a, b)
    } else if op == 0x98 {
        Num::Value(((x & 0x7fff_ffffu32) | (y & 0x8000_0000u32)) as u64)
    } else if op == 0xA6 {
        Num::Value((a & 0x7fff_ffff_ffff_ffffu64) | (b & 0x8000_0000_0000_0000u64))
    } else if compares(op) || selects(op) {
        Num::Value(float_binary(op, a, b))
    } else if op == 0x94 {
        Num::Value(float_mul(a, b, false))
    } else if op == 0xA2 {
        Num::Value(float_mul(a, b, true))
    } else if op == 0x92 || op == 0x93 {
        Num::Value(float_add(a, b, false, op == 0x93))
    } else if op == 0xA0 || op == 0xA1 {
        Num::Value(float_add(a, b, true, op == 0xA1))
    } else if op == 0x95 {
        Num::Value(float_div(a, b, false))
    } else if op == 0xA3 {
        Num::Value(float_div(a, b, true))
    } else {
        Num::Trap(Trap::InvalidCode)
    }
}

/// An integer has no more one bits than its value.
/// A numeric instruction is never invalid code when it is applied to as
/// many operands as its signature says.
pub proof fn lemma_numeric_is_valid(op: u8)
    requires
        crate::ops::numeric_sig(op) is Some,
    ensures
        crate::ops::numeric_sig(op)->0.binary ==> forall|a: u64, b: u64|
            #[trigger] binary(op, a, b) != Num::Trap(Trap::InvalidCode),
        !crate::ops::numeric_sig(op)->0.binary ==> forall|a: u64|
            #[trigger] unary(op, a) != Num::Trap(Trap::InvalidCode),
{
}

pub proof fn lemma_popcount_bound(x: u64)
    ensures
        popcount(x) <= x,
    decreases x,
{
    if x != 0 {
        lemma_popcount_bound(x / 2);
    }
}

fn count_ones(x: u64) -> (r: u64)
    ensures
        r == popcount(x),
{
    let mut v: u64 = x;
    let mut c: u64 = 0;
    proof {
        lemma_popcount_bound(x);
    }
    while v != 0
        invariant
            popcount(x) == c + popcount(v),
            popcount(x) <= u64::MAX,
        decreases v,
    {
        c = c + v % 2;
        v = v / 2;
    }
    c
}

/// The magnitude of a signed integer.
fn magnitude(x: i64) -> (r: u64)
    ensures
        r == (if x < 0 { -(x as int) } else { x as int }),
{
    if x < 0 {
        (-(x as i128)) as u64
    } else {
        x as u64
    }
}

/// Signed division rounding toward zero.
fn div_signed(x: i64, y: i64) -> (r: i64)
    requires
        y != 0,
        !(x == i64::MIN && y == -1),
    ensures
        r == tdiv(x as int, y as int),
{
    let ax: u64 = magnitude(x);
    let ay: u64 = magnitude(y);
    let q: u64 = ax / ay;
    assert(q <= ax && (ay >= 2 ==> 2 * q <= ax)) by (nonlinear_arith)
        requires
            q == ax / ay,
            ay > 0,
    ;
    if (x < 0) != (y < 0) {
        (-(q as i128)) as i64
    } else {
        q as i64
    }
}

/// Signed remainder, with the sign of the dividend.
fn rem_signed(x: i64, y: i64) -> (r: i64)
    requires
        y != 0,
    ensures
        r == trem(x as int, y as int),
{
    let ax: u64 = magnitude(x);
    let ay: u64 = magnitude(y);
    let m: u64 = ax % ay;
    assert(ax == ay * (ax / ay) + m && m < ay) by (nonlinear_arith)
        requires
            m == ax % ay,
            ay > 0,
    ;
    assert(trem(x as int, y as int) == if x < 0 {
        -(m as int)
    } else {
        m as int
    }) by (nonlinear_arith)
        requires
            ax == ay * (ax / ay) + m,
            ax == (if x < 0 {
                -(x as int)
            } else {
                x as int
            }),
            ay == (if y < 0 {
                -(y as int)
            } else {
                y as int
            }),
            y != 0,
    ;
    if x < 0 {
        (-(m as i128)) as i64
    } else {
        m as i64
    }
}

/// A quotient rounded toward zero is no larger than the dividend.
pub proof fn lemma_tdiv_bound(x: int, y: int)
    requires
        y != 0,
    ensures
        x >= 0 ==> -x <= tdiv(x, y) <= x,
        x < 0 ==> x <= tdiv(x, y) <= -x,
        (y >= 2 || y <= -2) && x != 0 ==> (if x >= 0 { -x < tdiv(x, y) < x } else { x < tdiv(x, y) < -x }),
        y == 1 ==> tdiv(x, y) == x,
        y == -1 ==> tdiv(x, y) == -x,
        x >= 0 ==> 0 <= trem(x, y) <= x,
        x < 0 ==> x <= trem(x, y) <= 0,
{
    let ax = if x < 0 { -x } else { x };
    let ay = if y < 0 { -y } else { y };
    assert(0 <= ax / ay <= ax && (ay >= 2 && ax > 0 ==> ax / ay < ax) && (ay == 1 ==> ax / ay == ax)
        && 0 <= ax - ay * (ax / ay) < ay && ay * (ax / ay) <= ax) by (nonlinear_arith)
        requires
            ax >= 0,
            ay > 0,
    ;
    assert(trem(x, y) == (if x < 0 { -(ax - ay * (ax / ay)) } else { ax - ay * (ax / ay) })) by (nonlinear_arith)
        requires
            ax == (if x < 0 { -x } else { x }),
            ay == (if y < 0 { -y } else { y }),
            y != 0,
    ;
}

fn flag(b: bool) -> (r: u64)
    ensures
        r == bit(b),
{
    if b {
        1
    } else {
        0
    }
}

fn compare32_exec(k: u8, x: u32, y: u32) -> (r: bool)
    ensures
        r == compare32(k, x, y),
{
    if k == 0 {
        x == y
    } else if k == 1 {
        x != y
    } else if k == 2 {
        (x as i32) < (y as i32)
    } else if k == 3 {
        x < y
    } else if k == 4 {
        (x as i32) > (y as i32)
    } else if k == 5 {
        x > y
    } else if k == 6 {
        (x as i32) <= (y as i32)
    } else if k == 7 {
        x <= y
    } else if k == 8 {
        (x as i32) >= (y as i32)
    } else {
        x >= y
    }
}

fn compare64_exec(k: u8, x: u64, y: u64) -> (r: bool)
    ensures
        r == compare64(k, x, y),
{
    if k == 0 {
        x == y
    } else if k == 1 {
        x != y
    } else if k == 2 {
        (x as i64) < (y as i64)
    } else if k == 3 {
        x < y
    } else if k == 4 {
        (x as i64) > (y as i64)
    } else if k == 5 {
        x > y
    } else if k == 6 {
        (x as i64) <= (y as i64)
    } else if k == 7 {
        x <= y
    } else if k == 8 {
        (x as i64) >= (y as i64)
    } else {
        x >= y
    }
}

#[verifier::rlimit(50)]

fn arith32_exec(k: u8, x: u32, y: u32) -> (r: Num)
    ensures
        r == arith32(k, x, y),
{
    let sx: i32 = x as i32;
    let sy: i32 = y as i32;
    let n: u32 = y % 32;
    if k == 0 {
        Num::Value(x.wrapping_add(y) as u64)
    } else if k == 1 {
        Num::Value(x.wrapping_sub(y) as u64)
    } else if k == 2 {
        Num::Value(x.wrapping_mul(y) as u64)
    } else if 3 <= k && k <= 6 && y == 0 {
        Num::Trap(Trap::DivisionByZero)
    } else if k == 3 {
        if sx == i32::MIN && sy == -1 {
            Num::Trap(Trap::IntegerOverflow)
        } else {
            assert(sy != 0) by (bit_vector)
                requires
                    y != 0,
                    sy == y as i32,
            ;
            proof {
                lemma_tdiv_bound(sx as int, sy as int);
            }
            let q: i64 = div_signed(sx as i64, sy as i64);
            Num::Value(((q as i32) as u32) as u64)
        }
    } else if k == 4 {
        Num::Value((x / y) as u64)
    } else if k == 5 {
        assert(sy != 0) by (bit_vector)
            requires
                y != 0,
                sy == y as i32,
        ;
        proof {
            lemma_tdiv_bound(sx as int, sy as int);
        }
        let m: i64 = rem_signed(sx as i64, sy as i64);
        Num::Value(((m as i32) as u32) as u64)
    } else if k == 6 {
        Num::Value((x % y) as u64)
    } else if k == 7 {
        Num::Value((x & y) as u64)
    } else if k == 8 {
        Num::Value((x | y) as u64)
    } else if k == 9 {
        Num::Value((x ^ y) as u64)
    } else if k == 10 {
        Num::Value((x << n) as u64)
    } else if k == 11 {
        Num::Value(((sx >> n) as u32) as u64)
    } else if k == 12 {
        Num::Value((x >> n) as u64)
    } else if k == 13 {
        Num::Value(
            (if n == 0 {
                x
            } else {
                (x << n) | (x >> (32 - n))
            }) as u64,
        )
    } else {
        Num::Value(
            (if n == 0 {
                x
            } else {
                (x >> n) | (x << (32 - n))
            }) as u64,
        )
    }
}

#[verifier::rlimit(50)]

fn arith64_exec(k: u8, x: u64, y: u64) -> (r: Num)
    ensures
        r == arith64(k, x, y),
{
    let sx: i64 = x as i64;
    let sy: i64 = y as i64;
    let n: u64 = y % 64;
    if k == 0 {
        Num::Value(x.wrapping_add(y))
    } else if k == 1 {
        Num::Value(x.wrapping_sub(y))
    } else if k == 2 {
        Num::Value(x.wrapping_mul(y))
    } else if 3 <= k && k <= 6 && y == 0 {
        Num::Trap(Trap::DivisionByZero)
    } else if k == 3 {
        if sx == i64::MIN && sy == -1 {
            Num::Trap(Trap::IntegerOverflow)
        } else {
            assert(sy != 0) by (bit_vector)
                requires
                    y != 0,
                    sy == y as i64,
            ;
            let q: i64 = div_signed(sx, sy);
            Num::Value(q as u64)
        }
    } else if k == 4 {
        Num::Value(x / y)
    } else if k == 5 {
        assert(sy != 0) by (bit_vector)
            requires
                y != 0,
                sy == y as i64,
        ;
        let m: i64 = rem_signed(sx, sy);
        Num::Value(m as u64)
    } else if k == 6 {
        Num::Value(x % y)
    } else if k == 7 {
        Num::Value(x & y)
    } else if k == 8 {
        Num::Value(x | y)
    } else if k == 9 {
        Num::Value(x ^ y)
    } else if k == 10 {
        Num::Value(x << n)
    } else if k == 11 {
        Num::Value((sx >> n) as u64)
    } else if k == 12 {
        Num::Value(x >> n)
    } else if k == 13 {
        Num::Value(
            if n == 0 {
                x
            } else {
                (x << n) | (x >> (64 - n))
            },
        )
    } else {
        Num::Value(
            if n == 0 {
                x
            } else {
                (x >> n) | (x << (64 - n))
            },
        )
    }
}

/// Applies the instruction `op` to one operand.
pub fn apply_unary(op: u8, a: u64) -> (r: Num)
    ensures
        r == unary(op, a),
{
    let x: u32 = a as u32;
    if op == 0x45 {
        Num::Value(flag(x == 0))
    } else if op == 0x50 {
        Num::Value(flag(a == 0))
    } else if op == 0x67 {
        Num::Value(x.leading_zeros() as u64)
    } else if op == 0x68 {
        Num::Value(x.trailing_zeros() as u64)
    } else if op == 0x69 {
        Num::Value(count_ones(x as u64))
    } else if op == 0x79 {
        Num::Value(a.leading_zeros() as u64)
    } else if op == 0x7A {
        Num::Value(a.trailing_zeros() as u64)
    } else if op == 0x7B {
        Num::Value(count_ones(a))
    } else if op == 0x8B {
        Num::Value((x & 0x7fff_ffffu32) as u64)
    } else if op == 0x8C {
        Num::Value((x ^ 0x8000_0000u32) as u64)
    } else if op == 0x99 {
        Num::Value(a & 0x7fff_ffff_ffff_ffffu64)
    } else if op == 0x9A {
        Num::Value(a ^ 0x8000_0000_0000_0000u64)
    } else if op == 0xA7 || op == 0xAD || op == 0xBC || op == 0xBE {
        Num::Value(x as u64)
    } else if op == 0xAC {
        Num::Value(((x as i32) as i64) as u64)
    } else if op == 0xBD || op == 0xBF {
        Num::Value(a)
    } else if (0xA8 <= op && op <= 0xAB) || (0xAE <= op && op <= 0xB1) {
        apply_float_truncate(op, a)
    } else if 0xB2 <= op && op <= 0xBB {
        Num::Value(apply_float_convert(op, a))
    } else if 0x8D <= op && op <= 0x90 {
        Num::Value(apply_float_integral(op - 0x8D, a, false))
    } else if 0x9B <= op && op <= 0x9E {
        Num::Value(apply_float_integral(op - 0x9B, a, true))
    } else if op == 0x91 {
        Num::Value(apply_float_sqrt(a, false))
    } else if op == 0x9F {
        Num::Value(apply_float_sqrt(a, true))
    } else {
        Num::Trap(Trap::InvalidCode)
    }
}

/// Applies the instruction `op` to two operands, `a` being the first.
pub fn apply_binary(op: u8, a: u64, b: u64) -> (r: Num)
    ensures
        r == binary(op, a, b),
{
    let x: u32 = a as u32;
    let y: u32 = b as u32;
    if 0x46 <= op && op <= 0x4F {
        Num::Value(flag(compare32_exec(op - 0x46, x, y)))
    } else if 0x51 <= op && op <= 0x5A {
        Num::Value(flag(compare64_exec(op - 0x51, a, b)))
    } else if 0x6A <= op && op <= 0x78 {
        arith32_exec(op - 0x6A, x, y)
    } else if 0x7C <= op && op <= 0x8A {
        arith64_exec(op - 0x7C, a, b)
    } else if op == 0x98 {
        Num::Value(((x & 0x7fff_ffffu32) | (y & 0x8000_0000u32)) as u64)
    } else if op == 0xA6 {
        Num::Value((a & 0x7fff_ffff_ffff_ffffu64) | (b & 0x8000_0000_0000_0000u64))
    } else if (0x5B <= op && op <= 0x66) || op == 0x96 || op == 0x97 || op == 0xA4 || op == 0xA5 {
        Num::Value(apply_float_binary(op, a, b))
    } else if op == 0x94 {
        Num::Value(apply_float_mul(a, b, false))
    } else if op == 0xA2 {
        Num::Value(apply_float_mul(a, b, true))
    } else if op == 0x92 || op == 0x93 {
        Num::Value(apply_float_add(a, b, false, op == 0x93))
    } else if op == 0xA0 || op == 0xA1 {
        Num::Value(apply_float_add(a, b, true, op == 0xA1))
    } else if op == 0x95 {
        Num::Value(apply_float_div(a, b, false))
    } else if op == 0xA3 {
        Num::Value(apply_float_div(a, b, true))
    } else {
        Num::Trap(Trap::InvalidCode)
    }
}

} // verus!
