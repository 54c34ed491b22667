//! The floating-point instructions, on the bits of the floats: a float is
//! taken apart into sign, mantissa and exponent, the result is computed
//! exactly on integers, and rounded to the nearest float, of two that are
//! equally near to the one with the even mantissa. A NaN that comes out of
//! arithmetic is the quiet NaN without a payload.
use vstd::prelude::*;
use crate::leb128::{pow2, lemma_pow2_64, lemma_pow2_monotonic, lemma_pow2_step};
use crate::numeric::{Num, bit};
use crate::value::Trap;

verus! {

/// The quiet NaN with no payload, of 32 and of 64 bits.
pub const NAN32: u32 = 0x7fc0_0000;

/// The quiet NaN of 64 bits with no payload.
pub const NAN64: u64 = 0x7ff8_0000_0000_0000;

/// A float taken apart: its sign, whether it is an infinity or a NaN, and
/// otherwise its magnitude as `mantissa` times two to the `exponent`.
pub struct Parts {
    pub negative: bool,
    pub special: bool,
    pub nan: bool,
    pub mantissa: int,
    pub exponent: int,
}

/// The parts of a 32-bit float: 1 bit of sign, 8 of exponent with a bias
/// of 127, 23 of fraction.
pub open spec fn parts32(b: u32) -> Parts {
    let e = (b / 0x80_0000) % 0x100;
    let f = b % 0x80_0000;
    Parts {
        negative: b >= 0x8000_0000,
        special: e == 0xff,
        nan: e == 0xff && f != 0,
        mantissa: if e == 0 {
            f as int
        } else {
            f + 0x80_0000
        },
        exponent: if e == 0 {
            -149
        } else {
            e - 150
        },
    }
}

/// The parts of a 64-bit float: 1 bit of sign, 11 of exponent with a bias
/// of 1023, 52 of fraction.
pub open spec fn parts64(b: u64) -> Parts {
    let e = (b / 0x10_0000_0000_0000) % 0x800;
    let f = b % 0x10_0000_0000_0000;
    Parts {
        negative: b >= 0x8000_0000_0000_0000,
        special: e == 0x7ff,
        nan: e == 0x7ff && f != 0,
        mantissa: if e == 0 {
            f as int
        } else {
            f + 0x10_0000_0000_0000
        },
        exponent: if e == 0 {
            -1074
        } else {
            e - 1075
        },
    }
}

/// An integer that orders the floats that are no NaN as their values do:
/// the bits below the sign, negated for a negative float. Both zeros are 0.
pub open spec fn rank32(b: u32) -> int {
    if b >= 0x8000_0000 {
        -(b - 0x8000_0000)
    } else {
        b as int
    }
}

/// As `rank32`, for 64-bit floats.
pub open spec fn rank64(b: u64) -> int {
    if b >= 0x8000_0000_0000_0000 {
        -(b - 0x8000_0000_0000_0000)
    } else {
        b as int
    }
}

/// The comparisons in the order of their opcodes: eq, ne, lt, gt, le, ge.
/// With a NaN among the operands only `ne` holds.
pub open spec fn compare(k: u8, nan: bool, x: int, y: int) -> bool {
    if nan {
        k == 1
    } else if k == 0 {
        x == y
    } else if k == 1 {
        x != y
    } else if k == 2 {
        x < y
    } else if k == 3 {
        x > y
    } else if k == 4 {
        x <= y
    } else {
        x >= y
    }
}

/// The smaller of two 32-bit floats, or the larger: a NaN if one of them
/// is a NaN, and of the two zeros the negative is the smaller.
pub open spec fn least32(a: u32, b: u32, largest: bool) -> u32 {
    if parts32(a).nan || parts32(b).nan {
        NAN32
    } else if rank32(a) == rank32(b) {
        if largest {
            a & b
        } else {
            a | b
        }
    } else if (rank32(a) < rank32(b)) != largest {
        a
    } else {
        b
    }
}

/// As `least32`, for 64-bit floats.
pub open spec fn least64(a: u64, b: u64, largest: bool) -> u64 {
    if parts64(a).nan || parts64(b).nan {
        NAN64
    } else if rank64(a) == rank64(b) {
        if largest {
            a & b
        } else {
            a | b
        }
    } else if (rank64(a) < rank64(b)) != largest {
        a
    } else {
        b
    }
}

/// The magnitude without what follows the point.
pub open spec fn whole(p: Parts) -> int {
    if p.exponent >= 0 {
        p.mantissa * pow2(p.exponent)
    } else {
        p.mantissa / pow2(-p.exponent)
    }
}

/// The float truncated to an integer of `width` bits: a trap for an
/// infinity, a NaN, and a value that has no such integer.
pub open spec fn truncate(p: Parts, signed: bool, width: int) -> Num {
    let v = if p.negative {
        -whole(p)
    } else {
        whole(p)
    };
    let low = if signed {
        -pow2(width - 1)
    } else {
        0
    };
    let high = if signed {
        pow2(width - 1)
    } else {
        pow2(width)
    };
    if p.special || v < low || v >= high {
        Num::Trap(Trap::InvalidConversion)
    } else if v < 0 {
        Num::Value((v + pow2(width)) as u64)
    } else {
        Num::Value(v as u64)
    }
}

/// Whether `op` compares two floats, takes the smaller or larger of two,
/// or truncates one.
pub open spec fn compares(op: u8) -> bool {
    0x5B <= op <= 0x66
}

/// Whether `op` takes the smaller or the larger of two floats.
pub open spec fn selects(op: u8) -> bool {
    op == 0x96 || op == 0x97 || op == 0xA4 || op == 0xA5
}

/// Whether `op` truncates a float to an integer.
pub open spec fn truncates(op: u8) -> bool {
    0xA8 <= op <= 0xAB || 0xAE <= op <= 0xB1
}

/// A comparison, minimum or maximum of two floats.
pub open spec fn float_binary(op: u8, a: u64, b: u64) -> u64 {
    let x = a as u32;
    let y = b as u32;
    if op <= 0x60 {
        bit(compare((op - 0x5B) as u8, parts32(x).nan || parts32(y).nan, rank32(x), rank32(y)))
    } else if op <= 0x66 {
        bit(compare((op - 0x61) as u8, parts64(a).nan || parts64(b).nan, rank64(a), rank64(b)))
    } else if op <= 0x97 {
        least32(x, y, op == 0x97) as u64
    } else {
        least64(a, b, op == 0xA5)
    }
}

/// A truncation: the result has 32 bits for the opcodes up to 0xAB and 64
/// after; of each four, the first two take a 32-bit float; of each two,
/// the first is signed.
pub open spec fn float_truncate(op: u8, a: u64) -> Num {
    let k = if op <= 0xAB {
        (op - 0xA8) as int
    } else {
        (op - 0xAE) as int
    };
    truncate(
        if k < 2 {
            parts32(a as u32)
        } else {
            parts64(a)
        },
        k % 2 == 0,
        if op <= 0xAB {
            32
        } else {
            64
        },
    )
}

fn rank32_exec(b: u32) -> (r: i64)
    ensures
        r == rank32(b),
{
    if b >= 0x8000_0000 {
        -((b - 0x8000_0000) as i64)
    } else {
        b as i64
    }
}

fn rank64_exec(b: u64) -> (r: i128)
    ensures
        r == rank64(b),
{
    if b >= 0x8000_0000_0000_0000 {
        -((b - 0x8000_0000_0000_0000) as i128)
    } else {
        b as i128
    }
}

fn is_nan32(b: u32) -> (r: bool)
    ensures
        r == parts32(b).nan,
{
    (b / 0x80_0000) % 0x100 == 0xff && b % 0x80_0000 != 0
}

fn is_nan64(b: u64) -> (r: bool)
    ensures
        r == parts64(b).nan,
{
    (b / 0x10_0000_0000_0000) % 0x800 == 0x7ff && b % 0x10_0000_0000_0000 != 0
}

fn compare_exec(k: u8, nan: bool, x: i128, y: i128) -> (r: bool)
    ensures
        r == compare(k, nan, x as int, y as int),
{
    if nan {
        k == 1
    } else if k == 0 {
        x == y
    } else if k == 1 {
        x != y
    } else if k == 2 {
        x < y
    } else if k == 3 {
        x > y
    } else if k == 4 {
        x <= y
    } else {
        x >= y
    }
}

/// Compares two floats, or takes the smaller or larger.
pub fn apply_float_binary(op: u8, a: u64, b: u64) -> (r: u64)
    requires
        compares(op) || selects(op),
    ensures
        r == float_binary(op, a, b),
{
    let x: u32 = a as u32;
    let y: u32 = b as u32;
    if op <= 0x60 {
        let c = compare_exec(
            op - 0x5B,
            is_nan32(x) || is_nan32(y),
            rank32_exec(x) as i128,
            rank32_exec(y) as i128,
        );
        if c {
            1
        } else {
            0
        }
    } else if op <= 0x66 {
        let c = compare_exec(op - 0x61, is_nan64(a) || is_nan64(b), rank64_exec(a), rank64_exec(b));
        if c {
            1
        } else {
            0
        }
    } else if op <= 0x97 {
        let largest = op == 0x97;
        let r: u32 = if is_nan32(x) || is_nan32(y) {
            NAN32
        } else if rank32_exec(x) == rank32_exec(y) {
            if largest {
                x & y
            } else {
                x | y
            }
        } else if (rank32_exec(x) < rank32_exec(y)) != largest {
            x
        } else {
            y
        };
        r as u64
    } else {
        let largest = op == 0xA5;
        if is_nan64(a) || is_nan64(b) {
            NAN64
        } else if rank64_exec(a) == rank64_exec(b) {
            if largest {
                a & b
            } else {
                a | b
            }
        } else if (rank64_exec(a) < rank64_exec(b)) != largest {
            a
        } else {
            b
        }
    }
}

/// Truncates the float with the given parts to an integer of `width` bits.
#[verifier::rlimit(50)]
fn truncate_exec(
    negative: bool,
    special: bool,
    mantissa: u64,
    exponent: i32,
    signed: bool,
    width: u32,
)
    -> (r: Num)
    requires
        mantissa < 0x20_0000_0000_0000,
        exponent >= 0 ==> mantissa >= 1,
        -2000 < exponent < 2000,
        width == 32 || width == 64,
    ensures
        r == truncate(
            Parts { negative, special, nan: false, mantissa: mantissa as int, exponent: exponent as int },
            signed,
            width as int,
        ),
{
    let ghost p = Parts {
        negative,
        special,
        nan: false,
        mantissa: mantissa as int,
        exponent: exponent as int,
    };
    proof {
        lemma_pow2_64();
    }
    if special {
        return Num::Trap(Trap::InvalidConversion);
    }
    let magnitude: u128 = if exponent >= 64 {
        proof {
            lemma_pow2_monotonic(64, exponent as int);
            lemma_pow2_monotonic(width as int, 64);
            assert(mantissa * pow2(exponent as int) >= pow2(64)) by (nonlinear_arith)
                requires
                    mantissa >= 1,
                    pow2(exponent as int) >= pow2(64),
                    pow2(64) > 0,
            ;
            if signed {
                lemma_pow2_monotonic(width as int - 1, 64);
            }
        }
        return Num::Trap(Trap::InvalidConversion);
    } else if exponent >= 0 {
        let f: u128 = power(exponent as u32);
        proof {
            lemma_pow2_monotonic(exponent as int, 64);
            assert(mantissa * f <= 0x20_0000_0000_0000 * 0x1_0000_0000_0000_0000) by (nonlinear_arith)
                requires
                    0 <= mantissa < 0x20_0000_0000_0000,
                    0 <= f <= 0x1_0000_0000_0000_0000,
            ;
        }
        mantissa as u128 * f
    } else if exponent <= -64 {
        proof {
            lemma_pow2_monotonic(64, -(exponent as int));
            assert(mantissa as int / pow2(-(exponent as int)) == 0) by (nonlinear_arith)
                requires
                    0 <= mantissa < 0x1_0000_0000_0000_0000,
                    pow2(-(exponent as int)) >= 0x1_0000_0000_0000_0000,
            ;
        }
        0
    } else {
        let f: u128 = power((-exponent) as u32);
        proof {
            lemma_pow2_step(-(exponent as int));
        }
        mantissa as u128 / f
    };
    assert(magnitude == whole(p));
    assert(magnitude <= 0x20_0000_0000_0000 * 0x1_0000_0000_0000_0000);
    let v: i128 = if negative {
        -(magnitude as i128)
    } else {
        magnitude as i128
    };
    let (low, high): (i128, i128) = if width == 32 {
        if signed {
            (-0x8000_0000, 0x8000_0000)
        } else {
            (0, 0x1_0000_0000)
        }
    } else {
        if signed {
            (-0x8000_0000_0000_0000, 0x8000_0000_0000_0000)
        } else {
            (0, 0x1_0000_0000_0000_0000)
        }
    };
    if v < low || v >= high {
        Num::Trap(Trap::InvalidConversion)
    } else if v < 0 {
        if width == 32 {
            Num::Value((v + 0x1_0000_0000) as u64)
        } else {
            Num::Value((v + 0x1_0000_0000_0000_0000) as u64)
        }
    } else {
        Num::Value(v as u64)
    }
}

/// Truncates a float to an integer.
pub fn apply_float_truncate(op: u8, a: u64) -> (r: Num)
    requires
        truncates(op),
    ensures
        r == float_truncate(op, a),
{
    let k: u8 = if op <= 0xAB {
        op - 0xA8
    } else {
        op - 0xAE
    };
    let width: u32 = if op <= 0xAB {
        32
    } else {
        64
    };
    if k < 2 {
        let b: u32 = a as u32;
        let e: u32 = (b / 0x80_0000) % 0x100;
        let f: u32 = b % 0x80_0000;
        let mantissa: u64 = if e == 0 {
            f as u64
        } else {
            f as u64 + 0x80_0000
        };
        let exponent: i32 = if e == 0 {
            -149
        } else {
            e as i32 - 150
        };
        truncate_exec(b >= 0x8000_0000, e == 0xff, mantissa, exponent, k % 2 == 0, width)
    } else {
        let e: u64 = (a / 0x10_0000_0000_0000) % 0x800;
        let f: u64 = a % 0x10_0000_0000_0000;
        let mantissa: u64 = if e == 0 {
            f
        } else {
            f + 0x10_0000_0000_0000
        };
        let exponent: i32 = if e == 0 {
            -1074
        } else {
            e as i32 - 1075
        };
        truncate_exec(a >= 0x8000_0000_0000_0000, e == 0x7ff, mantissa, exponent, k % 2 == 0, width)
    }
}

/// The number of bits of a natural number.
pub open spec fn bit_length(m: int) -> int
    decreases m,
{
    if m <= 0 {
        0
    } else {
        1 + bit_length(m / 2)
    }
}

/// The number of fraction bits of a format: 23, or 52 for the wide one.
pub open spec fn frac_bits(wide: bool) -> int {
    if wide {
        52
    } else {
        23
    }
}

/// The exponent of the smallest positive float of a format.
pub open spec fn unit(wide: bool) -> int {
    if wide {
        -1074
    } else {
        -149
    }
}

/// The exponent field of the infinities and NaNs of a format.
pub open spec fn top(wide: bool) -> int {
    if wide {
        0x7ff
    } else {
        0xff
    }
}

/// The bit of the sign of a format, set for a negative float.
pub open spec fn sign_bit(negative: bool, wide: bool) -> int {
    if !negative {
        0
    } else if wide {
        0x8000_0000_0000_0000
    } else {
        0x8000_0000
    }
}

/// The bits of the float with the mantissa `q` in units of two to the `e`,
/// where `q` has at most one bit more than the fraction, or is the power
/// of two after that: the exponent field counts from the smallest unit,
/// and the leading bit of the mantissa carries into it. What is too large
/// is an infinity.
pub open spec fn pack(negative: bool, q: int, e: int, wide: bool) -> u64 {
    let body = (e - unit(wide)) * pow2(frac_bits(wide)) + q;
    if body >= top(wide) * pow2(frac_bits(wide)) {
        (sign_bit(negative, wide) + top(wide) * pow2(frac_bits(wide))) as u64
    } else {
        (sign_bit(negative, wide) + body) as u64
    }
}

/// The float nearest to `m` times two to the `e`, of two that are equally
/// near the one with the even mantissa: the low bits of `m` that the
/// format has no room for are dropped, and the rest is raised by one if
/// they are more than half a unit, or half a unit and the rest is odd.
/// With `sticky` the exact value is a little more than `m` says, which
/// matters only for a tie. Zero keeps its sign.
pub open spec fn rounded(negative: bool, m: int, e: int, sticky: bool, wide: bool) -> u64 {
    let shift = if bit_length(m) - frac_bits(wide) - 1 >= unit(wide) - e {
        bit_length(m) - frac_bits(wide) - 1
    } else {
        unit(wide) - e
    };
    if m <= 0 {
        sign_bit(negative, wide) as u64
    } else if shift <= 0 {
        pack(negative, m * pow2(-shift), e + shift, wide)
    } else {
        let q = m / pow2(shift);
        let r = m % pow2(shift);
        let half = pow2(shift - 1);
        if r > half || (r == half && (sticky || q % 2 == 1)) {
            pack(negative, q + 1, e + shift, wide)
        } else {
            pack(negative, q, e + shift, wide)
        }
    }
}

/// The parts of a float of either format.
pub open spec fn parts(b: u64, wide: bool) -> Parts {
    if wide {
        parts64(b)
    } else {
        parts32(b as u32)
    }
}

/// The quiet NaN of a format.
pub open spec fn nan(wide: bool) -> u64 {
    if wide {
        NAN64
    } else {
        NAN32 as u64
    }
}

/// Whether `op` converts an integer to a float, or a float to the other
/// format.
pub open spec fn converts(op: u8) -> bool {
    0xB2 <= op <= 0xBB
}

/// A conversion to a float. Of the conversions from integers, each
/// format has four: from 32 bits signed and unsigned, then from 64 bits.
/// A float that changes its format keeps its value if the new format has
/// it, and is rounded otherwise; a NaN becomes the quiet NaN.
pub open spec fn float_convert(op: u8, a: u64) -> u64 {
    if op == 0xB6 || op == 0xBB {
        let wide = op == 0xBB;
        let p = parts(a, !wide);
        if p.nan {
            nan(wide)
        } else if p.special {
            (sign_bit(p.negative, wide) + top(wide) * pow2(frac_bits(wide))) as u64
        } else {
            rounded(p.negative, p.mantissa, p.exponent, false, wide)
        }
    } else {
        let wide = op >= 0xB7;
        let k = if wide {
            (op - 0xB7) as int
        } else {
            (op - 0xB2) as int
        };
        let v: int = if k == 0 {
            (a as u32) as i32 as int
        } else if k == 1 {
            (a as u32) as int
        } else if k == 2 {
            a as i64 as int
        } else {
            a as int
        };
        rounded(
            v < 0,
            if v < 0 {
                -v
            } else {
                v
            },
            0,
            false,
            wide,
        )
    }
}

/// Two to the power `k`, for the exponents that fit.
fn power(k: u32) -> (r: u128)
    requires
        k <= 127,
    ensures
        r == pow2(k as int),
        r >= 1,
{
    let mut p: u128 = 1;
    let mut i: u32 = 0;
    proof {
        lemma_pow2_127();
    }
    while i < k
        invariant
            i <= k <= 127,
            p == pow2(i as int),
            p >= 1,
            pow2(127) == 0x8000_0000_0000_0000_0000_0000_0000_0000,
        decreases k - i,
    {
        proof {
            lemma_pow2_monotonic(i as int + 1, 127);
        }
        p = p * 2;
        i = i + 1;
    }
    p
}

/// The largest power of two that 128 bits hold.
pub proof fn lemma_pow2_127()
    ensures
        pow2(127) == 0x8000_0000_0000_0000_0000_0000_0000_0000,
        pow2(120) == 0x100_0000_0000_0000_0000_0000_0000_0000,
{
    lemma_pow2_64();
    lemma_pow2_sum(64, 63);
    lemma_pow2_sum(64, 56);
    reveal_with_fuel(pow2, 8);
    assert(pow2(56) * 128 == pow2(63)) by {
        lemma_pow2_step(56);
    }
}

/// The power of a sum is the product of the powers.
pub proof fn lemma_pow2_sum(a: int, b: int)
    requires
        a >= 0,
        b >= 0,
    ensures
        pow2(a + b) == pow2(a) * pow2(b),
    decreases b,
{
    if b > 0 {
        lemma_pow2_sum(a, b - 1);
        assert(pow2(a + b) == 2 * pow2(a + b - 1));
        assert(2 * (pow2(a) * pow2(b - 1)) == pow2(a) * (2 * pow2(b - 1))) by (nonlinear_arith);
    } else {
        assert(pow2(a) * 1 == pow2(a));
    }
}

/// A number is below two to the power of its number of bits, and not
/// below the power before.
pub proof fn lemma_bit_length(m: int)
    requires
        m >= 0,
    ensures
        bit_length(m) >= 0,
        m < pow2(bit_length(m)),
        m > 0 ==> pow2(bit_length(m) - 1) <= m,
    decreases m,
{
    if m > 0 {
        lemma_bit_length(m / 2);
        if m / 2 > 0 {
            assert(pow2(bit_length(m) - 1) == 2 * pow2(bit_length(m / 2) - 1));
        }
    }
}

/// Counts the bits of a number.
fn count_bits(m: u128) -> (r: u32)
    ensures
        r == bit_length(m as int),
        r <= 128,
{
    let mut v: u128 = m;
    let mut n: u32 = 0;
    proof {
        lemma_bit_length(m as int);
        lemma_pow2_127();
        if bit_length(m as int) > 128 {
            lemma_pow2_monotonic(128, bit_length(m as int) - 1);
            assert(pow2(128) == 2 * pow2(127));
        }
    }
    while v != 0
        invariant
            bit_length(m as int) == n + bit_length(v as int),
            bit_length(m as int) <= 128,
            bit_length(v as int) >= 0,
        decreases v,
    {
        proof {
            lemma_bit_length(v as int / 2);
        }
        v = v / 2;
        n = n + 1;
    }
    n
}

/// Dropping `s` bits of a number of `n` bits leaves `n - s` bits.
proof fn lemma_dropped(m: int, n: int, s: int)
    requires
        0 <= m < pow2(n),
        0 <= s <= n,
    ensures
        m / pow2(s) < pow2(n - s),
        0 <= m / pow2(s),
{
    lemma_pow2_sum(s, n - s);
    lemma_pow2_step(s);
    let a = pow2(s);
    let b = pow2(n - s);
    assert(m / a < b && 0 <= m / a) by (nonlinear_arith)
        requires
            0 <= m < a * b,
            a >= 1,
    ;
}

/// A number below a power of two has nothing above it.
proof fn lemma_below(m: int, s: int)
    requires
        0 <= m < pow2(s),
    ensures
        m / pow2(s) == 0,
        m % pow2(s) == m,
{
    vstd::arithmetic::div_mod::lemma_small_mod(m as nat, pow2(s) as nat);
    vstd::arithmetic::div_mod::lemma_basic_div(m, pow2(s));
}

/// Appending `k` zero bits to a number of `n` bits gives `n + k` bits.
proof fn lemma_appended(m: int, n: int, k: int)
    requires
        0 <= m < pow2(n),
        0 <= n,
        0 <= k,
    ensures
        m * pow2(k) < pow2(n + k),
        0 <= m * pow2(k),
{
    lemma_pow2_sum(n, k);
    lemma_pow2_step(k);
    let a = pow2(n);
    let b = pow2(k);
    assert(m * b < a * b && 0 <= m * b) by (nonlinear_arith)
        requires
            0 <= m < a,
            b >= 1,
    ;
}

fn pack_exec(negative: bool, q: u128, e: i32, wide: bool) -> (r: u64)
    requires
        q <= pow2(frac_bits(wide) + 1),
        unit(wide) <= e <= 8000,
    ensures
        r == pack(negative, q as int, e as int, wide),
{
    let f: u32 = if wide {
        52
    } else {
        23
    };
    let least: i32 = if wide {
        -1074
    } else {
        -149
    };
    let most: u128 = if wide {
        0x7ff
    } else {
        0xff
    };
    let sign: u128 = if !negative {
        0
    } else if wide {
        0x8000_0000_0000_0000
    } else {
        0x8000_0000
    };
    let scale: u128 = power(f);
    proof {
        lemma_pow2_64();
        lemma_pow2_sum(32, 20);
        lemma_pow2_sum(20, 3);
        reveal_with_fuel(pow2, 21);
        assert(pow2(20) == 0x10_0000);
        assert(pow2(23) == 0x80_0000);
        assert(pow2(52) == 0x10_0000_0000_0000);
        assert(pow2(53) == 2 * pow2(52));
        assert(pow2(24) == 2 * pow2(23));
    }
    let field: u128 = (e - least) as u128;
    assert(field * scale <= 10000 * 0x10_0000_0000_0000) by (nonlinear_arith)
        requires
            0 <= field <= 10000,
            0 <= scale <= 0x10_0000_0000_0000,
    ;
    let body: u128 = field * scale + q;
    if body >= most * scale {
        (sign + most * scale) as u64
    } else {
        (sign + body) as u64
    }
}

/// Rounds `m` times two to the `e` to the nearest float.
fn round_exec(negative: bool, m: u128, e: i32, sticky: bool, wide: bool) -> (r: u64)
    requires
        m < pow2(120),
        -4000 <= e <= 4000,
    ensures
        r == rounded(negative, m as int, e as int, sticky, wide),
{
    let n: i32 = count_bits(m) as i32;
    let f: i32 = if wide {
        52
    } else {
        23
    };
    let least: i32 = if wide {
        -1074
    } else {
        -149
    };
    proof {
        lemma_bit_length(m as int);
        lemma_pow2_127();
        if n > 120 {
            lemma_pow2_monotonic(120, n as int - 1);
        }
    }
    let shift: i32 = if n - f - 1 >= least - e {
        n - f - 1
    } else {
        least - e
    };
    if m == 0 {
        if !negative {
            0
        } else if wide {
            0x8000_0000_0000_0000
        } else {
            0x8000_0000
        }
    } else if shift <= 0 {
        proof {
            lemma_appended(m as int, n as int, -(shift as int));
            lemma_pow2_monotonic(n as int - shift as int, f as int + 1);
            lemma_pow2_monotonic(f as int + 1, 127);
        }
        let q: u128 = m * power((-shift) as u32);
        pack_exec(negative, q, e + shift, wide)
    } else if shift >= 122 {
        proof {
            lemma_pow2_monotonic(120, shift as int - 1);
            lemma_pow2_monotonic(120, shift as int);
            lemma_below(m as int, shift as int);
            lemma_pow2_step(f as int + 1);
        }
        pack_exec(negative, 0, least, wide)
    } else {
        let d: u128 = power(shift as u32);
        let half: u128 = power((shift - 1) as u32);
        let q: u128 = m / d;
        let r: u128 = m % d;
        proof {
            if shift <= n {
                lemma_dropped(m as int, n as int, shift as int);
                lemma_pow2_monotonic(n as int - shift as int, f as int + 1);
            } else {
                lemma_pow2_monotonic(n as int, shift as int);
                lemma_below(m as int, shift as int);
                lemma_pow2_step(f as int + 1);
            }
        }
        let up = r > half || (r == half && (sticky || q % 2 == 1));
        pack_exec(
            negative,
            if up {
                q + 1
            } else {
                q
            },
            e + shift,
            wide,
        )
    }
}

/// Takes a float apart.
fn take_apart(b: u64, wide: bool) -> (r: (bool, bool, bool, u64, i32))
    ensures
        r.0 == parts(b, wide).negative,
        r.1 == parts(b, wide).special,
        r.2 == parts(b, wide).nan,
        r.3 == parts(b, wide).mantissa,
        r.4 == parts(b, wide).exponent,
        r.3 < 0x20_0000_0000_0000,
        unit(wide) <= r.4 <= 972,
        !r.1 ==> r.4 < 972,
        r.4 > unit(wide) ==> r.3 >= pow2(frac_bits(wide)),
        r.3 < pow2(frac_bits(wide) + 1),
{
    proof {
        lemma_pow2_64();
        lemma_pow2_sum(32, 20);
        lemma_pow2_sum(20, 3);
        reveal_with_fuel(pow2, 21);
        assert(pow2(20) == 0x10_0000);
        assert(pow2(23) == 0x80_0000);
        assert(pow2(52) == 0x10_0000_0000_0000);
        assert(pow2(53) == 2 * pow2(52));
        assert(pow2(24) == 2 * pow2(23));
    }
    if wide {
        let e: u64 = (b / 0x10_0000_0000_0000) % 0x800;
        let f: u64 = b % 0x10_0000_0000_0000;
        (
            b >= 0x8000_0000_0000_0000,
            e == 0x7ff,
            e == 0x7ff && f != 0,
            if e == 0 {
                f
            } else {
                f + 0x10_0000_0000_0000
            },
            if e == 0 {
                -1074
            } else {
                e as i32 - 1075
            },
        )
    } else {
        let x: u32 = b as u32;
        let e: u32 = (x / 0x80_0000) % 0x100;
        let f: u32 = x % 0x80_0000;
        (
            x >= 0x8000_0000,
            e == 0xff,
            e == 0xff && f != 0,
            if e == 0 {
                f as u64
            } else {
                f as u64 + 0x80_0000
            },
            if e == 0 {
                -149
            } else {
                e as i32 - 150
            },
        )
    }
}

/// The infinity of a format with the given sign.
fn infinity(negative: bool, wide: bool) -> (r: u64)
    ensures
        r == (sign_bit(negative, wide) + top(wide) * pow2(frac_bits(wide))) as u64,
{
    proof {
        lemma_pow2_64();
        lemma_pow2_sum(32, 20);
        lemma_pow2_sum(20, 3);
        reveal_with_fuel(pow2, 21);
        assert(pow2(20) == 0x10_0000);
    }
    if wide {
        if negative {
            0xfff0_0000_0000_0000
        } else {
            0x7ff0_0000_0000_0000
        }
    } else {
        if negative {
            0xff80_0000
        } else {
            0x7f80_0000
        }
    }
}

fn quiet_nan(wide: bool) -> (r: u64)
    ensures
        r == nan(wide),
{
    if wide {
        NAN64
    } else {
        NAN32 as u64
    }
}

/// Converts an integer to a float, or a float to the other format.
pub fn apply_float_convert(op: u8, a: u64) -> (r: u64)
    requires
        converts(op),
    ensures
        r == float_convert(op, a),
{
    proof {
        lemma_pow2_127();
        lemma_pow2_64();
        lemma_pow2_monotonic(64, 120);
    }
    if op == 0xB6 || op == 0xBB {
        let wide = op == 0xBB;
        let (negative, special, nan, mantissa, exponent) = take_apart(a, !wide);
        if nan {
            quiet_nan(wide)
        } else if special {
            infinity(negative, wide)
        } else {
            round_exec(negative, mantissa as u128, exponent, false, wide)
        }
    } else {
        let wide = op >= 0xB7;
        let k: u8 = if wide {
            op - 0xB7
        } else {
            op - 0xB2
        };
        let v: i128 = if k == 0 {
            ((a as u32) as i32) as i128
        } else if k == 1 {
            (a as u32) as i128
        } else if k == 2 {
            (a as i64) as i128
        } else {
            a as i128
        };
        let m: u128 = if v < 0 {
            (-v) as u128
        } else {
            v as u128
        };
        round_exec(v < 0, m, 0, false, wide)
    }
}

/// The product of two floats: a NaN if one of them is a NaN or if zero
/// meets infinity, an infinity if one of them is one, and otherwise the
/// float nearest to the product, with the sign of the product.
pub open spec fn float_mul(a: u64, b: u64, wide: bool) -> u64 {
    let x = parts(a, wide);
    let y = parts(b, wide);
    let negative = x.negative != y.negative;
    if x.nan || y.nan {
        nan(wide)
    } else if x.special || y.special {
        if x.mantissa == 0 || y.mantissa == 0 {
            nan(wide)
        } else {
            (sign_bit(negative, wide) + top(wide) * pow2(frac_bits(wide))) as u64
        }
    } else {
        rounded(negative, x.mantissa * y.mantissa, x.exponent + y.exponent, false, wide)
    }
}

/// A float as it stands in 64 bits: the narrow one in the low half.
pub open spec fn held(a: u64, wide: bool) -> u64 {
    if wide {
        a
    } else {
        (a as u32) as u64
    }
}

/// A float rounded to an integer, toward positive infinity (`mode` 0),
/// toward negative infinity (1), toward zero (2), or to the nearest, of
/// two that are equally near the even one (3). The sign stays, also for
/// zero; a NaN becomes the quiet NaN.
pub open spec fn float_integral(mode: u8, a: u64, wide: bool) -> u64 {
    let p = parts(a, wide);
    if p.nan {
        nan(wide)
    } else if p.special || p.exponent >= 0 {
        held(a, wide)
    } else {
        let d = pow2(-p.exponent);
        let i = p.mantissa / d;
        let r = p.mantissa % d;
        let up = if mode == 0 {
            !p.negative && r > 0
        } else if mode == 1 {
            p.negative && r > 0
        } else if mode == 2 {
            false
        } else {
            2 * r > d || (2 * r == d && i % 2 == 1)
        };
        rounded(
            p.negative,
            if up {
                i + 1
            } else {
                i
            },
            0,
            false,
            wide,
        )
    }
}

/// Multiplies two floats.
pub fn apply_float_mul(a: u64, b: u64, wide: bool) -> (r: u64)
    ensures
        r == float_mul(a, b, wide),
{
    let x = take_apart(a, wide);
    let y = take_apart(b, wide);
    let negative = x.0 != y.0;
    if x.2 || y.2 {
        quiet_nan(wide)
    } else if x.1 || y.1 {
        if x.3 == 0 || y.3 == 0 {
            quiet_nan(wide)
        } else {
            infinity(negative, wide)
        }
    } else {
        proof {
            lemma_pow2_127();
            lemma_pow2_64();
            lemma_pow2_sum(64, 56);
            assert(x.3 * y.3 < 0x20_0000_0000_0000 * 0x20_0000_0000_0000) by (nonlinear_arith)
                requires
                    0 <= x.3 < 0x20_0000_0000_0000,
                    0 <= y.3 < 0x20_0000_0000_0000,
            ;
        }
        round_exec(negative, x.3 as u128 * y.3 as u128, x.4 + y.4, false, wide)
    }
}

/// Rounds a float to an integer.
pub fn apply_float_integral(mode: u8, a: u64, wide: bool) -> (r: u64)
    ensures
        r == float_integral(mode, a, wide),
{
    let p = take_apart(a, wide);
    if p.2 {
        quiet_nan(wide)
    } else if p.1 || p.4 >= 0 {
        if wide {
            a
        } else {
            (a as u32) as u64
        }
    } else {
        let k: u32 = (-p.4) as u32;
        let m: u128 = p.3 as u128;
        proof {
            lemma_pow2_127();
            lemma_pow2_64();
            lemma_pow2_monotonic(64, 120);
        }
        let (i, up): (u128, bool) = if k >= 64 {
            proof {
                lemma_pow2_monotonic(64, k as int);
                lemma_below(m as int, k as int);
            }
            (
                0,
                if mode == 0 {
                    !p.0 && m > 0
                } else if mode == 1 {
                    p.0 && m > 0
                } else {
                    false
                },
            )
        } else {
            let d: u128 = power(k);
            let i: u128 = m / d;
            let r: u128 = m % d;
            proof {
                lemma_pow2_monotonic(k as int, 63);
                assert(pow2(64) == 2 * pow2(63));
            }
            (
                i,
                if mode == 0 {
                    !p.0 && r > 0
                } else if mode == 1 {
                    p.0 && r > 0
                } else if mode == 2 {
                    false
                } else {
                    2 * r > d || (2 * r == d && i % 2 == 1)
                },
            )
        };
        round_exec(
            p.0,
            if up {
                i + 1
            } else {
                i
            },
            0,
            false,
            wide,
        )
    }
}

/// A magnitude with its sign.
pub open spec fn signed(negative: bool, m: int) -> int {
    if negative {
        -m
    } else {
        m
    }
}

/// The float nearest to the exact sum of two finite floats, the first
/// with the larger exponent, by `d`. A sum of zero is positive unless
/// both terms are negative.
pub open spec fn sum_of(nl: bool, ml: int, ns: bool, ms: int, es: int, d: int, wide: bool) -> u64 {
    let sum = signed(nl, ml * pow2(d)) + signed(ns, ms);
    if sum == 0 {
        sign_bit(nl && ns, wide) as u64
    } else if sum < 0 {
        rounded(true, -sum, es, false, wide)
    } else {
        rounded(false, sum, es, false, wide)
    }
}

/// The sum of two floats, or the difference: a NaN if one of them is a
/// NaN or if infinities cancel, an infinity if one of them is one, and
/// otherwise the float nearest to the exact sum.
pub open spec fn float_add(a: u64, b: u64, wide: bool, subtract: bool) -> u64 {
    let x = parts(a, wide);
    let y = parts(b, wide);
    let y_negative = y.negative != subtract;
    if x.nan || y.nan {
        nan(wide)
    } else if x.special || y.special {
        if x.special && y.special && x.negative != y_negative {
            nan(wide)
        } else {
            (sign_bit(
                if x.special {
                    x.negative
                } else {
                    y_negative
                },
                wide,
            ) + top(wide) * pow2(frac_bits(wide))) as u64
        }
    } else if x.exponent >= y.exponent {
        sum_of(
            x.negative,
            x.mantissa,
            y_negative,
            y.mantissa,
            y.exponent,
            x.exponent - y.exponent,
            wide,
        )
    } else {
        sum_of(
            y_negative,
            y.mantissa,
            x.negative,
            x.mantissa,
            x.exponent,
            y.exponent - x.exponent,
            wide,
        )
    }
}

/// A number between two powers of two has the bits of the larger.
proof fn lemma_bit_length_is(x: int, k: int)
    requires
        k >= 1,
        pow2(k - 1) <= x < pow2(k),
    ensures
        bit_length(x) == k,
{
    lemma_pow2_step(k - 1);
    lemma_bit_length(x);
    let n = bit_length(x);
    if n < k {
        lemma_pow2_monotonic(n, k - 1);
    } else if n > k {
        lemma_pow2_monotonic(k, n - 1);
    }
}

/// The powers of two around a mantissa that is shifted by `d`.
proof fn lemma_far_powers(f: int, d: int)
    requires
        f >= 1,
        d >= 60,
        f + 4 <= d,
    ensures
        pow2(f + d) == pow2(f) * pow2(d),
        pow2(f + 1 + d) == 2 * (pow2(f) * pow2(d)),
        pow2(f + d - 1) == pow2(f) * pow2(d - 1),
        pow2(d) == 2 * pow2(d - 1),
        pow2(d - 1) == 2 * pow2(d - 2),
        pow2(f + 1) == 2 * pow2(f),
        pow2(f + 1) <= pow2(d - 2),
        pow2(f) >= 1,
        pow2(d - 2) >= 1,
{
    lemma_pow2_sum(f, d);
    lemma_pow2_sum(f, d - 1);
    lemma_pow2_step(d - 2);
    lemma_pow2_step(f);
    lemma_pow2_monotonic(f + 1, d - 2);
    assert(pow2(d) == 2 * pow2(d - 1));
    assert(pow2(d - 1) == 2 * pow2(d - 2));
    assert(pow2(f + 1) == 2 * pow2(f));
    assert(pow2(f + 1 + d) == 2 * pow2(f + d));
}

/// A float is not changed by adding a term that is smaller by more than
/// its precision.
proof fn lemma_far_plus(negative: bool, ml: int, ms: int, d: int, es: int, wide: bool)
    requires
        pow2(frac_bits(wide)) <= ml < pow2(frac_bits(wide) + 1),
        0 <= ms < pow2(frac_bits(wide) + 1),
        d >= 60,
        es >= unit(wide),
    ensures
        rounded(negative, ml * pow2(d) + ms, es, false, wide) == pack(negative, ml, es + d, wide),
{
    let f = frac_bits(wide);
    let big = pow2(d);
    let low = pow2(f);
    let x = ml * big + ms;
    lemma_far_powers(f, d);
    assert(low * big <= ml * big && ml * big + big <= 2 * (low * big)) by (nonlinear_arith)
        requires
            low <= ml,
            ml + 1 <= 2 * low,
            big >= 1,
    ;
    lemma_bit_length_is(x, f + 1 + d);
    vstd::arithmetic::div_mod::lemma_fundamental_div_mod_converse(x, big, ml, ms);
}

/// Nor by subtracting such a term.
proof fn lemma_far_minus(negative: bool, ml: int, ms: int, d: int, es: int, wide: bool)
    requires
        pow2(frac_bits(wide)) <= ml < pow2(frac_bits(wide) + 1),
        0 < ms < pow2(frac_bits(wide) + 1),
        d >= 60,
        es >= unit(wide),
    ensures
        rounded(negative, ml * pow2(d) - ms, es, false, wide) == pack(negative, ml, es + d, wide),
{
    let f = frac_bits(wide);
    let big = pow2(d);
    let part = pow2(d - 1);
    let low = pow2(f);
    let x = ml * big - ms;
    lemma_far_powers(f, d);
    if ml > low {
        assert(low * big <= (ml - 1) * big && (ml - 1) * big + big == ml * big && ml * big <= 2 * (
        low * big)) by (nonlinear_arith)
            requires
                low <= ml - 1,
                ml <= 2 * low,
                big >= 1,
        ;
        assert(x == (ml - 1) * big + (big - ms));
        lemma_bit_length_is(x, f + 1 + d);
        vstd::arithmetic::div_mod::lemma_fundamental_div_mod_converse(x, big, ml - 1, big - ms);
    } else {
        assert(low * big == (2 * low) * part && (2 * low - 1) * part + part == (2 * low) * part
            && low * part + low * part == (2 * low) * part) by (nonlinear_arith)
            requires
                big == 2 * part,
        ;
        assert(x == (2 * low - 1) * part + (part - ms));
        assert(low * part <= x);
        lemma_bit_length_is(x, f + d);
        vstd::arithmetic::div_mod::lemma_fundamental_div_mod_converse(
            x,
            part,
            2 * low - 1,
            part - ms,
        );
        assert(bit_length(x) - f - 1 == d - 1);
        assert((2 * low - 1) + 1 == pow2(f + 1));
        assert((es + d - 1 - unit(wide)) * low + 2 * low == (es + d - unit(wide)) * low + low)
            by (nonlinear_arith);
        assert(pack(negative, 2 * low, es + d - 1, wide) == pack(negative, ml, es + d, wide));
    }
}

/// The sum of two finite floats whose exponents differ by more than 64
/// is the one with the larger exponent.
proof fn lemma_far(nl: bool, ml: int, ns: bool, ms: int, es: int, d: int, wide: bool)
    requires
        pow2(frac_bits(wide)) <= ml < pow2(frac_bits(wide) + 1),
        0 <= ms < pow2(frac_bits(wide) + 1),
        d >= 60,
        es >= unit(wide),
    ensures
        sum_of(nl, ml, ns, ms, es, d, wide) == pack(nl, ml, es + d, wide),
{
    let f = frac_bits(wide);
    lemma_far_powers(f, d);
    assert(ml * pow2(d) >= pow2(d)) by (nonlinear_arith)
        requires
            ml >= 1,
            pow2(d) >= 1,
    ;
    if nl == ns || ms == 0 {
        lemma_far_plus(nl, ml, ms, d, es, wide);
    } else {
        lemma_far_minus(nl, ml, ms, d, es, wide);
    }
}

/// Adds two finite floats, the first with the larger exponent.
fn add_finite(nl: bool, ml: u64, el: i32, ns: bool, ms: u64, es: i32, wide: bool) -> (r: u64)
    requires
        ml < pow2(frac_bits(wide) + 1),
        ms < pow2(frac_bits(wide) + 1),
        unit(wide) <= es <= el <= 972,
        el > unit(wide) ==> ml >= pow2(frac_bits(wide)),
    ensures
        r == sum_of(nl, ml as int, ns, ms as int, es as int, el - es, wide),
{
    let d: i32 = el - es;
    proof {
        lemma_pow2_127();
        lemma_pow2_64();
        lemma_pow2_sum(64, 53);
        lemma_pow2_sum(32, 21);
        reveal_with_fuel(pow2, 22);
        assert(pow2(53) == 0x20_0000_0000_0000);
        lemma_pow2_monotonic(frac_bits(wide) + 1, 53);
        lemma_pow2_monotonic(118, 120);
        assert(pow2(118) == 2 * pow2(117));
    }
    if d > 64 {
        proof {
            lemma_far(nl, ml as int, ns, ms as int, es as int, d as int, wide);
        }
        return pack_exec(nl, ml as u128, el, wide);
    }
    let scale: u128 = power(d as u32);
    proof {
        lemma_pow2_monotonic(d as int, 64);
        assert(ml * scale < 0x20_0000_0000_0000 * 0x1_0000_0000_0000_0000) by (nonlinear_arith)
            requires
                0 <= ml < 0x20_0000_0000_0000,
                0 <= scale <= 0x1_0000_0000_0000_0000,
        ;
    }
    let a: i128 = (ml as u128 * scale) as i128;
    let b: i128 = ms as i128;
    let sum: i128 = (if nl {
        -a
    } else {
        a
    }) + (if ns {
        -b
    } else {
        b
    });
    if sum == 0 {
        if !(nl && ns) {
            0
        } else if wide {
            0x8000_0000_0000_0000
        } else {
            0x8000_0000
        }
    } else if sum < 0 {
        round_exec(true, (-sum) as u128, es, false, wide)
    } else {
        round_exec(false, sum as u128, es, false, wide)
    }
}

/// Adds two floats, or subtracts the second from the first.
pub fn apply_float_add(a: u64, b: u64, wide: bool, subtract: bool) -> (r: u64)
    ensures
        r == float_add(a, b, wide, subtract),
{
    let x = take_apart(a, wide);
    let y = take_apart(b, wide);
    let y_negative = y.0 != subtract;
    if x.2 || y.2 {
        quiet_nan(wide)
    } else if x.1 || y.1 {
        if x.1 && y.1 && x.0 != y_negative {
            quiet_nan(wide)
        } else {
            infinity(
                if x.1 {
                    x.0
                } else {
                    y_negative
                },
                wide,
            )
        }
    } else if x.4 >= y.4 {
        add_finite(x.0, x.3, x.4, y_negative, y.3, y.4, wide)
    } else {
        add_finite(y_negative, y.3, y.4, x.0, x.3, x.4, wide)
    }
}

/// The quotient of two floats: a NaN if one of them is a NaN, and for
/// zero by zero and infinity by infinity; an infinity for an infinity by
/// a finite float and for a float that is not zero by zero; zero for a
/// finite float by an infinity; and otherwise the float nearest to the
/// exact quotient. The dividend is scaled to 110 bits, so that the
/// quotient of the mantissas has more bits than a float holds, and what is
/// left over counts as a little more.
pub open spec fn float_div(a: u64, b: u64, wide: bool) -> u64 {
    let x = parts(a, wide);
    let y = parts(b, wide);
    let negative = x.negative != y.negative;
    if x.nan || y.nan || (x.special && y.special) || (x.mantissa == 0 && y.mantissa == 0
        && !x.special && !y.special) {
        nan(wide)
    } else if x.special || y.mantissa == 0 {
        (sign_bit(negative, wide) + top(wide) * pow2(frac_bits(wide))) as u64
    } else if y.special || x.mantissa == 0 {
        sign_bit(negative, wide) as u64
    } else {
        let s = 110 - bit_length(x.mantissa);
        let n = x.mantissa * pow2(s);
        rounded(
            negative,
            n / y.mantissa,
            x.exponent - y.exponent - s,
            n % y.mantissa != 0,
            wide,
        )
    }
}

/// The largest integer whose square is at most `n`.
pub open spec fn root(n: int) -> int
    decreases n,
{
    if n < 1 {
        0
    } else {
        let r = 2 * root(n / 4);
        if (r + 1) * (r + 1) <= n {
            r + 1
        } else {
            r
        }
    }
}

/// The root is the largest integer whose square is at most `n`.
pub proof fn lemma_root(n: int)
    requires
        n >= 0,
    ensures
        root(n) >= 0,
        root(n) * root(n) <= n,
        n < (root(n) + 1) * (root(n) + 1),
    decreases n,
{
    if n >= 1 {
        lemma_root(n / 4);
        let h = root(n / 4);
        let q = n / 4;
        assert((2 * h) * (2 * h) <= n && n < (2 * h + 2) * (2 * h + 2)) by (nonlinear_arith)
            requires
                h >= 0,
                h * h <= q,
                q < (h + 1) * (h + 1),
                4 * q <= n < 4 * q + 4,
        ;
    }
}

/// The square root of a float: a NaN for a NaN and for a negative float,
/// the float itself for a zero and the positive infinity, and otherwise the
/// float nearest to the exact root. The mantissa is scaled to 110 or 111
/// bits, so that the exponent is even; what the root of the mantissa
/// leaves over counts as a little more.
pub open spec fn float_sqrt(a: u64, wide: bool) -> u64 {
    let x = parts(a, wide);
    if x.nan || (x.negative && (x.special || x.mantissa != 0)) {
        nan(wide)
    } else if x.special || x.mantissa == 0 {
        held(a, wide)
    } else {
        let s0 = 110 - bit_length(x.mantissa);
        let s = if (x.exponent - s0 + 4000) % 2 == 0 {
            s0
        } else {
            s0 + 1
        };
        let n = x.mantissa * pow2(s);
        rounded(false, root(n), (x.exponent - s + 4000) / 2 - 2000, root(n) * root(n) != n, wide)
    }
}

/// Divides two floats.
pub fn apply_float_div(a: u64, b: u64, wide: bool) -> (r: u64)
    ensures
        r == float_div(a, b, wide),
{
    let x = take_apart(a, wide);
    let y = take_apart(b, wide);
    let negative = x.0 != y.0;
    if x.2 || y.2 || (x.1 && y.1) || (x.3 == 0 && y.3 == 0 && !x.1 && !y.1) {
        quiet_nan(wide)
    } else if x.1 || y.3 == 0 {
        infinity(negative, wide)
    } else if y.1 || x.3 == 0 {
        if !negative {
            0
        } else if wide {
            0x8000_0000_0000_0000
        } else {
            0x8000_0000
        }
    } else {
        let bits: u32 = count_bits(x.3 as u128);
        proof {
            lemma_bit_length(x.3 as int);
            lemma_pow2_127();
            lemma_pow2_64();
            lemma_pow2_sum(32, 21);
            reveal_with_fuel(pow2, 22);
            assert(pow2(53) == 0x20_0000_0000_0000);
            if bits > 53 {
                lemma_pow2_monotonic(53, bits as int - 1);
            }
            lemma_appended(x.3 as int, bits as int, 110 - bits as int);
            lemma_pow2_monotonic(110, 120);
        }
        let s: u32 = 110 - bits;
        let n: u128 = x.3 as u128 * power(s);
        let q: u128 = n / (y.3 as u128);
        let rest: u128 = n % (y.3 as u128);
        assert(q <= n) by (nonlinear_arith)
            requires
                q == n / (y.3 as u128),
                y.3 >= 1,
                n >= 0,
        ;
        round_exec(negative, q, x.4 - y.4 - s as i32, rest != 0, wide)
    }
}

/// The root of a number of 120 bits has 60.
proof fn lemma_root_bound(n: int)
    requires
        0 <= n < pow2(120),
    ensures
        0 <= root(n) < pow2(60),
        pow2(60) == 0x1000_0000_0000_0000,
{
    lemma_root(n);
    lemma_pow2_sum(60, 60);
    lemma_pow2_64();
    assert(pow2(64) == 16 * pow2(60)) by {
        reveal_with_fuel(pow2, 5);
    }
    let r = root(n);
    let limit = pow2(60);
    if r >= limit {
        assert(r * r >= limit * limit) by (nonlinear_arith)
            requires
                r >= limit,
                limit >= 0,
        ;
    }
}

/// The largest integer whose square is at most `n`.
fn root_exec(n: u128) -> (r: u128)
    requires
        n < pow2(120),
    ensures
        r == root(n as int),
        r < pow2(60),
    decreases n,
{
    proof {
        lemma_root_bound(n as int);
    }
    if n < 1 {
        0
    } else {
        let h: u128 = root_exec(n / 4);
        let r: u128 = 2 * h;
        assert((r + 1) * (r + 1) <= 0x2000_0000_0000_0000 * 0x2000_0000_0000_0000) by (nonlinear_arith)
            requires
                0 <= r + 1 <= 0x2000_0000_0000_0000,
        ;
        if (r + 1) * (r + 1) <= n {
            r + 1
        } else {
            r
        }
    }
}

/// Takes the square root of a float.
pub fn apply_float_sqrt(a: u64, wide: bool) -> (r: u64)
    ensures
        r == float_sqrt(a, wide),
{
    let x = take_apart(a, wide);
    if x.2 || (x.0 && (x.1 || x.3 != 0)) {
        quiet_nan(wide)
    } else if x.1 || x.3 == 0 {
        if wide {
            a
        } else {
            (a as u32) as u64
        }
    } else {
        let bits: u32 = count_bits(x.3 as u128);
        proof {
            lemma_bit_length(x.3 as int);
            lemma_pow2_127();
            lemma_pow2_64();
            lemma_pow2_sum(32, 21);
            reveal_with_fuel(pow2, 22);
            assert(pow2(53) == 0x20_0000_0000_0000);
            if bits > 53 {
                lemma_pow2_monotonic(53, bits as int - 1);
            }
            lemma_appended(x.3 as int, bits as int, 110 - bits as int);
            lemma_appended(x.3 as int, bits as int, 111 - bits as int);
            lemma_pow2_monotonic(110, 120);
            lemma_pow2_monotonic(111, 120);
        }
        let s0: i32 = 110 - bits as i32;
        let s: i32 = if (x.4 - s0 + 4000) % 2 == 0 {
            s0
        } else {
            s0 + 1
        };
        let n: u128 = x.3 as u128 * power(s as u32);
        let r: u128 = root_exec(n);
        proof {
            lemma_pow2_monotonic(60, 120);
            lemma_root_bound(n as int);
        }
        assert(r * r <= 0x1000_0000_0000_0000 * 0x1000_0000_0000_0000) by (nonlinear_arith)
            requires
                0 <= r <= 0x1000_0000_0000_0000,
        ;
        round_exec(false, r, (x.4 - s + 4000) / 2 - 2000, r * r != n, wide)
    }
}

} // verus!
