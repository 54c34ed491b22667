//! LEB128 variable-length integers.
//!
//! Only the shortest encoding of a value is accepted, and the value has to
//! fit the target width.
use vstd::prelude::*;

verus! {

/// Two to the power `n`, for the exponents the decoders use.
pub open spec fn pow2(n: int) -> int
    decreases n,
{
    if n <= 0 {
        1
    } else {
        2 * pow2(n - 1)
    }
}

/// The unsigned integer of at most `width` bits encoded at `pos`, with the
/// position after it. `None` when the bytes run out, the value does not fit
/// in `width` bits, or the encoding is longer than needed.
pub open spec fn uleb(s: Seq<u8>, pos: int, width: int) -> Option<(int, int)>
    decreases width,
{
    if width <= 0 || pos < 0 || pos >= s.len() {
        None
    } else {
        let b = s[pos] as int;
        if b < 128 {
            if width < 7 && b >= pow2(width) {
                None
            } else {
                Some((b, pos + 1))
            }
        } else if width <= 7 {
            None
        } else {
            match uleb(s, pos + 1, width - 7) {
                None => None,
                Some((hi, next)) => if hi == 0 {
                    None
                } else {
                    Some((b - 128 + 128 * hi, next))
                },
            }
        }
    }
}

/// The signed integer of at most `width` bits encoded at `pos` in two's
/// complement, with the position after it.
pub open spec fn sleb(s: Seq<u8>, pos: int, width: int) -> Option<(int, int)>
    decreases width,
{
    if width <= 0 || pos < 0 || pos >= s.len() {
        None
    } else {
        let b = s[pos] as int;
        if b < 128 {
            let v = if b < 64 { b } else { b - 128 };
            if width < 7 && !(-pow2(width - 1) <= v < pow2(width - 1)) {
                None
            } else {
                Some((v, pos + 1))
            }
        } else if width <= 7 {
            None
        } else {
            let low = b - 128;
            match sleb(s, pos + 1, width - 7) {
                None => None,
                Some((hi, next)) => if (hi == 0 && low < 64) || (hi == -1 && low >= 64) {
                    None
                } else {
                    Some((low + 128 * hi, next))
                },
            }
        }
    }
}

/// The powers of two up to 128.
pub proof fn lemma_pow2_values()
    ensures
        pow2(0) == 1,
        pow2(1) == 2,
        pow2(2) == 4,
        pow2(3) == 8,
        pow2(4) == 16,
        pow2(5) == 32,
        pow2(6) == 64,
        pow2(7) == 128,
{
    reveal_with_fuel(pow2, 9);
}

/// Seven more bits multiply by 128; a power of two is positive.
pub proof fn lemma_pow2_step(n: int)
    requires
        n >= 0,
    ensures
        pow2(n + 7) == 128 * pow2(n),
        pow2(n) >= 1,
    decreases n,
{
    lemma_pow2_values();
    if n > 0 {
        lemma_pow2_step(n - 1);
    }
}

/// A decoded unsigned value is within its width, and the position moves
/// forward by at least one byte.
pub proof fn lemma_uleb_bounds(s: Seq<u8>, pos: int, width: int)
    ensures
        uleb(s, pos, width) matches Some((v, next)) ==> 0 <= v < pow2(width) && pos < next
            <= s.len() && next <= pos + (width + 6) / 7,
    decreases width,
{
    if width > 0 && 0 <= pos < s.len() {
        let b = s[pos] as int;
        lemma_pow2_values();
        if b < 128 {
            if width >= 7 {
                lemma_pow2_step(width - 7);
            }
        } else if width > 7 {
            lemma_uleb_bounds(s, pos + 1, width - 7);
            lemma_pow2_step(width - 7);
        }
    }
}

/// A decoded signed value is within its width, and the position moves
/// forward by at least one byte.
pub proof fn lemma_sleb_bounds(s: Seq<u8>, pos: int, width: int)
    ensures
        sleb(s, pos, width) matches Some((v, next)) ==> -pow2(width - 1) <= v < pow2(width - 1)
            && pos < next <= s.len() && next <= pos + (width + 6) / 7,
    decreases width,
{
    if width > 0 && 0 <= pos < s.len() {
        let b = s[pos] as int;
        lemma_pow2_values();
        if b < 128 {
            if width >= 7 {
                lemma_pow2_step(width - 7);
            }
        } else if width > 7 {
            lemma_sleb_bounds(s, pos + 1, width - 7);
            lemma_pow2_step(width - 8);
        }
    }
}

/// Reads an unsigned integer of at most `width` bits at `pos`.
pub fn read_uleb(s: &[u8], pos: usize, width: u32) -> (r: Option<(u64, usize)>)
    requires
        width <= 64,
    ensures
        match r {
            Some((v, next)) => uleb(s@, pos as int, width as int) == Some((v as int, next as int))
                && pos < next <= s.len(),
            None => uleb(s@, pos as int, width as int) is None,
        },
    decreases width,
{
    if width == 0 || pos >= s.len() {
        return None;
    }
    let b: u8 = s[pos];
    proof {
        lemma_pow2_values();
        lemma_uleb_bounds(s@, pos as int, width as int);
    }
    if b < 128 {
        if width < 7 && b >= small_pow2(width) {
            None
        } else {
            Some((b as u64, pos + 1))
        }
    } else if width <= 7 {
        None
    } else {
        match read_uleb(s, pos + 1, width - 7) {
            None => None,
            Some((hi, next)) => {
                if hi == 0 {
                    None
                } else {
                    proof {
                        lemma_uleb_bounds(s@, pos as int + 1, width as int - 7);
                        lemma_pow2_step(width as int - 7);
                        lemma_pow2_monotonic(width as int, 64);
                        lemma_pow2_64();
                    }
                    Some(((b - 128) as u64 + 128 * hi, next))
                }
            },
        }
    }
}

/// Two to the power `width`, for a width below seven.
fn small_pow2(width: u32) -> (r: u8)
    requires
        width < 7,
    ensures
        r == pow2(width as int),
{
    proof {
        lemma_pow2_values();
    }
    if width == 0 {
        1
    } else if width == 1 {
        2
    } else if width == 2 {
        4
    } else if width == 3 {
        8
    } else if width == 4 {
        16
    } else if width == 5 {
        32
    } else {
        64
    }
}

/// The powers of two at the widths of the integers.
pub proof fn lemma_pow2_64()
    ensures
        pow2(32) == 0x1_0000_0000,
        pow2(64) == 0x1_0000_0000_0000_0000,
        pow2(31) == 0x8000_0000,
        pow2(63) == 0x8000_0000_0000_0000,
{
    reveal_with_fuel(pow2, 65);
}

/// A larger exponent gives no smaller power.
pub proof fn lemma_pow2_monotonic(a: int, b: int)
    requires
        0 <= a <= b,
    ensures
        pow2(a) <= pow2(b),
    decreases b - a,
{
    if a < b {
        lemma_pow2_monotonic(a, b - 1);
        lemma_pow2_step(b - 1);
    }
}

/// Reads a signed integer of at most `width` bits at `pos`.
pub fn read_sleb(s: &[u8], pos: usize, width: u32) -> (r: Option<(i64, usize)>)
    requires
        width <= 64,
    ensures
        match r {
            Some((v, next)) => sleb(s@, pos as int, width as int) == Some((v as int, next as int))
                && pos < next <= s.len(),
            None => sleb(s@, pos as int, width as int) is None,
        },
    decreases width,
{
    if width == 0 || pos >= s.len() {
        return None;
    }
    let b: u8 = s[pos];
    proof {
        lemma_pow2_values();
        lemma_sleb_bounds(s@, pos as int, width as int);
    }
    if b < 128 {
        let v: i64 = if b < 64 {
            b as i64
        } else {
            b as i64 - 128
        };
        if width < 7 && !(-(small_pow2(width - 1) as i64) <= v && v < small_pow2(width - 1) as i64) {
            None
        } else {
            Some((v, pos + 1))
        }
    } else if width <= 7 {
        None
    } else {
        let low: i64 = b as i64 - 128;
        match read_sleb(s, pos + 1, width - 7) {
            None => None,
            Some((hi, next)) => {
                if (hi == 0 && low < 64) || (hi == -1 && low >= 64) {
                    None
                } else {
                    proof {
                        lemma_sleb_bounds(s@, pos as int + 1, width as int - 7);
                        lemma_pow2_step(width as int - 8);
                        lemma_pow2_monotonic(width as int - 1, 63);
                        lemma_pow2_64();
                    }
                    Some((low + 128 * hi, next))
                }
            },
        }
    }
}

/// Reads an unsigned 32-bit integer at `pos`.
pub fn read_u32(s: &[u8], pos: usize) -> (r: Option<(u32, usize)>)
    ensures
        match r {
            Some((v, next)) => uleb(s@, pos as int, 32) == Some((v as int, next as int)) && pos
                < next <= s.len(),
            None => uleb(s@, pos as int, 32) is None,
        },
{
    match read_uleb(s, pos, 32) {
        None => None,
        Some((v, next)) => {
            proof {
                lemma_uleb_bounds(s@, pos as int, 32);
                lemma_pow2_64();
            }
            Some((v as u32, next))
        },
    }
}

/// Reads a signed 32-bit integer at `pos`.
pub fn read_i32(s: &[u8], pos: usize) -> (r: Option<(i32, usize)>)
    ensures
        match r {
            Some((v, next)) => sleb(s@, pos as int, 32) == Some((v as int, next as int)) && pos
                < next <= s.len(),
            None => sleb(s@, pos as int, 32) is None,
        },
{
    match read_sleb(s, pos, 32) {
        None => None,
        Some((v, next)) => {
            proof {
                lemma_sleb_bounds(s@, pos as int, 32);
                lemma_pow2_64();
            }
            Some((v as i32, next))
        },
    }
}

/// Reads a signed 64-bit integer at `pos`.
pub fn read_i64(s: &[u8], pos: usize) -> (r: Option<(i64, usize)>)
    ensures
        match r {
            Some((v, next)) => sleb(s@, pos as int, 64) == Some((v as int, next as int)) && pos
                < next <= s.len(),
            None => sleb(s@, pos as int, 64) is None,
        },
{
    read_sleb(s, pos, 64)
}

} // verus!
