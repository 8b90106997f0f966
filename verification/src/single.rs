//! Single-precision numbers, as far as a lattice coordinate needs them.
//!
//! A single-precision number is 32 bits: one sign bit, eight bits of exponent and 23 bits
//! of fraction. With an exponent field `e` between 1 and 254 its value is
//! `±(2^23 + fraction) · 2^(e - 150)`. Every integer of magnitude at most 2^24 is such a
//! value, and this module encodes and decodes exactly those.

use crate::geometry::MAX_COORD;
use vstd::arithmetic::div_mod::{
    lemma_div_by_multiple,
    lemma_fundamental_div_mod,
    lemma_mod_multiples_basic,
};
use vstd::arithmetic::power2::{
    lemma2_to64,
    lemma_pow2_adds,
    lemma_pow2_pos,
    lemma_pow2_strictly_increases,
    lemma_pow2_unfold,
    pow2,
};
use vstd::prelude::*;

verus! {

/// The absolute value of `n`.
pub open spec fn magnitude(n: int) -> nat {
    if n < 0 {
        (-n) as nat
    } else {
        n as nat
    }
}

/// The sign bit of `bits`: 1 for a negative number.
pub open spec fn sign_field(bits: u32) -> int {
    bits as int / 0x8000_0000
}

/// The eight exponent bits of `bits`.
pub open spec fn exponent_field(bits: u32) -> int {
    (bits as int / 0x80_0000) % 0x100
}

/// The 23 fraction bits of `bits`.
pub open spec fn fraction_field(bits: u32) -> int {
    bits as int % 0x80_0000
}

/// The fraction of `bits` with the leading one that a normal number leaves out.
pub open spec fn significand(bits: u32) -> int {
    0x80_0000 + fraction_field(bits)
}

/// Whether the single-precision number `bits` has exactly the value `n`.
///
/// With the exponent field 0 the number is a zero of either sign or smaller than one; with
/// 255 it is an infinity or no number. Otherwise its value is the significand scaled by
/// `2^(e - 150)`, with the sign of the sign bit.
pub open spec fn represents(bits: u32, n: int) -> bool {
    let e = exponent_field(bits);
    if e == 0 {
        fraction_field(bits) == 0 && n == 0
    } else if e == 255 {
        false
    } else {
        &&& n != 0
        &&& (n < 0 <==> sign_field(bits) == 1)
        &&& if e <= 150 {
            magnitude(n) * pow2((150 - e) as nat) == significand(bits)
        } else {
            magnitude(n) == significand(bits) * pow2((e - 150) as nat)
        }
    }
}

/// The exponent of the leading bit of `m`: the `e` with `2^e <= m < 2^(e + 1)`.
pub open spec fn binary_exponent(m: nat) -> nat
    decreases m,
{
    if m < 2 {
        0
    } else {
        1 + binary_exponent(m / 2)
    }
}

/// The single-precision number of value `n`, for `n` of magnitude at most 2^24. Zero is
/// the zero with a clear sign bit.
pub open spec fn single_of(n: int) -> u32
    recommends
        magnitude(n) <= MAX_COORD,
{
    if n == 0 {
        0u32
    } else {
        let m = magnitude(n);
        let e = binary_exponent(m);
        let sign: int = if n < 0 {
            0x8000_0000
        } else {
            0
        };
        let fraction: int = if e <= 23 {
            m * pow2((23 - e) as nat) - 0x80_0000
        } else {
            0
        };
        (sign + (127 + e) * 0x80_0000 + fraction) as u32
    }
}

/// The integer of magnitude at most 2^24 that is the value of the single-precision number
/// `bits`, if there is one.
pub open spec fn single_value(bits: u32) -> Option<int> {
    let e = exponent_field(bits);
    let m = significand(bits);
    let scale = pow2((150 - e) as nat) as int;
    if e == 0 && fraction_field(bits) == 0 {
        Some(0)
    } else if 127 <= e <= 150 && m % scale == 0 {
        Some(signed(sign_field(bits), m / scale))
    } else if e == 151 && fraction_field(bits) == 0 {
        Some(signed(sign_field(bits), 0x100_0000))
    } else {
        None
    }
}

/// `m` with the sign that the sign bit `sign` asks for.
pub open spec fn signed(sign: int, m: int) -> int {
    if sign == 1 {
        -m
    } else {
        m
    }
}

/// A positive number lies between the power of two of its binary exponent and the next one.
pub proof fn lemma_binary_exponent_bounds(m: nat)
    requires
        m >= 1,
    ensures
        pow2(binary_exponent(m)) <= m < pow2(binary_exponent(m) + 1),
    decreases m,
{
    if m < 2 {
        lemma2_to64();
    } else {
        lemma_binary_exponent_bounds(m / 2);
        lemma_pow2_unfold(binary_exponent(m));
        lemma_pow2_unfold(binary_exponent(m) + 1);
    }
}

/// The binary exponent of `m` is the only `e` with `2^e <= m < 2^(e + 1)`.
pub proof fn lemma_binary_exponent_unique(m: nat, e: nat)
    requires
        pow2(e) <= m < pow2(e + 1),
    ensures
        binary_exponent(m) == e,
{
    lemma_pow2_pos(e);
    lemma_binary_exponent_bounds(m);
    let b = binary_exponent(m);
    if b < e {
        if b + 1 < e {
            lemma_pow2_strictly_increases(b + 1, e);
        }
    } else if b > e {
        if e + 1 < b {
            lemma_pow2_strictly_increases(e + 1, b);
        }
    }
}

/// If `m` scaled by `2^k` has its leading bit at position 23, the binary exponent of `m`
/// is `23 - k`.
proof fn lemma_normalized(m: nat, k: nat)
    requires
        m >= 1,
        0x80_0000 <= m * pow2(k) < 0x100_0000,
    ensures
        k <= 23,
        binary_exponent(m) == 23 - k,
{
    lemma2_to64();
    lemma_pow2_pos(k);
    let b = binary_exponent(m);
    lemma_binary_exponent_bounds(m);
    lemma_pow2_adds(b, k);
    lemma_pow2_adds(b + 1, k);
    assert(pow2(b + k) <= m * pow2(k) < pow2(b + 1 + k)) by (nonlinear_arith)
        requires
            pow2(b) <= m < pow2(b + 1),
            pow2(k) > 0,
            pow2(b + k) == pow2(b) * pow2(k),
            pow2(b + 1 + k) == pow2(b + 1) * pow2(k),
    ;
    if b + k < 23 {
        if b + k + 1 < 23 {
            lemma_pow2_strictly_increases(b + k + 1, 23);
        }
    } else if b + k > 23 {
        if b + k > 24 {
            lemma_pow2_strictly_increases(24, b + k);
        }
    }
}

/// The single-precision number of value `n`, or `None` if the magnitude of `n` is above
/// 2^24, from where on not every integer has one.
pub fn encode_single(n: i64) -> (r: Option<u32>)
    ensures
        match r {
            Some(bits) => magnitude(n as int) <= MAX_COORD && bits == single_of(n as int),
            None => magnitude(n as int) > MAX_COORD,
        },
{
    if n < -MAX_COORD || n > MAX_COORD {
        return None;
    }
    if n == 0 {
        return Some(0);
    }
    let sign: u32 = if n < 0 {
        0x8000_0000
    } else {
        0
    };
    let start: u32 = if n < 0 {
        (-n) as u32
    } else {
        n as u32
    };
    proof {
        lemma2_to64();
    }
    if start == 0x100_0000 {
        proof {
            lemma_binary_exponent_unique(start as nat, 24);
        }
        return Some(sign + 151 * 0x80_0000);
    }
    let mut m: u32 = start;
    let mut exponent: u32 = 150;
    assert(start * pow2(0) == start) by (nonlinear_arith)
        requires
            pow2(0) == 1,
    ;
    while m < 0x80_0000
        invariant
            1 <= start < 0x100_0000,
            127 <= exponent <= 150,
            m == start * pow2((150 - exponent) as nat),
            m < 0x100_0000,
        decreases exponent,
    {
        proof {
            let k = (150 - exponent) as nat;
            lemma_pow2_unfold(k + 1);
            lemma_pow2_pos(k);
            assert(2 * (start * pow2(k)) == start * (2 * pow2(k))) by (nonlinear_arith);
            if exponent == 127 {
                lemma2_to64();
                assert(start * pow2(23) >= pow2(23)) by (nonlinear_arith)
                    requires
                        start >= 1,
                ;
            }
        }
        m = 2 * m;
        exponent = exponent - 1;
    }
    proof {
        lemma_normalized(start as nat, (150 - exponent) as nat);
    }
    Some(sign + exponent * 0x80_0000 + (m - 0x80_0000))
}

/// Powers of two grow with their exponent.
proof fn lemma_pow2_grows(a: nat, b: nat)
    requires
        a <= b,
    ensures
        0 < pow2(a) <= pow2(b),
{
    lemma_pow2_pos(a);
    if a < b {
        lemma_pow2_strictly_increases(a, b);
    }
}

/// The fields of the encoding of a nonzero `n`, and that the encoding has the value `n`.
pub proof fn lemma_single_of_fields(n: int)
    requires
        n != 0,
        magnitude(n) <= MAX_COORD,
    ensures
        sign_field(single_of(n)) == if n < 0 {
            1int
        } else {
            0int
        },
        exponent_field(single_of(n)) == 127 + binary_exponent(magnitude(n)),
        binary_exponent(magnitude(n)) <= 24,
        represents(single_of(n), n),
{
    let m = magnitude(n);
    let b = binary_exponent(m);
    lemma2_to64();
    lemma_binary_exponent_bounds(m);
    if b >= 24 {
        lemma_pow2_grows(24, b);
        lemma_binary_exponent_unique(m, 24);
        assert(0x80_0000 * pow2(1) == 0x100_0000) by (nonlinear_arith)
            requires
                pow2(1) == 2,
        ;
    } else {
        let k = (23 - b) as nat;
        lemma_pow2_adds(b, k);
        lemma_pow2_adds(b + 1, k);
        lemma_pow2_pos(k);
        assert(pow2(b + k) <= m * pow2(k) < pow2(b + 1 + k)) by (nonlinear_arith)
            requires
                pow2(b) <= m < pow2(b + 1),
                pow2(k) > 0,
                pow2(b + k) == pow2(b) * pow2(k),
                pow2(b + 1 + k) == pow2(b + 1) * pow2(k),
        ;
    }
}

/// `single_value` gives `n` exactly when `bits` has the value `n` and the magnitude of `n`
/// is at most 2^24.
pub proof fn lemma_single_value(bits: u32, n: int)
    ensures
        single_value(bits) == Some(n) <==> represents(bits, n) && magnitude(n) <= MAX_COORD,
{
    let e = exponent_field(bits);
    let m = significand(bits);
    lemma2_to64();
    if 1 <= e <= 150 {
        let k = (150 - e) as nat;
        let scale = pow2(k) as int;
        lemma_pow2_pos(k);
        if e < 127 {
            lemma_pow2_grows(24, k);
            if represents(bits, n) {
                assert(magnitude(n) * scale >= scale) by (nonlinear_arith)
                    requires
                        magnitude(n) >= 1,
                        scale > 0,
                ;
            }
        } else {
            lemma_pow2_grows(k, 23);
            lemma_fundamental_div_mod(m, scale);
            if m % scale == 0 {
                let q = m / scale;
                assert(q * scale == scale * q) by (nonlinear_arith);
                assert(q >= 1 && q <= m) by (nonlinear_arith)
                    requires
                        q * scale == m,
                        m >= scale,
                        scale > 0,
                ;
            }
            if represents(bits, n) {
                lemma_mod_multiples_basic(magnitude(n) as int, scale);
                lemma_div_by_multiple(magnitude(n) as int, scale);
            }
        }
    } else if 151 <= e <= 254 {
        let k = (e - 150) as nat;
        lemma_pow2_grows(1, k);
        if represents(bits, n) && magnitude(n) <= MAX_COORD {
            assert(m * pow2(k) >= 0x80_0000 * 2) by (nonlinear_arith)
                requires
                    m >= 0x80_0000,
                    pow2(k) >= 2,
            ;
            assert(m == 0x80_0000 && pow2(k) == 2) by (nonlinear_arith)
                requires
                    m * pow2(k) <= 0x100_0000,
                    m >= 0x80_0000,
                    pow2(k) >= 2,
            ;
            if k > 1 {
                lemma_pow2_strictly_increases(1, k);
            }
        }
        if e == 151 {
            assert(0x80_0000 * pow2(1) == 0x100_0000) by (nonlinear_arith)
                requires
                    pow2(1) == 2,
            ;
        }
    }
}

/// Decoding the encoding of `n` gives `n` back.
pub proof fn lemma_single_round_trip(n: int)
    requires
        magnitude(n) <= MAX_COORD,
    ensures
        single_value(single_of(n)) == Some(n),
{
    if n != 0 {
        lemma_single_of_fields(n);
    }
    lemma_single_value(single_of(n), n);
}

/// The integer that is the value of the single-precision number `bits`, or `None` if
/// `bits` is no integer of magnitude at most 2^24: a fraction, a larger number, an
/// infinity or no number at all. The zero with the sign bit set is 0.
pub fn decode_single(bits: u32) -> (r: Option<i64>)
    ensures
        match r {
            Some(n) => single_value(bits) == Some(n as int),
            None => single_value(bits) is None,
        },
{
    let negative = bits >= 0x8000_0000;
    let exponent = (bits / 0x80_0000) % 0x100;
    let fraction = bits % 0x80_0000;
    if exponent == 0 && fraction == 0 {
        return Some(0);
    }
    if exponent == 151 && fraction == 0 {
        return Some(
            if negative {
                -MAX_COORD
            } else {
                MAX_COORD
            },
        );
    }
    if exponent < 127 || exponent > 150 {
        return None;
    }
    let shift = 150 - exponent;
    let mut scale: u32 = 1;
    let mut done: u32 = 0;
    proof {
        lemma2_to64();
    }
    while done < shift
        invariant
            done <= shift <= 23,
            scale == pow2(done as nat),
            scale <= 0x80_0000,
        decreases shift - done,
    {
        proof {
            lemma_pow2_unfold((done + 1) as nat);
            lemma_pow2_grows((done + 1) as nat, 23);
            lemma2_to64();
        }
        scale = 2 * scale;
        done = done + 1;
    }
    let m = 0x80_0000 + fraction;
    if m % scale != 0 {
        return None;
    }
    let value = (m / scale) as i64;
    Some(
        if negative {
            -value
        } else {
            value
        },
    )
}

} // verus!
