//! Numbers are IEEE-754 double-precision values, carried as their 64 bits:
//! one sign bit, eleven exponent bits, fifty-two fraction bits. What can be
//! read off the bits with integer arithmetic is decided here: equality, and
//! which place of a sequence a number points to.

use vstd::arithmetic::div_mod::{lemma_fundamental_div_mod, lemma_small_mod};
use vstd::arithmetic::power2::{
    lemma2_to64,
    lemma2_to64_rest,
    lemma_pow2_pos,
    lemma_pow2_strictly_increases,
    pow2,
};
use vstd::bits::{lemma_u64_shl_is_mul, lemma_u64_shr_is_div};
use vstd::prelude::*;

verus! {

/// The bits of the number one.
pub const ONE: u64 = 0x3ff0_0000_0000_0000;

/// The bits of the number zero.
pub const ZERO: u64 = 0;

/// The exponent field of a number.
pub open spec fn exponent_of(bits: u64) -> u64 {
    (bits >> 52) & 0x7ff
}

/// The fraction field of a number.
pub open spec fn fraction_of(bits: u64) -> u64 {
    bits & 0xf_ffff_ffff_ffff
}

/// Whether the sign bit of a number is set.
pub open spec fn sign_of(bits: u64) -> bool {
    bits >> 63 == 1
}

/// Whether the bits are one of the not-a-number patterns.
pub open spec fn is_nan(bits: u64) -> bool {
    exponent_of(bits) == 0x7ff && fraction_of(bits) != 0
}

/// Whether the bits are zero, of either sign.
pub open spec fn is_zero(bits: u64) -> bool {
    exponent_of(bits) == 0 && fraction_of(bits) == 0
}

/// Equality of numbers: not-a-number equals nothing, the two zeros equal
/// each other, and any other two numbers are equal when their bits are.
pub open spec fn numbers_equal(a: u64, b: u64) -> bool {
    !is_nan(a) && !is_nan(b) && (a == b || (is_zero(a) && is_zero(b)))
}

/// The magnitude of a number that is finite and has no fractional part:
/// a normal number is `(2^52 + fraction) * 2^(exponent - 1075)`.
pub open spec fn whole_magnitude(bits: u64) -> Option<nat> {
    let e = exponent_of(bits) as nat;
    let m = (0x10_0000_0000_0000 + fraction_of(bits)) as nat;
    if e == 0 {
        if fraction_of(bits) == 0 {
            Some(0)
        } else {
            None
        }
    } else if e == 0x7ff {
        None
    } else if e >= 1075 {
        Some(m * pow2((e - 1075) as nat))
    } else if m % pow2((1075 - e) as nat) == 0 {
        Some(m / pow2((1075 - e) as nat))
    } else {
        None
    }
}

/// Where a number points in a sequence.
#[derive(Clone, Copy, Debug, PartialEq, Eq, Structural)]
pub enum Position {
    /// The number has a fractional part, or is not finite.
    Fraction,
    /// The number is whole, and points outside the sequence.
    Outside,
    /// The number points at this place.
    At(usize),
}

/// The place of a sequence of `len` items that a number points to. A number
/// that is not below zero counts from the front, starting at zero; one below
/// zero counts back from the end, so that minus one is the last place.
pub open spec fn position_of(bits: u64, len: usize) -> Position {
    match whole_magnitude(bits) {
        None => Position::Fraction,
        Some(m) => if !sign_of(bits) || m == 0 {
            if m < len {
                Position::At(m as usize)
            } else {
                Position::Outside
            }
        } else if m <= len {
            Position::At((len - m) as usize)
        } else {
            Position::Outside
        },
    }
}

/// Whether two numbers are equal.
pub fn same_number(a: u64, b: u64) -> (r: bool)
    ensures
        r == numbers_equal(a, b),
{
    let a_nan = (a >> 52) & 0x7ff == 0x7ff && a & 0xf_ffff_ffff_ffff != 0;
    let b_nan = (b >> 52) & 0x7ff == 0x7ff && b & 0xf_ffff_ffff_ffff != 0;
    let a_zero = (a >> 52) & 0x7ff == 0 && a & 0xf_ffff_ffff_ffff == 0;
    let b_zero = (b >> 52) & 0x7ff == 0 && b & 0xf_ffff_ffff_ffff == 0;
    !a_nan && !b_nan && (a == b || (a_zero && b_zero))
}

fn place(negative: bool, magnitude: u64, len: usize) -> (r: Position)
    ensures
        r == (if !negative || magnitude == 0 {
            if magnitude < len {
                Position::At(magnitude as usize)
            } else {
                Position::Outside
            }
        } else if magnitude <= len {
            Position::At((len - magnitude) as usize)
        } else {
            Position::Outside
        }),
{
    if !negative || magnitude == 0 {
        if magnitude < len as u64 {
            Position::At(magnitude as usize)
        } else {
            Position::Outside
        }
    } else if magnitude <= len as u64 {
        Position::At(len - magnitude as usize)
    } else {
        Position::Outside
    }
}

/// The place of a sequence of `len` items that the number `bits` points to.
pub fn position(bits: u64, len: usize) -> (r: Position)
    ensures
        r == position_of(bits, len),
{
    let e: u64 = (bits >> 52) & 0x7ff;
    let f: u64 = bits & 0xf_ffff_ffff_ffff;
    let negative: bool = bits >> 63 == 1;
    assert(f < 0x10_0000_0000_0000) by (bit_vector)
        requires
            f == bits & 0xf_ffff_ffff_ffff,
    ;
    assert(e <= 0x7ff) by (bit_vector)
        requires
            e == (bits >> 52) & 0x7ff,
    ;
    if e == 0 {
        return if f == 0 {
            place(negative, 0, len)
        } else {
            Position::Fraction
        };
    }
    if e == 0x7ff {
        return Position::Fraction;
    }
    let m: u64 = 0x10_0000_0000_0000 + f;
    proof {
        lemma2_to64();
        lemma2_to64_rest();
    }
    if e >= 1075 {
        let shift: u64 = e - 1075;
        if shift >= 12 {
            proof {
                if shift > 12 {
                    lemma_pow2_strictly_increases(12, shift as nat);
                }
                assert(m * pow2(shift as nat) >= 0x1_0000_0000_0000_0000) by (nonlinear_arith)
                    requires
                        m >= 0x10_0000_0000_0000,
                        pow2(shift as nat) >= 0x1000,
                ;
            }
            return Position::Outside;
        }
        proof {
            if shift < 11 {
                lemma_pow2_strictly_increases(shift as nat, 11);
            }
            assert(m * pow2(shift as nat) < 0x1_0000_0000_0000_0000) by (nonlinear_arith)
                requires
                    m < 0x20_0000_0000_0000,
                    pow2(shift as nat) <= 0x800,
            ;
            lemma_u64_shl_is_mul(m, shift);
        }
        place(negative, m << shift, len)
    } else {
        let k: u64 = 1075 - e;
        if k > 52 {
            proof {
                if k > 53 {
                    lemma_pow2_strictly_increases(53, k as nat);
                }
                lemma_small_mod(m as nat, pow2(k as nat));
            }
            return Position::Fraction;
        }
        let q: u64 = m >> k;
        proof {
            let d = pow2(k as nat);
            lemma_pow2_pos(k as nat);
            lemma_u64_shr_is_div(m, k);
            lemma_fundamental_div_mod(m as int, d as int);
            assert(q * d <= m) by (nonlinear_arith)
                requires
                    m == d * (m as int / d as int) + (m as int % d as int),
                    q == m as int / d as int,
                    0 <= m as int % d as int,
                    d > 0,
            ;
            lemma_u64_shl_is_mul(q, k);
            assert((q << k == m) <==> (m as int % d as int == 0)) by (nonlinear_arith)
                requires
                    m == d * (m as int / d as int) + (m as int % d as int),
                    q == m as int / d as int,
                    q << k == q * d,
            ;
        }
        if q << k != m {
            return Position::Fraction;
        }
        place(negative, q, len)
    }
}

} // verus!
