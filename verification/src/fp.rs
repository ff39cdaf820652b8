//! Fixed-point arithmetic kernel.
//!
//! [`Fp`] is an unsigned fixed-point number with 48 fractional bits: a value
//! `raw / 2^48` stored as a `u128`, so the representable range is
//! `[0, 2^80)` with a resolution of `2^-48`. Every ledger quantity (shares,
//! amounts, prices, weights, fees) is an `Fp`.
//!
//! All operations use checked semantics: an operation whose mathematical
//! result does not fit the representation returns `None`, and the caller
//! fails its instruction with a math error. Rounding is explicit: each
//! operation comes in a round-down (floor) and, where the ledger needs it,
//! a round-up (ceiling) form.

use vstd::prelude::*;
use vstd::arithmetic::div_mod::{
    lemma_fundamental_div_mod, lemma_fundamental_div_mod_converse,
    lemma_div_is_ordered, lemma_hoist_over_denominator, lemma_mod_multiples_vanish,
    lemma_multiply_divide_lt, lemma_div_multiples_vanish, lemma_mod_bound,
};
use vstd::arithmetic::mul::{lemma_mul_inequality, lemma_mul_upper_bound};
use vstd::arithmetic::power2::{pow2, lemma_pow2_unfold, lemma_pow2_strictly_increases, lemma2_to64_rest};

verus! {

/// Number of fractional bits.
pub const FP_FRAC_BITS: u32 = 48;

/// Scaling factor `2^48`: the raw representation of the value one.
pub const FP_SCALE: u128 = 0x1_0000_0000_0000;

/// `2^80`: the number of distinct integer parts, used for overflow checks.
const FP_POW80: u128 = 0x1_0000_0000_0000_0000_0000;

/// `2^127`: threshold above which doubling a `u128` would overflow.
const FP_HALF_LIMIT: u128 = 0x8000_0000_0000_0000_0000_0000_0000_0000;

/// First raw value that does not fit the representation, as a spec-level
/// integer: `2^128`.
pub open spec fn fp_limit() -> int {
    u128::MAX + 1
}

/// Raw value of the floor of the fixed-point product of two raw values.
pub open spec fn fp_mul_floor(a: int, b: int) -> int {
    (a * b) / (FP_SCALE as int)
}

/// Raw value of the ceiling of the fixed-point product of two raw values.
pub open spec fn fp_mul_ceil(a: int, b: int) -> int {
    (a * b + FP_SCALE - 1) / (FP_SCALE as int)
}

/// Raw value of the floor of the fixed-point quotient of two raw values.
pub open spec fn fp_div_floor(a: int, b: int) -> int {
    (a * FP_SCALE) / b
}

/// Raw value of the ceiling of the fixed-point quotient of two raw values.
pub open spec fn fp_div_ceil(a: int, b: int) -> int {
    (a * FP_SCALE + b - 1) / b
}

/// A rounded-up product is the rounded-down product or one more.
pub proof fn lemma_fp_mul_ceil_bounds(a: int, b: int)
    requires
        a >= 0,
        b >= 0,
    ensures
        fp_mul_floor(a, b) <= fp_mul_ceil(a, b) <= fp_mul_floor(a, b) + 1,
{
    let x = a * b;
    vstd::arithmetic::mul::lemma_mul_nonnegative(a, b);
    lemma_div_is_ordered(x, x + FP_SCALE - 1, FP_SCALE as int);
    lemma_div_is_ordered(x + FP_SCALE - 1, x + FP_SCALE, FP_SCALE as int);
    lemma_hoist_over_denominator(x, 1, FP_SCALE as nat);
}

/// Paying an amount strictly below the rounded-up worth of `l` shares
/// removes at most `l` shares, when share removal rounds down.
pub proof fn lemma_repay_within(amount: int, l: int, v: int)
    requires
        v > 0,
        l >= 0,
        0 <= amount,
        amount < fp_mul_ceil(l, v),
    ensures
        fp_div_floor(amount, v) <= l,
{
    let k = fp_mul_floor(l, v);
    lemma_fp_mul_ceil_bounds(l, v);
    vstd::arithmetic::mul::lemma_mul_nonnegative(l, v);
    lemma_fundamental_div_mod(l * v, FP_SCALE as int);
    lemma_mod_bound(l * v, FP_SCALE as int);
    assert(k * FP_SCALE <= l * v) by (nonlinear_arith)
        requires
            l * v == FP_SCALE * k + (l * v) % (FP_SCALE as int),
            (l * v) % (FP_SCALE as int) >= 0,
    ;
    lemma_mul_inequality(amount, k, FP_SCALE as int);
    lemma_div_is_ordered(amount * FP_SCALE, l * v, v);
    lemma_div_multiples_vanish(l, v);
    assert(l * v == v * l) by (nonlinear_arith);
}

/// Converting shares to an amount (rounding down) and back (rounding down)
/// never yields more shares than first held.
pub proof fn lemma_share_amount_round_trip(s: int, v: int)
    requires
        v > 0,
        s >= 0,
    ensures
        fp_div_floor(fp_mul_floor(s, v), v) <= s,
{
    let k = fp_mul_floor(s, v);
    vstd::arithmetic::mul::lemma_mul_nonnegative(s, v);
    lemma_fundamental_div_mod(s * v, FP_SCALE as int);
    lemma_mod_bound(s * v, FP_SCALE as int);
    assert(k * FP_SCALE <= s * v) by (nonlinear_arith)
        requires
            s * v == FP_SCALE * k + (s * v) % (FP_SCALE as int),
            (s * v) % (FP_SCALE as int) >= 0,
    ;
    lemma_div_is_ordered(k * FP_SCALE, s * v, v);
    lemma_div_multiples_vanish(s, v);
    assert(s * v == v * s) by (nonlinear_arith);
}

/// Converting shares to an owed amount (rounding up) and back (rounding up)
/// never yields fewer shares than first owed.
pub proof fn lemma_liability_round_trip(s: int, v: int)
    requires
        v > 0,
        s >= 0,
    ensures
        fp_div_ceil(fp_mul_ceil(s, v), v) >= s,
{
    let k = fp_mul_ceil(s, v);
    vstd::arithmetic::mul::lemma_mul_nonnegative(s, v);
    lemma_fundamental_div_mod(s * v + FP_SCALE - 1, FP_SCALE as int);
    lemma_mod_bound(s * v + FP_SCALE - 1, FP_SCALE as int);
    assert(s * v <= k * FP_SCALE) by (nonlinear_arith)
        requires
            s * v + FP_SCALE - 1 == FP_SCALE * k + (s * v + FP_SCALE - 1) % (FP_SCALE as int),
            (s * v + FP_SCALE - 1) % (FP_SCALE as int) < FP_SCALE,
    ;
    // From s * v <= k * 2^48: the rounded-up quotient of k by v reaches s.
    assert(fp_div_ceil(k, v) >= s) by {
        let x = k * FP_SCALE + v - 1;
        assert(x >= s * v + v - 1);
        assert(s * v + v - 1 >= v * s) by (nonlinear_arith)
            requires
                v >= 1,
        ;
        lemma_div_is_ordered(v * s, x, v);
        lemma_div_multiples_vanish(s, v);
    }
}

/// A rounded-down product grows with its left factor.
pub proof fn lemma_fp_mul_floor_monotone(a: int, b: int, v: int)
    requires
        0 <= a <= b,
        v >= 0,
    ensures
        fp_mul_floor(a, v) <= fp_mul_floor(b, v),
{
    lemma_mul_inequality(a, b, v);
    lemma_div_is_ordered(a * v, b * v, FP_SCALE as int);
}

/// Withdrawing an amount strictly below the rounded-down worth of `d`
/// shares removes at most `d` shares, when share removal rounds up.
pub proof fn lemma_withdraw_within(amount: int, d: int, v: int)
    requires
        v > 0,
        d >= 0,
        0 <= amount,
        amount < fp_mul_floor(d, v),
    ensures
        fp_div_ceil(amount, v) <= d,
{
    let k = fp_mul_floor(d, v);
    vstd::arithmetic::mul::lemma_mul_nonnegative(d, v);
    lemma_fundamental_div_mod(d * v, FP_SCALE as int);
    lemma_mod_bound(d * v, FP_SCALE as int);
    assert(k * FP_SCALE <= d * v) by (nonlinear_arith)
        requires
            d * v == FP_SCALE * k + (d * v) % (FP_SCALE as int),
            (d * v) % (FP_SCALE as int) >= 0,
    ;
    lemma_mul_inequality(amount, k - 1, FP_SCALE as int);
    assert(amount * FP_SCALE + v - 1 <= d * v + v - 1);
    assert(d * v + v - 1 < (d + 1) * v) by (nonlinear_arith);
    lemma_multiply_divide_lt(amount * FP_SCALE + v - 1, v, d + 1);
}

/// Unsigned fixed-point number: the value `raw / 2^48`.
#[derive(Clone, Copy, Debug, PartialEq, Eq, Structural)]
pub struct Fp {
    pub raw: u128,
}

impl Fp {
    /// The value zero.
    pub fn zero() -> (r: Fp)
        ensures
            r.raw == 0,
    {
        Fp { raw: 0 }
    }

    /// The value one.
    pub fn one() -> (r: Fp)
        ensures
            r.raw == FP_SCALE,
    {
        Fp { raw: FP_SCALE }
    }

    /// Builds an `Fp` from a raw representation (the value `raw / 2^48`).
    pub fn from_raw(raw: u128) -> (r: Fp)
        ensures
            r.raw == raw,
    {
        Fp { raw }
    }

    /// Converts an integer token amount exactly.
    pub fn from_amount(v: u64) -> (r: Fp)
        ensures
            r.raw == v * FP_SCALE,
    {
        proof {
            lemma_mul_inequality(v as int, u64::MAX as int, FP_SCALE as int);
        }
        Fp { raw: (v as u128) * FP_SCALE }
    }

    /// Converts back to an integer token amount, rounding down; fails when
    /// the integer part does not fit a `u64`.
    pub fn to_amount_floor(self) -> (r: Option<u64>)
        ensures
            self.raw as int / FP_SCALE as int <= u64::MAX ==> r == Some((self.raw as int / FP_SCALE as int) as u64),
            self.raw as int / FP_SCALE as int > u64::MAX ==> r is None,
    {
        let q = self.raw / FP_SCALE;
        if q <= u64::MAX as u128 {
            Some(q as u64)
        } else {
            None
        }
    }

    /// Checked addition: `None` exactly when the sum does not fit.
    pub fn checked_add(self, other: Fp) -> (r: Option<Fp>)
        ensures
            self.raw + other.raw < fp_limit() ==> r == Some(Fp { raw: (self.raw + other.raw) as u128 }),
            self.raw + other.raw >= fp_limit() ==> r is None,
    {
        if self.raw <= u128::MAX - other.raw {
            Some(Fp { raw: self.raw + other.raw })
        } else {
            None
        }
    }

    /// Fixed-point multiplication rounded down, together with the remainder
    /// of the raw product modulo the scaling factor (used to decide whether
    /// the product was exact).
    fn mul_floor_rem(self, other: Fp) -> (r: (Option<Fp>, u128))
        ensures
            fp_mul_floor(self.raw as int, other.raw as int) < fp_limit()
                ==> r.0 == Some(Fp { raw: fp_mul_floor(self.raw as int, other.raw as int) as u128 }),
            fp_mul_floor(self.raw as int, other.raw as int) >= fp_limit() ==> r.0 is None,
            r.1 == (self.raw * other.raw) % (FP_SCALE as int),
    {
        let a = self.raw;
        let b = other.raw;
        let ah = a / FP_SCALE;
        let al = a % FP_SCALE;
        let bh = b / FP_SCALE;
        let bl = b % FP_SCALE;
        proof {
            lemma_fundamental_div_mod(a as int, FP_SCALE as int);
            lemma_fundamental_div_mod(b as int, FP_SCALE as int);
            assert(FP_SCALE as int * FP_POW80 as int == fp_limit());
            lemma_multiply_divide_lt(a as int, FP_SCALE as int, FP_POW80 as int);
            lemma_multiply_divide_lt(b as int, FP_SCALE as int, FP_POW80 as int);
            lemma_mul_upper_bound(al as int, FP_SCALE - 1, bh as int, FP_POW80 - 1);
            lemma_mul_upper_bound(al as int, FP_SCALE - 1, bl as int, FP_SCALE - 1);
        }
        let mid = al * bh;
        let low_full = al * bl;
        let low = low_full / FP_SCALE;
        let rem = low_full % FP_SCALE;
        proof {
            // a * b decomposes into a multiple of the scale plus al * bl.
            assert(a * b == (ah * b + al * bh) * FP_SCALE + al * bl) by (nonlinear_arith)
                requires
                    a == FP_SCALE * ah + al,
                    b == FP_SCALE * bh + bl,
            ;
            lemma_hoist_over_denominator(al as int * bl as int,
                ah as int * b as int + al as int * bh as int, FP_SCALE as nat);
            assert(fp_mul_floor(a as int, b as int)
                == ah * b + al * bh + (al as int * bl as int) / (FP_SCALE as int));
            lemma_mod_multiples_vanish(ah as int * b as int + al as int * bh as int,
                al as int * bl as int, FP_SCALE as int);
            assert((a * b) % (FP_SCALE as int) == (al as int * bl as int) % (FP_SCALE as int));
        }
        let hi: u128;
        if ah == 0 {
            hi = 0;
        } else {
            if b > u128::MAX / ah {
                proof {
                    lemma_fundamental_div_mod(u128::MAX as int, ah as int);
                    assert(ah as int * b as int > u128::MAX as int) by (nonlinear_arith)
                        requires
                            ah as int > 0,
                            b as int > u128::MAX as int / ah as int,
                            u128::MAX as int == ah as int * (u128::MAX as int / ah as int)
                                + u128::MAX as int % ah as int,
                            (u128::MAX as int % ah as int) < ah as int,
                    ;
                }
                return (None, rem);
            }
            proof {
                lemma_fundamental_div_mod(u128::MAX as int, ah as int);
                lemma_mul_inequality(b as int, u128::MAX as int / ah as int, ah as int);
            }
            hi = ah * b;
        }
        if hi > u128::MAX - mid {
            return (None, rem);
        }
        let s1 = hi + mid;
        if s1 > u128::MAX - low {
            return (None, rem);
        }
        (Some(Fp { raw: s1 + low }), rem)
    }

    /// Checked fixed-point multiplication, rounded down: `None` exactly when
    /// the rounded-down product does not fit.
    pub fn checked_mul(self, other: Fp) -> (r: Option<Fp>)
        ensures
            fp_mul_floor(self.raw as int, other.raw as int) < fp_limit()
                ==> r == Some(Fp { raw: fp_mul_floor(self.raw as int, other.raw as int) as u128 }),
            fp_mul_floor(self.raw as int, other.raw as int) >= fp_limit() ==> r is None,
    {
        let (q, _) = self.mul_floor_rem(other);
        q
    }

    /// Checked fixed-point multiplication, rounded up: `None` exactly when
    /// the rounded-up product does not fit.
    pub fn checked_mul_ceil(self, other: Fp) -> (r: Option<Fp>)
        ensures
            fp_mul_ceil(self.raw as int, other.raw as int) < fp_limit()
                ==> r == Some(Fp { raw: fp_mul_ceil(self.raw as int, other.raw as int) as u128 }),
            fp_mul_ceil(self.raw as int, other.raw as int) >= fp_limit() ==> r is None,
    {
        let (q, rem) = self.mul_floor_rem(other);
        let ghost ab = self.raw as int * other.raw as int;
        proof {
            lemma_fundamental_div_mod(ab, FP_SCALE as int);
            if rem == 0 {
                // ab is a multiple of the scale, so rounding up changes nothing.
                lemma_fundamental_div_mod_converse(ab + FP_SCALE - 1, FP_SCALE as int,
                    ab / (FP_SCALE as int), FP_SCALE - 1);
            } else {
                // Rounding up adds exactly one to the rounded-down product.
                lemma_fundamental_div_mod_converse(ab + FP_SCALE - 1, FP_SCALE as int,
                    ab / (FP_SCALE as int) + 1, rem - 1);
            }
        }
        match q {
            None => None,
            Some(f) => {
                if rem == 0 {
                    Some(f)
                } else {
                    if f.raw == u128::MAX {
                        None
                    } else {
                        Some(Fp { raw: f.raw + 1 })
                    }
                }
            },
        }
    }

    /// Fixed-point division rounded down, together with the remainder of the
    /// scaled dividend modulo the divisor (used to decide whether the
    /// quotient was exact).
    fn div_floor_rem(self, other: Fp) -> (r: (Option<Fp>, u128))
        ensures
            other.raw == 0 ==> r.0 is None,
            other.raw != 0 && fp_div_floor(self.raw as int, other.raw as int) >= fp_limit()
                ==> r.0 is None,
            other.raw != 0 && fp_div_floor(self.raw as int, other.raw as int) < fp_limit()
                ==> r.0 == Some(Fp { raw: fp_div_floor(self.raw as int, other.raw as int) as u128 })
                    && r.1 == (self.raw * FP_SCALE) % (other.raw as int),
    {
        let a = self.raw;
        let b = other.raw;
        if b == 0 {
            return (None, 0);
        }
        if a / FP_POW80 >= b {
            proof {
                // a is at least b * 2^80, so the scaled quotient needs 2^128.
                lemma_fundamental_div_mod(a as int, FP_POW80 as int);
                lemma_mul_inequality(b as int, a as int / FP_POW80 as int, FP_POW80 as int);
                assert(a as int * FP_SCALE >= b as int * fp_limit()) by (nonlinear_arith)
                    requires
                        a as int >= b as int * FP_POW80 as int,
                        FP_POW80 as int * FP_SCALE as int == fp_limit(),
                ;
                lemma_div_is_ordered(b as int * fp_limit(), a as int * FP_SCALE, b as int);
                lemma_div_multiples_vanish(fp_limit(), b as int);
            }
            return (None, 0);
        }
        let q1 = a / b;
        let r1 = a % b;
        proof {
            lemma_fundamental_div_mod(a as int, b as int);
            lemma_fundamental_div_mod(a as int, FP_POW80 as int);
            lemma_mul_inequality(a as int / FP_POW80 as int, b as int - 1, FP_POW80 as int);
            assert((a as int) < b as int * FP_POW80 as int) by (nonlinear_arith)
                requires
                    a as int == FP_POW80 as int * (a as int / FP_POW80 as int)
                        + a as int % FP_POW80 as int,
                    (a as int % FP_POW80 as int) < FP_POW80 as int,
                    (a as int / FP_POW80 as int) * FP_POW80 as int
                        <= (b as int - 1) * FP_POW80 as int,
            ;
            lemma_multiply_divide_lt(a as int, b as int, FP_POW80 as int);
            lemma2_to64_rest();
            vstd::arithmetic::power2::lemma2_to64();
        }
        // Binary long division computes floor(r1 * 2^48 / b) bit by bit.
        let mut f: u128 = 0;
        let mut rem: u128 = r1;
        let mut k: usize = 0;
        while k < 48
            invariant
                0 < b,
                rem < b,
                k <= 48,
                f < pow2(k as nat),
                pow2(48) == FP_SCALE,
                r1 as int * pow2(k as nat) == f as int * b as int + rem as int,
            decreases 48 - k,
        {
            proof {
                lemma_pow2_unfold((k + 1) as nat);
                if k < 47 {
                    lemma_pow2_strictly_increases(k as nat, 47);
                }
                lemma2_to64_rest();
                assert(r1 as int * pow2((k + 1) as nat)
                    == 2 * (f as int) * (b as int) + 2 * (rem as int)) by (nonlinear_arith)
                    requires
                        r1 as int * pow2(k as nat) == f as int * b as int + rem as int,
                        pow2((k + 1) as nat) == 2 * pow2(k as nat),
                ;
            }
            let ghost f0 = f as int;
            let ghost rem0 = rem as int;
            if rem >= FP_HALF_LIMIT {
                f = 2 * f + 1;
                rem = rem - (b - rem);
            } else {
                let t = 2 * rem;
                if t >= b {
                    f = 2 * f + 1;
                    rem = t - b;
                } else {
                    f = 2 * f;
                    rem = t;
                }
            }
            proof {
                assert(f as int * b as int + rem as int == 2 * f0 * b as int + 2 * rem0)
                    by (nonlinear_arith)
                    requires
                        (f as int == 2 * f0 + 1 && rem as int == 2 * rem0 - b as int)
                            || (f as int == 2 * f0 && rem as int == 2 * rem0),
                ;
            }
            k += 1;
        }
        // Combine: a * 2^48 == (q1 * 2^48 + f) * b + rem with rem < b.
        let ghost res = q1 as int * FP_SCALE as int + f as int;
        proof {
            lemma_mul_inequality(q1 as int, FP_POW80 as int - 1, FP_SCALE as int);
            assert(a as int * FP_SCALE as int == res * b as int + rem as int) by (nonlinear_arith)
                requires
                    a as int == b as int * q1 as int + r1 as int,
                    r1 as int * FP_SCALE as int == f as int * b as int + rem as int,
                    res == q1 as int * FP_SCALE as int + f as int,
            ;
            lemma_fundamental_div_mod_converse(a as int * FP_SCALE as int, b as int, res,
                rem as int);
        }
        (Some(Fp { raw: q1 * FP_SCALE + f }), rem)
    }

    /// Checked fixed-point division, rounded down: `None` exactly when the
    /// divisor is zero or the rounded-down quotient does not fit.
    pub fn checked_div(self, other: Fp) -> (r: Option<Fp>)
        ensures
            other.raw == 0 ==> r is None,
            other.raw != 0 && fp_div_floor(self.raw as int, other.raw as int) >= fp_limit()
                ==> r is None,
            other.raw != 0 && fp_div_floor(self.raw as int, other.raw as int) < fp_limit()
                ==> r == Some(Fp { raw: fp_div_floor(self.raw as int, other.raw as int) as u128 }),
    {
        let (q, _) = self.div_floor_rem(other);
        q
    }

    /// Checked fixed-point division, rounded up: `None` exactly when the
    /// divisor is zero or the rounded-up quotient does not fit.
    pub fn checked_div_ceil(self, other: Fp) -> (r: Option<Fp>)
        ensures
            other.raw == 0 ==> r is None,
            other.raw != 0 && fp_div_ceil(self.raw as int, other.raw as int) >= fp_limit()
                ==> r is None,
            other.raw != 0 && fp_div_ceil(self.raw as int, other.raw as int) < fp_limit()
                ==> r == Some(Fp { raw: fp_div_ceil(self.raw as int, other.raw as int) as u128 }),
    {
        let (q, rem) = self.div_floor_rem(other);
        let ghost a = self.raw as int;
        let ghost b = other.raw as int;
        proof {
            if other.raw != 0 {
                lemma_fundamental_div_mod(a * FP_SCALE, b);
                lemma_div_is_ordered(a * FP_SCALE, a * FP_SCALE + b - 1, b);
                assert(((a * FP_SCALE) / b) * b == b * ((a * FP_SCALE) / b)) by (nonlinear_arith);
                assert(((a * FP_SCALE) / b + 1) * b == b * ((a * FP_SCALE) / b) + b)
                    by (nonlinear_arith);
                if fp_div_floor(a, b) < fp_limit() {
                    if rem == 0 {
                        // The quotient is exact, so rounding up changes nothing.
                        lemma_fundamental_div_mod_converse(a * FP_SCALE + b - 1, b,
                            (a * FP_SCALE) / b, b - 1);
                    } else {
                        // Rounding up adds exactly one to the rounded-down quotient.
                        lemma_fundamental_div_mod_converse(a * FP_SCALE + b - 1, b,
                            (a * FP_SCALE) / b + 1, rem - 1);
                    }
                }
            }
        }
        match q {
            None => None,
            Some(f) => {
                if rem == 0 {
                    Some(f)
                } else {
                    if f.raw == u128::MAX {
                        None
                    } else {
                        Some(Fp { raw: f.raw + 1 })
                    }
                }
            },
        }
    }

    /// Checked subtraction: `None` exactly when the result would be negative.
    pub fn checked_sub(self, other: Fp) -> (r: Option<Fp>)
        ensures
            self.raw >= other.raw ==> r == Some(Fp { raw: (self.raw - other.raw) as u128 }),
            self.raw < other.raw ==> r is None,
    {
        if self.raw >= other.raw {
            Some(Fp { raw: self.raw - other.raw })
        } else {
            None
        }
    }
}

} // verus!
