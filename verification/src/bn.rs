//! 256-bit unsigned arithmetic.
//!
//! Price-quantity products can overflow 128 bits well before any factor does,
//! so the lot-math routines compute in a 256-bit intermediate space and narrow
//! only at the very end. `BN` is that intermediate: a pair of 128-bit limbs
//! with exact contracts for multiply, divide, add, subtract and the two
//! narrowing conversions.

use vstd::arithmetic::div_mod::{
    lemma_div_denominator, lemma_div_is_ordered, lemma_div_pos_is_pos, lemma_fundamental_div_mod,
    lemma_mod_division_less_than_divisor,
};
use vstd::arithmetic::mul::{
    lemma_mul_inequality, lemma_mul_is_commutative, lemma_mul_is_distributive_add,
    lemma_mul_is_distributive_add_other_way, lemma_mul_strict_inequality, lemma_mul_upper_bound,
};
use vstd::arithmetic::power2::{lemma_pow2_adds, lemma_pow2_pos, lemma_pow2_unfold, pow2};
use vstd::prelude::*;

verus! {

/// Divisor used by the basis-point helpers: one basis point is 1/10,000.
pub const BPS_DIVISOR: u128 = 10_000;

/// 2^64, the base in which 128-bit limbs are split for multiplication.
const B64: u128 = 0x1_0000_0000_0000_0000;

/// 2^127, the starting bit probe for long division.
const TOP_BIT: u128 = 0x8000_0000_0000_0000_0000_0000_0000_0000;

/// 2^64 as a spec-level integer.
pub open spec fn b64() -> int {
    0x1_0000_0000_0000_0000
}

/// 2^128 as a spec-level integer.
pub open spec fn b128() -> int {
    b64() * b64()
}

/// 2^256 as a spec-level integer.
pub open spec fn b256() -> int {
    b128() * b128()
}

/// A 256-bit unsigned integer stored as two 128-bit limbs.
#[derive(Clone, Copy, Debug, PartialEq, Eq, Structural)]
pub struct BN {
    /// High 128 bits.
    pub hi: u128,
    /// Low 128 bits.
    pub lo: u128,
}

impl BN {
    /// The mathematical value represented.
    pub open spec fn val(self) -> int {
        self.hi * b128() + self.lo
    }

    /// Widen a 128-bit value.
    pub fn new(v: u128) -> (r: BN)
        ensures
            r.val() == v,
    {
        BN { hi: 0, lo: v }
    }

    /// Multiply by a 128-bit value; the caller must know the product fits.
    pub fn mul(&self, v: u128) -> (r: BN)
        requires
            self.val() * v < b256(),
        ensures
            r.val() == self.val() * v,
    {
        match self.checked_mul(v) {
            Some(r) => r,
            None => vstd::pervasive::unreached(),
        }
    }

    /// Multiply by a 128-bit value, `None` exactly when the product needs more
    /// than 256 bits.
    pub fn checked_mul(&self, v: u128) -> (r: Option<BN>)
        ensures
            self.val() * v < b256() ==> (r matches Some(b) && b.val() == self.val() * v),
            self.val() * v >= b256() ==> r is None,
    {
        proof {
            lemma_mul_nonneg_u(self.val(), v as int);
        }
        let (c, m0) = wide_mul(self.lo, v);
        let hv = match self.hi.checked_mul(v) {
            Some(hv) => hv,
            None => {
                proof {
                    // hi * v already needs more than 128 bits, so the full
                    // product needs more than 256.
                    assert(self.hi * v >= b128());
                    lemma_mul_nonneg_u(self.lo as int, v as int);
                    assert(self.val() * v == (self.hi * b128()) * v + self.lo * v) by {
                        lemma_mul_is_distributive_add_other_way(
                            v as int,
                            self.hi * b128(),
                            self.lo as int,
                        );
                    }
                    assert((self.hi * b128()) * v == (self.hi * v) * b128()) by {
                        lemma_mul_exchange(self.hi as int, b128(), v as int);
                    }
                    lemma_mul_inequality(b128(), self.hi * v, b128());
                }
                return None;
            },
        };
        proof {
            assert(self.val() * v == (self.hi * v) * b128() + self.lo * v) by {
                lemma_mul_is_distributive_add_other_way(v as int, self.hi * b128(), self.lo as int);
                lemma_mul_exchange(self.hi as int, b128(), v as int);
            }
            assert(self.lo * v == c * b128() + m0);
        }
        match hv.checked_add(c) {
            Some(h) => {
                proof {
                    lemma_mul_is_distributive_add_other_way(b128(), hv as int, c as int);
                    assert((hv + c) * b128() + m0 < b256() ==> self.val() * v < b256());
                    lemma_mul_strict_inequality(hv + c, b128(), b128());
                }
                Some(BN { hi: h, lo: m0 })
            },
            None => {
                proof {
                    assert(hv + c >= b128());
                    lemma_mul_inequality(b128(), hv + c, b128());
                    lemma_mul_is_distributive_add_other_way(b128(), hv as int, c as int);
                }
                None
            },
        }
    }

    /// Floor-divide by a nonzero 128-bit value.
    pub fn div(&self, v: u128) -> (r: BN)
        requires
            v > 0,
        ensures
            r.val() == self.val() / v as int,
    {
        let (q, _) = self.div_rem(v);
        q
    }

    /// Floor-divide by a nonzero value, returning quotient and remainder.
    pub fn div_rem(&self, d: u128) -> (r: (BN, u128))
        requires
            d > 0,
        ensures
            r.0.val() == self.val() / d as int,
            r.1 == self.val() % d as int,
            r.0.val() * d + r.1 == self.val(),
    {
        let q_hi = self.hi / d;
        let r0 = self.hi % d;
        let (q_lo, rem) = div_wide(r0, self.lo, d);
        proof {
            lemma_fundamental_div_mod(self.hi as int, d as int);
            // self.val() == d * (q_hi * b128() + q_lo) + rem
            assert(self.val() == (d * q_hi + r0) * b128() + self.lo) by {
                lemma_fundamental_div_mod(self.hi as int, d as int);
            }
            assert((d * q_hi + r0) * b128() == (d * q_hi) * b128() + r0 * b128()) by {
                lemma_mul_is_distributive_add_other_way(b128(), d * q_hi, r0 as int);
            }
            assert((d * q_hi) * b128() == d * (q_hi * b128())) by {
                vstd::arithmetic::mul::lemma_mul_is_associative(d as int, q_hi as int, b128());
            }
            assert(self.val() == d * (q_hi * b128()) + (q_lo * d + rem));
            assert(q_lo * d == d * q_lo) by {
                lemma_mul_is_commutative(q_lo as int, d as int);
            }
            assert(self.val() == d * (q_hi * b128() + q_lo) + rem) by {
                lemma_mul_is_distributive_add(d as int, q_hi * b128(), q_lo as int);
            }
            lemma_fundamental_div_mod_converse_u(self.val(), d as int, q_hi * b128() + q_lo, rem as int);
            assert(q_hi * b128() + q_lo == self.val() / d as int);
        }
        (BN { hi: q_hi, lo: q_lo }, rem)
    }

    /// Add a 128-bit value; the caller must know the sum fits.
    pub fn add(&self, v: u128) -> (r: BN)
        requires
            self.val() + v < b256(),
        ensures
            r.val() == self.val() + v,
    {
        if self.lo <= u128::MAX - v {
            BN { hi: self.hi, lo: self.lo + v }
        } else {
            // carry into the high limb
            proof {
                assert(self.hi < u128::MAX) by {
                    if self.hi == u128::MAX {
                        assert((b128() - 1) * b128() == b256() - b128()) by (nonlinear_arith);
                        assert(self.val() + v >= b256());
                    }
                }
                assert((self.hi + 1) * b128() == self.hi * b128() + b128()) by {
                    lemma_mul_is_distributive_add_other_way(b128(), self.hi as int, 1);
                }
            }
            BN { hi: self.hi + 1, lo: self.lo - (u128::MAX - v) - 1 }
        }
    }

    /// Subtract a 128-bit value; the caller must know no underflow occurs.
    pub fn sub(&self, v: u128) -> (r: BN)
        requires
            self.val() >= v,
        ensures
            r.val() == self.val() - v,
    {
        if self.lo >= v {
            BN { hi: self.hi, lo: self.lo - v }
        } else {
            proof {
                assert(self.hi >= 1) by {
                    if self.hi == 0 {
                        assert(self.val() == self.lo);
                    }
                }
                assert((self.hi - 1) * b128() == self.hi * b128() - b128()) by {
                    vstd::arithmetic::mul::lemma_mul_is_distributive_sub_other_way(
                        b128(), self.hi as int, 1);
                }
            }
            BN { hi: self.hi - 1, lo: u128::MAX - (v - self.lo) + 1 }
        }
    }

    /// Narrow to 128 bits; the caller must know the value fits.
    pub fn as_u128(&self) -> (r: u128)
        requires
            self.val() < b128(),
        ensures
            r == self.val(),
    {
        proof {
            if self.hi > 0 {
                lemma_mul_inequality(1, self.hi as int, b128());
            }
        }
        self.lo
    }

    /// Narrow to 128 bits, `None` exactly when the value does not fit.
    pub fn try_as_u128(&self) -> (r: Option<u128>)
        ensures
            self.val() < b128() ==> r == Some((self.val() as u128)),
            self.val() >= b128() ==> r is None,
    {
        if self.hi == 0 {
            Some(self.lo)
        } else {
            proof {
                lemma_mul_inequality(1, self.hi as int, b128());
            }
            None
        }
    }

    /// Narrow to 64 bits; the caller must know the value fits.
    pub fn as_u64(&self) -> (r: u64)
        requires
            self.val() < b64(),
        ensures
            r == self.val(),
    {
        let v = self.as_u128();
        v as u64
    }

    /// Narrow to 64 bits, `None` exactly when the value does not fit.
    pub fn try_as_u64(&self) -> (r: Option<u64>)
        ensures
            self.val() < b64() ==> r == Some((self.val() as u64)),
            self.val() >= b64() ==> r is None,
    {
        match self.try_as_u128() {
            Some(v) => {
                if v < B64 {
                    Some(v as u64)
                } else {
                    None
                }
            },
            None => {
                proof {
                    assert(b64() < b128());
                }
                None
            },
        }
    }

    /// Scale up by `bps` basis points (floor division).
    pub fn add_bps(&self, bps: u16) -> (r: BN)
        requires
            self.val() * (BPS_DIVISOR + bps) < b256(),
        ensures
            r.val() == self.val() * (BPS_DIVISOR + bps) / (BPS_DIVISOR as int),
    {
        self.mul(BPS_DIVISOR + bps as u128).div(BPS_DIVISOR)
    }

    /// Scale down by `bps` basis points (floor division).
    pub fn sub_bps(&self, bps: u16) -> (r: BN)
        requires
            bps as u128 <= BPS_DIVISOR,
            self.val() * (BPS_DIVISOR - bps) < b256(),
        ensures
            r.val() == self.val() * (BPS_DIVISOR - bps) / (BPS_DIVISOR as int),
    {
        self.mul(BPS_DIVISOR - bps as u128).div(BPS_DIVISOR)
    }
}

/// The product of two nonnegative values is nonnegative.
proof fn lemma_mul_nonneg_u(a: int, b: int)
    requires
        a >= 0,
        b >= 0,
    ensures
        a * b >= 0,
{
    lemma_mul_upper_bound(0, a, 0, b);
    if a > 0 && b > 0 {
        lemma_mul_inequality(1, a, b);
    }
}

/// Rearrange `(a * b) * c` into `(a * c) * b`.
proof fn lemma_mul_exchange(a: int, b: int, c: int)
    ensures
        (a * b) * c == (a * c) * b,
{
    vstd::arithmetic::mul::lemma_mul_is_associative(a, b, c);
    vstd::arithmetic::mul::lemma_mul_is_associative(a, c, b);
    lemma_mul_is_commutative(b, c);
}

/// Uniqueness of quotient and remainder: if `x == d*q + r` with `0 <= r < d`,
/// then `q == x / d` and `r == x % d`.
proof fn lemma_fundamental_div_mod_converse_u(x: int, d: int, q: int, r: int)
    requires
        d > 0,
        0 <= r < d,
        x == d * q + r,
    ensures
        q == x / d,
        r == x % d,
{
    vstd::arithmetic::mul::lemma_mul_is_commutative(d, q);
    vstd::arithmetic::div_mod::lemma_fundamental_div_mod_converse(x, d, q, r);
}

/// Full 128x128 -> 256-bit multiplication by 64-bit limb splitting.
fn wide_mul(a: u128, b: u128) -> (r: (u128, u128))
    ensures
        r.0 * b128() + r.1 == a * b,
{
    let a1 = a / B64;
    let a0 = a % B64;
    let b1 = b / B64;
    let b0 = b % B64;
    proof {
        lemma_fundamental_div_mod(a as int, B64 as int);
        lemma_fundamental_div_mod(b as int, B64 as int);
        lemma_mod_division_less_than_divisor(a as int, B64 as int);
        lemma_mod_division_less_than_divisor(b as int, B64 as int);
        lemma_div_is_ordered(a as int, u128::MAX as int, B64 as int);
        lemma_div_is_ordered(b as int, u128::MAX as int, B64 as int);
        assert(u128::MAX as int / B64 as int == b64() - 1);
        lemma_mul_upper_bound(a1 as int, b64() - 1, b1 as int, b64() - 1);
        lemma_mul_upper_bound(a1 as int, b64() - 1, b0 as int, b64() - 1);
        lemma_mul_upper_bound(a0 as int, b64() - 1, b1 as int, b64() - 1);
        lemma_mul_upper_bound(a0 as int, b64() - 1, b0 as int, b64() - 1);
    }
    let p00 = a0 * b0;
    let p01 = a0 * b1;
    let p10 = a1 * b0;
    let p11 = a1 * b1;
    proof {
        lemma_div_is_ordered(p00 as int, u128::MAX as int, B64 as int);
        lemma_mod_division_less_than_divisor(p00 as int, B64 as int);
        lemma_mod_division_less_than_divisor(p01 as int, B64 as int);
        lemma_mod_division_less_than_divisor(p10 as int, B64 as int);
    }
    let mid = p00 / B64 + p01 % B64 + p10 % B64;
    proof {
        lemma_mod_division_less_than_divisor(mid as int, B64 as int);
        lemma_div_is_ordered(mid as int, 3 * (b64() - 1), B64 as int);
        assert(3 * (b64() - 1) / b64() == 2);
        lemma_mul_upper_bound(mid as int / b64(), 2, 1, 1);
    }
    let lo = p00 % B64 + (mid % B64) * B64;
    proof {
        lemma_mul_upper_bound(mid as int % b64(), b64() - 1, b64(), b64());
        // Establish the exact 256-bit identity before computing the high limb.
        assert(a * b == p11 * (b64() * b64()) + p01 * b64() + p10 * b64() + p00)
            by (nonlinear_arith)
            requires
                a == a1 * B64 + a0,
                b == b1 * B64 + b0,
                p00 == a0 * b0,
                p01 == a0 * b1,
                p10 == a1 * b0,
                p11 == a1 * b1,
                B64 == b64(),
        ;
        lemma_fundamental_div_mod(p01 as int, B64 as int);
        lemma_fundamental_div_mod(p10 as int, B64 as int);
        lemma_fundamental_div_mod(p00 as int, B64 as int);
        lemma_fundamental_div_mod(mid as int, B64 as int);
        let hi_g = p11 + p01 as int / b64() + p10 as int / b64() + mid as int / b64();
        assert(a * b == hi_g * (b64() * b64()) + (mid as int % b64()) * b64() + p00 as int % b64())
            by (nonlinear_arith)
            requires
                a * b == p11 * (b64() * b64()) + p01 * b64() + p10 * b64() + p00,
                p01 == (p01 as int / b64()) * b64() + p01 as int % b64(),
                p10 == (p10 as int / b64()) * b64() + p10 as int % b64(),
                p00 == (p00 as int / b64()) * b64() + p00 as int % b64(),
                mid == p00 as int / b64() + p01 as int % b64() + p10 as int % b64(),
                mid == (mid as int / b64()) * b64() + mid as int % b64(),
                hi_g == p11 + p01 as int / b64() + p10 as int / b64() + mid as int / b64(),
        ;
        assert(b64() * b64() == b128());
        assert(lo == (mid as int % b64()) * b64() + p00 as int % b64());
        // hi_g fits in 128 bits: a*b <= (2^128-1)^2 and lo >= 0.
        lemma_mul_upper_bound(a as int, b128() - 1, b as int, b128() - 1);
        assert(hi_g * b128() <= a * b);
        assert(hi_g < b128()) by (nonlinear_arith)
            requires
                hi_g * b128() <= (b128() - 1) * (b128() - 1),
                hi_g >= 0,
        ;
    }
    let hi = p11 + p01 / B64 + p10 / B64 + mid / B64;
    (hi, lo)
}

/// Divide `r0 * 2^128 + lo` by `d` where `r0 < d`, by binary long division
/// over the 128 low bits. Returns quotient (which fits in 128 bits) and
/// remainder.
fn div_wide(r0: u128, lo: u128, d: u128) -> (res: (u128, u128))
    requires
        d > 0,
        r0 < d,
    ensures
        res.0 * d + res.1 == r0 * b128() + lo,
        res.1 < d,
{
    let mut q: u128 = 0;
    let mut r: u128 = r0;
    let mut p: u128 = TOP_BIT;
    let mut i: usize = 0;
    proof {
        lemma_pow2_val_127();
        assert(pow2(0) == 1) by {
            vstd::arithmetic::power2::lemma2_to64();
        }
        assert(lo as int / pow2(128) as int == 0) by {
            lemma_pow2_val_128();
            lemma_basic_div_u(lo as int, pow2(128) as int);
        }
    }
    while i < 128
        invariant
            d > 0,
            i <= 128,
            i < 128 ==> p == pow2((127 - i) as nat),
            r < d,
            q <= pow2(i as nat) - 1,
            q * d + r == r0 * pow2(i as nat) + lo as int / pow2((128 - i) as nat) as int,
        decreases 128 - i,
    {
        let ghost j = (127 - i) as nat;
        proof {
            lemma_pow2_pos(j);
            lemma_pow2_pos((j + 1) as nat);
            lemma_pow2_pos(i as nat);
            // pow2(i) stays within u128 range while i <= 127
            lemma_pow2_within_u128(i as nat);
            // bit extraction: lo / pow2(j) == 2 * (lo / pow2(j+1)) + (lo / pow2(j)) % 2
            lemma_pow2_unfold((j + 1) as nat);
            lemma_div_denominator(lo as int, pow2(j) as int, 2);
            lemma_fundamental_div_mod(lo as int / pow2(j) as int, 2);
            lemma_mod_division_less_than_divisor(lo as int / pow2(j) as int, 2);
            lemma_div_pos_is_pos(lo as int, pow2(j) as int);
            assert((128 - i) as nat == (j + 1) as nat);
        }
        let bit = (lo / p) % 2;
        let ghost q_old = q as int;
        let ghost r_old = r as int;
        // value to carry down: v = 2*r + bit, reduced mod d
        if r >= TOP_BIT {
            // 2*r + bit >= 2^128 > d, so a quotient bit is certain.
            proof {
                lemma_pow2_val_128();
                assert(2 * r_old + bit - d < d);
                assert((r_old - TOP_BIT) * 2 + bit + (u128::MAX - d) + 1 == 2 * r_old + bit - d);
            }
            q = 2 * q + 1;
            r = (r - TOP_BIT) * 2 + bit + (u128::MAX - d) + 1;
        } else {
            let v = 2 * r + bit;
            if v >= d {
                q = 2 * q + 1;
                r = v - d;
            } else {
                q = 2 * q;
                r = v;
            }
        }
        proof {
            let bi = bit as int;
            // new accumulated value: 2*(old) + bit
            assert(q * d + r == 2 * (q_old * d + r_old) + bi) by (nonlinear_arith)
                requires
                    (q == 2 * q_old + 1 && r == 2 * r_old + bi - d) || (q == 2 * q_old && r == 2
                        * r_old + bi),
            ;
            assert(pow2((i + 1) as nat) == 2 * pow2(i as nat)) by {
                lemma_pow2_unfold((i + 1) as nat);
            }
            assert(2 * (r0 * pow2(i as nat) + lo as int / pow2((j + 1) as nat) as int) + bi == r0
                * pow2((i + 1) as nat) + lo as int / pow2(j) as int) by (nonlinear_arith)
                requires
                    pow2((i + 1) as nat) == 2 * pow2(i as nat),
                    lo as int / pow2(j) as int == 2 * (lo as int / pow2((j + 1) as nat) as int)
                        + bi,
            ;
            // quotient bound
            assert(q <= pow2((i + 1) as nat) - 1);
            if i < 127 {
                lemma_pow2_unfold(j);
                lemma_div_denominator(p as int, 2, 1);
            }
            assert((128 - (i + 1)) as nat == j);
        }
        p = p / 2;
        i = i + 1;
    }
    proof {
        lemma_pow2_val_128();
        assert(lo as int / pow2(0) as int == lo) by {
            vstd::arithmetic::power2::lemma2_to64();
        }
    }
    (q, r)
}

/// `x / d == 0` for `0 <= x < d`.
proof fn lemma_basic_div_u(x: int, d: int)
    requires
        0 <= x < d,
    ensures
        x / d == 0,
{
    vstd::arithmetic::div_mod::lemma_basic_div(x, d);
}

/// `pow2(127)` written out.
proof fn lemma_pow2_val_127()
    ensures
        pow2(127) == 0x8000_0000_0000_0000_0000_0000_0000_0000,
{
    vstd::arithmetic::power2::lemma2_to64();
    vstd::arithmetic::power2::lemma2_to64_rest();
    lemma_pow2_adds(64, 63);
}

/// `pow2(128)` written out.
proof fn lemma_pow2_val_128()
    ensures
        pow2(128) == 0x1_0000_0000_0000_0000_0000_0000_0000_0000,
{
    vstd::arithmetic::power2::lemma2_to64();
    lemma_pow2_adds(64, 64);
}

/// `pow2(i) <= 2^127` for `i <= 127`.
proof fn lemma_pow2_within_u128(i: nat)
    requires
        i <= 127,
    ensures
        pow2(i) <= 0x8000_0000_0000_0000_0000_0000_0000_0000,
{
    lemma_pow2_val_127();
    if i < 127 {
        vstd::arithmetic::power2::lemma_pow2_strictly_increases(i, 127);
    }
}

} // verus!
