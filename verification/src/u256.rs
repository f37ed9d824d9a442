//! An unsigned 256-bit integer with wrapping arithmetic.
//!
//! Fee-growth accumulators are 256-bit fixed-point values that wrap modulo
//! 2^256 instead of trapping on overflow or underflow, so the type offers
//! `wrapping_add` and `wrapping_sub` rather than the checked operators.

use vstd::prelude::*;

verus! {

use vstd::arithmetic::div_mod::lemma_fundamental_div_mod;
use vstd::arithmetic::div_mod::lemma_fundamental_div_mod_converse;
use vstd::arithmetic::div_mod::lemma_mod_division_less_than_divisor;
use vstd::arithmetic::div_mod::lemma_multiply_divide_lt;

/// 2^64, the weight of one limb.
pub open spec fn pow2_64() -> nat {
    0x1_0000_0000_0000_0000nat
}

/// 2^128, the weight of the third limb.
pub open spec fn pow2_128() -> nat {
    0x1_0000_0000_0000_0000_0000_0000_0000_0000nat
}

/// 2^192, the weight of the topmost limb.
pub open spec fn pow2_192() -> nat {
    0x1_0000_0000_0000_0000_0000_0000_0000_0000_0000_0000_0000_0000nat
}

/// 2^256, the modulus of all wrapping arithmetic on `U256`.
pub open spec fn pow2_256() -> nat {
    0x1_0000_0000_0000_0000_0000_0000_0000_0000_0000_0000_0000_0000_0000_0000_0000_0000nat
}

/// `a + b` reduced modulo 2^256.
pub open spec fn add_wrap(a: nat, b: nat) -> nat {
    (a + b) % pow2_256()
}

/// `a - b` modulo 2^256, for `a` and `b` below 2^256: wraps past zero.
pub open spec fn sub_wrap(a: nat, b: nat) -> nat {
    if a >= b {
        (a - b) as nat
    } else {
        (a + pow2_256() - b) as nat
    }
}

/// 10^n.
pub open spec fn pow10(n: nat) -> nat
    decreases n,
{
    if n == 0 {
        1
    } else {
        10 * pow10((n - 1) as nat)
    }
}

/// The value of a little-endian decimal digit string: entry `i` counts
/// 10^i.
pub open spec fn digits_value(s: Seq<u8>) -> nat
    decreases s.len(),
{
    if s.len() == 0 {
        0
    } else {
        (digits_value(s.drop_last()) + s.last() * pow10((s.len() - 1) as nat)) as nat
    }
}

/// Appending a digit adds it with the weight of the new highest position.
proof fn lemma_digits_value_push(s: Seq<u8>, d: u8)
    ensures
        digits_value(s.push(d)) == digits_value(s) + d * pow10(s.len()),
{
    assert(s.push(d).drop_last() =~= s);
    assert(s.push(d).last() == d);
}

/// An unsigned 256-bit integer stored as four 64-bit limbs, least
/// significant first. Its view is the integer value, always below 2^256.
#[derive(Clone, Copy, PartialEq, Eq, Structural, Debug)]
pub struct U256 {
    pub limb0: u64,
    pub limb1: u64,
    pub limb2: u64,
    pub limb3: u64,
}

impl View for U256 {
    type V = nat;

    open spec fn view(&self) -> nat {
        (self.limb0 as nat) + (self.limb1 as nat) * pow2_64() + (self.limb2 as nat) * pow2_128()
            + (self.limb3 as nat) * pow2_192()
    }
}

/// Every `U256` value lies below the wrapping modulus.
pub proof fn lemma_value_below_modulus(a: U256)
    ensures
        a@ < pow2_256(),
{
}

impl U256 {
    /// The value zero.
    pub fn zero() -> (r: U256)
        ensures
            r@ == 0,
    {
        U256 { limb0: 0, limb1: 0, limb2: 0, limb3: 0 }
    }

    /// The value of a single 64-bit integer.
    pub fn from_u64(v: u64) -> (r: U256)
        ensures
            r@ == v,
    {
        U256 { limb0: v, limb1: 0, limb2: 0, limb3: 0 }
    }

    /// The value of a 128-bit integer.
    pub fn from_u128(v: u128) -> (r: U256)
        ensures
            r@ == v,
    {
        let lo: u64 = (v % 0x1_0000_0000_0000_0000u128) as u64;
        let hi: u64 = (v / 0x1_0000_0000_0000_0000u128) as u64;
        proof {
            lemma_fundamental_div_mod(v as int, pow2_64() as int);
        }
        U256 { limb0: lo, limb1: hi, limb2: 0, limb3: 0 }
    }

    /// Strict `>` on the integer values, by lexicographic limb comparison.
    pub fn gt(&self, other: &U256) -> (r: bool)
        ensures
            r == (self@ > other@),
    {
        if self.limb3 != other.limb3 {
            self.limb3 > other.limb3
        } else if self.limb2 != other.limb2 {
            self.limb2 > other.limb2
        } else if self.limb1 != other.limb1 {
            self.limb1 > other.limb1
        } else {
            self.limb0 > other.limb0
        }
    }

    /// Addition modulo 2^256: the carry out of the top limb is discarded.
    pub fn wrapping_add(&self, other: &U256) -> (r: U256)
        ensures
            r@ == add_wrap(self@, other@),
    {
        let t0: u128 = self.limb0 as u128 + other.limb0 as u128;
        let n0: u64 = (t0 % 0x1_0000_0000_0000_0000u128) as u64;
        let c1: u128 = t0 / 0x1_0000_0000_0000_0000u128;
        let t1: u128 = self.limb1 as u128 + other.limb1 as u128 + c1;
        let n1: u64 = (t1 % 0x1_0000_0000_0000_0000u128) as u64;
        let c2: u128 = t1 / 0x1_0000_0000_0000_0000u128;
        let t2: u128 = self.limb2 as u128 + other.limb2 as u128 + c2;
        let n2: u64 = (t2 % 0x1_0000_0000_0000_0000u128) as u64;
        let c3: u128 = t2 / 0x1_0000_0000_0000_0000u128;
        let t3: u128 = self.limb3 as u128 + other.limb3 as u128 + c3;
        let n3: u64 = (t3 % 0x1_0000_0000_0000_0000u128) as u64;
        let c4: u128 = t3 / 0x1_0000_0000_0000_0000u128;
        let r = U256 { limb0: n0, limb1: n1, limb2: n2, limb3: n3 };
        proof {
            lemma_value_below_modulus(r);
            assert(self@ + other@ == r@ + c4 * pow2_256());
            lemma_fundamental_div_mod_converse(
                (self@ + other@) as int,
                pow2_256() as int,
                c4 as int,
                r@ as int,
            );
        }
        r
    }

    /// Subtraction modulo 2^256: wraps past zero instead of trapping.
    #[verifier::rlimit(30)]
    pub fn wrapping_sub(&self, other: &U256) -> (r: U256)
        ensures
            r@ == sub_wrap(self@, other@),
    {
        let t0: u128 = 0x1_0000_0000_0000_0000u128 + self.limb0 as u128 - other.limb0 as u128;
        let n0: u64 = (t0 % 0x1_0000_0000_0000_0000u128) as u64;
        let b1: u128 = 1 - t0 / 0x1_0000_0000_0000_0000u128;
        let t1: u128 = 0x1_0000_0000_0000_0000u128 + self.limb1 as u128 - other.limb1 as u128
            - b1;
        let n1: u64 = (t1 % 0x1_0000_0000_0000_0000u128) as u64;
        let b2: u128 = 1 - t1 / 0x1_0000_0000_0000_0000u128;
        let t2: u128 = 0x1_0000_0000_0000_0000u128 + self.limb2 as u128 - other.limb2 as u128
            - b2;
        let n2: u64 = (t2 % 0x1_0000_0000_0000_0000u128) as u64;
        let b3: u128 = 1 - t2 / 0x1_0000_0000_0000_0000u128;
        let t3: u128 = 0x1_0000_0000_0000_0000u128 + self.limb3 as u128 - other.limb3 as u128
            - b3;
        let n3: u64 = (t3 % 0x1_0000_0000_0000_0000u128) as u64;
        let b4: u128 = 1 - t3 / 0x1_0000_0000_0000_0000u128;
        let r = U256 { limb0: n0, limb1: n1, limb2: n2, limb3: n3 };
        proof {
            lemma_value_below_modulus(r);
            lemma_value_below_modulus(*self);
            lemma_value_below_modulus(*other);
            assert(t0 == (1 - b1) * pow2_64() + n0);
            assert(t1 == (1 - b2) * pow2_64() + n1);
            assert(t2 == (1 - b3) * pow2_64() + n2);
            assert(t3 == (1 - b4) * pow2_64() + n3);
            assert(b4 <= 1);
            assert(r@ == self@ - other@ + b4 * pow2_256());
            if self@ >= other@ {
                assert(b4 == 0);
            } else {
                assert(b4 == 1);
            }
        }
        r
    }

    /// Long division by a nonzero 64-bit divisor, one limb at a time:
    /// returns the quotient and the remainder.
    pub fn div_rem_u64(&self, d: u64) -> (res: (U256, u64))
        requires
            d > 0,
        ensures
            res.0@ == self@ / (d as nat),
            res.1 == self@ % (d as nat),
            res.1 < d,
    {
        let dd: u128 = d as u128;
        let c3: u128 = self.limb3 as u128;
        proof {
            lemma_step_bounds(c3 as int, dd as int);
        }
        let q3: u64 = (c3 / dd) as u64;
        let r3: u64 = (c3 % dd) as u64;
        let c2: u128 = (r3 as u128) * 0x1_0000_0000_0000_0000u128 + self.limb2 as u128;
        proof {
            lemma_step_bounds(c2 as int, dd as int);
        }
        let q2: u64 = (c2 / dd) as u64;
        let r2: u64 = (c2 % dd) as u64;
        let c1: u128 = (r2 as u128) * 0x1_0000_0000_0000_0000u128 + self.limb1 as u128;
        proof {
            lemma_step_bounds(c1 as int, dd as int);
        }
        let q1: u64 = (c1 / dd) as u64;
        let r1: u64 = (c1 % dd) as u64;
        let c0: u128 = (r1 as u128) * 0x1_0000_0000_0000_0000u128 + self.limb0 as u128;
        proof {
            lemma_step_bounds(c0 as int, dd as int);
        }
        let q0: u64 = (c0 / dd) as u64;
        let r0: u64 = (c0 % dd) as u64;
        let q = U256 { limb0: q0, limb1: q1, limb2: q2, limb3: q3 };
        proof {
            let l0 = self.limb0 as int;
            let l1 = self.limb1 as int;
            let l2 = self.limb2 as int;
            let l3 = self.limb3 as int;
            assert((l0 + l1 * 0x1_0000_0000_0000_0000 + l2
                * 0x1_0000_0000_0000_0000_0000_0000_0000_0000 + l3
                * 0x1_0000_0000_0000_0000_0000_0000_0000_0000_0000_0000_0000_0000) == (q0 as int
                + q1 as int * 0x1_0000_0000_0000_0000 + q2 as int
                * 0x1_0000_0000_0000_0000_0000_0000_0000_0000 + q3 as int
                * 0x1_0000_0000_0000_0000_0000_0000_0000_0000_0000_0000_0000_0000) * dd as int
                + r0 as int) by (nonlinear_arith)
                requires
                    l3 == dd as int * q3 as int + r3 as int,
                    r3 as int * 0x1_0000_0000_0000_0000 + l2 == dd as int * q2 as int + r2 as int,
                    r2 as int * 0x1_0000_0000_0000_0000 + l1 == dd as int * q1 as int + r1 as int,
                    r1 as int * 0x1_0000_0000_0000_0000 + l0 == dd as int * q0 as int + r0 as int;
            lemma_fundamental_div_mod_converse(self@ as int, d as int, q@ as int, r0 as int);
        }
        (q, r0)
    }

    /// Whether the value is zero.
    pub fn is_zero(&self) -> (r: bool)
        ensures
            r == (self@ == 0),
    {
        self.limb0 == 0 && self.limb1 == 0 && self.limb2 == 0 && self.limb3 == 0
    }

    /// The decimal digits of the value, least significant first: every
    /// entry is below 10, the digits weighed by powers of ten recover the
    /// value, and the highest digit is nonzero except for the single "0" of
    /// the value zero — together that pins the one decimal rendering.
    pub fn to_decimal_digits(&self) -> (digits: Vec<u8>)
        ensures
            digits@.len() >= 1,
            forall|i: int| 0 <= i < digits@.len() ==> digits@[i] < 10,
            digits_value(digits@) == self@,
            digits@.last() == 0 ==> digits@.len() == 1,
    {
        let mut digits: Vec<u8> = Vec::new();
        let (first_q, first_r) = self.div_rem_u64(10);
        digits.push(first_r as u8);
        let mut v = first_q;
        proof {
            assert(digits@ =~= Seq::<u8>::empty().push(first_r as u8));
            lemma_digits_value_push(Seq::<u8>::empty(), first_r as u8);
            assert(digits_value(Seq::<u8>::empty()) == 0);
            assert(pow10(0) == 1);
            assert(pow10(1) == 10 * pow10(0));
            lemma_fundamental_div_mod(self@ as int, 10);
        }
        while !v.is_zero()
            invariant
                digits@.len() >= 1,
                forall|i: int| 0 <= i < digits@.len() ==> digits@[i] < 10,
                digits_value(digits@) + v@ * pow10(digits@.len() as nat) == self@,
                v@ == 0 ==> (digits@.len() == 1 || digits@.last() > 0),
            decreases v@,
        {
            let (q, r) = v.div_rem_u64(10);
            proof {
                lemma_digits_value_push(digits@, r as u8);
                let pw = pow10(digits@.len() as nat);
                assert(pow10((digits@.len() + 1) as nat) == 10 * pw);
                assert(r * pw + q@ * (10 * pw) == v@ * pw) by (nonlinear_arith)
                    requires
                        v@ == q@ * 10 + r;
                if q@ == 0 {
                    assert(v@ == r);
                }
            }
            digits.push(r as u8);
            v = q;
        }
        digits
    }
}

/// One step of the limb-by-limb long division: for a numerator below
/// `d * 2^64` the quotient fits in one limb and the remainder is below `d`.
proof fn lemma_step_bounds(c: int, d: int)
    requires
        0 < d < 0x1_0000_0000_0000_0000,
        0 <= c < d * 0x1_0000_0000_0000_0000,
    ensures
        c / d < 0x1_0000_0000_0000_0000,
        0 <= c % d < d,
        c == d * (c / d) + c % d,
{
    lemma_multiply_divide_lt(c, d, 0x1_0000_0000_0000_0000);
    lemma_mod_division_less_than_divisor(c, d);
    lemma_fundamental_div_mod(c, d);
}

} // verus!
