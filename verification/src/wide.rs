//! Unsigned 256-bit magnitudes, the widest that a contract integer can need.

use vstd::prelude::*;
use vstd::arithmetic::div_mod::lemma_fundamental_div_mod_converse;
use vstd::arithmetic::power2::{lemma2_to64, lemma_pow2_adds, lemma_pow2_strictly_increases, lemma_pow2_unfold, pow2};

verus! {

/// Two to the power 64, the base of the limbs.
pub closed spec fn limb_base() -> nat {
    0x1_0000_0000_0000_0000
}

/// Two to the power 128.
pub closed spec fn limb_base2() -> nat {
    0x1_0000_0000_0000_0000_0000_0000_0000_0000nat
}

/// Two to the power 192.
pub closed spec fn limb_base3() -> nat {
    0x1_0000_0000_0000_0000_0000_0000_0000_0000_0000_0000_0000_0000nat
}

/// Two to the power 256, one more than the largest magnitude.
pub open spec fn u256_limit() -> nat {
    0x1_0000_0000_0000_0000_0000_0000_0000_0000_0000_0000_0000_0000_0000_0000_0000_0000nat
}

/// An unsigned integer below two to the power 256, held as four limbs of 64
/// bits, least significant first.
#[derive(Clone, Copy, Debug, PartialEq, Eq, Structural)]
pub struct U256 {
    w0: u64,
    w1: u64,
    w2: u64,
    w3: u64,
}

impl View for U256 {
    type V = nat;

    closed spec fn view(&self) -> nat {
        (self.w0 + self.w1 * limb_base() + self.w2 * limb_base2() + self.w3 * limb_base3()) as nat
    }
}

/// The value of the three upper limbs, counted in units of the limb base.
spec fn upper(w1: u64, w2: u64, w3: u64) -> int {
    w1 + limb_base() * (w2 + limb_base() * w3)
}

/// Every magnitude is below the limit, and two magnitudes with the same
/// value have the same limbs.
pub proof fn lemma_u256_view(a: U256, b: U256)
    ensures
        a@ < u256_limit(),
        a@ == b@ <==> a == b,
{
    assert(a@ < u256_limit());
    if a@ == b@ {
        let b1 = limb_base() as int;
        let ha = upper(a.w1, a.w2, a.w3);
        let hb = upper(b.w1, b.w2, b.w3);
        assert(a@ == ha * b1 + a.w0);
        assert(b@ == hb * b1 + b.w0);
        lemma_fundamental_div_mod_converse(a@ as int, b1, ha, a.w0 as int);
        lemma_fundamental_div_mod_converse(b@ as int, b1, hb, b.w0 as int);
        let ga = a.w2 + b1 * a.w3;
        let gb = b.w2 + b1 * b.w3;
        assert(ha == ga * b1 + a.w1);
        assert(hb == gb * b1 + b.w1);
        lemma_fundamental_div_mod_converse(ha, b1, ga, a.w1 as int);
        lemma_fundamental_div_mod_converse(hb, b1, gb, b.w1 as int);
        lemma_fundamental_div_mod_converse(ga, b1, a.w3 as int, a.w2 as int);
        lemma_fundamental_div_mod_converse(gb, b1, b.w3 as int, b.w2 as int);
    }
}

impl U256 {
    /// The magnitude zero.
    pub fn zero() -> (r: U256)
        ensures
            r@ == 0,
    {
        U256 { w0: 0, w1: 0, w2: 0, w3: 0 }
    }

    /// The magnitude of a small number.
    pub fn from_u64(x: u64) -> (r: U256)
        ensures
            r@ == x,
    {
        U256 { w0: x, w1: 0, w2: 0, w3: 0 }
    }

    /// The magnitude as a machine number, where it fits 64 bits.
    pub fn to_u64(&self) -> (r: Option<u64>)
        ensures
            r is Some <==> self@ <= u64::MAX,
            r matches Some(x) ==> x == self@,
    {
        if self.w1 == 0 && self.w2 == 0 && self.w3 == 0 {
            Some(self.w0)
        } else {
            None
        }
    }

    /// Whether the magnitude is zero.
    pub fn is_zero(&self) -> (r: bool)
        ensures
            r == (self@ == 0),
    {
        self.w0 == 0 && self.w1 == 0 && self.w2 == 0 && self.w3 == 0
    }

    /// Whether `self` is strictly below `other`.
    pub fn lt(&self, other: &U256) -> (r: bool)
        ensures
            r == (self@ < other@),
    {
        if self.w3 != other.w3 {
            self.w3 < other.w3
        } else if self.w2 != other.w2 {
            self.w2 < other.w2
        } else if self.w1 != other.w1 {
            self.w1 < other.w1
        } else {
            self.w0 < other.w0
        }
    }

    /// Appends one decimal digit: ten times the magnitude plus `digit`, or
    /// `None` where that no longer fits.
    pub fn mul10_add(&self, digit: u8) -> (r: Option<U256>)
        requires
            digit < 10,
        ensures
            r matches Some(m) ==> m@ == self@ * 10 + digit,
            r is None <==> self@ * 10 + digit >= u256_limit(),
    {
        let base: u128 = 0x1_0000_0000_0000_0000;
        let t0: u128 = self.w0 as u128 * 10 + digit as u128;
        let t1: u128 = self.w1 as u128 * 10 + t0 / base;
        let t2: u128 = self.w2 as u128 * 10 + t1 / base;
        let t3: u128 = self.w3 as u128 * 10 + t2 / base;
        if t3 / base != 0 {
            None
        } else {
            Some(
                U256 {
                    w0: (t0 % base) as u64,
                    w1: (t1 % base) as u64,
                    w2: (t2 % base) as u64,
                    w3: (t3 % base) as u64,
                },
            )
        }
    }

    /// Splits off the last decimal digit: the magnitude divided by ten, and
    /// the remainder.
    pub fn div_rem10(&self) -> (r: (U256, u8))
        ensures
            r.0@ == self@ / 10,
            r.1 == self@ % 10,
    {
        let base: u128 = 0x1_0000_0000_0000_0000;
        let c3: u128 = self.w3 as u128;
        let c2: u128 = (c3 % 10) * base + self.w2 as u128;
        let c1: u128 = (c2 % 10) * base + self.w1 as u128;
        let c0: u128 = (c1 % 10) * base + self.w0 as u128;
        let q = U256 {
            w0: (c0 / 10) as u64,
            w1: (c1 / 10) as u64,
            w2: (c2 / 10) as u64,
            w3: (c3 / 10) as u64,
        };
        let d: u8 = (c0 % 10) as u8;
        assert(self@ == q@ * 10 + d);
        (q, d)
    }

    /// Two to the power `bits`.
    pub fn pow2(bits: u16) -> (r: U256)
        requires
            bits < 256,
        ensures
            r@ == pow2(bits as nat),
    {
        let limb: u16 = bits / 64;
        let shift: u16 = bits % 64;
        let mut low: u64 = 1;
        let mut i: u16 = 0;
        proof {
            lemma2_to64();
        }
        while i < shift
            invariant
                i <= shift < 64,
                low == pow2(i as nat),
            decreases shift - i,
        {
            proof {
                lemma_pow2_unfold((i + 1) as nat);
                lemma_pow2_strictly_increases((i + 1) as nat, 64);
                lemma2_to64();
            }
            low = low * 2;
            i = i + 1;
        }
        proof {
            lemma2_to64();
            lemma_pow2_adds(64, 64);
            lemma_pow2_adds(128, 64);
            assert(pow2(64) == limb_base());
            assert(pow2(128) == limb_base2());
            assert(pow2(192) == limb_base3());
            lemma_pow2_adds(64, shift as nat);
            lemma_pow2_adds(128, shift as nat);
            lemma_pow2_adds(192, shift as nat);
        }
        if limb == 0 {
            U256 { w0: low, w1: 0, w2: 0, w3: 0 }
        } else if limb == 1 {
            U256 { w0: 0, w1: low, w2: 0, w3: 0 }
        } else if limb == 2 {
            U256 { w0: 0, w1: 0, w2: low, w3: 0 }
        } else {
            U256 { w0: 0, w1: 0, w2: 0, w3: low }
        }
    }
}

} // verus!
