//! 256 bit unsigned integers, as gas amounts and gas prices are counted.
use vstd::prelude::*;

verus! {

/// Unsigned integer of 256 bits, in four 64 bit limbs.
///
/// `l0` is the least significant limb and `l3` the most significant one.
#[derive(Clone, Copy, Debug, PartialEq, Eq, Structural)]
pub struct U256 {
    pub l0: u64,
    pub l1: u64,
    pub l2: u64,
    pub l3: u64,
}

/// Number of values that one limb can take.
pub open spec fn limb_base() -> nat {
    0x1_0000_0000_0000_0000
}

/// Number of values that a [`U256`] can take.
pub open spec fn u256_base() -> nat {
    limb_base() * limb_base() * limb_base() * limb_base()
}

impl View for U256 {
    type V = nat;

    /// The number that the limbs stand for.
    open spec fn view(&self) -> nat {
        (self.l0 + 0x1_0000_0000_0000_0000 * (self.l1 + 0x1_0000_0000_0000_0000 * (self.l2
            + 0x1_0000_0000_0000_0000 * self.l3))) as nat
    }
}

/// A 256 bit integer is the number that it stands for: two that stand for the same number are
/// the same, and none reaches the bound.
pub proof fn law_u256_is_its_number(a: U256, b: U256)
    ensures
        a@ < u256_base(),
        a@ == b@ <==> a == b,
{
}

/// Each limb counts for as much as its place says: the number without its least limb, in units of
/// one limb, is the number that the other limbs stand for.
pub proof fn law_u256_places(a: U256, b: U256)
    ensures
        a@ == a.l0 + 0x1_0000_0000_0000_0000 * a.l1
            + 0x1_0000_0000_0000_0000_0000_0000_0000_0000 * a.l2
            + 0x1_0000_0000_0000_0000_0000_0000_0000_0000_0000_0000_0000_0000 * a.l3,
        b.l0 == a.l1 && b.l1 == a.l2 && b.l2 == a.l3 && b.l3 == 0 ==> a@
            == 0x1_0000_0000_0000_0000 * b@ + a.l0,
{
}

/// One step of a limb-wise product: low limb and carry of `limb * factor + carry`.
fn mul_limb(limb: u64, factor: u64, carry: u64) -> (r: (u64, u64))
    ensures
        r.0 + 0x1_0000_0000_0000_0000 * r.1 == limb * factor + carry,
{
    proof {
        assert(limb * factor <= 0xffff_ffff_ffff_ffff * 0xffff_ffff_ffff_ffff) by (nonlinear_arith)
            requires
                limb <= 0xffff_ffff_ffff_ffff,
                factor <= 0xffff_ffff_ffff_ffff,
        ;
    }
    let wide: u128 = limb as u128 * factor as u128 + carry as u128;
    let low: u128 = wide % 0x1_0000_0000_0000_0000;
    let high: u128 = wide / 0x1_0000_0000_0000_0000;
    (low as u64, high as u64)
}

/// One step of a limb-wise division: quotient limb and remainder of
/// `rem * 2^64 + limb` by `divisor`.
fn div_limb(rem: u64, limb: u64, divisor: u64) -> (r: (u64, u64))
    requires
        rem < divisor,
    ensures
        r.1 < divisor,
        r.0 * divisor + r.1 == 0x1_0000_0000_0000_0000 * rem + limb,
{
    let wide: u128 = rem as u128 * 0x1_0000_0000_0000_0000 + limb as u128;
    let quotient: u128 = wide / divisor as u128;
    let left: u128 = wide % divisor as u128;
    proof {
        vstd::arithmetic::div_mod::lemma_fundamental_div_mod(wide as int, divisor as int);
        assert(quotient < 0x1_0000_0000_0000_0000) by (nonlinear_arith)
            requires
                wide == divisor * quotient + left,
                0 <= left,
                wide < 0x1_0000_0000_0000_0000 * divisor,
                divisor > 0,
        ;
        assert(quotient * divisor == divisor * quotient) by (nonlinear_arith);
    }
    (quotient as u64, left as u64)
}

/// One step of a limb-wise difference: low limb and borrow of `a - b - borrow`.
fn sub_limb(a: u64, b: u64, borrow: u64) -> (r: (u64, u64))
    requires
        borrow <= 1,
    ensures
        r.1 <= 1,
        r.0 - 0x1_0000_0000_0000_0000 * r.1 == a - b - borrow,
{
    let taken: u128 = b as u128 + borrow as u128;
    if a as u128 >= taken {
        ((a as u128 - taken) as u64, 0)
    } else {
        ((0x1_0000_0000_0000_0000 + a as u128 - taken) as u64, 1)
    }
}

impl U256 {
    /// The number zero.
    pub fn zero() -> (r: U256)
        ensures
            r@ == 0,
    {
        U256 { l0: 0, l1: 0, l2: 0, l3: 0 }
    }

    /// The number `value`.
    pub fn from_u64(value: u64) -> (r: U256)
        ensures
            r@ == value,
    {
        U256 { l0: value, l1: 0, l2: 0, l3: 0 }
    }

    /// Whether `self` is smaller than `other`.
    pub fn is_less(&self, other: &U256) -> (r: bool)
        ensures
            r == (self@ < other@),
    {
        if self.l3 != other.l3 {
            self.l3 < other.l3
        } else if self.l2 != other.l2 {
            self.l2 < other.l2
        } else if self.l1 != other.l1 {
            self.l1 < other.l1
        } else {
            self.l0 < other.l0
        }
    }

    /// `self - other`, or `None` where `other` is the larger one.
    pub fn checked_sub(&self, other: &U256) -> (r: Option<U256>)
        ensures
            r is Some <==> other@ <= self@,
            r matches Some(d) ==> d@ == self@ - other@,
    {
        let (l0, b0): (u64, u64) = sub_limb(self.l0, other.l0, 0);
        let (l1, b1): (u64, u64) = sub_limb(self.l1, other.l1, b0);
        let (l2, b2): (u64, u64) = sub_limb(self.l2, other.l2, b1);
        let (l3, b3): (u64, u64) = sub_limb(self.l3, other.l3, b2);
        if b3 == 0 {
            Some(U256 { l0, l1, l2, l3 })
        } else {
            None
        }
    }

    /// `self * factor`, or `None` where the product needs more than 256 bits.
    pub fn checked_mul(&self, factor: u64) -> (r: Option<U256>)
        ensures
            r is Some <==> self@ * factor < u256_base(),
            r matches Some(p) ==> p@ == self@ * factor,
    {
        let (l0, c0): (u64, u64) = mul_limb(self.l0, factor, 0);
        let (l1, c1): (u64, u64) = mul_limb(self.l1, factor, c0);
        let (l2, c2): (u64, u64) = mul_limb(self.l2, factor, c1);
        let (l3, c3): (u64, u64) = mul_limb(self.l3, factor, c2);
        proof {
            let (a0, a1, a2, a3) = (self.l0 as int, self.l1 as int, self.l2 as int, self.l3 as int);
            let f = factor as int;
            assert((a0 + 0x1_0000_0000_0000_0000 * (a1 + 0x1_0000_0000_0000_0000 * (a2
                + 0x1_0000_0000_0000_0000 * a3))) * f == a0 * f + 0x1_0000_0000_0000_0000 * (a1 * f
                + 0x1_0000_0000_0000_0000 * (a2 * f + 0x1_0000_0000_0000_0000 * (a3 * f))))
                by (nonlinear_arith);
        }
        if c3 == 0 {
            Some(U256 { l0, l1, l2, l3 })
        } else {
            None
        }
    }

    /// `self / divisor`, rounded down.
    pub fn div(&self, divisor: u64) -> (r: U256)
        requires
            divisor > 0,
        ensures
            r@ == self@ / (divisor as nat),
    {
        let (l3, r3): (u64, u64) = div_limb(0, self.l3, divisor);
        let (l2, r2): (u64, u64) = div_limb(r3, self.l2, divisor);
        let (l1, r1): (u64, u64) = div_limb(r2, self.l1, divisor);
        let (l0, r0): (u64, u64) = div_limb(r1, self.l0, divisor);
        let quotient = U256 { l0, l1, l2, l3 };
        proof {
            let (q0, q1, q2, q3) = (l0 as int, l1 as int, l2 as int, l3 as int);
            let d = divisor as int;
            assert((q0 + 0x1_0000_0000_0000_0000 * (q1 + 0x1_0000_0000_0000_0000 * (q2
                + 0x1_0000_0000_0000_0000 * q3))) * d == q0 * d + 0x1_0000_0000_0000_0000 * (q1 * d
                + 0x1_0000_0000_0000_0000 * (q2 * d + 0x1_0000_0000_0000_0000 * (q3 * d))))
                by (nonlinear_arith);
            vstd::arithmetic::div_mod::lemma_fundamental_div_mod_converse(
                self@ as int,
                d,
                quotient@ as int,
                r0 as int,
            );
        }
        quotient
    }
}

} // verus!
