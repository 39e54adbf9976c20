use vstd::prelude::*;

verus! {

/// Base of one 64-bit limb, as an exec constant.
const LIMB_BASE: u128 = 0x1_0000_0000_0000_0000;

/// 2^64, the base of one limb.
pub open spec fn b64() -> nat {
    0x1_0000_0000_0000_0000nat
}

/// 2^128.
pub open spec fn b128() -> nat {
    0x1_0000_0000_0000_0000_0000_0000_0000_0000nat
}

/// 2^192.
pub open spec fn b192() -> nat {
    0x1_0000_0000_0000_0000_0000_0000_0000_0000_0000_0000_0000_0000nat
}

/// 2^256, one more than the largest representable amount.
pub open spec fn amount_bound() -> nat {
    0x1_0000_0000_0000_0000_0000_0000_0000_0000_0000_0000_0000_0000_0000_0000_0000_0000nat
}

/// A 256-bit unsigned monetary amount in the smallest on-chain unit,
/// held as four 64-bit limbs, least significant first.
#[derive(Clone, Copy, Debug, PartialEq, Eq, Structural)]
pub struct Amount {
    pub l0: u64,
    pub l1: u64,
    pub l2: u64,
    pub l3: u64,
}

impl Amount {
    /// The mathematical value of this amount.
    pub open spec fn val(self) -> nat {
        (self.l0 + self.l1 * b64() + self.l2 * b128() + self.l3 * b192()) as nat
    }

    pub proof fn lemma_val_bound(self)
        ensures
            self.val() < amount_bound(),
    {
    }

    pub fn zero() -> (r: Amount)
        ensures
            r.val() == 0,
    {
        Amount { l0: 0, l1: 0, l2: 0, l3: 0 }
    }

    pub fn from_u64(x: u64) -> (r: Amount)
        ensures
            r.val() == x,
    {
        Amount { l0: x, l1: 0, l2: 0, l3: 0 }
    }

    pub fn from_u128(x: u128) -> (r: Amount)
        ensures
            r.val() == x,
    {
        let lo: u64 = (x % LIMB_BASE) as u64;
        let hi: u64 = (x / LIMB_BASE) as u64;
        proof {
            vstd::arithmetic::div_mod::lemma_fundamental_div_mod(x as int, LIMB_BASE as int);
        }
        Amount { l0: lo, l1: hi, l2: 0, l3: 0 }
    }

    pub fn is_zero(&self) -> (r: bool)
        ensures
            r == (self.val() == 0),
    {
        self.l0 == 0 && self.l1 == 0 && self.l2 == 0 && self.l3 == 0
    }

    /// Whether this amount is at most `other`.
    pub fn le(&self, other: &Amount) -> (r: bool)
        ensures
            r == (self.val() <= other.val()),
    {
        if self.l3 != other.l3 {
            self.l3 < other.l3
        } else if self.l2 != other.l2 {
            self.l2 < other.l2
        } else if self.l1 != other.l1 {
            self.l1 < other.l1
        } else {
            self.l0 <= other.l0
        }
    }

    /// Whether this amount is strictly below `other`.
    pub fn lt(&self, other: &Amount) -> (r: bool)
        ensures
            r == (self.val() < other.val()),
    {
        !other.le(self)
    }

    /// Whether this amount is at least `other`.
    pub fn ge(&self, other: &Amount) -> (r: bool)
        ensures
            r == (self.val() >= other.val()),
    {
        other.le(self)
    }

    /// The sum of two amounts, or `None` when it does not fit in 256 bits.
    pub fn checked_add(&self, other: &Amount) -> (r: Option<Amount>)
        ensures
            r is Some <==> self.val() + other.val() < amount_bound(),
            r is Some ==> r.unwrap().val() == self.val() + other.val(),
    {
        let t0: u128 = self.l0 as u128 + other.l0 as u128;
        let c0: u128 = if t0 >= LIMB_BASE { 1 } else { 0 };
        let s0: u64 = (t0 - c0 * LIMB_BASE) as u64;
        let t1: u128 = self.l1 as u128 + other.l1 as u128 + c0;
        let c1: u128 = if t1 >= LIMB_BASE { 1 } else { 0 };
        let s1: u64 = (t1 - c1 * LIMB_BASE) as u64;
        let t2: u128 = self.l2 as u128 + other.l2 as u128 + c1;
        let c2: u128 = if t2 >= LIMB_BASE { 1 } else { 0 };
        let s2: u64 = (t2 - c2 * LIMB_BASE) as u64;
        let t3: u128 = self.l3 as u128 + other.l3 as u128 + c2;
        let c3: u128 = if t3 >= LIMB_BASE { 1 } else { 0 };
        let s3: u64 = (t3 - c3 * LIMB_BASE) as u64;
        let sum = Amount { l0: s0, l1: s1, l2: s2, l3: s3 };
        proof {
            assert(sum.val() + c3 * amount_bound() == self.val() + other.val());
        }
        if c3 == 1 {
            None
        } else {
            Some(sum)
        }
    }

    /// The difference of two amounts, or `None` when `other` exceeds `self`.
    pub fn checked_sub(&self, other: &Amount) -> (r: Option<Amount>)
        ensures
            r is Some <==> other.val() <= self.val(),
            r is Some ==> r.unwrap().val() == self.val() - other.val(),
    {
        let t0: u128 = self.l0 as u128 + LIMB_BASE - other.l0 as u128;
        let b0: u128 = if t0 < LIMB_BASE { 1 } else { 0 };
        let s0: u64 = (t0 - (1 - b0) * LIMB_BASE) as u64;
        let t1: u128 = self.l1 as u128 + LIMB_BASE - other.l1 as u128 - b0;
        let b1: u128 = if t1 < LIMB_BASE { 1 } else { 0 };
        let s1: u64 = (t1 - (1 - b1) * LIMB_BASE) as u64;
        let t2: u128 = self.l2 as u128 + LIMB_BASE - other.l2 as u128 - b1;
        let b2: u128 = if t2 < LIMB_BASE { 1 } else { 0 };
        let s2: u64 = (t2 - (1 - b2) * LIMB_BASE) as u64;
        let t3: u128 = self.l3 as u128 + LIMB_BASE - other.l3 as u128 - b2;
        let b3: u128 = if t3 < LIMB_BASE { 1 } else { 0 };
        let s3: u64 = (t3 - (1 - b3) * LIMB_BASE) as u64;
        let diff = Amount { l0: s0, l1: s1, l2: s2, l3: s3 };
        proof {
            assert(diff.val() == self.val() - other.val() + b3 * amount_bound());
        }
        if b3 == 1 {
            None
        } else {
            Some(diff)
        }
    }

    /// Ten times this amount plus one decimal digit, or `None` when the
    /// result does not fit in 256 bits.
    pub fn checked_mul10_add(&self, digit: u64) -> (r: Option<Amount>)
        requires
            digit < 10,
        ensures
            r is Some <==> self.val() * 10 + digit < amount_bound(),
            r is Some ==> r.unwrap().val() == self.val() * 10 + digit,
    {
        let t0: u128 = self.l0 as u128 * 10 + digit as u128;
        let c0: u128 = t0 / LIMB_BASE;
        let s0: u64 = (t0 % LIMB_BASE) as u64;
        let t1: u128 = self.l1 as u128 * 10 + c0;
        let c1: u128 = t1 / LIMB_BASE;
        let s1: u64 = (t1 % LIMB_BASE) as u64;
        let t2: u128 = self.l2 as u128 * 10 + c1;
        let c2: u128 = t2 / LIMB_BASE;
        let s2: u64 = (t2 % LIMB_BASE) as u64;
        let t3: u128 = self.l3 as u128 * 10 + c2;
        let c3: u128 = t3 / LIMB_BASE;
        let s3: u64 = (t3 % LIMB_BASE) as u64;
        let prod = Amount { l0: s0, l1: s1, l2: s2, l3: s3 };
        proof {
            vstd::arithmetic::div_mod::lemma_fundamental_div_mod(t0 as int, LIMB_BASE as int);
            vstd::arithmetic::div_mod::lemma_fundamental_div_mod(t1 as int, LIMB_BASE as int);
            vstd::arithmetic::div_mod::lemma_fundamental_div_mod(t2 as int, LIMB_BASE as int);
            vstd::arithmetic::div_mod::lemma_fundamental_div_mod(t3 as int, LIMB_BASE as int);
            assert(prod.val() + c3 * amount_bound() == self.val() * 10 + digit);
        }
        if c3 > 0 {
            None
        } else {
            Some(prod)
        }
    }

    /// The quotient and remainder of dividing this amount by ten.
    pub fn divmod10(&self) -> (r: (Amount, u64))
        ensures
            r.0.val() * 10 + r.1 == self.val(),
            r.1 < 10,
            self.val() > 0 ==> r.0.val() < self.val(),
    {
        let t3: u128 = self.l3 as u128;
        let q3: u64 = (t3 / 10) as u64;
        let r3: u128 = t3 % 10;
        let t2: u128 = r3 * LIMB_BASE + self.l2 as u128;
        let q2: u64 = (t2 / 10) as u64;
        let r2: u128 = t2 % 10;
        let t1: u128 = r2 * LIMB_BASE + self.l1 as u128;
        let q1: u64 = (t1 / 10) as u64;
        let r1: u128 = t1 % 10;
        let t0: u128 = r1 * LIMB_BASE + self.l0 as u128;
        let q0: u64 = (t0 / 10) as u64;
        let r0: u128 = t0 % 10;
        let quot = Amount { l0: q0, l1: q1, l2: q2, l3: q3 };
        proof {
            vstd::arithmetic::div_mod::lemma_fundamental_div_mod(t3 as int, 10);
            vstd::arithmetic::div_mod::lemma_fundamental_div_mod(t2 as int, 10);
            vstd::arithmetic::div_mod::lemma_fundamental_div_mod(t1 as int, 10);
            vstd::arithmetic::div_mod::lemma_fundamental_div_mod(t0 as int, 10);
            assert(quot.val() * 10 + r0 == self.val());
        }
        (quot, r0 as u64)
    }
}

} // verus!
