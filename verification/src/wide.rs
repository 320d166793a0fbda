//! Unsigned integers of three 128-bit limbs, for sums of squares that no
//! machine integer holds.

use vstd::prelude::*;

verus! {

/// Two to the power 64: one half of a limb.
pub const HALF: u128 = 0x1_0000_0000_0000_0000;

/// Two to the power 128: the weight of the second limb.
#[verifier::inline]
pub open spec fn limb() -> int {
    u128::MAX + 1
}

/// A natural number below two to the power 384.
#[derive(Clone, Copy, Debug, PartialEq, Eq, Structural)]
pub struct Wide {
    pub high: u128,
    pub mid: u128,
    pub low: u128,
}

/// A product of two halves fits a limb.
proof fn lemma_half_product(x: u128, y: u128)
    requires
        x < HALF,
        y < HALF,
    ensures
        x * y <= 0xFFFF_FFFF_FFFF_FFFE_0000_0000_0000_0001,
{
    assert(x * y <= 0xFFFF_FFFF_FFFF_FFFF * 0xFFFF_FFFF_FFFF_FFFF) by (nonlinear_arith)
        requires
            0 <= x <= 0xFFFF_FFFF_FFFF_FFFF,
            0 <= y <= 0xFFFF_FFFF_FFFF_FFFF,
    ;
}

/// Multiplying out two numbers split into halves.
proof fn lemma_split_product(a1: int, a0: int, b1: int, b0: int, h: int)
    ensures
        (a1 * h + a0) * (b1 * h + b0) == (a1 * b1) * (h * h) + (a0 * b1) * h + (a1 * b0) * h + a0
            * b0,
{
    let x = a1 * h;
    let y = b1 * h;
    assert((x + a0) * (y + b0) == x * y + a0 * y + x * b0 + a0 * b0) by (nonlinear_arith);
    assert(x * y == (a1 * b1) * (h * h)) by (nonlinear_arith)
        requires
            x == a1 * h,
            y == b1 * h,
    ;
    assert(a0 * y == (a0 * b1) * h) by (nonlinear_arith)
        requires
            y == b1 * h,
    ;
    assert(x * b0 == (a1 * b0) * h) by (nonlinear_arith)
        requires
            x == a1 * h,
    ;
}

/// Adds two limbs and a carry; the second result is the carry out.
fn add_limbs(a: u128, b: u128, carry: bool) -> (r: (u128, bool))
    ensures
        r.0 + (if r.1 { limb() } else { 0 }) == a + b + (if carry { 1int } else { 0 }),
{
    let room: u128 = u128::MAX - b;
    if a > room {
        let sum: u128 = a - room - 1;
        if carry {
            (sum + 1, true)
        } else {
            (sum, true)
        }
    } else {
        let sum: u128 = a + b;
        if carry {
            if sum == u128::MAX {
                (0, true)
            } else {
                (sum + 1, false)
            }
        } else {
            (sum, false)
        }
    }
}

impl Wide {
    /// The number that the three limbs write.
    pub open spec fn value(self) -> int {
        (self.high * limb() + self.mid) * limb() + self.low
    }

    /// The limbs that write `v`, for `v` from zero to below two to the power 384.
    pub open spec fn of(v: int) -> Wide {
        Wide {
            high: (v / limb() / limb()) as u128,
            mid: ((v / limb()) % limb()) as u128,
            low: (v % limb()) as u128,
        }
    }

    /// A number has one writing only.
    pub proof fn lemma_of_value(self)
        ensures
            Wide::of(self.value()) == self,
    {
        let upper = self.high * limb() + self.mid;
        assert(self.value() == upper * limb() + self.low);
        assert(self.value() / limb() == upper);
        assert(upper / limb() == self.high);
    }

    /// The limbs that write a number write that number.
    pub proof fn lemma_value_of(v: int)
        requires
            0 <= v < Wide::bound(),
        ensures
            Wide::of(v).value() == v,
    {
        let upper = v / limb();
        assert(v == upper * limb() + v % limb());
        assert(upper == (upper / limb()) * limb() + upper % limb());
        assert(0 <= upper / limb() < limb());
    }

    /// Two to the power 384: what no such number reaches.
    pub open spec fn bound() -> int {
        limb() * limb() * limb()
    }

    /// Zero.
    pub fn zero() -> (r: Wide)
        ensures
            r.value() == 0,
    {
        Wide { high: 0, mid: 0, low: 0 }
    }

    /// The product of two limbs.
    pub fn product(a: u128, b: u128) -> (r: Wide)
        ensures
            r.value() == a * b,
            r.high == 0,
    {
        let a1: u128 = a / HALF;
        let a0: u128 = a % HALF;
        let b1: u128 = b / HALF;
        let b0: u128 = b % HALF;
        proof {
            lemma_half_product(a0, b0);
            lemma_half_product(a0, b1);
            lemma_half_product(a1, b0);
            lemma_half_product(a1, b1);
        }
        let low_low: u128 = a0 * b0;
        let low_high: u128 = a0 * b1;
        let high_low: u128 = a1 * b0;
        let high_high: u128 = a1 * b1;
        let m: u128 = low_low / HALF + low_high % HALF + high_low % HALF;
        let low: u128 = low_low % HALF + (m % HALF) * HALF;
        let mid: u128 = high_high + low_high / HALF + high_low / HALF + m / HALF;
        proof {
            lemma_split_product(a1 as int, a0 as int, b1 as int, b0 as int, HALF as int);
            assert(HALF * HALF == limb());
            assert(a == a1 * HALF + a0);
            assert(b == b1 * HALF + b0);
        }
        Wide { high: 0, mid, low }
    }

    /// The sum of two numbers that stays below two to the power 384.
    pub fn plus(&self, other: &Wide) -> (r: Wide)
        requires
            self.value() + other.value() < Wide::bound(),
        ensures
            r.value() == self.value() + other.value(),
    {
        let (low, c0) = add_limbs(self.low, other.low, false);
        let (mid, c1) = add_limbs(self.mid, other.mid, c0);
        let (high, c2) = add_limbs(self.high, other.high, c1);
        proof {
            assert(!c2);
        }
        Wide { high, mid, low }
    }

    /// `self` taken `k` times, where that stays below two to the power 384.
    pub fn times(&self, k: u128) -> (r: Wide)
        requires
            self.value() * k < Wide::bound(),
        ensures
            r.value() == self.value() * k,
    {
        let lowest = Wide::product(self.low, k);
        let middle = Wide::product(self.mid, k);
        let highest = Wide::product(self.high, k);
        proof {
            let l = limb();
            let (h, m, w) = (self.high as int, self.mid as int, self.low as int);
            assert(((h * l + m) * l + w) * k == ((h * k) * l + m * k) * l + w * k)
                by (nonlinear_arith);
            assert(highest.mid == 0);
        }
        let (mid, c1) = add_limbs(middle.low, lowest.mid, false);
        let (high, c2) = add_limbs(highest.low, middle.mid, c1);
        proof {
            assert(!c2);
        }
        Wide { high, mid, low: lowest.low }
    }

    /// Whether `self` is the larger number.
    pub fn exceeds(&self, other: &Wide) -> (r: bool)
        ensures
            r == (self.value() > other.value()),
    {
        if self.high != other.high {
            self.high > other.high
        } else if self.mid != other.mid {
            self.mid > other.mid
        } else {
            self.low > other.low
        }
    }
}

} // verus!
