//! Fixed-width 384-bit unsigned arithmetic.
//!
//! The header detector compares exact rational confidence scores; clearing
//! their denominators needs products of up to six 64-bit factors, which no
//! machine integer holds.  A `Wide` value is six 64-bit limbs, little-endian,
//! with exact specifications for construction, addition, multiplication by a
//! machine word, and comparison.  The value of a `Wide` is written in Horner
//! form so that the proofs stay within linear arithmetic.

use vstd::prelude::*;
use vstd::arithmetic::div_mod::lemma_fundamental_div_mod;
use vstd::arithmetic::mul::lemma_mul_inequality;
use vstd::arithmetic::mul::lemma_mul_upper_bound;
use vstd::arithmetic::mul::lemma_mul_is_distributive_add_other_way;
use vstd::arithmetic::mul::lemma_mul_is_associative;
use vstd::arithmetic::mul::lemma_mul_is_commutative;
use vstd::arithmetic::mul::lemma_mul_nonnegative;

verus! {

/// Base of one limb.
#[verifier::inline]
pub open spec fn lb() -> int {
    0x10000000000000000
}

/// 2 to the 384th power, one past the largest value a `Wide` holds.
#[verifier::inline]
pub open spec fn wide_cap() -> int {
    (0x10000000000000000 as int) * ((0x10000000000000000 as int) * ((0x10000000000000000 as int)
        * ((0x10000000000000000 as int) * ((0x10000000000000000 as int) * (0x10000000000000000
        as int)))))
}

/// A 384-bit unsigned integer: six 64-bit limbs, least significant first.
pub struct Wide {
    pub w0: u64,
    pub w1: u64,
    pub w2: u64,
    pub w3: u64,
    pub w4: u64,
    pub w5: u64,
}

pub open spec fn t5(w: Wide) -> int {
    w.w5 as int
}

pub open spec fn t4(w: Wide) -> int {
    w.w4 + lb() * t5(w)
}

pub open spec fn t3(w: Wide) -> int {
    w.w3 + lb() * t4(w)
}

pub open spec fn t2(w: Wide) -> int {
    w.w2 + lb() * t3(w)
}

pub open spec fn t1(w: Wide) -> int {
    w.w1 + lb() * t2(w)
}

/// The integer a `Wide` denotes.
pub open spec fn val(w: Wide) -> int {
    w.w0 + lb() * t1(w)
}

/// Every `Wide` value lies below `wide_cap`.
pub proof fn lemma_val_bounds(w: Wide)
    ensures
        0 <= val(w) < wide_cap(),
{
    assert(0 <= t5(w) < lb());
    assert(0 <= t4(w) < lb() * lb());
    assert(0 <= t3(w) < lb() * (lb() * lb()));
    assert(0 <= t2(w) < lb() * (lb() * (lb() * lb())));
    assert(0 <= t1(w) < lb() * (lb() * (lb() * (lb() * lb()))));
}

impl Wide {
    /// The `Wide` with the given 128-bit value.
    pub fn from_u128(x: u128) -> (r: Wide)
        ensures
            val(r) == x,
    {
        let base: u128 = 0x10000000000000000;
        let r = Wide {
            w0: (x % base) as u64,
            w1: (x / base) as u64,
            w2: 0,
            w3: 0,
            w4: 0,
            w5: 0,
        };
        proof {
            lemma_fundamental_div_mod(x as int, base as int);
        }
        r
    }

    /// The sum; the caller shows it fits.
    #[verifier::rlimit(100)]
    pub fn add(&self, other: &Wide) -> (r: Wide)
        requires
            val(*self) + val(*other) < wide_cap(),
        ensures
            val(r) == val(*self) + val(*other),
    {
        let base: u128 = 0x10000000000000000;
        let t0: u128 = self.w0 as u128 + other.w0 as u128;
        let r0 = (t0 % base) as u64;
        let c0 = (t0 / base) as u64;
        let s1: u128 = self.w1 as u128 + other.w1 as u128 + c0 as u128;
        let r1 = (s1 % base) as u64;
        let c1 = (s1 / base) as u64;
        let s2: u128 = self.w2 as u128 + other.w2 as u128 + c1 as u128;
        let r2 = (s2 % base) as u64;
        let c2 = (s2 / base) as u64;
        let s3: u128 = self.w3 as u128 + other.w3 as u128 + c2 as u128;
        let r3 = (s3 % base) as u64;
        let c3 = (s3 / base) as u64;
        let s4: u128 = self.w4 as u128 + other.w4 as u128 + c3 as u128;
        let r4 = (s4 % base) as u64;
        let c4 = (s4 / base) as u64;
        let s5: u128 = self.w5 as u128 + other.w5 as u128 + c4 as u128;
        let r5 = (s5 % base) as u64;
        let c5 = (s5 / base) as u64;
        let r = Wide { w0: r0, w1: r1, w2: r2, w3: r3, w4: r4, w5: r5 };
        proof {
            lemma_fundamental_div_mod(t0 as int, base as int);
            lemma_fundamental_div_mod(s1 as int, base as int);
            lemma_fundamental_div_mod(s2 as int, base as int);
            lemma_fundamental_div_mod(s3 as int, base as int);
            lemma_fundamental_div_mod(s4 as int, base as int);
            lemma_fundamental_div_mod(s5 as int, base as int);
            let g5: int = r5 + lb() * c5;
            let g4: int = r4 + lb() * g5;
            let g3: int = r3 + lb() * g4;
            let g2: int = r2 + lb() * g3;
            let g1: int = r1 + lb() * g2;
            let g0: int = r0 + lb() * g1;
            assert(g5 == t5(*self) + t5(*other) + c4);
            assert(g4 == t4(*self) + t4(*other) + c3);
            assert(g3 == t3(*self) + t3(*other) + c2);
            assert(g2 == t2(*self) + t2(*other) + c1);
            assert(g1 == t1(*self) + t1(*other) + c0);
            assert(g0 == val(*self) + val(*other));
            lemma_val_bounds(r);
            let h5: int = c5 as int;
            let h4: int = lb() * h5;
            let h3: int = lb() * h4;
            let h2: int = lb() * h3;
            let h1: int = lb() * h2;
            let h0: int = lb() * h1;
            assert(g5 == t5(r) + h4);
            assert(g4 == t4(r) + h3);
            assert(g3 == t3(r) + h2);
            assert(g2 == t2(r) + h1);
            assert(g1 == t1(r) + h0);
            assert(g0 == val(r) + lb() * h0);
            if c5 > 0 {
                assert(h4 >= lb());
                assert(h3 >= 0x100000000000000000000000000000000);
                assert(h2 >= 0x1000000000000000000000000000000000000000000000000);
                assert(h1
                    >= 0x10000000000000000000000000000000000000000000000000000000000000000);
                assert(h0
                    >= 0x100000000000000000000000000000000000000000000000000000000000000000000000000000000);
                assert(lb() * h0 >= wide_cap());
                assert(false);
            }
        }
        r
    }

    /// The product with a 64-bit word; the caller shows it fits.
    #[verifier::rlimit(100)]
    pub fn mul64(&self, m: u64) -> (r: Wide)
        requires
            val(*self) * m < wide_cap(),
        ensures
            val(r) == val(*self) * m,
    {
        let base: u128 = 0x10000000000000000;
        proof {
            lemma_prod_fits(self.w0, m);
            lemma_prod_fits(self.w1, m);
            lemma_prod_fits(self.w2, m);
            lemma_prod_fits(self.w3, m);
            lemma_prod_fits(self.w4, m);
            lemma_prod_fits(self.w5, m);
        }
        let p0: u128 = (self.w0 as u128) * (m as u128);
        let r0 = (p0 % base) as u64;
        let c0 = (p0 / base) as u64;
        let p1: u128 = (self.w1 as u128) * (m as u128) + c0 as u128;
        let r1 = (p1 % base) as u64;
        let c1 = (p1 / base) as u64;
        let p2: u128 = (self.w2 as u128) * (m as u128) + c1 as u128;
        let r2 = (p2 % base) as u64;
        let c2 = (p2 / base) as u64;
        let p3: u128 = (self.w3 as u128) * (m as u128) + c2 as u128;
        let r3 = (p3 % base) as u64;
        let c3 = (p3 / base) as u64;
        let p4: u128 = (self.w4 as u128) * (m as u128) + c3 as u128;
        let r4 = (p4 % base) as u64;
        let c4 = (p4 / base) as u64;
        let p5: u128 = (self.w5 as u128) * (m as u128) + c4 as u128;
        let r5 = (p5 % base) as u64;
        let c5 = (p5 / base) as u64;
        let r = Wide { w0: r0, w1: r1, w2: r2, w3: r3, w4: r4, w5: r5 };
        proof {
            lemma_fundamental_div_mod(p0 as int, base as int);
            lemma_fundamental_div_mod(p1 as int, base as int);
            lemma_fundamental_div_mod(p2 as int, base as int);
            lemma_fundamental_div_mod(p3 as int, base as int);
            lemma_fundamental_div_mod(p4 as int, base as int);
            lemma_fundamental_div_mod(p5 as int, base as int);
            let mi = m as int;
            // Distribute `* m` over each Horner level.
            lemma_level_times(t4(*self), self.w4 as int, t5(*self), mi);
            lemma_level_times(t3(*self), self.w3 as int, t4(*self), mi);
            lemma_level_times(t2(*self), self.w2 as int, t3(*self), mi);
            lemma_level_times(t1(*self), self.w1 as int, t2(*self), mi);
            lemma_level_times(val(*self), self.w0 as int, t1(*self), mi);
            let g5: int = r5 + lb() * c5;
            let g4: int = r4 + lb() * g5;
            let g3: int = r3 + lb() * g4;
            let g2: int = r2 + lb() * g3;
            let g1: int = r1 + lb() * g2;
            let g0: int = r0 + lb() * g1;
            assert(g5 == t5(*self) * mi + c4);
            assert(g4 == t4(*self) * mi + c3);
            assert(g3 == t3(*self) * mi + c2);
            assert(g2 == t2(*self) * mi + c1);
            assert(g1 == t1(*self) * mi + c0);
            assert(g0 == val(*self) * mi);
            lemma_val_bounds(r);
            let h5: int = c5 as int;
            let h4: int = lb() * h5;
            let h3: int = lb() * h4;
            let h2: int = lb() * h3;
            let h1: int = lb() * h2;
            let h0: int = lb() * h1;
            assert(g5 == t5(r) + h4);
            assert(g4 == t4(r) + h3);
            assert(g3 == t3(r) + h2);
            assert(g2 == t2(r) + h1);
            assert(g1 == t1(r) + h0);
            assert(g0 == val(r) + lb() * h0);
            if c5 > 0 {
                assert(h4 >= lb());
                assert(h3 >= 0x100000000000000000000000000000000);
                assert(h2 >= 0x1000000000000000000000000000000000000000000000000);
                assert(h1
                    >= 0x10000000000000000000000000000000000000000000000000000000000000000);
                assert(h0
                    >= 0x100000000000000000000000000000000000000000000000000000000000000000000000000000000);
                assert(lb() * h0 >= wide_cap());
                assert(false);
            }
        }
        r
    }

    /// The product with a 128-bit word; the caller shows it fits.
    #[verifier::rlimit(100)]
    pub fn mul128(&self, m: u128) -> (r: Wide)
        requires
            val(*self) * m < wide_cap(),
        ensures
            val(r) == val(*self) * m,
    {
        let base: u128 = 0x10000000000000000;
        let lo = (m % base) as u64;
        let hi = (m / base) as u64;
        proof {
            lemma_fundamental_div_mod(m as int, base as int);
            let v = val(*self);
            lemma_val_bounds(*self);
            // v * m splits into the low and the shifted high half.
            lemma_mul_is_distributive_add_other_way(v, lb() * hi, lo as int);
            assert((lb() * hi + lo) * v == (lb() * hi) * v + (lo as int) * v);
            lemma_mul_is_commutative(v, m as int);
            assert(m * v == (lb() * hi + lo) * v);
            lemma_mul_is_associative(lb(), hi as int, v);
            lemma_mul_is_commutative(hi as int, v);
            lemma_mul_is_commutative(lo as int, v);
            assert(v * m == v * lo + lb() * (v * hi));
            lemma_mul_nonnegative(v, lo as int);
            lemma_mul_nonnegative(v, hi as int);
            assert(v * lo < wide_cap());
            assert(lb() * (v * hi) < wide_cap());
            assert(v * hi < wide_cap());
        }
        let a = self.mul64(lo);
        let b = self.mul64(hi);
        let bs = b.shl64();
        let r = a.add(&bs);
        proof {
            assert(val(r) == val(*self) * m);
        }
        r
    }

    /// The value shifted up one limb; the caller shows it fits.
    pub fn shl64(&self) -> (r: Wide)
        requires
            val(*self) * lb() < wide_cap(),
        ensures
            val(r) == lb() * val(*self),
            val(r) == val(*self) * lb(),
    {
        proof {
            lemma_mul_is_commutative(val(*self), lb());
            lemma_val_bounds(*self);
            if self.w5 > 0 {
                assert(t5(*self) >= 1);
                assert(t4(*self) >= lb());
                assert(t3(*self) >= lb() * lb());
                assert(t2(*self) >= lb() * (lb() * lb()));
                assert(t1(*self) >= lb() * (lb() * (lb() * lb())));
                assert(val(*self) >= lb() * (lb() * (lb() * (lb() * lb()))));
                assert(lb() * val(*self) >= wide_cap());
                assert(false);
            }
        }
        let r = Wide { w0: 0, w1: self.w0, w2: self.w1, w3: self.w2, w4: self.w3, w5: self.w4 };
        proof {
            assert(t5(*self) == 0);
            assert(val(r) == lb() * val(*self));
        }
        r
    }

    /// Whether this value is strictly greater than `other`.
    pub fn gt(&self, other: &Wide) -> (r: bool)
        ensures
            r == (val(*self) > val(*other)),
    {
        proof {
            lemma_limb_order(*self, *other);
            lemma_limb_order(*other, *self);
        }
        if self.w5 != other.w5 {
            return self.w5 > other.w5;
        }
        if self.w4 != other.w4 {
            return self.w4 > other.w4;
        }
        if self.w3 != other.w3 {
            return self.w3 > other.w3;
        }
        if self.w2 != other.w2 {
            return self.w2 > other.w2;
        }
        if self.w1 != other.w1 {
            return self.w1 > other.w1;
        }
        self.w0 > other.w0
    }
}

/// One Horner level distributes over a word: `(w + lb() * t) * m` equals
/// `w * m + lb() * (t * m)`.
proof fn lemma_level_times(level: int, w: int, t: int, m: int)
    requires
        level == w + lb() * t,
    ensures
        level * m == w * m + lb() * (t * m),
{
    lemma_mul_is_distributive_add_other_way(m, w, lb() * t);
    assert((w + lb() * t) * m == w * m + (lb() * t) * m);
    lemma_mul_is_associative(lb(), t, m);
    assert((lb() * t) * m == lb() * (t * m));
}

/// A product of two words leaves room for a word-sized carry in a `u128`.
proof fn lemma_prod_fits(x: u64, y: u64)
    ensures
        (x as int) * (y as int) <= 0xfffffffffffffffe0000000000000001,
{
    lemma_mul_upper_bound(x as int, 0xffffffffffffffff, y as int, 0xffffffffffffffff);
}

/// Lexicographic limb order decides value order.
proof fn lemma_limb_order(a: Wide, b: Wide)
    ensures
        a.w5 > b.w5 ==> val(a) > val(b),
        a.w5 == b.w5 && a.w4 > b.w4 ==> val(a) > val(b),
        a.w5 == b.w5 && a.w4 == b.w4 && a.w3 > b.w3 ==> val(a) > val(b),
        a.w5 == b.w5 && a.w4 == b.w4 && a.w3 == b.w3 && a.w2 > b.w2 ==> val(a) > val(b),
        a.w5 == b.w5 && a.w4 == b.w4 && a.w3 == b.w3 && a.w2 == b.w2 && a.w1 > b.w1 ==> val(a)
            > val(b),
        a.w5 == b.w5 && a.w4 == b.w4 && a.w3 == b.w3 && a.w2 == b.w2 && a.w1 == b.w1 && a.w0
            > b.w0 ==> val(a) > val(b),
{
    if a.w5 > b.w5 {
        assert(t5(a) >= t5(b) + 1);
        assert(t4(a) >= lb() * t5(a));
        assert(lb() * t5(a) >= lb() * (t5(b) + 1));
        assert(t4(b) < lb() + lb() * t5(b));
        assert(t4(a) > t4(b));
        lemma_tail_gt(a, b, 4);
    } else if a.w5 == b.w5 && a.w4 > b.w4 {
        assert(t4(a) > t4(b));
        lemma_tail_gt(a, b, 4);
    } else if a.w5 == b.w5 && a.w4 == b.w4 && a.w3 > b.w3 {
        assert(t3(a) > t3(b));
        lemma_tail_gt(a, b, 3);
    } else if a.w5 == b.w5 && a.w4 == b.w4 && a.w3 == b.w3 && a.w2 > b.w2 {
        assert(t2(a) > t2(b));
        lemma_tail_gt(a, b, 2);
    } else if a.w5 == b.w5 && a.w4 == b.w4 && a.w3 == b.w3 && a.w2 == b.w2 && a.w1 > b.w1 {
        assert(t1(a) > t1(b));
        lemma_tail_gt(a, b, 1);
    }
}

/// A strictly larger Horner tail at level `k` forces a strictly larger value.
proof fn lemma_tail_gt(a: Wide, b: Wide, k: int)
    requires
        1 <= k <= 4,
        k == 4 ==> t4(a) > t4(b),
        k == 3 ==> t3(a) > t3(b),
        k == 2 ==> t2(a) > t2(b),
        k == 1 ==> t1(a) > t1(b),
    ensures
        val(a) > val(b),
{
    if k == 4 {
        assert(lb() * t4(a) >= lb() * (t4(b) + 1));
        assert(t3(a) > t3(b));
    }
    if k >= 3 {
        assert(t3(a) > t3(b));
        assert(lb() * t3(a) >= lb() * (t3(b) + 1));
        assert(t2(a) > t2(b));
    }
    if k >= 2 {
        assert(t2(a) > t2(b));
        assert(lb() * t2(a) >= lb() * (t2(b) + 1));
        assert(t1(a) > t1(b));
    }
    assert(t1(a) > t1(b));
    assert(lb() * t1(a) >= lb() * (t1(b) + 1));
    assert(val(a) > val(b));
}

} // verus!
