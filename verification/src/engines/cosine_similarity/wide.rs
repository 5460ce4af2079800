//! Exact products of two 128-bit numbers, for comparing squared similarity
//! scores without rounding.

use vstd::prelude::*;

verus! {

/// Two to the power 64: the base in which a 128-bit factor is split.
pub const LIMB: u128 = 0x1_0000_0000_0000_0000;

/// An unsigned 256-bit number, held as its upper and lower 128 bits.
#[derive(Clone, Copy, Debug)]
pub struct Wide {
    pub hi: u128,
    pub lo: u128,
}

impl Wide {
    /// The number that the two halves stand for.
    pub open spec fn value(self) -> int {
        self.hi * 0x1_0000_0000_0000_0000_0000_0000_0000_0000int + self.lo
    }

    /// Whether `self` is smaller than `other`.
    pub fn less_than(&self, other: &Wide) -> (r: bool)
        ensures
            r == (self.value() < other.value()),
    {
        self.hi < other.hi || (self.hi == other.hi && self.lo < other.lo)
    }

    /// Whether `self` is at most `other`.
    pub fn at_most(&self, other: &Wide) -> (r: bool)
        ensures
            r == (self.value() <= other.value()),
    {
        self.hi < other.hi || (self.hi == other.hi && self.lo <= other.lo)
    }
}

proof fn lemma_limb_product_fits(x: u128, y: u128)
    requires
        x < 0x1_0000_0000_0000_0000,
        y < 0x1_0000_0000_0000_0000,
    ensures
        x * y <= 0xffff_ffff_ffff_fffe_0000_0000_0000_0001,
{
    assert(x * y <= 0xffff_ffff_ffff_ffff * 0xffff_ffff_ffff_ffff) by (nonlinear_arith)
        requires
            0 <= x <= 0xffff_ffff_ffff_ffff,
            0 <= y <= 0xffff_ffff_ffff_ffff,
    ;
}

proof fn lemma_split_product(a: int, b: int, a1: int, a0: int, b1: int, b0: int, base: int)
    requires
        a == a1 * base + a0,
        b == b1 * base + b0,
    ensures
        a * b == (a1 * b1) * (base * base) + (a0 * b1 + a1 * b0) * base + a0 * b0,
{
    let x = a1 * base;
    let y = b1 * base;
    assert(a * b == x * b + a0 * b) by (nonlinear_arith)
        requires
            a == x + a0,
    ;
    assert(x * b == x * y + x * b0) by (nonlinear_arith)
        requires
            b == y + b0,
    ;
    assert(a0 * b == a0 * y + a0 * b0) by (nonlinear_arith)
        requires
            b == y + b0,
    ;
    assert(x * y == (a1 * b1) * (base * base)) by (nonlinear_arith)
        requires
            x == a1 * base,
            y == b1 * base,
    ;
    assert(x * b0 == (a1 * b0) * base) by (nonlinear_arith)
        requires
            x == a1 * base,
    ;
    assert(a0 * y == (a0 * b1) * base) by (nonlinear_arith)
        requires
            y == b1 * base,
    ;
    assert((a0 * b1 + a1 * b0) * base == (a0 * b1) * base + (a1 * b0) * base)
        by (nonlinear_arith);
}

proof fn lemma_product_below_square(a: int, b: int, bound: int)
    requires
        0 <= a < bound,
        0 <= b < bound,
    ensures
        0 <= a * b < bound * bound,
{
    assert(0 <= a * b < bound * bound) by (nonlinear_arith)
        requires
            0 <= a < bound,
            0 <= b < bound,
    ;
}

/// The full product of `a` and `b`, which may need up to 256 bits.
pub fn wide_product(a: u128, b: u128) -> (p: Wide)
    ensures
        p.value() == a * b,
{
    let a1: u128 = a / LIMB;
    let a0: u128 = a % LIMB;
    let b1: u128 = b / LIMB;
    let b0: u128 = b % LIMB;
    proof {
        lemma_limb_product_fits(a0, b0);
        lemma_limb_product_fits(a0, b1);
        lemma_limb_product_fits(a1, b0);
        lemma_limb_product_fits(a1, b1);
    }
    let low: u128 = a0 * b0;
    let cross_a: u128 = a0 * b1;
    let cross_b: u128 = a1 * b0;
    let high: u128 = a1 * b1;
    let middle: u128 = low / LIMB + cross_a % LIMB + cross_b % LIMB;
    let lo: u128 = (middle % LIMB) * LIMB + low % LIMB;
    proof {
        let base: int = 0x1_0000_0000_0000_0000;
        let square: int = 0x1_0000_0000_0000_0000_0000_0000_0000_0000int;
        assert(base * base == square);
        lemma_split_product(a as int, b as int, a1 as int, a0 as int, b1 as int, b0 as int, base);
        lemma_product_below_square(a as int, b as int, square);
        let top: int = high + cross_a / LIMB + cross_b / LIMB + middle / LIMB;
        assert((cross_a + cross_b) * base
            == (cross_a / LIMB + cross_b / LIMB) * square + (cross_a % LIMB + cross_b % LIMB) * base)
            by (nonlinear_arith)
            requires
                base * base == square,
                cross_a == (cross_a / LIMB) * base + cross_a % LIMB,
                cross_b == (cross_b / LIMB) * base + cross_b % LIMB,
        ;
        assert(middle * base == (middle / LIMB) * square + (middle % LIMB) * base)
            by (nonlinear_arith)
            requires
                base * base == square,
                middle == (middle / LIMB) * base + middle % LIMB,
        ;
        assert(high * (base * base) == high * square);
        assert(a * b == top * square + lo) by (nonlinear_arith)
            requires
                a * b == (a1 * b1) * (base * base) + (a0 * b1 + a1 * b0) * base + a0 * b0,
                high == a1 * b1,
                cross_a == a0 * b1,
                cross_b == a1 * b0,
                low == a0 * b0,
                base * base == square,
                (cross_a + cross_b) * base == (cross_a / LIMB + cross_b / LIMB) * square + (
                cross_a % LIMB + cross_b % LIMB) * base,
                middle * base == (middle / LIMB) * square + (middle % LIMB) * base,
                middle == low / LIMB + cross_a % LIMB + cross_b % LIMB,
                lo == (middle % LIMB) * base + low % LIMB,
                low == (low / LIMB) * base + low % LIMB,
                top == high + cross_a / LIMB + cross_b / LIMB + middle / LIMB,
        ;
        assert(top < square) by (nonlinear_arith)
            requires
                a * b == top * square + lo,
                a * b < square * square,
                lo >= 0,
                square > 0,
        ;
    }
    let hi: u128 = high + cross_a / LIMB + cross_b / LIMB + middle / LIMB;
    Wide { hi, lo }
}

} // verus!
