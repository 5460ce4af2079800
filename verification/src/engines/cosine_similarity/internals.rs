//! Building blocks of the similarity search: sums over sample windows and
//! exact comparisons of cosine similarity scores.

use super::wide::wide_product;
use vstd::prelude::*;

verus! {

/// The largest number of samples over which one similarity score is taken.
pub const MAX_WINDOW: usize = 0xffff_ffff;

/// The sum of the products of the samples of `a` and `b`, position by position.
pub open spec fn dot_product(a: Seq<i16>, b: Seq<i16>) -> int
    decreases a.len(),
{
    if a.len() == 0 || b.len() == 0 {
        0
    } else {
        dot_product(a.drop_last(), b.drop_last()) + a.last() * b.last()
    }
}

/// The sum of the squares of the samples of `a`.
pub open spec fn square_sum(a: Seq<i16>) -> int {
    dot_product(a, a)
}

/// A number squared, keeping its sign. It grows strictly with the number, so
/// two numbers compare as their signed squares do.
pub open spec fn signed_square(x: int) -> int {
    if x >= 0 {
        x * x
    } else {
        -(x * x)
    }
}

/// A cosine similarity in exact form: the value `dot / sqrt(norm_a * norm_b)`,
/// which exists where both norms are positive.
pub struct Score {
    pub dot: int,
    pub norm_a: int,
    pub norm_b: int,
}

impl Score {
    /// The score of the windows `a` and `b`.
    pub open spec fn of(a: Seq<i16>, b: Seq<i16>) -> Score {
        Score { dot: dot_product(a, b), norm_a: square_sum(a), norm_b: square_sum(b) }
    }

    /// Whether the similarity exists: neither window is silent.
    pub open spec fn defined(self) -> bool {
        self.norm_a > 0 && self.norm_b > 0
    }

    /// Whether the similarity exists and is at least `numerator / denominator`.
    /// Both sides of `dot / sqrt(norm_a * norm_b) >= numerator / denominator` are
    /// squared with their signs and cleared of fractions.
    pub open spec fn at_least(self, numerator: int, denominator: int) -> bool {
        self.defined() && signed_square(self.dot) * (denominator * denominator) >= signed_square(
            numerator,
        ) * (self.norm_a * self.norm_b)
    }

    /// Whether this similarity is strictly greater than `other`, both existing.
    pub open spec fn above(self, other: Score) -> bool {
        signed_square(self.dot) * (other.norm_a * other.norm_b) > signed_square(other.dot) * (
        self.norm_a * self.norm_b)
    }
}

/// A minimum cosine similarity, as the fraction `numerator / denominator`.
#[derive(Clone, Copy, Debug)]
pub struct Threshold {
    pub numerator: i32,
    pub denominator: u32,
}

impl Threshold {
    /// A threshold is a fraction: its denominator is not zero.
    pub open spec fn valid(self) -> bool {
        self.denominator > 0
    }

    /// Whether the denominator is not zero.
    pub fn is_valid(&self) -> (ok: bool)
        ensures
            ok == self.valid(),
    {
        self.denominator > 0
    }
}

/// The cosine similarity of two windows of samples, kept as the three sums it
/// is made of so that scores can be compared without rounding.
#[derive(Clone, Copy, Debug)]
pub struct Similarity {
    /// The sum of the products of the samples.
    pub dot: i128,
    /// The sum of the squares of the first window's samples.
    pub norm_a: u128,
    /// The sum of the squares of the second window's samples.
    pub norm_b: u128,
}

impl View for Similarity {
    type V = Score;

    open spec fn view(&self) -> Score {
        Score { dot: self.dot as int, norm_a: self.norm_a as int, norm_b: self.norm_b as int }
    }
}

impl Similarity {
    /// Whether the three sums are as small as sums over at most `MAX_WINDOW`
    /// samples are, so that their squares fit in 128 bits.
    pub open spec fn bounded(self) -> bool {
        &&& -0x4000_0000_0000_0000 <= self.dot <= 0x4000_0000_0000_0000
        &&& self.norm_a <= 0x4000_0000_0000_0000
        &&& self.norm_b <= 0x4000_0000_0000_0000
    }

    /// Whether the similarity exists and reaches `threshold`.
    pub fn meets(&self, threshold: &Threshold) -> (r: bool)
        requires
            self.bounded(),
            threshold.valid(),
        ensures
            r == self@.at_least(threshold.numerator as int, threshold.denominator as int),
    {
        if self.norm_a == 0 || self.norm_b == 0 {
            return false;
        }
        let d: u128 = magnitude(self.dot);
        let n: u128 = magnitude(threshold.numerator as i128);
        let den: u128 = threshold.denominator as u128;
        proof {
            lemma_square_fits(d as int, 0x4000_0000_0000_0000);
            lemma_square_fits(n as int, 0x8000_0000);
            lemma_square_fits(den as int, 0xffff_ffff);
            lemma_product_sign(den as int, den as int);
            lemma_product_fits(self.norm_a as int, self.norm_b as int, 0x4000_0000_0000_0000);
            lemma_signed_square(self.dot as int, d as int);
            lemma_signed_square(threshold.numerator as int, n as int);
        }
        let left = wide_product(d * d, den * den);
        let right = wide_product(n * n, self.norm_a * self.norm_b);
        proof {
            lemma_product_sign((d * d) as int, (den * den) as int);
            lemma_product_sign((n * n) as int, (self.norm_a * self.norm_b) as int);
            lemma_negated_product((d * d) as int, (den * den) as int);
            lemma_negated_product((n * n) as int, (self.norm_a * self.norm_b) as int);
        }
        if self.dot >= 0 {
            if threshold.numerator >= 0 {
                right.at_most(&left)
            } else {
                true
            }
        } else {
            if threshold.numerator >= 0 {
                false
            } else {
                left.at_most(&right)
            }
        }
    }

    /// Whether this similarity is strictly greater than `other`.
    pub fn exceeds(&self, other: &Similarity) -> (r: bool)
        requires
            self.bounded(),
            other.bounded(),
        ensures
            r == self@.above(other@),
    {
        let d: u128 = magnitude(self.dot);
        let e: u128 = magnitude(other.dot);
        proof {
            lemma_square_fits(d as int, 0x4000_0000_0000_0000);
            lemma_square_fits(e as int, 0x4000_0000_0000_0000);
            lemma_product_fits(self.norm_a as int, self.norm_b as int, 0x4000_0000_0000_0000);
            lemma_product_fits(other.norm_a as int, other.norm_b as int, 0x4000_0000_0000_0000);
            lemma_signed_square(self.dot as int, d as int);
            lemma_signed_square(other.dot as int, e as int);
        }
        let left = wide_product(d * d, other.norm_a * other.norm_b);
        let right = wide_product(e * e, self.norm_a * self.norm_b);
        proof {
            lemma_product_sign((d * d) as int, (other.norm_a * other.norm_b) as int);
            lemma_product_sign((e * e) as int, (self.norm_a * self.norm_b) as int);
            lemma_negated_product((d * d) as int, (other.norm_a * other.norm_b) as int);
            lemma_negated_product((e * e) as int, (self.norm_a * self.norm_b) as int);
        }
        if self.dot >= 0 {
            if other.dot >= 0 {
                right.less_than(&left)
            } else {
                !(left.hi == 0 && left.lo == 0 && right.hi == 0 && right.lo == 0)
            }
        } else {
            if other.dot >= 0 {
                false
            } else {
                left.less_than(&right)
            }
        }
    }
}

/// Copies `src` over the start of `dst`, as far as the shorter of the two
/// reaches.
pub fn copy_slice<T>(dst: &mut [T], src: &[T]) where T: Copy
    ensures
        final(dst)@.len() == old(dst)@.len(),
        forall|i: int|
            0 <= i < old(dst)@.len() ==> final(dst)@[i] == if i < src@.len() {
                src@[i]
            } else {
                old(dst)@[i]
            },
{
    let n = if dst.len() < src.len() {
        dst.len()
    } else {
        src.len()
    };
    let mut i: usize = 0;
    while i < n
        invariant
            i <= n,
            n <= src@.len(),
            n <= dst@.len(),
            dst@.len() == old(dst)@.len(),
            forall|j: int|
                0 <= j < dst@.len() ==> dst@[j] == if j < i {
                    src@[j]
                } else {
                    old(dst)@[j]
                },
        decreases n - i,
    {
        dst[i] = src[i];
        i += 1;
    }
}

/// Shifts a sample into the unsigned range: `i16::MIN` becomes 0.
pub fn i16_to_u32(x: i16) -> (shifted: u32)
    ensures
        shifted == x + 32_768,
{
    (x as i64 + 32_768_i64) as u32
}

/// The absolute value of `x`.
fn magnitude(x: i128) -> (m: u128)
    requires
        x > i128::MIN,
    ensures
        m == if x >= 0 {
            x as int
        } else {
            -(x as int)
        },
{
    if x >= 0 {
        x as u128
    } else {
        (-x) as u128
    }
}

proof fn lemma_square_fits(x: int, bound: int)
    requires
        0 <= x <= bound,
    ensures
        0 <= x * x <= bound * bound,
{
    assert(0 <= x * x <= bound * bound) by (nonlinear_arith)
        requires
            0 <= x <= bound,
    ;
}

proof fn lemma_product_fits(x: int, y: int, bound: int)
    requires
        0 <= x <= bound,
        0 <= y <= bound,
    ensures
        0 <= x * y <= bound * bound,
        x > 0 && y > 0 ==> x * y > 0,
{
    assert(0 <= x * y <= bound * bound && (x > 0 && y > 0 ==> x * y > 0)) by (nonlinear_arith)
        requires
            0 <= x <= bound,
            0 <= y <= bound,
    ;
}

proof fn lemma_signed_square(x: int, m: int)
    requires
        m == if x >= 0 {
            x
        } else {
            -x
        },
    ensures
        signed_square(x) == if x >= 0 {
            m * m
        } else {
            -(m * m)
        },
        x != 0 ==> m * m > 0,
{
    assert(x * x == m * m && (x != 0 ==> m * m > 0)) by (nonlinear_arith)
        requires
            m == x || m == -x,
    ;
}

proof fn lemma_product_sign(x: int, y: int)
    requires
        0 <= x,
        0 <= y,
    ensures
        0 <= x * y,
        x > 0 && y > 0 ==> x * y > 0,
        x == 0 || y == 0 ==> x * y == 0,
{
    assert(0 <= x * y && (x > 0 && y > 0 ==> x * y > 0) && (x == 0 || y == 0 ==> x * y == 0))
        by (nonlinear_arith)
        requires
            0 <= x,
            0 <= y,
    ;
}

proof fn lemma_negated_product(x: int, y: int)
    ensures
        (-x) * y == -(x * y),
{
    assert((-x) * y == -(x * y)) by (nonlinear_arith);
}

/// The products of samples are small: a dot product over `n` positions lies
/// within `n` times two to the power 30 of zero.
pub proof fn lemma_dot_product_bound(a: Seq<i16>, b: Seq<i16>)
    requires
        a.len() == b.len(),
    ensures
        -(a.len() * 0x4000_0000) <= dot_product(a, b) <= a.len() * 0x4000_0000,
    decreases a.len(),
{
    if a.len() > 0 {
        lemma_dot_product_bound(a.drop_last(), b.drop_last());
        let x = a.last() as int;
        let y = b.last() as int;
        assert(-0x4000_0000 <= x * y <= 0x4000_0000) by (nonlinear_arith)
            requires
                -0x8000 <= x <= 0x7fff,
                -0x8000 <= y <= 0x7fff,
        ;
    }
}

/// A sum of squares is never negative, and is zero exactly for silence.
pub proof fn lemma_square_sum_sign(a: Seq<i16>)
    ensures
        square_sum(a) >= 0,
        square_sum(a) == 0 <==> forall|i: int| 0 <= i < a.len() ==> a[i] == 0,
    decreases a.len(),
{
    if a.len() > 0 {
        lemma_square_sum_sign(a.drop_last());
        let x = a.last() as int;
        assert(x * x >= 0 && (x * x == 0 <==> x == 0)) by (nonlinear_arith);
        if square_sum(a) == 0 {
            assert forall|i: int| 0 <= i < a.len() implies a[i] == 0 by {
                if i < a.len() - 1 {
                    assert(a.drop_last()[i] == a[i]);
                }
            }
        }
        if forall|i: int| 0 <= i < a.len() ==> a[i] == 0 {
            assert(forall|i: int| 0 <= i < a.drop_last().len() ==> a.drop_last()[i] == a[i]);
            assert(a.last() == a[a.len() - 1]);
        }
    }
}

/// Computes the sum of the products of the samples of `a` and `b`.
pub fn sumdotproduct(a: &[i16], b: &[i16]) -> (sum: i128)
    requires
        a@.len() == b@.len(),
    ensures
        sum == dot_product(a@, b@),
{
    let n = a.len();
    let mut sum: i128 = 0;
    let mut i: usize = 0;
    while i < n
        invariant
            i <= n,
            n == a@.len(),
            n == b@.len(),
            sum == dot_product(a@.take(i as int), b@.take(i as int)),
        decreases n - i,
    {
        proof {
            lemma_dot_product_bound(a@.take(i as int), b@.take(i as int));
            assert(a@.take(i + 1).drop_last() =~= a@.take(i as int));
            assert(b@.take(i + 1).drop_last() =~= b@.take(i as int));
            let x = a@[i as int] as int;
            let y = b@[i as int] as int;
            assert(-0x4000_0000 <= x * y <= 0x4000_0000) by (nonlinear_arith)
                requires
                    -0x8000 <= x <= 0x7fff,
                    -0x8000 <= y <= 0x7fff,
            ;
        }
        sum = sum + (a[i] as i128) * (b[i] as i128);
        i += 1;
    }
    proof {
        assert(a@.take(n as int) =~= a@);
        assert(b@.take(n as int) =~= b@);
    }
    sum
}

/// Computes the sum of the squares of the samples of `a`.
pub fn sqrsum(a: &[i16]) -> (sum: u128)
    ensures
        sum == square_sum(a@),
{
    proof {
        lemma_square_sum_sign(a@);
        lemma_dot_product_bound(a@, a@);
    }
    sumdotproduct(a, a) as u128
}

/// Computes the cosine similarity of `a` and `b` in exact form.
pub fn cosine_similarity(a: &[i16], b: &[i16]) -> (score: Similarity)
    requires
        a@.len() == b@.len(),
    ensures
        score@ == Score::of(a@, b@),
        a@.len() <= MAX_WINDOW ==> score.bounded(),
{
    proof {
        lemma_dot_product_bound(a@, b@);
        lemma_dot_product_bound(a@, a@);
        lemma_dot_product_bound(b@, b@);
    }
    Similarity { dot: sumdotproduct(a, b), norm_a: sqrsum(a), norm_b: sqrsum(b) }
}

} // verus!
