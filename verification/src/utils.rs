//! Miscellaneous utility functions used across multiple modules.

use vstd::arithmetic::div_mod::{lemma_div_by_multiple, lemma_div_is_ordered};
use vstd::prelude::*;

verus! {

/// The number of nanoseconds in one second.
pub const NANOSECONDS: u128 = 1_000_000_000;

/// The nanosecond offset of sample `i` at `sample_rate` samples per second,
/// rounded down to a whole nanosecond.
pub open spec fn nanoseconds_at(i: int, sample_rate: int) -> int {
    i * 1_000_000_000 / sample_rate
}

/// A later sample has no earlier offset, and no offset is negative.
pub proof fn lemma_nanoseconds_grow(i: int, j: int, sample_rate: int)
    requires
        0 <= i <= j,
        sample_rate > 0,
    ensures
        0 <= nanoseconds_at(i, sample_rate) <= nanoseconds_at(j, sample_rate),
{
    lemma_div_is_ordered(0, i * 1_000_000_000, sample_rate);
    lemma_div_is_ordered(i * 1_000_000_000, j * 1_000_000_000, sample_rate);
}

/// As many samples as the rate has per second, `seconds` times over, last
/// `seconds` seconds exactly.
pub proof fn lemma_whole_seconds(seconds: int, sample_rate: int)
    requires
        0 <= seconds,
        sample_rate > 0,
    ensures
        nanoseconds_at(seconds * sample_rate, sample_rate) == seconds * 1_000_000_000,
{
    assert((seconds * sample_rate) * 1_000_000_000 == (seconds * 1_000_000_000) * sample_rate)
        by (nonlinear_arith);
    lemma_div_by_multiple(seconds * 1_000_000_000, sample_rate);
}

/// Converts an index offset to a nanosecond offset based on the supplied
/// `sample_rate`, or `None` where the rate is zero or the offset does not fit
/// in an `i64`.
pub fn checked_index_to_nanoseconds(i: usize, sample_rate: usize) -> (ns: Option<i64>)
    ensures
        ns is Some <==> sample_rate > 0 && nanoseconds_at(i as int, sample_rate as int) <= i64::MAX,
        ns is Some ==> ns->Some_0 == nanoseconds_at(i as int, sample_rate as int),
{
    if sample_rate == 0 {
        return None;
    }
    let scaled: u128 = (i as u128) * NANOSECONDS;
    let whole: u128 = scaled / (sample_rate as u128);
    if whole > i64::MAX as u128 {
        None
    } else {
        Some(whole as i64)
    }
}

/// Converts an index offset to a nanosecond offset based on the supplied
/// `sample_rate`.
pub fn index_to_nanoseconds(i: usize, sample_rate: usize) -> (ns: i64)
    requires
        sample_rate > 0,
        nanoseconds_at(i as int, sample_rate as int) <= i64::MAX,
    ensures
        ns == nanoseconds_at(i as int, sample_rate as int),
{
    let scaled: u128 = (i as u128) * NANOSECONDS;
    (scaled / (sample_rate as u128)) as i64
}

} // verus!
