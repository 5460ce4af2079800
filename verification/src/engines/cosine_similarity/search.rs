//! The stages of the two-pass search: anchor selection, the coarse pass, the
//! refining pass with peak suppression, and the conversion of peaks to offsets.

use super::internals::{cosine_similarity, sqrsum, square_sum, Score, Similarity, Threshold, MAX_WINDOW};
use super::{agrees, Error, ErrorKind};
use crate::utils::{checked_index_to_nanoseconds, nanoseconds_at};
use vstd::prelude::*;
use vstd::slice::slice_subrange;

verus! {

/// The number of window positions that anchor selection examines: the starts
/// `0 ..= len - window` of all windows that fit, none where the audio is
/// shorter than the window.
pub open spec fn anchor_positions(len: int, window: int) -> int {
    if len >= window {
        len - window + 1
    } else {
        0
    }
}

/// The energy of the `window` samples of `raw` that start at `start`: the sum
/// of their squares. For one window size it orders windows as their
/// root-mean-square does.
pub open spec fn window_energy(raw: Seq<i16>, start: int, window: int) -> int {
    square_sum(raw.subrange(start, start + window))
}

/// The start of the most energetic of the `k` windows that start at
/// `0 .. k`, the earliest where several are equally energetic.
pub open spec fn loudest_among(raw: Seq<i16>, window: int, k: int) -> int
    decreases k,
{
    if k <= 1 {
        0
    } else {
        let best = loudest_among(raw, window, k - 1);
        if window_energy(raw, k - 1, window) > window_energy(raw, best, window) {
            k - 1
        } else {
            best
        }
    }
}

/// The anchor offset of `raw`: the start of its most energetic window.
pub open spec fn anchor_index(raw: Seq<i16>, window: int) -> int {
    loudest_among(raw, window, anchor_positions(raw.len() as int, window))
}

/// `loudest_among` picks a window that none examined exceeds and that every
/// earlier one falls short of.
pub proof fn lemma_loudest_is_first_maximum(raw: Seq<i16>, window: int, k: int)
    requires
        k >= 1,
    ensures
        0 <= loudest_among(raw, window, k) < k,
        forall|i: int|
            0 <= i < k ==> #[trigger] window_energy(raw, i, window) <= window_energy(
                raw,
                loudest_among(raw, window, k),
                window,
            ),
        forall|i: int|
            0 <= i < loudest_among(raw, window, k) ==> #[trigger] window_energy(raw, i, window)
                < window_energy(raw, loudest_among(raw, window, k), window),
    decreases k,
{
    if k > 1 {
        lemma_loudest_is_first_maximum(raw, window, k - 1);
    }
}

/// The anchor is the start of a window that fits in the audio.
pub proof fn lemma_anchor_in_range(raw: Seq<i16>, window: int)
    requires
        window >= 0,
    ensures
        0 <= anchor_index(raw, window) <= raw.len(),
        raw.len() >= window ==> anchor_index(raw, window) <= raw.len() - window,
        raw.len() < window ==> anchor_index(raw, window) == 0,
{
    if anchor_positions(raw.len() as int, window) >= 1 {
        lemma_loudest_is_first_maximum(raw, window, anchor_positions(raw.len() as int, window));
    }
}

/// Identifies the sample index that denotes an "interesting" position within
/// the raw audio: the start of the window of `window_size` samples with the
/// highest energy, the earliest of several that are equally energetic. Every
/// window that fits in the audio is examined, the last one included; audio
/// that is shorter than the window has the anchor 0.
pub fn find_anchor_sample_index(raw: &[i16], window_size: usize) -> (anchor: usize)
    ensures
        anchor == anchor_index(raw@, window_size as int),
        raw@.len() < window_size ==> anchor == 0,
        raw@.len() >= window_size ==> anchor <= raw@.len() - window_size,
        forall|i: int|
            0 <= i <= raw@.len() - window_size ==> #[trigger] window_energy(
                raw@,
                i,
                window_size as int,
            ) <= window_energy(raw@, anchor as int, window_size as int),
        forall|i: int|
            0 <= i < anchor ==> #[trigger] window_energy(raw@, i, window_size as int) < window_energy(
                raw@,
                anchor as int,
                window_size as int,
            ),
{
    if raw.len() < window_size {
        return 0;
    }
    let last = raw.len() - window_size;
    let mut max_i: usize = 0;
    let mut max_energy: u128 = sqrsum(slice_subrange(raw, 0, window_size));
    let mut i: usize = 0;
    while i < last
        invariant
            i <= last,
            last + window_size == raw@.len(),
            raw@.len() <= usize::MAX,
            max_i == loudest_among(raw@, window_size as int, i + 1),
            max_energy == window_energy(raw@, max_i as int, window_size as int),
        decreases last - i,
    {
        i += 1;
        let energy = sqrsum(slice_subrange(raw, i, i + window_size));
        if energy > max_energy {
            max_energy = energy;
            max_i = i;
        }
    }
    proof {
        lemma_loudest_is_first_maximum(raw@, window_size as int, last + 1);
    }
    max_i
}

/// Whether the window of `target` that starts at `start` and is as long as
/// `probe` has a cosine similarity with `probe` of at least `threshold`.
pub open spec fn window_matches(
    target: Seq<i16>,
    start: int,
    probe: Seq<i16>,
    threshold: Threshold,
) -> bool {
    Score::of(target.subrange(start, start + probe.len()), probe).at_least(
        threshold.numerator as int,
        threshold.denominator as int,
    )
}

/// The window starts below `limit` that match `probe`, in rising order.
pub open spec fn possibilities(
    target: Seq<i16>,
    probe: Seq<i16>,
    threshold: Threshold,
    limit: int,
) -> Seq<usize>
    decreases limit,
{
    if limit <= 0 {
        Seq::empty()
    } else {
        let earlier = possibilities(target, probe, threshold, limit - 1);
        if window_matches(target, limit - 1, probe, threshold) {
            earlier.push((limit - 1) as usize)
        } else {
            earlier
        }
    }
}

/// The coarse pass: collects every window start below `limit` at which
/// `target` is as similar to `probe` as `threshold` asks.
pub fn pass_one(target: &[i16], probe: &[i16], threshold: &Threshold, limit: usize) -> (found: Vec<
    usize,
>)
    requires
        limit + probe@.len() <= target@.len(),
        probe@.len() <= MAX_WINDOW,
        threshold.valid(),
    ensures
        found@ == possibilities(target@, probe@, *threshold, limit as int),
{
    let size = probe.len();
    let total = target.len();
    let mut found: Vec<usize> = Vec::new();
    let mut i: usize = 0;
    while i < limit
        invariant
            i <= limit,
            size == probe@.len(),
            limit + size <= target@.len(),
            total == target@.len(),
            size <= MAX_WINDOW,
            threshold.valid(),
            found@ == possibilities(target@, probe@, *threshold, i as int),
        decreases limit - i,
    {
        let score = cosine_similarity(slice_subrange(target, i, i + size), probe);
        if score.meets(threshold) {
            found.push(i);
        }
        i += 1;
    }
    found
}

/// A window that passed the refining pass: where it starts and how similar
/// it is to the probe.
pub struct Hit {
    pub index: usize,
    pub score: Score,
}

/// Those of the starts in `coarse` whose window matches `probe`, each with its
/// score, in the order of `coarse`.
pub open spec fn survivors(
    coarse: Seq<usize>,
    target: Seq<i16>,
    probe: Seq<i16>,
    threshold: Threshold,
) -> Seq<Hit>
    decreases coarse.len(),
{
    if coarse.len() == 0 {
        Seq::empty()
    } else {
        let earlier = survivors(coarse.drop_last(), target, probe, threshold);
        let start = coarse.last();
        if window_matches(target, start as int, probe, threshold) {
            earlier.push(
                Hit {
                    index: start,
                    score: Score::of(target.subrange(start as int, start + probe.len()), probe),
                },
            )
        } else {
            earlier
        }
    }
}

/// Where peak suppression stands after some hits: the peaks it has settled on,
/// and the peak of the cluster it is in.
pub struct Suppression {
    pub flushed: Seq<Hit>,
    pub current: Option<Hit>,
}

/// Peak suppression over `hits`, taken in order. A hit more than `span` past
/// the current peak settles that peak and starts a new cluster; a hit within
/// `span` of it replaces the peak only where it scores strictly higher.
pub open spec fn suppress(hits: Seq<Hit>, span: int) -> Suppression
    decreases hits.len(),
{
    if hits.len() == 0 {
        Suppression { flushed: Seq::empty(), current: None }
    } else {
        let before = suppress(hits.drop_last(), span);
        let hit = hits.last();
        match before.current {
            None => Suppression { flushed: before.flushed, current: Some(hit) },
            Some(peak) => if hit.index > peak.index + span {
                Suppression { flushed: before.flushed.push(peak), current: Some(hit) }
            } else if hit.score.above(peak.score) {
                Suppression { flushed: before.flushed, current: Some(hit) }
            } else {
                before
            },
        }
    }
}

/// The hits that peak suppression keeps of `hits`: the peak of each cluster,
/// the last cluster's included.
pub open spec fn chosen(hits: Seq<Hit>, span: int) -> Seq<Hit> {
    let end = suppress(hits, span);
    match end.current {
        None => end.flushed,
        Some(peak) => end.flushed.push(peak),
    }
}

/// Where each of `hits` starts.
pub open spec fn starts_of(hits: Seq<Hit>) -> Seq<usize> {
    hits.map_values(|hit: Hit| hit.index)
}

/// The peaks among `hits`: where the peak of each cluster starts.
pub open spec fn peaks(hits: Seq<Hit>, span: int) -> Seq<usize> {
    starts_of(chosen(hits, span))
}

/// The peak of the cluster that the refining pass is in.
#[derive(Clone, Copy, Debug)]
pub struct Peak {
    pub index: usize,
    pub score: Similarity,
}

/// The refining pass: scores each start in `coarse` against `probe`, drops
/// those below `threshold`, and keeps one peak for each cluster of survivors
/// that lie within `span` samples of their peak.
pub fn pass_two(
    coarse: &Vec<usize>,
    target: &[i16],
    probe: &[i16],
    threshold: &Threshold,
    span: usize,
) -> (found: Vec<usize>)
    requires
        forall|k: int| 0 <= k < coarse@.len() ==> coarse@[k] + probe@.len() <= target@.len(),
        probe@.len() <= MAX_WINDOW,
        threshold.valid(),
    ensures
        found@ == peaks(survivors(coarse@, target@, probe@, *threshold), span as int),
{
    let size = probe.len();
    let total = target.len();
    let mut flushed: Vec<usize> = Vec::new();
    let mut current: Option<Peak> = None;
    let mut k: usize = 0;
    while k < coarse.len()
        invariant
            k <= coarse@.len(),
            size == probe@.len(),
            size <= MAX_WINDOW,
            total == target@.len(),
            threshold.valid(),
            forall|j: int| 0 <= j < coarse@.len() ==> coarse@[j] + probe@.len() <= target@.len(),
            flushed@ == starts_of(
                suppress(
                    survivors(coarse@.take(k as int), target@, probe@, *threshold),
                    span as int,
                ).flushed,
            ),
            match current {
                None => suppress(
                    survivors(coarse@.take(k as int), target@, probe@, *threshold),
                    span as int,
                ).current is None,
                Some(peak) => peak.score.bounded() && suppress(
                    survivors(coarse@.take(k as int), target@, probe@, *threshold),
                    span as int,
                ).current == Some(Hit { index: peak.index, score: peak.score@ }),
            },
        decreases coarse@.len() - k,
    {
        let start = coarse[k];
        let score = cosine_similarity(slice_subrange(target, start, start + size), probe);
        proof {
            assert(coarse@.take(k + 1).drop_last() =~= coarse@.take(k as int));
            let earlier = survivors(coarse@.take(k as int), target@, probe@, *threshold);
            if window_matches(target@, start as int, probe@, *threshold) {
                let hit = Hit { index: start, score: score@ };
                assert(earlier.push(hit).drop_last() =~= earlier);
                let before = suppress(earlier, span as int);
                match before.current {
                    Some(peak) => {
                        assert(starts_of(before.flushed.push(peak)) =~= starts_of(
                            before.flushed,
                        ).push(peak.index));
                    },
                    None => {},
                }
            }
        }
        if score.meets(threshold) {
            match current {
                None => {
                    current = Some(Peak { index: start, score });
                },
                Some(peak) => {
                    if start as u128 > peak.index as u128 + span as u128 {
                        flushed.push(peak.index);
                        current = Some(Peak { index: start, score });
                    } else if score.exceeds(&peak.score) {
                        current = Some(Peak { index: start, score });
                    }
                },
            }
        }
        k += 1;
    }
    proof {
        assert(coarse@.take(coarse@.len() as int) =~= coarse@);
        let end = suppress(survivors(coarse@, target@, probe@, *threshold), span as int);
        match end.current {
            Some(peak) => {
                assert(starts_of(end.flushed.push(peak)) =~= starts_of(end.flushed).push(
                    peak.index,
                ));
            },
            None => {},
        }
    }
    match current {
        None => {},
        Some(peak) => {
            flushed.push(peak.index);
        },
    }
    flushed
}

/// Every start that the coarse pass finds lies below its limit, and the
/// starts rise strictly.
pub proof fn lemma_possibilities_below(
    target: Seq<i16>,
    probe: Seq<i16>,
    threshold: Threshold,
    limit: int,
)
    requires
        limit <= usize::MAX,
    ensures
        possibilities(target, probe, threshold, limit).len() <= if limit > 0 {
            limit
        } else {
            0
        },
        forall|k: int|
            0 <= k < possibilities(target, probe, threshold, limit).len() ==> 0 <= (
            #[trigger] possibilities(target, probe, threshold, limit)[k]) < limit,
        forall|j: int, k: int|
            0 <= j < k < possibilities(target, probe, threshold, limit).len() ==> possibilities(
                target,
                probe,
                threshold,
                limit,
            )[j] < possibilities(target, probe, threshold, limit)[k],
    decreases limit,
{
    if limit > 0 {
        lemma_possibilities_below(target, probe, threshold, limit - 1);
    }
}

/// The offsets, in nanoseconds, of the candidate's starts for the peaks
/// `found`: each peak less the anchor, converted at `sample_rate`. The first
/// peak that lies before the anchor, or whose offset exceeds 64 bits, decides
/// the error.
pub open spec fn offsets_of(found: Seq<usize>, anchor: int, sample_rate: int) -> Result<
    Seq<i64>,
    ErrorKind,
>
    decreases found.len(),
{
    if found.len() == 0 {
        Ok(Seq::empty())
    } else {
        match offsets_of(found.drop_last(), anchor, sample_rate) {
            Err(e) => Err(e),
            Ok(earlier) => {
                let start = found.last() - anchor;
                if start < 0 {
                    Err(ErrorKind::MatchBeforeStart)
                } else if nanoseconds_at(start, sample_rate) > i64::MAX {
                    Err(ErrorKind::TimeOutOfRange)
                } else {
                    Ok(earlier.push(nanoseconds_at(start, sample_rate) as i64))
                }
            },
        }
    }
}

/// Anchor correction and unit conversion: subtracts `anchor` from each peak
/// and converts the result to nanoseconds at `sample_rate`.
pub fn to_offsets(found: &Vec<usize>, anchor: usize, sample_rate: usize) -> (offsets: Result<
    Vec<i64>,
    Error,
>)
    requires
        sample_rate > 0,
    ensures
        agrees(offsets, offsets_of(found@, anchor as int, sample_rate as int)),
{
    let mut offsets: Vec<i64> = Vec::new();
    let mut k: usize = 0;
    while k < found.len()
        invariant
            k <= found@.len(),
            sample_rate > 0,
            offsets_of(found@.take(k as int), anchor as int, sample_rate as int) == Ok::<
                Seq<i64>,
                ErrorKind,
            >(offsets@),
        decreases found@.len() - k,
    {
        proof {
            assert(found@.take(k + 1).drop_last() =~= found@.take(k as int));
        }
        if found[k] < anchor {
            proof {
                lemma_offsets_error_stays(found@, k + 1, anchor as int, sample_rate as int);
            }
            return Err(Error::new(ErrorKind::MatchBeforeStart));
        }
        match checked_index_to_nanoseconds(found[k] - anchor, sample_rate) {
            None => {
                proof {
                    lemma_offsets_error_stays(found@, k + 1, anchor as int, sample_rate as int);
                }
                return Err(Error::new(ErrorKind::TimeOutOfRange));
            },
            Some(ns) => {
                offsets.push(ns);
            },
        }
        k += 1;
    }
    proof {
        assert(found@.take(found@.len() as int) =~= found@);
    }
    Ok(offsets)
}

/// Once a prefix of the peaks gives an error, the whole gives that error.
proof fn lemma_offsets_error_stays(found: Seq<usize>, k: int, anchor: int, sample_rate: int)
    requires
        0 <= k <= found.len(),
        offsets_of(found.take(k), anchor, sample_rate) is Err,
    ensures
        offsets_of(found, anchor, sample_rate) == offsets_of(found.take(k), anchor, sample_rate),
    decreases found.len() - k,
{
    if k < found.len() {
        assert(found.take(k + 1).drop_last() =~= found.take(k));
        lemma_offsets_error_stays(found, k + 1, anchor, sample_rate);
    } else {
        assert(found.take(k) =~= found);
    }
}

} // verus!
