//! What holds of every search, whatever the audio: proved from the
//! definitions of the stages.

use super::internals::{lemma_square_sum_sign, signed_square, square_sum, Score, Threshold};
use super::search::{
    anchor_index, chosen, lemma_possibilities_below, offsets_of, peaks, possibilities, suppress,
    survivors, window_matches, Hit,
};
use super::{
    coarse_probe, found_hits, found_offsets, found_peaks, refined_hits, refining_probe, ErrorKind,
    Settings,
};
use crate::utils::{lemma_nanoseconds_grow, nanoseconds_at};
use vstd::prelude::*;

verus! {

/// Hits that come in strictly rising order of their window starts.
pub open spec fn rising(hits: Seq<Hit>) -> bool {
    forall|i: int, j: int| 0 <= i < j < hits.len() ==> hits[i].index < hits[j].index
}

/// Hits whose similarity exists.
pub open spec fn all_defined(hits: Seq<Hit>) -> bool {
    forall|k: int| 0 <= k < hits.len() ==> (#[trigger] hits[k]).score.defined()
}

/// Whether `index` is where one of `hits` starts.
pub open spec fn starts_a_hit(hits: Seq<Hit>, index: usize) -> bool {
    exists|k: int| 0 <= k < hits.len() && (#[trigger] hits[k]).index == index
}

/// How far the cluster before the one of `peaks[i]` reaches: `span` past the
/// peak before it, and nowhere if there is none.
pub open spec fn reach_before(peaks: Seq<Hit>, i: int, span: int) -> int {
    if i <= 0 {
        -1
    } else {
        peaks[i - 1].index + span
    }
}

proof fn lemma_cross_order(xa: int, pa: int, xb: int, pb: int, xc: int, pc: int)
    requires
        pa > 0,
        pb > 0,
        pc > 0,
        xa * pb > xb * pa,
        xc * pb <= xb * pc,
    ensures
        xa * pc > xc * pa,
{
    assert((xa * pb) * pc > (xb * pa) * pc) by (nonlinear_arith)
        requires
            xa * pb > xb * pa,
            pc > 0,
    ;
    assert((xc * pb) * pa <= (xb * pc) * pa) by (nonlinear_arith)
        requires
            xc * pb <= xb * pc,
            pa > 0,
    ;
    assert((xb * pa) * pc == (xb * pc) * pa) by (nonlinear_arith);
    assert((xa * pb) * pc == (xa * pc) * pb) by (nonlinear_arith);
    assert((xc * pb) * pa == (xc * pa) * pb) by (nonlinear_arith);
    assert(xa * pc > xc * pa) by (nonlinear_arith)
        requires
            (xa * pc) * pb > (xc * pa) * pb,
            pb > 0,
    ;
}

/// The order of similarities carries over: a score above one that a third
/// does not exceed is above the third.
pub proof fn lemma_above_carries_over(a: Score, b: Score, c: Score)
    requires
        a.defined(),
        b.defined(),
        c.defined(),
        a.above(b),
        !c.above(b),
    ensures
        a.above(c),
{
    let pa = a.norm_a * a.norm_b;
    let pb = b.norm_a * b.norm_b;
    let pc = c.norm_a * c.norm_b;
    assert(pa > 0) by (nonlinear_arith)
        requires
            pa == a.norm_a * a.norm_b,
            a.norm_a > 0,
            a.norm_b > 0,
    ;
    assert(pb > 0) by (nonlinear_arith)
        requires
            pb == b.norm_a * b.norm_b,
            b.norm_a > 0,
            b.norm_b > 0,
    ;
    assert(pc > 0) by (nonlinear_arith)
        requires
            pc == c.norm_a * c.norm_b,
            c.norm_a > 0,
            c.norm_b > 0,
    ;
    lemma_cross_order(
        signed_square(a.dot),
        pa,
        signed_square(b.dot),
        pb,
        signed_square(c.dot),
        pc,
    );
}

/// No similarity is above itself, and of two similarities at most one is
/// above the other.
pub proof fn lemma_above_is_strict(a: Score, b: Score)
    ensures
        !a.above(a),
        a.above(b) ==> !b.above(a),
{
}

proof fn lemma_suppress_keeps_apart(hits: Seq<Hit>, span: int)
    requires
        rising(hits),
        span >= 0,
    ensures
        forall|i: int, j: int|
            0 <= i < j < suppress(hits, span).flushed.len() ==> suppress(hits, span).flushed[i].index
                + span < suppress(hits, span).flushed[j].index,
        forall|i: int|
            0 <= i < suppress(hits, span).flushed.len() ==> hits.contains(
                #[trigger] suppress(hits, span).flushed[i],
            ),
        hits.len() > 0 ==> suppress(hits, span).current is Some,
        suppress(hits, span).current matches Some(peak) ==> {
            &&& hits.contains(peak)
            &&& forall|i: int|
                0 <= i < suppress(hits, span).flushed.len() ==> (#[trigger] suppress(
                    hits,
                    span,
                ).flushed[i]).index + span < peak.index
        },
    decreases hits.len(),
{
    if hits.len() > 0 {
        let earlier = hits.drop_last();
        let hit = hits.last();
        assert(rising(earlier)) by {
            assert forall|i: int, j: int| 0 <= i < j < earlier.len() implies earlier[i].index
                < earlier[j].index by {
                assert(earlier[i] == hits[i] && earlier[j] == hits[j]);
            }
        }
        lemma_suppress_keeps_apart(earlier, span);
        let before = suppress(earlier, span);
        let after = suppress(hits, span);
        assert(hits[hits.len() - 1] == hit);
        assert forall|h: Hit| earlier.contains(h) implies hits.contains(h) by {
            let k = choose|k: int| 0 <= k < earlier.len() && earlier[k] == h;
            assert(hits[k] == h);
        }
        match before.current {
            None => {},
            Some(peak) => {
                let k = choose|k: int| 0 <= k < earlier.len() && earlier[k] == peak;
                assert(hits[k] == peak);
                assert(peak.index < hit.index);
                if hit.index > peak.index + span {
                    assert(after.flushed == before.flushed.push(peak));
                    assert forall|i: int| 0 <= i < after.flushed.len() implies hits.contains(
                        #[trigger] after.flushed[i],
                    ) by {
                        if i < before.flushed.len() {
                            assert(after.flushed[i] == before.flushed[i]);
                        }
                    }
                }
            },
        }
    }
}

proof fn lemma_suppress_keeps_best(hits: Seq<Hit>, span: int)
    requires
        rising(hits),
        all_defined(hits),
        span >= 0,
    ensures
        forall|i: int, k: int|
            #![trigger suppress(hits, span).flushed[i], hits[k]]
            0 <= i < suppress(hits, span).flushed.len() && 0 <= k < hits.len() && suppress(
                hits,
                span,
            ).flushed[i].index < hits[k].index <= suppress(hits, span).flushed[i].index + span
                ==> !hits[k].score.above(suppress(hits, span).flushed[i].score),
        forall|i: int, k: int|
            #![trigger suppress(hits, span).flushed[i], hits[k]]
            0 <= i < suppress(hits, span).flushed.len() && 0 <= k < hits.len() && reach_before(
                suppress(hits, span).flushed,
                i,
                span,
            ) < hits[k].index < suppress(hits, span).flushed[i].index ==> suppress(
                hits,
                span,
            ).flushed[i].score.above(hits[k].score),
        suppress(hits, span).current matches Some(peak) ==> {
            &&& forall|k: int|
                0 <= k < hits.len() && peak.index < (#[trigger] hits[k]).index ==> hits[k].index
                    <= peak.index + span && !hits[k].score.above(peak.score)
            &&& forall|k: int|
                0 <= k < hits.len() && reach_before(
                    suppress(hits, span).flushed,
                    suppress(hits, span).flushed.len() as int,
                    span,
                ) < (#[trigger] hits[k]).index < peak.index ==> peak.score.above(hits[k].score)
        },
    decreases hits.len(),
{
    if hits.len() > 0 {
        let earlier = hits.drop_last();
        let hit = hits.last();
        let last = hits.len() - 1;
        assert(hits[last] == hit);
        assert(rising(earlier) && all_defined(earlier)) by {
            assert forall|i: int, j: int| 0 <= i < j < earlier.len() implies earlier[i].index
                < earlier[j].index by {
                assert(earlier[i] == hits[i] && earlier[j] == hits[j]);
            }
            assert forall|k: int| 0 <= k < earlier.len() implies (
            #[trigger] earlier[k]).score.defined() by {
                assert(earlier[k] == hits[k]);
            }
        }
        lemma_suppress_keeps_best(earlier, span);
        lemma_suppress_keeps_apart(earlier, span);
        let before = suppress(earlier, span);
        let after = suppress(hits, span);
        assert(forall|k: int| 0 <= k < earlier.len() ==> earlier[k] == hits[k]);
        match before.current {
            None => {},
            Some(peak) => {
                let at = choose|k: int| 0 <= k < earlier.len() && earlier[k] == peak;
                assert(hits[at] == peak);
                assert(peak.score.defined());
                assert(hit.score.defined());
                if hit.index > peak.index + span {
                    let settled = before.flushed.push(peak);
                    assert(after.flushed == settled);
                    assert forall|i: int, k: int|
                        #![trigger after.flushed[i], hits[k]]
                        0 <= i < after.flushed.len() && 0 <= k < hits.len()
                            && after.flushed[i].index < hits[k].index <= after.flushed[i].index
                            + span implies !hits[k].score.above(after.flushed[i].score) by {
                        if i < before.flushed.len() {
                            assert(after.flushed[i] == before.flushed[i]);
                            if k == last {
                                assert(before.flushed[i].index + span < peak.index);
                            }
                        }
                    }
                    assert forall|i: int, k: int|
                        #![trigger after.flushed[i], hits[k]]
                        0 <= i < after.flushed.len() && 0 <= k < hits.len() && reach_before(
                            after.flushed,
                            i,
                            span,
                        ) < hits[k].index < after.flushed[i].index implies after.flushed[i].score.above(
                        hits[k].score,
                    ) by {
                        if i < before.flushed.len() {
                            assert(after.flushed[i] == before.flushed[i]);
                            if i > 0 {
                                assert(after.flushed[i - 1] == before.flushed[i - 1]);
                            }
                            assert(reach_before(after.flushed, i, span) == reach_before(
                                before.flushed,
                                i,
                                span,
                            ));
                            if k == last {
                                assert(before.flushed[i].index + span < peak.index);
                            }
                        } else {
                            if before.flushed.len() > 0 {
                                assert(after.flushed[i - 1] == before.flushed[i - 1]);
                            }
                            assert(reach_before(after.flushed, i, span) == reach_before(
                                before.flushed,
                                before.flushed.len() as int,
                                span,
                            ));
                        }
                    }
                    assert(reach_before(after.flushed, after.flushed.len() as int, span)
                        == peak.index + span);
                } else if hit.score.above(peak.score) {
                    assert forall|k: int|
                        0 <= k < hits.len() && reach_before(
                            after.flushed,
                            after.flushed.len() as int,
                            span,
                        ) < (#[trigger] hits[k]).index < hit.index implies hit.score.above(
                        hits[k].score,
                    ) by {
                        assert(hits[k].score.defined());
                        if hits[k].index < peak.index {
                            lemma_above_is_strict(peak.score, hits[k].score);
                            lemma_above_carries_over(hit.score, peak.score, hits[k].score);
                        } else if hits[k].index == peak.index {
                            assert(k == at);
                        } else {
                            lemma_above_carries_over(hit.score, peak.score, hits[k].score);
                        }
                    }
                } else {
                }
            },
        }
    }
}

/// Peak suppression keeps hits that lie more than `span` samples apart, in
/// rising order: matches closer together than that count as one occurrence.
pub proof fn lemma_chosen_are_separated(hits: Seq<Hit>, span: int)
    requires
        rising(hits),
        span >= 0,
    ensures
        forall|i: int, j: int|
            0 <= i < j < chosen(hits, span).len() ==> chosen(hits, span)[i].index + span < chosen(
                hits,
                span,
            )[j].index,
        forall|i: int| 0 <= i < chosen(hits, span).len() ==> hits.contains(#[trigger] chosen(hits, span)[i]),
        hits.len() > 0 ==> chosen(hits, span).len() > 0,
        hits.len() == 0 ==> chosen(hits, span).len() == 0,
{
    lemma_suppress_keeps_apart(hits, span);
}

/// Each hit that peak suppression keeps is the best of its cluster, and the
/// first of the best: no hit within `span` after it scores higher, and every
/// hit between the reach of the cluster before and it scores lower. No hit
/// lies beyond the reach of the last cluster, so every hit is in a cluster.
pub proof fn lemma_chosen_are_cluster_maxima(hits: Seq<Hit>, span: int)
    requires
        rising(hits),
        all_defined(hits),
        span >= 0,
    ensures
        forall|k: int|
            0 <= k < hits.len() ==> chosen(hits, span).len() > 0 && (#[trigger] hits[k]).index
                <= chosen(hits, span).last().index + span,
        forall|i: int, k: int|
            #![trigger chosen(hits, span)[i], hits[k]]
            0 <= i < chosen(hits, span).len() && 0 <= k < hits.len() && chosen(hits, span)[i].index
                < hits[k].index <= chosen(hits, span)[i].index + span ==> !hits[k].score.above(
                chosen(hits, span)[i].score,
            ),
        forall|i: int, k: int|
            #![trigger chosen(hits, span)[i], hits[k]]
            0 <= i < chosen(hits, span).len() && 0 <= k < hits.len() && reach_before(
                chosen(hits, span),
                i,
                span,
            ) < hits[k].index < chosen(hits, span)[i].index ==> chosen(hits, span)[i].score.above(
                hits[k].score,
            ),
{
    lemma_suppress_keeps_best(hits, span);
    lemma_suppress_keeps_apart(hits, span);
    let end = suppress(hits, span);
    let kept = chosen(hits, span);
    match end.current {
        None => {},
        Some(peak) => {
            assert forall|i: int, k: int|
                #![trigger kept[i], hits[k]]
                0 <= i < kept.len() && 0 <= k < hits.len() && kept[i].index < hits[k].index
                    <= kept[i].index + span implies !hits[k].score.above(kept[i].score) by {
                if i < end.flushed.len() {
                    assert(kept[i] == end.flushed[i]);
                }
            }
            assert forall|i: int, k: int|
                #![trigger kept[i], hits[k]]
                0 <= i < kept.len() && 0 <= k < hits.len() && reach_before(kept, i, span)
                    < hits[k].index < kept[i].index implies kept[i].score.above(hits[k].score) by {
                if i < end.flushed.len() {
                    assert(kept[i] == end.flushed[i]);
                    if i > 0 {
                        assert(kept[i - 1] == end.flushed[i - 1]);
                    }
                    assert(reach_before(kept, i, span) == reach_before(end.flushed, i, span));
                } else {
                    if i > 0 {
                        assert(kept[i - 1] == end.flushed[i - 1]);
                    }
                    assert(reach_before(kept, i, span) == reach_before(
                        end.flushed,
                        end.flushed.len() as int,
                        span,
                    ));
                }
            }
        },
    }
}

/// Peak suppression reports matches that lie more than `span` samples apart,
/// in rising order: matches closer together than that count as one
/// occurrence.
pub proof fn lemma_peaks_are_separated(hits: Seq<Hit>, span: int)
    requires
        rising(hits),
        span >= 0,
    ensures
        forall|i: int, j: int|
            0 <= i < j < peaks(hits, span).len() ==> peaks(hits, span)[i] + span < peaks(
                hits,
                span,
            )[j],
{
    lemma_chosen_are_separated(hits, span);
}

/// Every peak is the start of one of the hits, and some peak is reported as
/// soon as there is a hit.
pub proof fn lemma_peaks_are_hits(hits: Seq<Hit>, span: int)
    requires
        rising(hits),
        span >= 0,
    ensures
        forall|i: int|
            0 <= i < peaks(hits, span).len() ==> starts_a_hit(hits, #[trigger] peaks(hits, span)[i]),
        hits.len() > 0 ==> peaks(hits, span).len() > 0,
        hits.len() == 0 ==> peaks(hits, span).len() == 0,
{
    lemma_chosen_are_separated(hits, span);
    assert forall|i: int| 0 <= i < peaks(hits, span).len() implies starts_a_hit(
        hits,
        #[trigger] peaks(hits, span)[i],
    ) by {
        let kept = chosen(hits, span)[i];
        assert(hits.contains(kept));
        let k = choose|k: int| 0 <= k < hits.len() && hits[k] == kept;
        assert(hits[k].index == peaks(hits, span)[i]);
    }
}

/// The coarse pass finds exactly the window starts below `limit` that match.
pub proof fn lemma_possibilities_are_the_matches(
    target: Seq<i16>,
    probe: Seq<i16>,
    threshold: Threshold,
    limit: int,
)
    requires
        limit <= usize::MAX,
    ensures
        forall|i: int|
            0 <= i < limit ==> (possibilities(target, probe, threshold, limit).contains(i as usize)
                <==> #[trigger] window_matches(target, i, probe, threshold)),
        forall|k: int|
            0 <= k < possibilities(target, probe, threshold, limit).len() ==> 0 <= (
            #[trigger] possibilities(target, probe, threshold, limit)[k]) < limit,
    decreases limit,
{
    if limit > 0 {
        lemma_possibilities_are_the_matches(target, probe, threshold, limit - 1);
        lemma_possibilities_below(target, probe, threshold, limit);
        let earlier = possibilities(target, probe, threshold, limit - 1);
        let all = possibilities(target, probe, threshold, limit);
        assert forall|i: int| 0 <= i < limit implies (all.contains(i as usize)
            <==> #[trigger] window_matches(target, i, probe, threshold)) by {
            if window_matches(target, limit - 1, probe, threshold) {
                assert(all == earlier.push((limit - 1) as usize));
                assert(all[all.len() - 1] == (limit - 1) as usize);
                if i < limit - 1 {
                    if earlier.contains(i as usize) {
                        let k = choose|k: int| 0 <= k < earlier.len() && earlier[k] == i as usize;
                        assert(all[k] == i as usize);
                    }
                    if all.contains(i as usize) {
                        let k = choose|k: int| 0 <= k < all.len() && all[k] == i as usize;
                        assert(k < earlier.len());
                        assert(earlier[k] == i as usize);
                    }
                }
            } else {
                assert(forall|k: int| 0 <= k < all.len() ==> all[k] < limit - 1);
            }
        }
    }
}

/// Starts that come in strictly rising order.
pub open spec fn rising_starts(starts: Seq<usize>) -> bool {
    forall|i: int, j: int| 0 <= i < j < starts.len() ==> starts[i] < starts[j]
}

/// The refining pass keeps, of the starts it is given, those whose window
/// matches; each hit carries the score of its window.
pub proof fn lemma_survivors_are_matches(
    coarse: Seq<usize>,
    target: Seq<i16>,
    probe: Seq<i16>,
    threshold: Threshold,
)
    ensures
        forall|k: int|
            0 <= k < survivors(coarse, target, probe, threshold).len() ==> {
                let hit = #[trigger] survivors(coarse, target, probe, threshold)[k];
                &&& coarse.contains(hit.index)
                &&& window_matches(target, hit.index as int, probe, threshold)
                &&& hit.score == Score::of(
                    target.subrange(hit.index as int, hit.index + probe.len()),
                    probe,
                )
            },
    decreases coarse.len(),
{
    if coarse.len() > 0 {
        let shorter = coarse.drop_last();
        lemma_survivors_are_matches(shorter, target, probe, threshold);
        let earlier = survivors(shorter, target, probe, threshold);
        assert forall|k: int| 0 <= k < earlier.len() implies coarse.contains(
            (#[trigger] earlier[k]).index,
        ) by {
            let j = choose|j: int| 0 <= j < shorter.len() && shorter[j] == earlier[k].index;
            assert(coarse[j] == shorter[j]);
        }
        assert(coarse[coarse.len() - 1] == coarse.last());
    }
}

/// The refining pass keeps every start it is given whose window matches.
pub proof fn lemma_survivors_are_complete(
    coarse: Seq<usize>,
    target: Seq<i16>,
    probe: Seq<i16>,
    threshold: Threshold,
)
    ensures
        forall|j: int|
            0 <= j < coarse.len() && window_matches(target, coarse[j] as int, probe, threshold)
                ==> starts_a_hit(survivors(coarse, target, probe, threshold), #[trigger] coarse[j]),
    decreases coarse.len(),
{
    if coarse.len() > 0 {
        let shorter = coarse.drop_last();
        lemma_survivors_are_complete(shorter, target, probe, threshold);
        let earlier = survivors(shorter, target, probe, threshold);
        let all = survivors(coarse, target, probe, threshold);
        assert forall|j: int|
            0 <= j < coarse.len() && window_matches(
                target,
                coarse[j] as int,
                probe,
                threshold,
            ) implies starts_a_hit(all, #[trigger] coarse[j]) by {
            if j < shorter.len() {
                assert(shorter[j] == coarse[j]);
                let k = choose|k: int|
                    0 <= k < earlier.len() && (#[trigger] earlier[k]).index == shorter[j];
                assert(all[k] == earlier[k]);
            } else {
                assert(all[all.len() - 1].index == coarse[j]);
            }
        }
    }
}

/// The refining pass keeps the order of the starts it is given.
pub proof fn lemma_survivors_keep_order(
    coarse: Seq<usize>,
    target: Seq<i16>,
    probe: Seq<i16>,
    threshold: Threshold,
)
    requires
        rising_starts(coarse),
    ensures
        rising(survivors(coarse, target, probe, threshold)),
    decreases coarse.len(),
{
    if coarse.len() > 0 {
        let shorter = coarse.drop_last();
        assert(rising_starts(shorter)) by {
            assert forall|i: int, j: int| 0 <= i < j < shorter.len() implies shorter[i]
                < shorter[j] by {
                assert(shorter[i] == coarse[i] && shorter[j] == coarse[j]);
            }
        }
        lemma_survivors_keep_order(shorter, target, probe, threshold);
        lemma_survivors_are_matches(shorter, target, probe, threshold);
        let earlier = survivors(shorter, target, probe, threshold);
        assert forall|k: int| 0 <= k < earlier.len() implies (#[trigger] earlier[k]).index
            < coarse.last() by {
            let j = choose|j: int| 0 <= j < shorter.len() && shorter[j] == earlier[k].index;
            assert(coarse[j] == shorter[j]);
            assert(coarse[coarse.len() - 1] == coarse.last());
        }
    }
}

/// The windows that pass both passes come in rising order, each has a
/// similarity, and each lies where the candidate still fits in the target and
/// meets the thresholds of both passes.
pub proof fn lemma_refined_hits_passed_both(options: Settings, candidate: Seq<i16>, target: Seq<i16>)
    requires
        candidate.len() < target.len() <= usize::MAX,
    ensures
        rising(refined_hits(options, candidate, target)),
        all_defined(refined_hits(options, candidate, target)),
        forall|k: int|
            0 <= k < refined_hits(options, candidate, target).len() ==> {
                let hit = #[trigger] refined_hits(options, candidate, target)[k];
                &&& hit.index < target.len() - candidate.len()
                &&& window_matches(
                    target,
                    hit.index as int,
                    coarse_probe(options, candidate),
                    options.pass_one_threshold,
                )
                &&& window_matches(
                    target,
                    hit.index as int,
                    refining_probe(options, candidate),
                    options.pass_two_threshold,
                )
                &&& hit.score == Score::of(
                    target.subrange(
                        hit.index as int,
                        hit.index + refining_probe(options, candidate).len(),
                    ),
                    refining_probe(options, candidate),
                )
            },
{
    let limit = target.len() - candidate.len();
    let first = coarse_probe(options, candidate);
    let second = refining_probe(options, candidate);
    let coarse = possibilities(target, first, options.pass_one_threshold, limit);
    let refined = survivors(coarse, target, second, options.pass_two_threshold);
    lemma_possibilities_below(target, first, options.pass_one_threshold, limit);
    lemma_possibilities_are_the_matches(target, first, options.pass_one_threshold, limit);
    lemma_survivors_are_matches(coarse, target, second, options.pass_two_threshold);
    lemma_survivors_keep_order(coarse, target, second, options.pass_two_threshold);
    assert forall|k: int| 0 <= k < refined.len() implies {
        let hit = #[trigger] refined[k];
        &&& hit.index < limit
        &&& window_matches(target, hit.index as int, first, options.pass_one_threshold)
        &&& window_matches(target, hit.index as int, second, options.pass_two_threshold)
        &&& hit.score.defined()
    } by {
        let hit = refined[k];
        assert(coarse.contains(hit.index));
        let c = choose|c: int| 0 <= c < coarse.len() && coarse[c] == hit.index;
        assert(0 <= coarse[c] < limit);
    }
}

/// Every window start where the candidate still fits and that meets the
/// thresholds of both passes is among the windows that pass both passes.
pub proof fn lemma_refined_hits_are_complete(
    options: Settings,
    candidate: Seq<i16>,
    target: Seq<i16>,
)
    requires
        candidate.len() < target.len() <= usize::MAX,
    ensures
        forall|start: int|
            0 <= start < target.len() - candidate.len() && #[trigger] window_matches(
                target,
                start,
                coarse_probe(options, candidate),
                options.pass_one_threshold,
            ) && window_matches(
                target,
                start,
                refining_probe(options, candidate),
                options.pass_two_threshold,
            ) ==> starts_a_hit(refined_hits(options, candidate, target), start as usize),
{
    let limit = target.len() - candidate.len();
    let first = coarse_probe(options, candidate);
    let second = refining_probe(options, candidate);
    let coarse = possibilities(target, first, options.pass_one_threshold, limit);
    lemma_possibilities_are_the_matches(target, first, options.pass_one_threshold, limit);
    lemma_survivors_are_complete(coarse, target, second, options.pass_two_threshold);
    assert forall|start: int|
        0 <= start < limit && #[trigger] window_matches(
            target,
            start,
            first,
            options.pass_one_threshold,
        ) && window_matches(target, start, second, options.pass_two_threshold) implies starts_a_hit(
        refined_hits(options, candidate, target),
        start as usize,
    ) by {
        assert(coarse.contains(start as usize));
        let j = choose|j: int| 0 <= j < coarse.len() && coarse[j] == start as usize;
        assert(window_matches(target, coarse[j] as int, second, options.pass_two_threshold));
    }
}

/// Every window that `find_offsets` settles on is one of those that passed
/// both passes, and there is one as soon as any window passed.
pub proof fn lemma_found_hits_passed_both(options: Settings, candidate: Seq<i16>, target: Seq<i16>)
    requires
        candidate.len() < target.len() <= usize::MAX,
    ensures
        forall|i: int|
            0 <= i < found_hits(options, candidate, target).len() ==> refined_hits(
                options,
                candidate,
                target,
            ).contains(#[trigger] found_hits(options, candidate, target)[i]),
        refined_hits(options, candidate, target).len() > 0 ==> found_hits(
            options,
            candidate,
            target,
        ).len() > 0,
        refined_hits(options, candidate, target).len() == 0 ==> found_hits(
            options,
            candidate,
            target,
        ).len() == 0,
{
    lemma_refined_hits_passed_both(options, candidate, target);
    lemma_chosen_are_separated(
        refined_hits(options, candidate, target),
        candidate.len() as int,
    );
}

/// The windows that `find_offsets` settles on lie more than the candidate's
/// length apart, in rising order: no two reported matches overlap.
pub proof fn lemma_found_peaks_are_separated(
    options: Settings,
    candidate: Seq<i16>,
    target: Seq<i16>,
)
    requires
        candidate.len() < target.len() <= usize::MAX,
    ensures
        forall|i: int, j: int|
            0 <= i < j < found_peaks(options, candidate, target).len() ==> found_peaks(
                options,
                candidate,
                target,
            )[i] + candidate.len() < found_peaks(options, candidate, target)[j],
{
    lemma_refined_hits_passed_both(options, candidate, target);
    lemma_chosen_are_separated(
        refined_hits(options, candidate, target),
        candidate.len() as int,
    );
}

/// Each window that `find_offsets` settles on is the best of its cluster, and
/// the first of the best: no window that passed both passes and starts within
/// the candidate's length after it scores higher, and every such window
/// between the reach of the cluster before and it scores lower. No window
/// that passed lies beyond the reach of the last cluster.
pub proof fn lemma_found_hits_are_cluster_maxima(
    options: Settings,
    candidate: Seq<i16>,
    target: Seq<i16>,
)
    requires
        candidate.len() < target.len() <= usize::MAX,
    ensures
        forall|k: int|
            0 <= k < refined_hits(options, candidate, target).len() ==> found_hits(
                options,
                candidate,
                target,
            ).len() > 0 && (#[trigger] refined_hits(options, candidate, target)[k]).index
                <= found_hits(options, candidate, target).last().index + candidate.len(),
        forall|i: int, k: int|
            #![trigger found_hits(options, candidate, target)[i], refined_hits(options, candidate, target)[k]]
            0 <= i < found_hits(options, candidate, target).len() && 0 <= k < refined_hits(
                options,
                candidate,
                target,
            ).len() && found_hits(options, candidate, target)[i].index < refined_hits(
                options,
                candidate,
                target,
            )[k].index <= found_hits(options, candidate, target)[i].index + candidate.len()
                ==> !refined_hits(options, candidate, target)[k].score.above(
                found_hits(options, candidate, target)[i].score,
            ),
        forall|i: int, k: int|
            #![trigger found_hits(options, candidate, target)[i], refined_hits(options, candidate, target)[k]]
            0 <= i < found_hits(options, candidate, target).len() && 0 <= k < refined_hits(
                options,
                candidate,
                target,
            ).len() && reach_before(
                found_hits(options, candidate, target),
                i,
                candidate.len() as int,
            ) < refined_hits(options, candidate, target)[k].index < found_hits(
                options,
                candidate,
                target,
            )[i].index ==> found_hits(options, candidate, target)[i].score.above(
                refined_hits(options, candidate, target)[k].score,
            ),
{
    lemma_refined_hits_passed_both(options, candidate, target);
    lemma_chosen_are_cluster_maxima(
        refined_hits(options, candidate, target),
        candidate.len() as int,
    );
}

/// When the conversion of peaks to offsets succeeds, and what it gives: it
/// succeeds where no peak lies before the anchor and every offset fits in 64
/// bits, and then gives one offset for each peak, in order.
pub proof fn lemma_offsets_follow_peaks(found: Seq<usize>, anchor: int, sample_rate: int)
    requires
        sample_rate > 0,
    ensures
        offsets_of(found, anchor, sample_rate) is Ok <==> forall|k: int|
            0 <= k < found.len() ==> (#[trigger] found[k]) >= anchor && nanoseconds_at(
                found[k] - anchor,
                sample_rate,
            ) <= i64::MAX,
        offsets_of(found, anchor, sample_rate) matches Ok(offsets) ==> {
            &&& offsets.len() == found.len()
            &&& forall|k: int|
                0 <= k < found.len() ==> (#[trigger] offsets[k]) == nanoseconds_at(
                    found[k] - anchor,
                    sample_rate,
                )
        },
        offsets_of(found, anchor, sample_rate) matches Err(e) ==> e == ErrorKind::MatchBeforeStart
            || e == ErrorKind::TimeOutOfRange,
    decreases found.len(),
{
    if found.len() > 0 {
        let shorter = found.drop_last();
        lemma_offsets_follow_peaks(shorter, anchor, sample_rate);
        assert(found[found.len() - 1] == found.last());
        assert(forall|k: int| 0 <= k < shorter.len() ==> shorter[k] == found[k]);
        let start = found.last() - anchor;
        if start >= 0 {
            assert(start * 1_000_000_000 / sample_rate >= 0) by (nonlinear_arith)
                requires
                    start >= 0,
                    sample_rate > 0,
            ;
        }
    }
}

/// Peaks in rising order give offsets that never fall: the matches are
/// reported in the order in which they occur in the target.
pub proof fn lemma_offsets_keep_order(found: Seq<usize>, anchor: int, sample_rate: int)
    requires
        sample_rate > 0,
        rising_starts(found),
        offsets_of(found, anchor, sample_rate) is Ok,
    ensures
        forall|i: int, j: int|
            #![trigger found[i], found[j]]
            0 <= i <= j < found.len() ==> 0 <= offsets_of(found, anchor, sample_rate)->Ok_0[i]
                <= offsets_of(found, anchor, sample_rate)->Ok_0[j],
{
    lemma_offsets_follow_peaks(found, anchor, sample_rate);
    let offsets = offsets_of(found, anchor, sample_rate)->Ok_0;
    assert forall|i: int, j: int|
        #![trigger found[i], found[j]]
        0 <= i <= j < found.len() implies 0 <= offsets[i] <= offsets[j] by {
        assert(found[i] >= anchor && found[j] >= anchor);
        assert(found[i] <= found[j]);
        lemma_nanoseconds_grow(found[i] - anchor, found[j] - anchor, sample_rate);
    }
}

/// No window of a silent target has a similarity with anything, so a search
/// in a silent target reports nothing.
pub proof fn lemma_silence_matches_nothing(
    target: Seq<i16>,
    probe: Seq<i16>,
    threshold: Threshold,
    limit: int,
)
    requires
        forall|i: int| 0 <= i < target.len() ==> target[i] == 0,
        limit + probe.len() <= target.len(),
    ensures
        possibilities(target, probe, threshold, limit).len() == 0,
    decreases limit,
{
    if limit > 0 {
        lemma_silence_matches_nothing(target, probe, threshold, limit - 1);
        let window = target.subrange(limit - 1, limit - 1 + probe.len());
        lemma_square_sum_sign(window);
        assert(square_sum(window) == 0);
    }
}

/// A search in a target that is silent throughout returns no offset and no
/// error, whenever the candidate is long enough for the settings.
pub proof fn lemma_silent_target_has_no_offsets(
    options: Settings,
    candidate: Seq<i16>,
    target: Seq<i16>,
)
    requires
        options.valid(),
        forall|i: int| 0 <= i < target.len() ==> target[i] == 0,
        anchor_index(candidate, options.rms_window_size as int) + options.pass_one_sample_size
            <= candidate.len(),
        anchor_index(candidate, options.rms_window_size as int) + options.pass_two_sample_size
            <= candidate.len(),
    ensures
        found_offsets(options, candidate, target) == Ok::<Seq<i64>, ErrorKind>(Seq::empty()),
{
    if candidate.len() < target.len() {
        let anchor = anchor_index(candidate, options.rms_window_size as int);
        let probe = candidate.subrange(anchor, anchor + options.pass_one_sample_size);
        super::search::lemma_anchor_in_range(candidate, options.rms_window_size as int);
        lemma_silence_matches_nothing(
            target,
            probe,
            options.pass_one_threshold,
            target.len() - candidate.len(),
        );
        let coarse = possibilities(
            target,
            probe,
            options.pass_one_threshold,
            target.len() - candidate.len(),
        );
        assert(coarse =~= Seq::<usize>::empty());
        assert(found_peaks(options, candidate, target) =~= Seq::<usize>::empty());
    }
}

} // verus!
