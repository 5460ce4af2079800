use analyzer::engines::cosine_similarity::internals::{
    copy_slice, cosine_similarity, i16_to_u32, sqrsum, sumdotproduct, Similarity, Threshold,
};
use analyzer::engines::cosine_similarity::search::{
    find_anchor_sample_index, pass_one, pass_two, to_offsets,
};
use analyzer::engines::cosine_similarity::wide::{wide_product, Wide};
use analyzer::engines::cosine_similarity::ErrorKind;

fn as_float(s: &Similarity) -> f64 {
    s.dot as f64 / ((s.norm_a as f64).sqrt() * (s.norm_b as f64).sqrt())
}

#[test]
fn cosine_similarity_happy_path() {
    let a: [i16; 8] = [2, 0, 1, 1, 0, 2, 1, 1];
    let b: [i16; 8] = [2, 1, 1, 0, 1, 1, 1, 1];
    let cs = as_float(&cosine_similarity(&a, &b));
    assert_eq!(cs, 0.821_583_836_257_749_1)
}

#[test]
fn lib_cosine_sim_happy_path() {
    let a: [i16; 8] = [2, 0, 1, 1, 0, 2, 1, 1];
    let b: [i16; 8] = [2, 1, 1, 0, 1, 1, 1, 1];
    let cs = as_float(&cosine_similarity(&a, &b));
    assert_eq!(cs, 0.8215838362577491)
}

#[test]
fn cosine_similarity_cosine_sim_happy_path() {
    let a: [i16; 8] = [2, 0, 1, 1, 0, 2, 1, 1];
    let b: [i16; 8] = [2, 1, 1, 0, 1, 1, 1, 1];
    let cs = as_float(&cosine_similarity(&a, &b));
    assert_eq!(cs, 0.821_583_836_257_749_1)
}

#[test]
fn tests_cosine_sim_happy_path() {
    let a: [i16; 8] = [2, 0, 1, 1, 0, 2, 1, 1];
    let b: [i16; 8] = [2, 1, 1, 0, 1, 1, 1, 1];
    let cs = as_float(&cosine_similarity(&a, &b));
    assert_eq!(cs, 0.821_583_836_257_749_1)
}

#[test]
fn cosine_similarity_tests_happy_path() {
    let a: [i16; 8] = [2, 0, 1, 1, 0, 2, 1, 1];
    let b: [i16; 8] = [2, 1, 1, 0, 1, 1, 1, 1];
    let cs = as_float(&cosine_similarity(&a, &b));
    assert_eq!(cs, 0.821_583_836_257_749_1)
}

#[test]
fn similarity_holds_the_three_sums() {
    let a: [i16; 8] = [2, 0, 1, 1, 0, 2, 1, 1];
    let b: [i16; 8] = [2, 1, 1, 0, 1, 1, 1, 1];
    let s = cosine_similarity(&a, &b);
    assert_eq!((s.dot, s.norm_a, s.norm_b), (9, 12, 10));
    assert_eq!(sumdotproduct(&a, &b), 9);
    assert_eq!(sqrsum(&a), 12);
    assert_eq!(sqrsum(&b), 10);
    assert_eq!(sumdotproduct(&[-3, 4], &[5, 6]), 9);
    assert_eq!(sumdotproduct(&[i16::MIN, i16::MIN], &[i16::MIN, i16::MAX]), 1_073_741_824 - 1_073_709_056);
    assert_eq!(sqrsum(&[]), 0);
}

#[test]
fn similarity_is_compared_with_thresholds_exactly() {
    // 9 / sqrt(120) = 0.82158383625...
    let s = Similarity { dot: 9, norm_a: 12, norm_b: 10 };
    assert!(s.meets(&Threshold { numerator: 821_583_836, denominator: 1_000_000_000 }));
    assert!(!s.meets(&Threshold { numerator: 821_583_837, denominator: 1_000_000_000 }));
    assert!(s.meets(&Threshold { numerator: 0, denominator: 1 }));
    assert!(s.meets(&Threshold { numerator: -1, denominator: 1 }));
    assert!(!s.meets(&Threshold { numerator: 1, denominator: 1 }));
    // A similarity of exactly one meets the threshold one.
    let same = cosine_similarity(&[3, -4, 5], &[3, -4, 5]);
    assert!(same.meets(&Threshold { numerator: 1, denominator: 1 }));
    assert!(!same.meets(&Threshold { numerator: 1_000_001, denominator: 1_000_000 }));
    // Opposite windows have the similarity minus one.
    let opposite = cosine_similarity(&[3, -4, 5], &[-3, 4, -5]);
    assert!(opposite.meets(&Threshold { numerator: -1, denominator: 1 }));
    assert!(!opposite.meets(&Threshold { numerator: -999_999, denominator: 1_000_000 }));
    assert!(!opposite.meets(&Threshold { numerator: 0, denominator: 1 }));
}

#[test]
fn silence_has_no_similarity() {
    let silent = cosine_similarity(&[0, 0, 0], &[1, 2, 3]);
    assert!(!silent.meets(&Threshold { numerator: -1, denominator: 1 }));
    assert!(!silent.meets(&Threshold { numerator: 0, denominator: 1 }));
    let empty = cosine_similarity(&[], &[]);
    assert!(!empty.meets(&Threshold { numerator: -1, denominator: 1 }));
}

#[test]
fn similarities_are_ordered_exactly() {
    let low = Similarity { dot: 3, norm_a: 5, norm_b: 5 };
    let high = Similarity { dot: 4, norm_a: 5, norm_b: 5 };
    let negative = Similarity { dot: -4, norm_a: 5, norm_b: 5 };
    let more_negative = Similarity { dot: -5, norm_a: 5, norm_b: 5 };
    assert!(high.exceeds(&low));
    assert!(!low.exceeds(&high));
    assert!(!low.exceeds(&low));
    assert!(low.exceeds(&negative));
    assert!(!negative.exceeds(&low));
    assert!(negative.exceeds(&more_negative));
    assert!(!more_negative.exceeds(&negative));
    // 2 / sqrt(4 * 4) = 1 / sqrt(2 * 2): equal values in different terms.
    let a = Similarity { dot: 2, norm_a: 4, norm_b: 4 };
    let b = Similarity { dot: 1, norm_a: 2, norm_b: 2 };
    assert!(!a.exceeds(&b));
    assert!(!b.exceeds(&a));
    // Sums as large as a window of the largest size gives.
    let big: i128 = 1 << 62;
    let large = Similarity { dot: big, norm_a: 1 << 62, norm_b: 1 << 62 };
    let smaller = Similarity { dot: big - 1, norm_a: 1 << 62, norm_b: 1 << 62 };
    assert!(large.exceeds(&smaller));
    assert!(!smaller.exceeds(&large));
    assert!(large.meets(&Threshold { numerator: 1, denominator: 1 }));
    assert!(!smaller.meets(&Threshold { numerator: 1, denominator: 1 }));
    assert!(smaller.meets(&Threshold { numerator: i32::MAX - 1, denominator: i32::MAX as u32 }));
}

fn wide(x: &Wide) -> (u128, u128) {
    (x.hi, x.lo)
}

#[test]
fn wide_product_is_the_full_product() {
    assert_eq!(wide(&wide_product(0, 0)), (0, 0));
    assert_eq!(wide(&wide_product(6, 7)), (0, 42));
    assert_eq!(wide(&wide_product(u128::MAX, 1)), (0, u128::MAX));
    assert_eq!(wide(&wide_product(u128::MAX, 2)), (1, u128::MAX - 1));
    // (2^128 - 1)^2 = 2^256 - 2^129 + 1
    assert_eq!(wide(&wide_product(u128::MAX, u128::MAX)), (u128::MAX - 1, 1));
    assert_eq!(wide(&wide_product(1 << 64, 1 << 64)), (1, 0));
    assert_eq!(wide(&wide_product(1 << 100, 1 << 100)), (1 << 72, 0));
    assert_eq!(
        wide(&wide_product((1 << 64) + 3, (1 << 64) + 5)),
        (1, (8 << 64) + 15)
    );
}

#[test]
fn wide_numbers_are_ordered() {
    let small = Wide { hi: 0, lo: u128::MAX };
    let large = Wide { hi: 1, lo: 0 };
    assert!(small.less_than(&large));
    assert!(!large.less_than(&small));
    assert!(!small.less_than(&small));
    assert!(small.at_most(&small));
    assert!(small.at_most(&large));
    assert!(!large.at_most(&small));
}

#[test]
fn copy_slice_copies_as_far_as_both_reach() {
    let mut dst = [0; 5];
    copy_slice(&mut dst, &[1, 2, 3]);
    assert_eq!(dst, [1, 2, 3, 0, 0]);
    let mut dst = [9; 2];
    copy_slice(&mut dst, &[1, 2, 3]);
    assert_eq!(dst, [1, 2]);
    let mut dst: [u8; 0] = [];
    copy_slice(&mut dst, &[1, 2, 3]);
    assert_eq!(dst, []);
}

#[test]
fn i16_to_u32_shifts_into_the_unsigned_range() {
    assert_eq!(i16_to_u32(i16::MIN), 0);
    assert_eq!(i16_to_u32(-1), 32_767);
    assert_eq!(i16_to_u32(0), 32_768);
    assert_eq!(i16_to_u32(i16::MAX), 65_535);
}

#[test]
fn anchor_is_the_first_of_the_loudest_windows() {
    // Windows of 2 at the starts 0..=4: energies 1, 25, 25, 9, 10.
    assert_eq!(find_anchor_sample_index(&[1, 0, 5, 0, 3, 1], 2), 1);
    assert_eq!(find_anchor_sample_index(&[0, 0, 0, 7, -7, 7, 0, 0, 0, 0], 3), 3);
    // Equal windows throughout: the first.
    assert_eq!(find_anchor_sample_index(&[4; 10], 5), 0);
}

#[test]
fn anchor_may_be_the_last_window() {
    // The last window that fits, [0, 5] at the start 2, is the only one
    // with energy.
    assert_eq!(find_anchor_sample_index(&[0, 0, 0, 5], 2), 2);
    assert_eq!(find_anchor_sample_index(&[1, 0, 0, 0, 0, 90], 2), 4);
    assert_eq!(find_anchor_sample_index(&[1, 0, 5, 0, 3, 9], 2), 4);
    // A window as long as the audio is the one window there is.
    assert_eq!(find_anchor_sample_index(&[1, 2, 3], 3), 0);
}

#[test]
fn anchor_is_zero_for_silence_and_for_audio_shorter_than_the_window() {
    assert_eq!(find_anchor_sample_index(&[0, 0, 0, 0, 0], 2), 0);
    assert_eq!(find_anchor_sample_index(&[1, 2, 3], 4), 0);
    assert_eq!(find_anchor_sample_index(&[], 4), 0);
    assert_eq!(find_anchor_sample_index(&[], 0), 0);
}

#[test]
fn pass_one_finds_every_matching_window() {
    let target = [0, 0, 1, 1, 1, 0, 0, 2, 2, 2, 0];
    let probe = [1, 1, 1];
    let all = pass_one(&target, &probe, &Threshold { numerator: 1, denominator: 1 }, 8);
    assert_eq!(all, vec![2, 7]);
    let loose = pass_one(&target, &probe, &Threshold { numerator: 8, denominator: 10 }, 8);
    // Two of three samples give sqrt(2/3) = 0.816.., one gives 0.577...
    assert_eq!(loose, vec![1, 2, 3, 6, 7]);
    let limited = pass_one(&target, &probe, &Threshold { numerator: 1, denominator: 1 }, 7);
    assert_eq!(limited, vec![2]);
    let none = pass_one(&target, &probe, &Threshold { numerator: 1, denominator: 1 }, 0);
    assert_eq!(none, Vec::<usize>::new());
}

#[test]
fn pass_two_keeps_one_peak_per_cluster() {
    let target = [0, 0, 1, 1, 1, 0, 0, 2, 2, 2, 0, 0];
    let probe = [1, 1, 1];
    let t = Threshold { numerator: 8, denominator: 10 };
    // Within a span of 3 the clusters are {1, 2, 3} and {6, 7, 8}.
    assert_eq!(pass_two(&vec![1, 2, 3, 6, 7, 8], &target, &probe, &t, 3), vec![2, 7]);
    // A span of 0 makes every survivor its own cluster.
    assert_eq!(pass_two(&vec![1, 2, 3], &target, &probe, &t, 0), vec![1, 2, 3]);
    // A span that covers everything leaves the first of the best.
    assert_eq!(pass_two(&vec![1, 2, 3, 6, 7, 8], &target, &probe, &t, 100), vec![2]);
    // Starts that fail the threshold do not count.
    assert_eq!(pass_two(&vec![0, 4, 5, 9], &target, &probe, &t, 3), Vec::<usize>::new());
    assert_eq!(pass_two(&vec![], &target, &probe, &t, 3), Vec::<usize>::new());
}

#[test]
fn peaks_become_offsets_from_the_start_of_the_candidate() {
    let offsets = to_offsets(&vec![20, 40], 10, 22_050).unwrap();
    assert_eq!(offsets, vec![453_514, 1_360_544]);
    assert_eq!(to_offsets(&vec![], 10, 22_050).unwrap(), Vec::<i64>::new());
    match to_offsets(&vec![5, 40], 10, 22_050) {
        Err(e) => assert!(matches!(*e.0, ErrorKind::MatchBeforeStart)),
        Ok(v) => panic!("{:?}", v),
    }
    match to_offsets(&vec![20, 10_000_000_000], 0, 1) {
        Err(e) => assert!(matches!(*e.0, ErrorKind::TimeOutOfRange)),
        Ok(v) => panic!("{:?}", v),
    }
}

/// A small deterministic generator of samples.
struct Noise(u64);

impl Noise {
    fn next(&mut self) -> i16 {
        self.0 = self.0.wrapping_mul(6_364_136_223_846_793_005).wrapping_add(1_442_695_040_888_963_407);
        ((self.0 >> 40) as i16) / 64
    }

    fn window(&mut self, len: usize) -> Vec<i16> {
        (0..len).map(|_| self.next()).collect()
    }
}

#[test]
fn exact_comparisons_agree_with_floating_point_away_from_ties() {
    let mut noise = Noise(7);
    let mut compared = 0;
    for _ in 0..300 {
        let a = noise.window(8);
        let b = noise.window(8);
        let c = noise.window(8);
        let ab = cosine_similarity(&a, &b);
        let ac = cosine_similarity(&a, &c);
        let (fab, fac) = (as_float(&ab), as_float(&ac));
        if fab.is_nan() || fac.is_nan() {
            continue;
        }
        for k in -100..=100 {
            let t = f64::from(k) / 100.0;
            if (fab - t).abs() > 1e-9 {
                assert_eq!(ab.meets(&Threshold { numerator: k, denominator: 100 }), fab >= t);
                compared += 1;
            }
        }
        if (fab - fac).abs() > 1e-9 {
            assert_eq!(ab.exceeds(&ac), fab > fac);
            assert_eq!(ac.exceeds(&ab), fac > fab);
            compared += 1;
        }
    }
    assert!(compared > 50_000);
}
