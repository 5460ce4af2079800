use analyzer::engines::cosine_similarity::internals::Threshold;
use analyzer::engines::cosine_similarity::{new, Engine, Error, ErrorKind, Settings};

struct TestCase {
    target: fn() -> Vec<i16>,
    candidate: fn() -> Vec<i16>,
    exp_result: fn() -> Result<Vec<i64>, Error>,
}

/// Settings under which an offset in nanoseconds is the index itself:
/// one sample lasts one nanosecond.
fn index_settings() -> Settings {
    Settings {
        target_sample_rate: 1_000_000_000,
        rms_window_size: 5,
        pass_one_sample_size: 5,
        pass_one_threshold: Threshold { numerator: 5, denominator: 10 },
        pass_two_sample_size: 5,
        pass_two_threshold: Threshold { numerator: 7, denominator: 10 },
    }
}

fn run_test_case(test_case: TestCase) {
    let engine = new(index_settings());
    let target = (test_case.target)();
    let candidate = (test_case.candidate)();
    let exp_result = (test_case.exp_result)();

    let act_result = engine.find_offsets(&candidate, &target);

    match exp_result {
        Err(_) => assert_eq!(act_result.is_err(), true, "expected error but no error",),
        Ok(v) => assert_eq!(act_result.unwrap(), v),
    }
}

/// candidate at head returns candidate
#[test]
fn single_candidate() {
    run_test_case(TestCase {
        target: || -> Vec<i16> {
            let mut t = vec![0; 1024 * 10];
            for i in 0..10 {
                t[i] = 1;
            }
            t
        },
        candidate: || -> Vec<i16> { vec![1; 10] },
        exp_result: || -> Result<Vec<i64>, Error> { Ok(vec![0]) },
    })
}

/// overlapping candidates attempts to return each.
#[test]
fn overlapping_candidates() {
    run_test_case(TestCase {
        target: || -> Vec<i16> {
            let mut t = vec![0; 1024 * 10];
            for i in 20..30 {
                t[i] = 1;
            }
            for i in 25..35 {
                t[i] = 1;
            }
            t
        },
        candidate: || -> Vec<i16> { vec![1; 10] },
        exp_result: || -> Result<Vec<i64>, Error> { Ok(vec![20, 31]) },
    })
}

/// immediately adjascent candidates returns each.
#[test]
fn adjascent_candidates() {
    run_test_case(TestCase {
        target: || -> Vec<i16> {
            let mut t = vec![0; 1024 * 10];
            for i in 20..30 {
                t[i] = 1;
            }
            for i in 31..41 {
                t[i] = 1;
            }
            for i in 42..52 {
                t[i] = 1;
            }
            t
        },
        candidate: || -> Vec<i16> { vec![1; 10] },
        exp_result: || -> Result<Vec<i64>, Error> { Ok(vec![20, 31, 42]) },
    })
}

/// multiple non-overlapping candidates returns all
#[test]
fn multiple_candidates() {
    run_test_case(TestCase {
        target: || -> Vec<i16> {
            let mut t = vec![0; 1024 * 10];
            for i in 20..30 {
                t[i] = 1;
            }
            for i in 40..50 {
                t[i] = 1;
            }
            for i in 60..70 {
                t[i] = 1;
            }
            t
        },
        candidate: || -> Vec<i16> { vec![1; 10] },
        exp_result: || -> Result<Vec<i64>, Error> { Ok(vec![20, 40, 60]) },
    })
}

/// candidate at tail returns candidate
#[test]
fn tail_candidate() {
    run_test_case(TestCase {
        target: || -> Vec<i16> {
            let mut t = vec![0; 100];
            for i in 89..99 {
                t[i] = 1;
            }
            t
        },
        candidate: || -> Vec<i16> { vec![1; 10] },
        exp_result: || -> Result<Vec<i64>, Error> { Ok(vec![89]) },
    })
}

/// candidate not present returns nothing
#[test]
fn candidate_not_present() {
    run_test_case(TestCase {
        target: || -> Vec<i16> { vec![0; 1024 * 10] },
        candidate: || -> Vec<i16> { vec![1; 10] },
        exp_result: || -> Result<Vec<i64>, Error> { Ok(vec![]) },
    })
}

struct NamedCase {
    name: String,
    target: fn() -> Vec<i16>,
    candidate: fn() -> Vec<i16>,
    exp_result: fn() -> Result<Vec<i64>, Error>,
}

fn named_cases() -> Vec<NamedCase> {
    vec![
        NamedCase {
            //  single candidate present (not at head) returns candidate
            name: String::from("single candidate 1"),
            target: || -> Vec<i16> {
                let mut t = vec![0; 1024 * 10];
                for i in 20..30 {
                    t[i] = 1;
                }
                t
            },
            candidate: || -> Vec<i16> { vec![1; 10] },
            exp_result: || -> Result<Vec<i64>, Error> { Ok(vec![20]) },
        },
        NamedCase {
            //  candidate at head returns candidate
            name: String::from("single candidate 2"),
            target: || -> Vec<i16> {
                let mut t = vec![0; 1024 * 10];
                for i in 0..10 {
                    t[i] = 1;
                }
                t
            },
            candidate: || -> Vec<i16> { vec![1; 10] },
            exp_result: || -> Result<Vec<i64>, Error> { Ok(vec![0]) },
        },
        NamedCase {
            // overlapping candidates attempts to return each.
            name: String::from("overlapping candidates"),
            target: || -> Vec<i16> {
                let mut t = vec![0; 1024 * 10];
                for i in 20..30 {
                    t[i] = 1;
                }
                for i in 25..35 {
                    t[i] = 1;
                }
                t
            },
            candidate: || -> Vec<i16> { vec![1; 10] },
            exp_result: || -> Result<Vec<i64>, Error> { Ok(vec![20, 31]) },
        },
        NamedCase {
            // immediately adjascent candidates returns each.
            name: String::from("immediately adjascent candidates"),
            target: || -> Vec<i16> {
                let mut t = vec![0; 1024 * 10];
                for i in 20..30 {
                    t[i] = 1;
                }
                for i in 31..41 {
                    t[i] = 1;
                }
                for i in 42..52 {
                    t[i] = 1;
                }
                t
            },
            candidate: || -> Vec<i16> { vec![1; 10] },
            exp_result: || -> Result<Vec<i64>, Error> { Ok(vec![20, 31, 42]) },
        },
        NamedCase {
            // multiple non-overlapping candidates returns all
            name: String::from("multiple candidates"),
            target: || -> Vec<i16> {
                let mut t = vec![0; 1024 * 10];
                for i in 20..30 {
                    t[i] = 1;
                }
                for i in 40..50 {
                    t[i] = 1;
                }
                for i in 60..70 {
                    t[i] = 1;
                }
                t
            },
            candidate: || -> Vec<i16> { vec![1; 10] },
            exp_result: || -> Result<Vec<i64>, Error> { Ok(vec![20, 40, 60]) },
        },
        NamedCase {
            // candidate at tail returns candidate
            name: String::from("tail candidate"),
            target: || -> Vec<i16> {
                let mut t = vec![0; 100];
                for i in 89..99 {
                    t[i] = 1;
                }
                t
            },
            candidate: || -> Vec<i16> { vec![1; 10] },
            exp_result: || -> Result<Vec<i64>, Error> { Ok(vec![89]) },
        },
        NamedCase {
            // candidate not present returns nothing
            name: String::from("candidate not present"),
            target: || -> Vec<i16> { vec![0; 1024 * 10] },
            candidate: || -> Vec<i16> { vec![1; 10] },
            exp_result: || -> Result<Vec<i64>, Error> { Ok(vec![]) },
        },
    ]
}

fn run_named_cases() {
    for test_case in named_cases() {
        let engine = new(index_settings());
        let target = (test_case.target)();
        let candidate = (test_case.candidate)();
        let exp_result = (test_case.exp_result)();

        let act_result = engine.find_offsets(&candidate, &target);

        match exp_result {
            Err(_) => assert_eq!(
                act_result.is_err(),
                true,
                "test_case '{}' expected error but no error",
                test_case.name
            ),
            Ok(v) => assert_eq!(act_result.unwrap(), v, "test case: '{}'", test_case.name),
        }
    }
}

#[test]
fn cosine_similarity_find_offsets() {
    run_named_cases();
}

#[test]
fn tests_find_offsets() {
    run_named_cases();
}

// The same searches at 22_050 Hz, where offsets are nanoseconds.

fn audio_settings(sample_size: usize) -> Settings {
    Settings {
        target_sample_rate: 22_050,
        rms_window_size: 5,
        pass_one_sample_size: sample_size,
        pass_one_threshold: Threshold { numerator: 5, denominator: 10 },
        pass_two_sample_size: sample_size,
        pass_two_threshold: Threshold { numerator: 7, denominator: 10 },
    }
}

fn spikes(len: usize, starts: &[usize]) -> Vec<i16> {
    let mut t = vec![0; len];
    for s in starts {
        for i in *s..*s + 10 {
            t[i] = 1;
        }
    }
    t
}

fn kind_of(result: Result<Vec<i64>, Error>) -> ErrorKind {
    match result {
        Ok(v) => panic!("expected an error, got {:?}", v),
        Err(e) => *e.0,
    }
}

#[test]
fn single_occurrence_at_the_head() {
    let engine: Engine = new(audio_settings(5));
    let found = engine.find_offsets(&vec![1; 10], &spikes(10_240, &[0])).unwrap();
    assert_eq!(found, vec![0]);
}

#[test]
fn well_separated_occurrences_are_all_reported() {
    let engine = new(audio_settings(5));
    let found = engine.find_offsets(&vec![1; 10], &spikes(10_240, &[20, 40, 60])).unwrap();
    assert_eq!(found, vec![907_029, 1_814_058, 2_721_088]);
}

#[test]
fn overlapping_occurrences_collapse_into_one() {
    // With the whole candidate compared, the windows that pass lie within one
    // candidate length of the best of them, and only that one is reported.
    let engine = new(audio_settings(10));
    let found = engine.find_offsets(&vec![1; 10], &spikes(10_240, &[20, 25])).unwrap();
    assert_eq!(found, vec![907_029]);
}

#[test]
fn reported_offsets_lie_more_than_a_candidate_apart() {
    let engine = new(index_settings());
    let candidate = vec![1; 10];
    let target = spikes(10_240, &[20, 25, 31, 50, 58, 90, 101, 2_000]);
    let found = engine.find_offsets(&candidate, &target).unwrap();
    assert!(!found.is_empty());
    for pair in found.windows(2) {
        assert!(pair[1] - pair[0] > 10, "{:?}", found);
    }
}

#[test]
fn silent_target_has_no_match() {
    let engine = new(audio_settings(5));
    let candidate: Vec<i16> = vec![3, -7, 100, 25, -1, 9, 12, -30, 4, 5];
    let found = engine.find_offsets(&candidate, &vec![0; 10_240]).unwrap();
    assert_eq!(found, Vec::<i64>::new());
}

#[test]
fn candidate_as_long_as_the_target_has_no_window() {
    let engine = new(audio_settings(5));
    assert_eq!(engine.find_offsets(&vec![1; 10], &vec![1; 10]).unwrap(), Vec::<i64>::new());
    assert_eq!(engine.find_offsets(&vec![1; 11], &vec![1; 10]).unwrap(), Vec::<i64>::new());
    assert_eq!(engine.find_offsets(&vec![], &vec![]).unwrap(), Vec::<i64>::new());
}

#[test]
fn anchor_is_subtracted_from_the_match() {
    // The candidate is quiet for four samples and loud after them; its anchor
    // is at 4. In the target the candidate starts at 100.
    let mut candidate: Vec<i16> = vec![0, 0, 0, 0];
    candidate.extend_from_slice(&[50, -60, 70, -80, 90, -100, 40, 30, 20, 10, 5, 1]);
    let mut target = vec![0; 1_000];
    for (i, s) in candidate.iter().enumerate() {
        target[100 + i] = *s;
    }
    let settings = Settings {
        target_sample_rate: 1_000_000_000,
        rms_window_size: 4,
        pass_one_sample_size: 4,
        pass_one_threshold: Threshold { numerator: 9, denominator: 10 },
        pass_two_sample_size: 8,
        pass_two_threshold: Threshold { numerator: 99, denominator: 100 },
    };
    let found = new(settings).find_offsets(&candidate, &target).unwrap();
    assert_eq!(found, vec![100]);
}

#[test]
fn match_before_the_start_is_an_error() {
    // The anchor of the candidate is at 4, and its loud part is found at the
    // very start of the target: the candidate would begin before the target.
    let mut candidate: Vec<i16> = vec![0, 0, 0, 0];
    candidate.extend_from_slice(&[100, -100, 100, -100, 10, 10, 10, 10, 5, 5, 5, 5]);
    let mut target = vec![0; 200];
    for (i, s) in candidate[4..].iter().enumerate() {
        target[i] = *s;
    }
    let settings = Settings {
        target_sample_rate: 22_050,
        rms_window_size: 4,
        pass_one_sample_size: 4,
        pass_one_threshold: Threshold { numerator: 9, denominator: 10 },
        pass_two_sample_size: 8,
        pass_two_threshold: Threshold { numerator: 99, denominator: 100 },
    };
    let kind = kind_of(new(settings).find_offsets(&candidate, &target));
    assert!(matches!(kind, ErrorKind::MatchBeforeStart), "{:?}", kind);
}

#[test]
fn candidate_shorter_than_pass_one_sample_size_returns_error() {
    let mut settings = audio_settings(5);
    settings.pass_one_sample_size = 11;
    let kind = kind_of(new(settings).find_offsets(&vec![1; 10], &vec![0; 100]));
    assert!(matches!(kind, ErrorKind::CandidateTooShort), "{:?}", kind);
}

#[test]
fn candidate_shorter_than_pass_two_sample_size_returns_error() {
    let mut settings = audio_settings(5);
    settings.pass_two_sample_size = 11;
    let kind = kind_of(new(settings).find_offsets(&vec![1; 10], &vec![0; 100]));
    assert!(matches!(kind, ErrorKind::CandidateTooShort), "{:?}", kind);
}

#[test]
fn invalid_settings_are_an_error() {
    let mut settings = audio_settings(5);
    settings.target_sample_rate = 0;
    assert!(!settings.is_valid());
    let kind = kind_of(new(settings).find_offsets(&vec![1; 10], &vec![0; 100]));
    assert!(matches!(kind, ErrorKind::InvalidSettings), "{:?}", kind);

    let mut settings = audio_settings(5);
    settings.pass_two_threshold = Threshold { numerator: 1, denominator: 0 };
    assert!(!settings.is_valid());
    let kind = kind_of(new(settings).find_offsets(&vec![1; 10], &vec![0; 100]));
    assert!(matches!(kind, ErrorKind::InvalidSettings), "{:?}", kind);

    let mut settings = audio_settings(5);
    settings.rms_window_size = 0;
    assert!(!settings.is_valid());
    assert!(audio_settings(5).is_valid());
}

#[test]
fn offsets_at_one_hertz_are_whole_seconds() {
    let mut settings = audio_settings(5);
    settings.target_sample_rate = 1;
    let found = new(settings).find_offsets(&vec![1; 10], &spikes(1_000, &[20])).unwrap();
    assert_eq!(found, vec![20_000_000_000]);
}

#[test]
fn anchor_in_the_last_window_is_used() {
    // The candidate is loud only in its last four samples: its anchor is the
    // last window that fits, at 8. In the target the candidate starts at 300.
    let candidate: Vec<i16> = vec![1, 0, 0, 0, 0, 0, 0, 1, 90, -80, 70, -60];
    let mut target = vec![0; 1_000];
    for (i, s) in candidate.iter().enumerate() {
        target[300 + i] = *s;
    }
    let settings = Settings {
        target_sample_rate: 1_000_000_000,
        rms_window_size: 4,
        pass_one_sample_size: 4,
        pass_one_threshold: Threshold { numerator: 9, denominator: 10 },
        pass_two_sample_size: 4,
        pass_two_threshold: Threshold { numerator: 99, denominator: 100 },
    };
    let found = new(settings).find_offsets(&candidate, &target).unwrap();
    assert_eq!(found, vec![300]);
    // One sample more than is left from the anchor on is too much.
    let mut settings = settings;
    settings.pass_two_sample_size = 5;
    let kind = kind_of(new(settings).find_offsets(&candidate, &target));
    assert!(matches!(kind, ErrorKind::CandidateTooShort), "{:?}", kind);
}

#[test]
fn fingerprint_is_empty() {
    let engine = new(audio_settings(5));
    assert_eq!(engine.fingerprint(&[1, 2, 3, 4, 5]).unwrap(), "");
    assert_eq!(engine.options().target_sample_rate, 22_050);
}
