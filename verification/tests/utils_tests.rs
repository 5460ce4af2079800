use analyzer::utils::{checked_index_to_nanoseconds, index_to_nanoseconds};

fn cases() -> Vec<(usize, usize, i64)> {
    vec![
        (0, 22_050, 0),
        (1, 22_050, 45_351),
        (21, 22_050, 952_380),
        (11_025, 22_050, 500_000_000),
        (22_050, 22_050, 1_000_000_000),
        (30_000, 22_050, 1_360_544_217),
        (79_380_000, 22_050, 3_600_000_000_000),
    ]
}

#[test]
fn index_to_nanoseconds_happy_path() {
    for (index, sample_rate, exp_nanoseconds) in cases() {
        let result = index_to_nanoseconds(index, sample_rate);
        assert_eq!(result, exp_nanoseconds);
    }
}

#[test]
fn internals_tests_index_to_nanoseconds_happy_path() {
    for (index, sample_rate, exp_nanoseconds) in cases() {
        let result = index_to_nanoseconds(index, sample_rate);
        assert_eq!(result, exp_nanoseconds);
    }
}

#[test]
fn index_to_nanoseconds_tests() {
    let test_cases = vec![
        (0, 22_050, 0),
        (1, 22_050, 45_351),
        (21, 22_050, 952_380),
        (11_025, 22_050, 500_000_000),
        (22_050, 22_050, 1_000_000_000),
        (30_000, 22_050, 1_360_544_217),
        (79_380_000, 22_050, 3_600_000_000_000),
    ];
    for (index, sample_rate, exp_nanoseconds) in test_cases {
        let result = index_to_nanoseconds(index, sample_rate);
        assert_eq!(result, exp_nanoseconds);
    }
}

#[test]
fn checked_conversion_agrees_where_it_fits() {
    for (index, sample_rate, exp_nanoseconds) in cases() {
        assert_eq!(checked_index_to_nanoseconds(index, sample_rate), Some(exp_nanoseconds));
    }
}

#[test]
fn checked_conversion_refuses_a_zero_rate() {
    assert_eq!(checked_index_to_nanoseconds(5, 0), None);
}

#[test]
fn checked_conversion_refuses_what_does_not_fit() {
    // 10^10 samples at 1 Hz are 10^19 ns, which is more than i64::MAX.
    assert_eq!(checked_index_to_nanoseconds(10_000_000_000, 1), None);
    // The largest index that still fits at 1 Hz.
    assert_eq!(
        checked_index_to_nanoseconds(9_223_372_036, 1),
        Some(9_223_372_036_000_000_000)
    );
    assert_eq!(checked_index_to_nanoseconds(9_223_372_037, 1), None);
}

#[test]
fn conversion_rounds_down() {
    // 2 samples at 3 Hz are 666_666_666.66.. ns.
    assert_eq!(index_to_nanoseconds(2, 3), 666_666_666);
}
