use fast_rl_rewards::run_output::{interpret_run_output, parse_test_counts};

#[test]
fn clean_pass_is_recognised() {
    let out = b"TESTS_PASSED:2/2\n".to_vec();
    assert_eq!(interpret_run_output(0, &out), (true, 2, 2));
}

#[test]
fn nonzero_exit_fails_even_with_full_tally() {
    let out = b"TESTS_PASSED:3/3\n".to_vec();
    assert_eq!(interpret_run_output(1, &out), (false, 3, 3));
}

#[test]
fn partial_tally_fails() {
    let out = b"TESTS_PASSED:1/3\n".to_vec();
    assert_eq!(interpret_run_output(0, &out), (false, 1, 3));
}

#[test]
fn missing_marker_yields_zeros() {
    let out = b"no tally here\n".to_vec();
    assert_eq!(interpret_run_output(0, &out), (false, 0, 0));
    assert_eq!(interpret_run_output(0, &Vec::new()), (false, 0, 0));
}

#[test]
fn zero_total_never_passes() {
    let out = b"TESTS_PASSED:0/0\n".to_vec();
    assert_eq!(interpret_run_output(0, &out), (false, 0, 0));
}

#[test]
fn first_tally_wins() {
    let out = b"TESTS_PASSED:1/2 then TESTS_PASSED:2/2\n".to_vec();
    assert_eq!(parse_test_counts(&out), (1, 2));
}

#[test]
fn incomplete_marker_is_skipped() {
    let out = b"TESTS_PASSED:x TESTS_PASSED:4/4\n".to_vec();
    assert_eq!(interpret_run_output(0, &out), (true, 4, 4));
}

#[test]
fn oversized_count_makes_the_tally_malformed() {
    let out = b"TESTS_PASSED:99999999999999999999/3\n".to_vec();
    assert_eq!(parse_test_counts(&out), (0, 0));
    let out = b"TESTS_PASSED:3/99999999999999999999\n".to_vec();
    assert_eq!(parse_test_counts(&out), (0, 0));
}

#[test]
fn lying_tally_with_more_passed_than_total_reads_as_zeros() {
    let out = b"TESTS_PASSED:5/3\n".to_vec();
    assert_eq!(interpret_run_output(0, &out), (false, 0, 0));
    // the first tally decides, even when a later one is well formed
    let out = b"TESTS_PASSED:5/3 TESTS_PASSED:2/2\n".to_vec();
    assert_eq!(interpret_run_output(0, &out), (false, 0, 0));
}

#[test]
fn passed_never_exceeds_total() {
    let outputs: Vec<Vec<u8>> = vec![
        b"TESTS_PASSED:5/3".to_vec(),
        b"TESTS_PASSED:1/2".to_vec(),
        b"TESTS_PASSED:12345678901234567890/1".to_vec(),
        b"garbage".to_vec(),
    ];
    for out in &outputs {
        let (_, passed, total) = interpret_run_output(0, out);
        assert!(0 <= passed && passed <= total);
    }
}

#[test]
fn chatter_around_the_tally_is_ignored() {
    let out = b"debug noise\nTESTS_PASSED:7/7\ntrailing noise".to_vec();
    assert_eq!(interpret_run_output(0, &out), (true, 7, 7));
}

#[test]
fn boundary_count_still_parses() {
    let out = b"TESTS_PASSED:2147483647/2147483647".to_vec();
    assert_eq!(parse_test_counts(&out), (2147483647, 2147483647));
}
