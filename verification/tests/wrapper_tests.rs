use fast_rl_rewards::test_wrapper::wrap_tests_for_complete_execution;

fn expected_two_assert_harness() -> String {
    [
        "def check(candidate):",
        "    _results = []",
        "    try:",
        "        assert candidate(1, 2) == 3",
        "        _results.append(True)",
        "    except:",
        "        _results.append(False)",
        "    try:",
        "        assert candidate(0, 0) == 0",
        "        _results.append(True)",
        "    except:",
        "        _results.append(False)",
        "    return _results",
        "",
        "_test_results = check(add)",
        "",
        "# Report test results",
        "_passed = sum(_test_results)",
        "_total = len(_test_results)",
        "print(f\"TESTS_PASSED:{_passed}/{_total}\")",
        "exit(0 if _passed == _total else 1)",
    ]
    .join("\n")
}

#[test]
fn two_asserts_become_guarded_blocks_with_driver() {
    let test = "def check(candidate):\n    assert candidate(1, 2) == 3\n    assert candidate(0, 0) == 0\n";
    let wrapped = wrap_tests_for_complete_execution(test, "add");
    assert_eq!(wrapped, expected_two_assert_harness());
}

#[test]
fn text_without_asserts_is_returned_unchanged() {
    let test = "def check(candidate):\n    pass\n";
    assert_eq!(wrap_tests_for_complete_execution(test, "add"), test);
    let prose = "no function here, just prose";
    assert_eq!(wrap_tests_for_complete_execution(prose, "f"), prose);
}

#[test]
fn lines_outside_check_are_left_alone() {
    let test = "x = 1\ndef check(candidate):\n    assert candidate(x) == 2\nprint('after')\n";
    let wrapped = wrap_tests_for_complete_execution(test, "f");
    let lines: Vec<&str> = wrapped.split('\n').collect();
    assert_eq!(lines[0], "x = 1");
    assert_eq!(lines[1], "def check(candidate):");
    assert_eq!(lines[2], "    _results = []");
    assert_eq!(lines[3], "    try:");
    assert_eq!(lines[4], "        assert candidate(x) == 2");
    // the dedented line ends the function: the return is inserted before it
    assert_eq!(lines[8], "    return _results");
    assert_eq!(lines[9], "");
    assert_eq!(lines[10], "print('after')");
}

#[test]
fn entry_point_is_spliced_into_the_driver() {
    let test = "def check(candidate):\n    assert candidate() is None\n";
    let wrapped = wrap_tests_for_complete_execution(test, "Solution().run");
    assert!(wrapped.contains("_test_results = check(Solution().run)"));
}

#[test]
fn wrapping_twice_leaves_no_unguarded_assert_in_check() {
    let test = "def check(candidate):\n    assert candidate(1, 2) == 3\n    assert candidate(0, 0) == 0\n";
    let once = wrap_tests_for_complete_execution(test, "add");
    let twice = wrap_tests_for_complete_execution(&once, "add");
    let lines: Vec<&str> = twice.split('\n').collect();
    for (i, line) in lines.iter().enumerate() {
        let trimmed = line.trim_start();
        if trimmed.starts_with("assert ") {
            assert!(i >= 1, "assert line at the very top: {line}");
            assert_eq!(lines[i - 1].trim(), "try:", "unguarded assert: {line}");
        }
    }
}

#[test]
fn one_guard_block_per_assertion() {
    let test = "def check(candidate):\n    assert candidate(1,2)==3\n    assert candidate(0,0)==0\n    assert candidate(1,2)==99\n";
    let wrapped = wrap_tests_for_complete_execution(test, "add");
    let tries = wrapped.lines().filter(|l| l.trim() == "try:").count();
    let appends_true = wrapped
        .lines()
        .filter(|l| l.trim() == "_results.append(True)")
        .count();
    assert_eq!(tries, 3);
    assert_eq!(appends_true, 3);
}

#[test]
fn unterminated_check_function_is_closed() {
    let test = "def check(candidate):\n    assert candidate(5) == 25";
    let wrapped = wrap_tests_for_complete_execution(test, "sq");
    assert!(wrapped.contains("    except:\n        _results.append(False)\n    return _results\n\n_test_results = check(sq)"));
}
