use fast_rl_rewards::evaluator::{
    collect_execution_rewards, prepare_single_execution, EvaluatorConfig, RewardError,
    RewardEvaluator,
};
use fast_rl_rewards::completion_input::{coerce_completion, CompletionInput};
use fast_rl_rewards::entry_point::entry_point_ok;
use fast_rl_rewards::format_check::has_valid_format;

fn default_evaluator() -> RewardEvaluator {
    RewardEvaluator::new(EvaluatorConfig::default()).unwrap()
}

#[test]
fn default_config_is_valid() {
    let config = EvaluatorConfig::default();
    assert_eq!(config.timeout_seconds, 15);
    assert_eq!(config.memory_limit_mb, 512);
    assert_eq!(config.cpu_time_limit, 12);
    assert_eq!(config.num_threads, Some(32));
    assert!(config.validate().is_ok());
}

#[test]
fn out_of_range_configs_are_rejected() {
    let mut config = EvaluatorConfig::default();
    config.timeout_seconds = 0;
    assert_eq!(config.validate(), Err(RewardError::InvalidConfig));
    let mut config = EvaluatorConfig::default();
    config.memory_limit_mb = 63;
    assert_eq!(config.validate(), Err(RewardError::InvalidConfig));
    let mut config = EvaluatorConfig::default();
    config.cpu_time_limit = 0;
    assert_eq!(config.validate(), Err(RewardError::InvalidConfig));
    assert!(RewardEvaluator::new(config).is_err());
}

#[test]
fn format_scoring_matches_the_tag_shape() {
    let evaluator = default_evaluator();
    let completions = vec![
        "<think>a</think><answer>b</answer>".to_string(),
        "no tags".to_string(),
        "<think>only</think>".to_string(),
    ];
    let rewards = evaluator.evaluate_response_format(&completions);
    assert_eq!(rewards, vec![1u8, 0u8, 0u8]);
}

#[test]
fn format_check_is_case_insensitive_and_needs_both_tags() {
    assert!(has_valid_format("<THINK>a</THINK><Answer>b</Answer>"));
    assert!(!has_valid_format("<answer>b</answer>"));
    assert!(!has_valid_format(""));
}

#[test]
fn tag_matching_honours_the_simple_case_folds() {
    // the Kelvin sign folds with `k`, the long s with `s`
    assert!(has_valid_format(
        "<thin\u{212a}>a</thin\u{212a}><an\u{17f}wer>b</an\u{17f}wer>"
    ));
}

#[test]
fn empty_batch_gives_empty_rewards() {
    let evaluator = default_evaluator();
    let rewards = evaluator.evaluate_response_format(&Vec::new());
    assert!(rewards.is_empty());
    let plans = evaluator
        .plan_execution_batch(&Vec::new(), &Vec::new(), &Vec::new())
        .unwrap();
    assert!(plans.is_empty());
    assert!(collect_execution_rewards(&plans, &Vec::new()).is_empty());
}

#[test]
fn mismatched_batch_lengths_are_a_loud_error() {
    let evaluator = default_evaluator();
    let r = evaluator.plan_execution_batch(
        &vec!["a".to_string()],
        &Vec::new(),
        &vec!["e".to_string()],
    );
    assert_eq!(r.unwrap_err(), RewardError::LengthMismatch);
}

#[test]
fn empty_or_null_test_rejects_before_any_sandbox() {
    assert!(prepare_single_execution("def add(a,b): return a+b", "", "add").is_none());
    assert!(prepare_single_execution("def add(a,b): return a+b", "null", "add").is_none());
}

#[test]
fn blank_extracted_code_rejects_before_any_sandbox() {
    let test = "def check(candidate):\n    assert candidate(1) == 1\n";
    assert!(prepare_single_execution("   \n  ", test, "add").is_none());
    assert!(prepare_single_execution("<answer>   </answer>", test, "add").is_none());
}

#[test]
fn wrong_entry_point_rejects_before_any_sandbox() {
    let completion = "<answer>```python\nwhile True: pass\n```</answer>";
    let test = "def check(candidate):\n    assert foo() == 1\n";
    assert!(prepare_single_execution(completion, test, "foo").is_none());
}

#[test]
fn empty_entry_point_skips_validation_and_still_plans_a_run() {
    let completion = "<answer>```python\nwhile True: pass\n```</answer>";
    let test = "def check(candidate):\n    assert foo() == 1\n";
    assert!(prepare_single_execution(completion, test, "").is_some());
    assert!(prepare_single_execution(completion, test, "null").is_some());
}

#[test]
fn planned_program_has_prelude_code_and_wrapped_harness() {
    let completion =
        "<think>x</think>\n<answer>```python\ndef add(a,b):\n    return a+b\n```</answer>";
    let test = "def check(candidate):\n    assert candidate(1,2)==3\n    assert candidate(0,0)==0\n";
    let program = prepare_single_execution(completion, test, "add").unwrap();
    assert!(program.starts_with(
        "from typing import List, Optional, Dict, Set, Tuple, Any\n\ndef add(a,b):\n    return a+b\n\n"
    ));
    assert!(program.contains("    try:\n        assert candidate(1,2)==3"));
    assert!(program.contains("_test_results = check(add)"));
    assert!(program.contains("print(f\"TESTS_PASSED:{_passed}/{_total}\")"));
}

#[test]
fn bare_completion_without_envelope_still_plans() {
    let test = "def check(candidate):\n    assert candidate(2,3)==6\n";
    let program = prepare_single_execution("def mul(a,b): return a*b", test, "mul").unwrap();
    assert!(program.contains("def mul(a,b): return a*b"));
}

#[test]
fn class_entry_point_requires_the_solution_class() {
    let test = "def check(candidate):\n    assert candidate([1,2],3)==[0,1]\n";
    let without_class = "def twoSum(a, b): return [0, 1]";
    assert!(prepare_single_execution(without_class, test, "Solution().twoSum").is_none());
    let with_class =
        "class Solution:\n    def twoSum(self, a, b):\n        return [0, 1]";
    assert!(prepare_single_execution(with_class, test, "Solution().twoSum").is_some());
}

#[test]
fn rewards_are_zero_or_one_and_need_a_plan_and_a_pass() {
    let plans = vec![
        Some("prog".to_string()),
        None,
        Some("prog".to_string()),
        None,
    ];
    let verdicts = vec![true, true, false, false];
    let rewards = collect_execution_rewards(&plans, &verdicts);
    assert_eq!(rewards, vec![1u8, 0u8, 0u8, 0u8]);
    for r in rewards {
        assert!(r == 0 || r == 1);
    }
}

#[test]
fn completion_inputs_coerce_deterministically() {
    assert_eq!(
        coerce_completion(CompletionInput::RawText("code".to_string())),
        "code"
    );
    assert_eq!(
        coerce_completion(CompletionInput::KeyedMap(Some("mapped".to_string()))),
        "mapped"
    );
    assert_eq!(coerce_completion(CompletionInput::KeyedMap(None)), "");
    assert_eq!(
        coerce_completion(CompletionInput::ListOfMap(Some("nested".to_string()))),
        "nested"
    );
    assert_eq!(coerce_completion(CompletionInput::ListOfMap(None)), "");
    assert_eq!(
        coerce_completion(CompletionInput::ListOfOther("plain".to_string())),
        "plain"
    );
    assert_eq!(coerce_completion(CompletionInput::EmptyList), "");
    assert_eq!(
        coerce_completion(CompletionInput::Other("42".to_string())),
        "42"
    );
}

#[test]
fn entry_point_validation_is_textual_and_monotone_on_examples() {
    let code = "from typing import List\n\ndef add(a,b): return a+b";
    assert!(entry_point_ok(code, "add"));
    assert!(entry_point_ok(code, ""));
    assert!(entry_point_ok(code, "null"));
    assert!(!entry_point_ok(code, "mul"));
    // removing the definition cannot turn a failure into a pass
    let smaller = "x = 1";
    assert!(!entry_point_ok(smaller, "mul"));
    assert!(entry_point_ok("def twoSum(): pass\nclass Solution: pass", "Solution().twoSum"));
    assert!(!entry_point_ok("def twoSum(): pass", "Solution().twoSum"));
}
