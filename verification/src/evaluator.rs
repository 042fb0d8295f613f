//! Reward evaluation: configuration checking, format scoring over a batch,
//! and the per-item execution pipeline up to and after the sandboxed run.
//!
//! Running a child process is outside what this library does itself; the
//! embedder runs each planned program under its isolation tool and feeds the
//! outcome back. Everything decidable from the texts alone — which items are
//! rejected before any sandbox is spawned, what program a sandbox receives,
//! and how a verdict turns into a reward — is decided here.

use vstd::prelude::*;

use crate::entry_point::{entry_point_ok_chars, null_lit, spec_entry_point_ok};
use crate::extraction::{extract_code_from_completion, spec_extract};
use crate::format_check::{has_valid_format, spec_has_valid_format};
use crate::test_wrapper::{spec_wrap, wrap_tests_for_complete_execution};
use crate::text::{
    chars_of, chars_to_string, lemma_trim_empty, push_all, spec_trim, vec_eq, ws_run_end,
};

verus! {

/// The errors surfaced to callers: everything else collapses to a zero
/// reward per item.
#[derive(Clone, Copy, Debug, PartialEq, Eq, Structural)]
pub enum RewardError {
    /// A configuration value is out of range.
    InvalidConfig,
    /// The batch arrays disagree in length.
    LengthMismatch,
}

/// Configuration of the evaluator, immutable after construction.
#[derive(Clone, Copy, Debug)]
pub struct EvaluatorConfig {
    /// Wall-clock kill deadline per item, in seconds.
    pub timeout_seconds: u64,
    /// Address-space ceiling per child, in decimal megabytes.
    pub memory_limit_mb: u64,
    /// Accumulated CPU-time ceiling per child, in seconds.
    pub cpu_time_limit: u64,
    /// Requested parallel worker count; `None` leaves the pool at its own
    /// default.
    pub num_threads: Option<usize>,
}

/// A configuration is acceptable when the deadline and the CPU ceiling are
/// at least one second and the memory ceiling is at least 64 megabytes.
pub open spec fn spec_config_valid(c: EvaluatorConfig) -> bool {
    c.timeout_seconds >= 1 && c.memory_limit_mb >= 64 && c.cpu_time_limit >= 1
}

impl Default for EvaluatorConfig {
    /// The stock configuration: 15 s wall clock, 512 MB, 12 s CPU, 32
    /// workers.
    fn default() -> (r: Self)
        ensures
            r.timeout_seconds == 15,
            r.memory_limit_mb == 512,
            r.cpu_time_limit == 12,
            r.num_threads == Some(32usize),
            spec_config_valid(r),
    {
        EvaluatorConfig {
            timeout_seconds: 15,
            memory_limit_mb: 512,
            cpu_time_limit: 12,
            num_threads: Some(32),
        }
    }
}

impl EvaluatorConfig {
    /// Accept exactly the configurations [`spec_config_valid`] allows.
    pub fn validate(&self) -> (r: Result<(), RewardError>)
        ensures
            r is Ok <==> spec_config_valid(*self),
            r is Err ==> r == Result::<(), RewardError>::Err(RewardError::InvalidConfig),
    {
        if self.timeout_seconds < 1 || self.memory_limit_mb < 64 || self.cpu_time_limit < 1 {
            Err(RewardError::InvalidConfig)
        } else {
            Ok(())
        }
    }
}

/// The reward for a well-formed completion.
pub open spec fn spec_format_reward(t: Seq<char>) -> u8 {
    if spec_has_valid_format(t) {
        1u8
    } else {
        0u8
    }
}

/// The typing prelude put before every candidate program.
pub open spec fn prelude() -> Seq<char> {
    "from typing import List, Optional, Dict, Set, Tuple, Any\n\n"@
}

/// What one batch item sends to the sandbox: `None` when the item is
/// rejected before any sandbox is spawned (missing tests, blank extracted
/// code, or a failed entry-point check), else the full program.
pub open spec fn spec_plan_item(c: Seq<char>, t: Seq<char>, e: Seq<char>) -> Option<
    Seq<char>,
> {
    if t.len() == 0 || t == null_lit() {
        None
    } else {
        let code = spec_extract(c);
        if spec_trim(code).len() == 0 {
            None
        } else {
            let with_prelude = prelude() + code;
            if !spec_entry_point_ok(with_prelude, e) {
                None
            } else {
                Some(with_prelude + "\n\n"@ + spec_wrap(t, e))
            }
        }
    }
}

/// A planned program agrees with [`spec_plan_item`].
pub open spec fn plan_matches(p: Option<String>, c: Seq<char>, t: Seq<char>, e: Seq<char>) -> bool {
    match spec_plan_item(c, t, e) {
        None => p is None,
        Some(v) => p is Some && p->Some_0@ == v,
    }
}

/// The reward of one item, given whether it was planned for execution and
/// whether its run passed everything.
pub open spec fn spec_item_reward(planned: bool, all_passed: bool) -> u8 {
    if planned && all_passed {
        1u8
    } else {
        0u8
    }
}

/// Decide one item up to the sandbox: extract the candidate code, reject
/// blank code, missing tests and wrong entry points, and otherwise build the
/// full program (prelude, candidate, rewritten harness) to run.
pub fn prepare_single_execution(completion: &str, test: &str, entry_point: &str) -> (r: Option<
    String,
>)
    ensures
        plan_matches(r, completion@, test@, entry_point@),
{
    let tv = chars_of(test);
    let null_pat = chars_of("null");
    if tv.len() == 0 || vec_eq(&tv, &null_pat) {
        return None;
    }
    let code = extract_code_from_completion(completion);
    let cv = chars_of(code.as_str());
    proof {
        lemma_trim_empty(cv@);
    }
    if ws_run_end(&cv, 0) == cv.len() {
        return None;
    }
    let mut program = chars_of("from typing import List, Optional, Dict, Set, Tuple, Any\n\n");
    push_all(&mut program, &cv);
    let ev = chars_of(entry_point);
    if !entry_point_ok_chars(&program, &ev) {
        return None;
    }
    let wrapped = wrap_tests_for_complete_execution(test, entry_point);
    let wv = chars_of(wrapped.as_str());
    let sep = chars_of("\n\n");
    push_all(&mut program, &sep);
    push_all(&mut program, &wv);
    proof {
        assert(program@ =~= (prelude() + spec_extract(completion@)) + "\n\n"@ + spec_wrap(
            test@,
            entry_point@,
        ));
    }
    Some(chars_to_string(&program))
}

/// The per-item rewards, one per plan: one exactly when the item was both
/// planned and passed its run.
pub fn collect_execution_rewards(plans: &Vec<Option<String>>, verdicts: &Vec<bool>) -> (r: Vec<
    u8,
>)
    requires
        plans@.len() == verdicts@.len(),
    ensures
        r@.len() == plans@.len(),
        forall|i: int|
            0 <= i < r@.len() ==> r@[i] == spec_item_reward(plans@[i] is Some, verdicts@[i]),
        forall|i: int| 0 <= i < r@.len() ==> (r@[i] == 0 || r@[i] == 1),
{
    let n = plans.len();
    let mut r: Vec<u8> = Vec::new();
    let mut i: usize = 0;
    while i < n
        invariant
            i <= n == plans@.len() == verdicts@.len(),
            r@.len() == i,
            forall|j: int|
                0 <= j < i ==> r@[j] == spec_item_reward(plans@[j] is Some, verdicts@[j]),
        decreases n - i,
    {
        let reward: u8 = if plans[i].is_some() && verdicts[i] {
            1
        } else {
            0
        };
        r.push(reward);
        i += 1;
    }
    r
}

/// Any two reward vectors that satisfy the per-item contract agree, whatever
/// order the items were evaluated in: the reward at an index is a function
/// of that item's plan and verdict alone.
pub proof fn lemma_rewards_order_independent(
    plans: Seq<Option<String>>,
    verdicts: Seq<bool>,
    r1: Seq<u8>,
    r2: Seq<u8>,
)
    requires
        r1.len() == plans.len(),
        r2.len() == plans.len(),
        forall|i: int|
            0 <= i < plans.len() ==> r1[i] == spec_item_reward(plans[i] is Some, verdicts[i]),
        forall|i: int|
            0 <= i < plans.len() ==> r2[i] == spec_item_reward(plans[i] is Some, verdicts[i]),
    ensures
        r1 == r2,
{
    assert(r1 =~= r2);
}

/// An item's plan depends only on its three texts: two planned batches over
/// the same inputs agree item by item — which items run and what program
/// each sends to the sandbox — whatever evaluator produced them and however
/// many workers it was configured with.
pub proof fn lemma_plans_deterministic(
    completions: Seq<String>,
    tests: Seq<String>,
    entry_points: Seq<String>,
    p1: Seq<Option<String>>,
    p2: Seq<Option<String>>,
)
    requires
        p1.len() == completions.len(),
        p2.len() == completions.len(),
        forall|i: int|
            0 <= i < completions.len() ==> plan_matches(
                p1[i],
                completions[i]@,
                tests[i]@,
                entry_points[i]@,
            ),
        forall|i: int|
            0 <= i < completions.len() ==> plan_matches(
                p2[i],
                completions[i]@,
                tests[i]@,
                entry_points[i]@,
            ),
    ensures
        forall|i: int|
            0 <= i < completions.len() ==> ((p1[i] is Some <==> p2[i] is Some) && (p1[i] is Some
                ==> p1[i]->Some_0@ == p2[i]->Some_0@)),
{
}

/// A format reward depends only on the completion at its own index: two
/// batches that agree there get the same reward there, whatever the other
/// entries hold.
pub proof fn lemma_format_reward_local(
    b1: Seq<String>,
    b2: Seq<String>,
    r1: Seq<u8>,
    r2: Seq<u8>,
    i: int,
)
    requires
        r1.len() == b1.len(),
        r2.len() == b2.len(),
        forall|j: int| 0 <= j < b1.len() ==> r1[j] == spec_format_reward(b1[j]@),
        forall|j: int| 0 <= j < b2.len() ==> r2[j] == spec_format_reward(b2[j]@),
        0 <= i < b1.len(),
        0 <= i < b2.len(),
        b1[i]@ == b2[i]@,
    ensures
        r1[i] == r2[i],
{
}

/// The evaluator: a checked configuration and the scoring entry points.
pub struct RewardEvaluator {
    /// The configuration the evaluator was built with; construction checks
    /// it and nothing changes it afterwards.
    pub config: EvaluatorConfig,
}

impl RewardEvaluator {
    /// Build an evaluator from a configuration, rejecting out-of-range
    /// values. Sizing of the worker pool is the embedder's concern.
    pub fn new(config: EvaluatorConfig) -> (r: Result<RewardEvaluator, RewardError>)
        ensures
            r is Ok <==> spec_config_valid(config),
            r is Ok ==> r->Ok_0.config == config,
            r is Err ==> r == Result::<RewardEvaluator, RewardError>::Err(
                RewardError::InvalidConfig,
            ),
    {
        match config.validate() {
            Ok(()) => Ok(RewardEvaluator { config }),
            Err(e) => Err(e),
        }
    }

    /// One reward per completion: one exactly when the completion carries
    /// both tag pairs.
    pub fn evaluate_response_format(&self, completions: &Vec<String>) -> (r: Vec<u8>)
        ensures
            r@.len() == completions@.len(),
            forall|i: int| 0 <= i < r@.len() ==> r@[i] == spec_format_reward(completions@[i]@),
            forall|i: int| 0 <= i < r@.len() ==> (r@[i] == 0 || r@[i] == 1),
    {
        let n = completions.len();
        let mut r: Vec<u8> = Vec::new();
        let mut i: usize = 0;
        while i < n
            invariant
                i <= n == completions@.len(),
                r@.len() == i,
                forall|j: int| 0 <= j < i ==> r@[j] == spec_format_reward(completions@[j]@),
            decreases n - i,
        {
            let reward: u8 = if has_valid_format(completions[i].as_str()) {
                1
            } else {
                0
            };
            r.push(reward);
            i += 1;
        }
        r
    }

    /// Plan a whole batch: reject mismatched lengths loudly, then decide
    /// each item independently.
    pub fn plan_execution_batch(
        &self,
        completions: &Vec<String>,
        tests: &Vec<String>,
        entry_points: &Vec<String>,
    ) -> (r: Result<Vec<Option<String>>, RewardError>)
        ensures
            r is Ok <==> (completions@.len() == tests@.len() && completions@.len()
                == entry_points@.len()),
            r is Err ==> r == Result::<Vec<Option<String>>, RewardError>::Err(
                RewardError::LengthMismatch,
            ),
            r is Ok ==> r->Ok_0@.len() == completions@.len(),
            r is Ok ==> forall|i: int|
                0 <= i < completions@.len() ==> plan_matches(
                    r->Ok_0@[i],
                    completions@[i]@,
                    tests@[i]@,
                    entry_points@[i]@,
                ),
    {
        let n = completions.len();
        if tests.len() != n || entry_points.len() != n {
            return Err(RewardError::LengthMismatch);
        }
        let mut plans: Vec<Option<String>> = Vec::new();
        let mut i: usize = 0;
        while i < n
            invariant
                i <= n == completions@.len() == tests@.len() == entry_points@.len(),
                plans@.len() == i,
                forall|j: int|
                    0 <= j < i ==> plan_matches(
                        plans@[j],
                        completions@[j]@,
                        tests@[j]@,
                        entry_points@[j]@,
                    ),
            decreases n - i,
        {
            let plan = prepare_single_execution(
                completions[i].as_str(),
                tests[i].as_str(),
                entry_points[i].as_str(),
            );
            plans.push(plan);
            i += 1;
        }
        Ok(plans)
    }
}

} // verus!
