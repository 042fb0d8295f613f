//! Reward scoring for batches of language-model completions on code-generation
//! tasks: structural format checking, Python source extraction, test-harness
//! rewriting, and interpretation of sandboxed runs.

pub mod completion_input;
pub mod entry_point;
pub mod evaluator;
pub mod extraction;
pub mod format_check;
pub mod run_output;
pub mod test_wrapper;
pub mod text;
