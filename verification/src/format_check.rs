//! Structural format check: a completion is well-formed when it holds both a
//! `<think>…</think>` segment and an `<answer>…</answer>` segment, matched
//! case-insensitively, with arbitrary content between the tags.

use vstd::prelude::*;

use crate::extraction::{answer_close, answer_open};
use crate::text::{chars_of, find_sub_gen, lemma_spec_find_gen, matches_at_gen};

verus! {

/// Opening tag of the reasoning segment (matched case-insensitively).
pub open spec fn think_open() -> Seq<char> {
    "<think>"@
}

/// Closing tag of the reasoning segment (matched case-insensitively).
pub open spec fn think_close() -> Seq<char> {
    "</think>"@
}

/// `t` holds an occurrence of `open` with an occurrence of `close` that
/// starts at or after the end of the opening tag.
pub open spec fn has_tag_pair(t: Seq<char>, open: Seq<char>, close: Seq<char>) -> bool {
    exists|i: int, j: int|
        matches_at_gen(t, open, i, true) && matches_at_gen(t, close, j, true) && i + open.len()
            <= j
}

/// A completion has the valid shape when both tag pairs are present.
pub open spec fn spec_has_valid_format(t: Seq<char>) -> bool {
    has_tag_pair(t, think_open(), think_close()) && has_tag_pair(
        t,
        answer_open(),
        answer_close(),
    )
}

/// Decide [`has_tag_pair`]: find the first opening tag, then look for a
/// closing tag after its end.
fn find_tag_pair(v: &Vec<char>, open: &Vec<char>, close: &Vec<char>) -> (r: bool)
    ensures
        r == has_tag_pair(v@, open@, close@),
{
    let n = v.len();
    proof {
        assert(n == v@.len());
        lemma_spec_find_gen(v@, open@, 0, true);
    }
    match find_sub_gen(v, open, 0, true) {
        None => {
            proof {
                assert forall|i: int, j: int|
                    !(matches_at_gen(v@, open@, i, true) && matches_at_gen(v@, close@, j, true)
                        && i + open@.len() <= j) by {}
            }
            false
        },
        Some(i) => {
            proof {
                assert(matches_at_gen(v@, open@, i as int, true));
                assert(i + open@.len() <= v@.len());
            }
            match find_sub_gen(v, close, i + open.len(), true) {
                Some(j) => {
                    proof {
                        lemma_spec_find_gen(v@, close@, i + open@.len(), true);
                        assert(matches_at_gen(v@, open@, i as int, true) && matches_at_gen(
                            v@,
                            close@,
                            j as int,
                            true,
                        ) && i + open@.len() <= j);
                    }
                    true
                },
                None => {
                    proof {
                        lemma_spec_find_gen(v@, close@, i + open@.len(), true);
                        assert forall|i2: int, j2: int|
                            !(matches_at_gen(v@, open@, i2, true) && matches_at_gen(
                                v@,
                                close@,
                                j2,
                                true,
                            ) && i2 + open@.len() <= j2) by {
                            if matches_at_gen(v@, open@, i2, true) && matches_at_gen(
                                v@,
                                close@,
                                j2,
                                true,
                            ) && i2 + open@.len() <= j2 {
                                // the first opening tag is no later than `i2`,
                                // so `j2` lies after its end as well
                                assert(i <= i2);
                                assert(i + open@.len() <= j2);
                            }
                        }
                    }
                    false
                },
            }
        },
    }
}

/// Does the completion carry both a `<think>…</think>` and an
/// `<answer>…</answer>` segment?
pub fn has_valid_format(text: &str) -> (r: bool)
    ensures
        r == spec_has_valid_format(text@),
{
    let v = chars_of(text);
    let to = chars_of("<think>");
    let tc = chars_of("</think>");
    let ao = chars_of("<answer>");
    let ac = chars_of("</answer>");
    let thinks = find_tag_pair(&v, &to, &tc);
    let answers = find_tag_pair(&v, &ao, &ac);
    thinks && answers
}

} // verus!
