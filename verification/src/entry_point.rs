//! Textual entry-point validation: before paying for a sandboxed run, check
//! cheaply that the candidate code defines the function the tests will call,
//! and — for `Solution().method` entry points — the `Solution` class.

use vstd::prelude::*;

use crate::text::{
    chars_of, contains_pat, contains_sub, push_all, subvec, vec_eq,
};

verus! {

/// The literal entry-point value that disables validation.
pub open spec fn null_lit() -> Seq<char> {
    "null"@
}

/// The last index of `[0, hi)` holding character `c`, if any.
pub open spec fn last_index_of(t: Seq<char>, c: char, hi: int) -> Option<int>
    decreases hi,
{
    if hi <= 0 {
        None
    } else if 0 <= hi - 1 < t.len() && t[hi - 1] == c {
        Some(hi - 1)
    } else {
        last_index_of(t, c, hi - 1)
    }
}

/// The called method of an entry point: the part after the last dot, or the
/// whole entry point when it has no dot.
pub open spec fn spec_method_name(ep: Seq<char>) -> Seq<char> {
    match last_index_of(ep, '.', ep.len() as int) {
        Some(d) => ep.subrange(d + 1, ep.len() as int),
        None => ep,
    }
}

/// Entry-point validation over the candidate code. An empty or `null` entry
/// point passes; otherwise the code must contain `def ` followed by the
/// method name, and — when the entry point uses the `Solution().` shape —
/// the literal `class Solution`.
pub open spec fn spec_entry_point_ok(code: Seq<char>, ep: Seq<char>) -> bool {
    if ep.len() == 0 || ep == null_lit() {
        true
    } else {
        contains_sub(code, "def "@ + spec_method_name(ep)) && (contains_sub(
            ep,
            "Solution()."@,
        ) ==> contains_sub(code, "class Solution"@))
    }
}

/// The method-name part of `ep`, executably.
fn method_name_chars(ep: &Vec<char>) -> (r: Vec<char>)
    ensures
        r@ == spec_method_name(ep@),
{
    let n = ep.len();
    let mut hi: usize = n;
    while hi > 0 && !(ep[hi - 1] == '.')
        invariant
            hi <= n == ep@.len(),
            last_index_of(ep@, '.', n as int) == last_index_of(ep@, '.', hi as int),
        decreases hi,
    {
        hi -= 1;
    }
    if hi > 0 {
        assert(last_index_of(ep@, '.', n as int) == Some(hi - 1));
        subvec(ep, hi, n)
    } else {
        assert(last_index_of(ep@, '.', n as int) is None);
        let r = subvec(ep, 0, n);
        proof {
            assert(ep@.subrange(0, n as int) =~= ep@);
        }
        r
    }
}

/// Entry-point validation on character vectors.
pub fn entry_point_ok_chars(code: &Vec<char>, ep: &Vec<char>) -> (r: bool)
    ensures
        r == spec_entry_point_ok(code@, ep@),
{
    let null_pat = chars_of("null");
    if ep.len() == 0 || vec_eq(ep, &null_pat) {
        return true;
    }
    let method = method_name_chars(ep);
    let mut def_pat = chars_of("def ");
    push_all(&mut def_pat, &method);
    let has_def = contains_pat(code, &def_pat);
    let solution_call = chars_of("Solution().");
    let needs_class = contains_pat(ep, &solution_call);
    let class_pat = chars_of("class Solution");
    let has_class = contains_pat(code, &class_pat);
    has_def && (!needs_class || has_class)
}

/// Entry-point validation on strings.
pub fn entry_point_ok(code: &str, entry_point: &str) -> (r: bool)
    ensures
        r == spec_entry_point_ok(code@, entry_point@),
{
    let c = chars_of(code);
    let e = chars_of(entry_point);
    entry_point_ok_chars(&c, &e)
}

/// Validation failure is monotone: code that contains no more of the
/// looked-for definitions than rejected code is rejected as well.
pub proof fn lemma_entry_point_monotone(code1: Seq<char>, code2: Seq<char>, ep: Seq<char>)
    requires
        !spec_entry_point_ok(code1, ep),
        contains_sub(code2, "def "@ + spec_method_name(ep)) ==> contains_sub(
            code1,
            "def "@ + spec_method_name(ep),
        ),
        contains_sub(code2, "class Solution"@) ==> contains_sub(code1, "class Solution"@),
    ensures
        !spec_entry_point_ok(code2, ep),
{
}

} // verus!
