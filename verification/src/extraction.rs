//! Extraction of candidate Python source from a structured completion.
//!
//! Strategy, first match wins: the region inside the first
//! `<answer>…</answer>` pair (case-insensitive), trimmed, with at most one
//! leading and one trailing markdown fence stripped; otherwise the interior
//! of the first ```` ```python ```` block; otherwise the whole text, trimmed.

use vstd::prelude::*;

use crate::text::{
    chars_of, chars_to_string, find_sub, find_sub_gen, is_space, lemma_spec_find_gen,
    lemma_trim_preserves_absence, lemma_trim_idempotent, lemma_ws_prefix_end, matches_at,
    matches_at_gen, spec_find, spec_find_gen, spec_trim, subvec, trim_chars, ws_prefix_end,
};

verus! {

/// Opening tag of the answer region (matched case-insensitively).
pub open spec fn answer_open() -> Seq<char> {
    "<answer>"@
}

/// Closing tag of the answer region (matched case-insensitively).
pub open spec fn answer_close() -> Seq<char> {
    "</answer>"@
}

/// Opening markdown fence with a python language marker.
pub open spec fn fence_python() -> Seq<char> {
    "```python"@
}

/// Bare markdown fence.
pub open spec fn fence_plain() -> Seq<char> {
    "```"@
}

/// A newline followed by a bare fence: the shape of a closing fence line.
pub open spec fn nl_fence() -> Seq<char> {
    "\n```"@
}

/// The interior of the first answer pair: the first case-insensitive
/// occurrence of the opening tag with a closing tag anywhere after it.
pub open spec fn answer_region(t: Seq<char>) -> Option<(int, int)> {
    match spec_find_gen(t, answer_open(), 0, true) {
        None => None,
        Some(o) => match spec_find_gen(t, answer_close(), o + answer_open().len(), true) {
            None => None,
            Some(c) => Some(((o + answer_open().len()) as int, c)),
        },
    }
}

/// Strip one leading fence of shape `fence`, optional whitespace, and the
/// last newline of that whitespace run; the text is returned unchanged when
/// that shape is not present at the start.
pub open spec fn strip_leading_fence(s: Seq<char>, fence: Seq<char>) -> Seq<char> {
    if matches_at(s, fence, 0) {
        match last_nl_in(s, fence.len() as int, ws_prefix_end(s, fence.len() as int)) {
            Some(p) => s.subrange(p + 1, s.len() as int),
            None => s,
        }
    } else {
        s
    }
}

/// The last index in `[lo, hi)` holding a newline, if any.
pub open spec fn last_nl_in(s: Seq<char>, lo: int, hi: int) -> Option<int>
    decreases hi - lo,
{
    if lo >= hi {
        None
    } else if 0 <= hi - 1 < s.len() && s[hi - 1] == '\n' {
        Some(hi - 1)
    } else {
        last_nl_in(s, lo, hi - 1)
    }
}

/// A closing fence line at `i`: a newline, a bare fence, and nothing but
/// whitespace to the end of the text.
pub open spec fn end_fence_at(s: Seq<char>, i: int) -> bool {
    &&& 0 <= i
    &&& i + 1 + fence_plain().len() <= s.len()
    &&& s[i] == '\n'
    &&& matches_at(s, fence_plain(), i + 1)
    &&& forall|j: int| i + 1 + fence_plain().len() <= j < s.len() ==> is_space(s[j])
}

/// The first closing fence line at or after `from`, if any.
pub open spec fn find_end_fence(s: Seq<char>, from: int) -> Option<int>
    decreases s.len() - from,
{
    if from < 0 || from + 1 + fence_plain().len() > s.len() {
        None
    } else if end_fence_at(s, from) {
        Some(from)
    } else {
        find_end_fence(s, from + 1)
    }
}

/// Remove a trailing closing fence line, when one is present.
pub open spec fn strip_trailing_fence(s: Seq<char>) -> Seq<char> {
    match find_end_fence(s, 0) {
        Some(i) => s.subrange(0, i),
        None => s,
    }
}

/// All fence stripping applied to a trimmed answer interior, in order:
/// python fence, bare fence, trailing fence.
pub open spec fn spec_clean_answer(inner: Seq<char>) -> Seq<char> {
    strip_trailing_fence(
        strip_leading_fence(strip_leading_fence(spec_trim(inner), fence_python()), fence_plain()),
    )
}

/// A python code block opens at `s`: the python fence, then a whitespace run
/// in which a newline can be chosen so that a closing fence line shape
/// (newline plus bare fence) occurs somewhere after it.
pub open spec fn block_open_at(t: Seq<char>, s: int) -> bool {
    &&& matches_at(t, fence_python(), s)
    &&& last_nl_with_fence(
        t,
        s + fence_python().len(),
        ws_prefix_end(t, s + fence_python().len()),
    ) is Some
}

/// The last newline in `[lo, hi)` that still has a closing fence shape after
/// it, if any. This mirrors how a greedy whitespace run before the block
/// interior backs off to the latest workable newline.
pub open spec fn last_nl_with_fence(t: Seq<char>, lo: int, hi: int) -> Option<int>
    decreases hi - lo,
{
    if lo >= hi {
        None
    } else if 0 <= hi - 1 < t.len() && t[hi - 1] == '\n' && spec_find(t, nl_fence(), hi) is Some {
        Some(hi - 1)
    } else {
        last_nl_with_fence(t, lo, hi - 1)
    }
}

/// The first position where a python code block opens, if any.
pub open spec fn find_block(t: Seq<char>, from: int) -> Option<int>
    decreases t.len() - from,
{
    if from < 0 || from >= t.len() || from + fence_python().len() > t.len() {
        None
    } else if block_open_at(t, from) {
        Some(from)
    } else {
        find_block(t, from + 1)
    }
}

/// The trimmed interior of the first python code block. Meaningful only when
/// `find_block(t, 0)` is `Some`.
pub open spec fn block_inner(t: Seq<char>) -> Seq<char> {
    let s = find_block(t, 0)->Some_0;
    let p = last_nl_with_fence(
        t,
        s + fence_python().len(),
        ws_prefix_end(t, s + fence_python().len()),
    )->Some_0;
    let q = spec_find(t, nl_fence(), p + 1)->Some_0;
    spec_trim(t.subrange(p + 1, q))
}

/// What extraction returns for a completion `t`.
pub open spec fn spec_extract(t: Seq<char>) -> Seq<char> {
    if answer_region(t) is Some {
        let (lo, hi) = answer_region(t)->Some_0;
        spec_clean_answer(t.subrange(lo, hi))
    } else if find_block(t, 0) is Some {
        block_inner(t)
    } else {
        spec_trim(t)
    }
}

/// On text free of answer tags and python fences — plain source — extraction
/// is just trimming, and extracting a second time changes nothing.
pub proof fn lemma_extract_idempotent_on_plain(t: Seq<char>)
    requires
        forall|i: int| !matches_at_gen(t, answer_open(), i, true),
        forall|i: int| !matches_at(t, fence_python(), i),
    ensures
        spec_extract(t) == spec_trim(t),
        spec_extract(spec_extract(t)) == spec_extract(t),
{
    reveal_strlit("<answer>");
    reveal_strlit("```python");
    lemma_no_tags_extracts_to_trim(t);
    let r = spec_trim(t);
    assert forall|i: int| !matches_at_gen(t, fence_python(), i, false) by {
        assert(!matches_at(t, fence_python(), i));
    }
    lemma_trim_preserves_absence(t, answer_open(), true);
    lemma_trim_preserves_absence(t, fence_python(), false);
    lemma_no_tags_extracts_to_trim(r);
    lemma_trim_idempotent(t);
}

/// Without an answer tag or a python fence anywhere, extraction falls
/// through to trimming the whole text.
proof fn lemma_no_tags_extracts_to_trim(t: Seq<char>)
    requires
        forall|i: int| !matches_at_gen(t, answer_open(), i, true),
        forall|i: int| !matches_at(t, fence_python(), i),
    ensures
        spec_extract(t) == spec_trim(t),
{
    lemma_spec_find_gen(t, answer_open(), 0, true);
    if spec_find_gen(t, answer_open(), 0, true) is Some {
        let o = spec_find_gen(t, answer_open(), 0, true)->Some_0;
        assert(matches_at_gen(t, answer_open(), o, true));
        assert(false);
    }
    assert(answer_region(t) is None);
    assert forall|j: int| !block_open_at(t, j) by {
        if block_open_at(t, j) {
            assert(matches_at(t, fence_python(), j));
        }
    }
    lemma_find_block_none(t, 0);
}

/// Lengths and characters of the fence patterns.
proof fn lemma_fence_chars()
    ensures
        fence_plain().len() == 3,
        nl_fence().len() == 4,
        fence_python().len() == 9,
        nl_fence()[0] == '\n',
        forall|k: int| 0 <= k < 3 ==> nl_fence()[k + 1] == fence_plain()[k],
{
    reveal_strlit("```");
    reveal_strlit("\n```");
    reveal_strlit("```python");
}

/// A closing fence line is exactly an occurrence of the newline-fence shape
/// followed by whitespace only.
proof fn lemma_end_fence_shape(s: Seq<char>, i: int)
    ensures
        end_fence_at(s, i) <==> (matches_at(s, nl_fence(), i) && forall|j: int|
            i + nl_fence().len() <= j < s.len() ==> is_space(s[j])),
{
    lemma_fence_chars();
    if matches_at(s, nl_fence(), i) {
        assert(s[i] == nl_fence()[0]);
        assert forall|k: int| 0 <= k < fence_plain().len() implies s[i + 1 + k]
            == fence_plain()[k] by {
            assert(s[i + (k + 1)] == nl_fence()[k + 1]);
        }
    }
    if end_fence_at(s, i) {
        assert forall|k: int| 0 <= k < nl_fence().len() implies s[i + k] == nl_fence()[k] by {
            if k == 0 {
            } else {
                assert(s[i + 1 + (k - 1)] == fence_plain()[k - 1]);
            }
        }
    }
}

/// Skipping positions without a closing fence line does not change which one
/// is found first.
proof fn lemma_find_end_fence_advance(s: Seq<char>, a: int, b: int)
    requires
        0 <= a <= b,
        forall|j: int| a <= j < b ==> !end_fence_at(s, j),
    ensures
        find_end_fence(s, a) == find_end_fence(s, b),
    decreases b - a,
{
    if a < b {
        if a + 1 + fence_plain().len() > s.len() {
            assert(find_end_fence(s, a) is None);
            lemma_find_end_fence_oob(s, b);
        } else {
            lemma_find_end_fence_advance(s, a + 1, b);
        }
    }
}

/// No closing fence line fits at or after `from` when the text is too short.
proof fn lemma_find_end_fence_oob(s: Seq<char>, from: int)
    requires
        from + 1 + fence_plain().len() > s.len(),
        0 <= from,
    ensures
        find_end_fence(s, from) is None,
{
}

/// When no position at or after `from` holds a closing fence line, none is
/// found.
proof fn lemma_find_end_fence_none(s: Seq<char>, from: int)
    requires
        0 <= from,
        forall|j: int| from <= j ==> !end_fence_at(s, j),
    ensures
        find_end_fence(s, from) is None,
    decreases s.len() - from,
{
    if !(from < 0 || from + 1 + fence_plain().len() > s.len()) {
        lemma_find_end_fence_none(s, from + 1);
    }
}

/// Skipping positions where no block opens does not change which block is
/// found first.
proof fn lemma_find_block_advance(t: Seq<char>, a: int, b: int)
    requires
        0 <= a <= b,
        forall|j: int| a <= j < b ==> !block_open_at(t, j),
    ensures
        find_block(t, a) == find_block(t, b),
    decreases b - a,
{
    if a < b {
        if a >= t.len() || a + fence_python().len() > t.len() {
            assert(find_block(t, a) is None);
            lemma_find_block_oob(t, b);
        } else {
            lemma_find_block_advance(t, a + 1, b);
        }
    }
}

/// No block fits at or after `from` when the text is too short.
proof fn lemma_find_block_oob(t: Seq<char>, from: int)
    requires
        0 <= from,
        from >= t.len() || from + fence_python().len() > t.len(),
    ensures
        find_block(t, from) is None,
    decreases t.len() - from,
{
    if !(from >= t.len() || from + fence_python().len() > t.len()) {
    } else if from < t.len() {
        // the python fence cannot shrink, so the next position is short too
        lemma_find_block_oob(t, from + 1);
    }
}

/// When no block opens at or after `from`, none is found.
proof fn lemma_find_block_none(t: Seq<char>, from: int)
    requires
        0 <= from,
        forall|j: int| from <= j ==> !block_open_at(t, j),
    ensures
        find_block(t, from) is None,
    decreases t.len() - from,
{
    if !(from >= t.len() || from + fence_python().len() > t.len()) {
        lemma_find_block_none(t, from + 1);
    }
}

/// Strip one leading fence of the given shape, executably.
fn strip_leading_fence_exec(v: &Vec<char>, fence: &Vec<char>) -> (r: Vec<char>)
    ensures
        r@ == strip_leading_fence(v@, fence@),
{
    if !crate::text::starts_with(v, fence) {
        let r = subvec(v, 0, v.len());
        proof {
            assert(v@.subrange(0, v@.len() as int) =~= v@);
        }
        return r;
    }
    let flen = fence.len();
    let e = crate::text::ws_run_end(v, flen);
    let mut j: usize = e;
    while j > flen && !(v[j - 1] == '\n')
        invariant
            flen <= j <= e <= v@.len(),
            last_nl_in(v@, flen as int, e as int) == last_nl_in(v@, flen as int, j as int),
        decreases j,
    {
        j -= 1;
    }
    if j > flen {
        assert(last_nl_in(v@, flen as int, e as int) == Some(j - 1));
        subvec(v, j, v.len())
    } else {
        assert(last_nl_in(v@, flen as int, e as int) is None);
        let r = subvec(v, 0, v.len());
        proof {
            assert(v@.subrange(0, v@.len() as int) =~= v@);
        }
        r
    }
}

/// Remove a trailing closing fence line, executably.
fn strip_trailing_fence_exec(v: &Vec<char>, nlf: &Vec<char>) -> (r: Vec<char>)
    requires
        nlf@ == nl_fence(),
    ensures
        r@ == strip_trailing_fence(v@),
{
    proof {
        lemma_fence_chars();
    }
    let n = v.len();
    let mut pos: usize = 0;
    loop
        invariant
            n == v@.len(),
            pos <= v@.len() + 1,
            nlf@ == nl_fence(),
            find_end_fence(v@, 0) == find_end_fence(v@, pos as int),
        decreases v@.len() + 1 - pos,
    {
        proof {
            lemma_fence_chars();
        }
        match find_sub(v, nlf, pos) {
            None => {
                proof {
                    lemma_spec_find_gen(v@, nlf@, pos as int, false);
                    assert forall|j: int| pos <= j implies !end_fence_at(v@, j) by {
                        lemma_end_fence_shape(v@, j);
                    }
                    lemma_find_end_fence_none(v@, pos as int);
                }
                let r = subvec(v, 0, v.len());
                proof {
                    assert(v@.subrange(0, v@.len() as int) =~= v@);
                }
                return r;
            },
            Some(i) => {
                proof {
                    lemma_spec_find_gen(v@, nlf@, pos as int, false);
                    assert(matches_at(v@, nlf@, i as int));
                    assert(i + 4 <= v@.len());
                }
                let e = crate::text::ws_run_end(v, i + 4);
                proof {
                    lemma_ws_prefix_end(v@, i + 4);
                    assert forall|j: int| pos <= j < i implies !end_fence_at(v@, j) by {
                        lemma_end_fence_shape(v@, j);
                    }
                }
                if e == v.len() {
                    proof {
                        lemma_end_fence_shape(v@, i as int);
                        assert(end_fence_at(v@, i as int));
                        lemma_find_end_fence_advance(v@, pos as int, i as int);
                        assert(find_end_fence(v@, i as int) == Some(i as int));
                    }
                    return subvec(v, 0, i);
                } else {
                    proof {
                        assert(!is_space(v@[e as int]));
                        assert(!end_fence_at(v@, i as int));
                        lemma_find_end_fence_advance(v@, pos as int, i + 1);
                    }
                    pos = i + 1;
                }
            },
        }
    }
}

/// Find the first python code block: its fence position, the chosen newline
/// before the interior, and the closing fence position.
fn find_block_exec(v: &Vec<char>, pyf: &Vec<char>, nlf: &Vec<char>) -> (r: Option<
    (usize, usize, usize),
>)
    requires
        pyf@ == fence_python(),
        nlf@ == nl_fence(),
    ensures
        match r {
            Some((s, p, q)) => {
                &&& find_block(v@, 0) == Some(s as int)
                &&& last_nl_with_fence(
                    v@,
                    s + fence_python().len(),
                    ws_prefix_end(v@, s + fence_python().len()),
                ) == Some(p as int)
                &&& spec_find(v@, nl_fence(), p + 1) == Some(q as int)
            },
            None => find_block(v@, 0) is None,
        },
{
    let n = v.len();
    let mut pos: usize = 0;
    loop
        invariant
            n == v@.len(),
            pos <= v@.len() + 1,
            pyf@ == fence_python(),
            nlf@ == nl_fence(),
            find_block(v@, 0) == find_block(v@, pos as int),
        decreases v@.len() + 1 - pos,
    {
        match find_sub(v, pyf, pos) {
            None => {
                proof {
                    lemma_spec_find_gen(v@, pyf@, pos as int, false);
                    assert forall|j: int| pos <= j implies !block_open_at(v@, j) by {}
                    lemma_find_block_none(v@, pos as int);
                }
                return None;
            },
            Some(s) => {
                proof {
                    lemma_fence_chars();
                    lemma_spec_find_gen(v@, pyf@, pos as int, false);
                    assert(matches_at(v@, pyf@, s as int));
                    assert(s + 9 <= v@.len());
                    assert forall|j: int| pos <= j < s implies !block_open_at(v@, j) by {}
                }
                let lo = s + pyf.len();
                let e = crate::text::ws_run_end(v, lo);
                let mut j: usize = e;
                let mut found_p: usize = 0;
                let mut found_q: usize = 0;
                let mut have: bool = false;
                loop
                    invariant_except_break
                        !have,
                        last_nl_with_fence(v@, lo as int, e as int) == last_nl_with_fence(
                            v@,
                            lo as int,
                            j as int,
                        ),
                    invariant
                        lo <= j <= e <= v@.len(),
                        lo == s + fence_python().len(),
                        nlf@ == nl_fence(),
                    ensures
                        !have ==> last_nl_with_fence(v@, lo as int, e as int) is None,
                        have ==> last_nl_with_fence(v@, lo as int, e as int) == Some(
                            found_p as int,
                        ) && spec_find(v@, nl_fence(), found_p + 1) == Some(found_q as int),
                    decreases j,
                {
                    if j <= lo {
                        break ;
                    }
                    if v[j - 1] == '\n' {
                        match find_sub(v, nlf, j) {
                            Some(q) => {
                                proof {
                                    assert(last_nl_with_fence(v@, lo as int, j as int) == Some(
                                        j - 1,
                                    ));
                                }
                                found_p = j - 1;
                                found_q = q;
                                have = true;
                                break ;
                            },
                            None => {
                                assert(last_nl_with_fence(v@, lo as int, j as int)
                                    == last_nl_with_fence(v@, lo as int, j - 1));
                                j -= 1;
                            },
                        }
                    } else {
                        j -= 1;
                    }
                }
                if have {
                    proof {
                        assert(block_open_at(v@, s as int));
                        lemma_find_block_advance(v@, pos as int, s as int);
                        assert(find_block(v@, s as int) == Some(s as int));
                    }
                    return Some((s, found_p, found_q));
                } else {
                    proof {
                        assert(last_nl_with_fence(v@, lo as int, e as int) is None);
                        assert(!block_open_at(v@, s as int));
                        lemma_find_block_advance(v@, pos as int, s + 1);
                    }
                    pos = s + 1;
                }
            },
        }
    }
}

/// Extraction when the completion has no answer region: the first python
/// code block's interior, or the whole text, trimmed.
fn extract_no_answer(v: &Vec<char>) -> (r: Vec<char>)
    ensures
        r@ == if find_block(v@, 0) is Some {
            block_inner(v@)
        } else {
            spec_trim(v@)
        },
{
    let pyf = chars_of("```python");
    let nlf = chars_of("\n```");
    match find_block_exec(v, &pyf, &nlf) {
        Some((s, p, q)) => {
            proof {
                lemma_spec_find_gen(v@, nl_fence(), p + 1, false);
            }
            let inner = subvec(v, p + 1, q);
            trim_chars(&inner)
        },
        None => trim_chars(v),
    }
}

/// Pull the candidate Python source out of a completion. The interior of the
/// first `<answer>…</answer>` pair is preferred, trimmed and with one layer
/// of markdown fencing stripped; otherwise the interior of the first
/// ```` ```python ```` block; otherwise the whole completion, trimmed.
pub fn extract_code_from_completion(completion: &str) -> (r: String)
    ensures
        r@ == spec_extract(completion@),
{
    let v = chars_of(completion);
    let open = chars_of("<answer>");
    let close = chars_of("</answer>");
    match find_sub_gen(&v, &open, 0, true) {
        Some(o) => {
            proof {
                lemma_spec_find_gen(v@, answer_open(), 0, true);
            }
            match find_sub_gen(&v, &close, o + open.len(), true) {
                Some(c) => {
                    proof {
                        lemma_spec_find_gen(v@, answer_close(), o + answer_open().len(), true);
                    }
                    let inner = subvec(&v, o + open.len(), c);
                    let trimmed = trim_chars(&inner);
                    let pyf = chars_of("```python");
                    let plf = chars_of("```");
                    let nlf = chars_of("\n```");
                    let s1 = strip_leading_fence_exec(&trimmed, &pyf);
                    let s2 = strip_leading_fence_exec(&s1, &plf);
                    let s3 = strip_trailing_fence_exec(&s2, &nlf);
                    chars_to_string(&s3)
                },
                None => chars_to_string(&extract_no_answer(&v)),
            }
        },
        None => chars_to_string(&extract_no_answer(&v)),
    }
}

} // verus!
