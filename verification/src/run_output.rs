//! Interpretation of a sandboxed run: scan the captured standard output for
//! the first `TESTS_PASSED:<passed>/<total>` tally and combine it with the
//! child's exit code. The tally the appended driver prints is pure ASCII, so
//! it is matched directly on the captured bytes, and only ASCII decimal
//! digits form a count: a tally written with any other digit characters is
//! not recognised. A tally whose counts do not fit the count type, or whose
//! first count exceeds its second — something only a lying child can print —
//! is malformed and reads as zero passed of zero, so every result keeps the
//! invariant that `passed` never exceeds `total`.

use vstd::prelude::*;

verus! {

/// ASCII decimal digit byte.
pub open spec fn is_digit(b: u8) -> bool {
    48 <= b <= 57
}

/// The tally marker `TESTS_PASSED:` as bytes.
pub open spec fn marker() -> Seq<u8> {
    seq![84u8, 69u8, 83u8, 84u8, 83u8, 95u8, 80u8, 65u8, 83u8, 83u8, 69u8, 68u8, 58u8]
}

/// `pat` occurs in `t` at index `i`.
pub open spec fn bytes_matches_at(t: Seq<u8>, pat: Seq<u8>, i: int) -> bool {
    &&& 0 <= i
    &&& i + pat.len() <= t.len()
    &&& forall|k: int| 0 <= k < pat.len() ==> t[i + k] == pat[k]
}

/// End of the digit run starting at `i`.
pub open spec fn digit_run_end(t: Seq<u8>, i: int) -> int
    decreases t.len() - i,
{
    if 0 <= i && i < t.len() && is_digit(t[i]) {
        digit_run_end(t, i + 1)
    } else {
        i
    }
}

/// Every byte the digit run covers is a digit, and the byte at its end, if
/// any, is not.
pub proof fn lemma_digit_run_end(t: Seq<u8>, i: int)
    requires
        0 <= i <= t.len(),
    ensures
        i <= digit_run_end(t, i) <= t.len(),
        forall|j: int| i <= j < digit_run_end(t, i) ==> is_digit(t[j]),
        digit_run_end(t, i) < t.len() ==> !is_digit(t[digit_run_end(t, i)]),
    decreases t.len() - i,
{
    if 0 <= i && i < t.len() && is_digit(t[i]) {
        lemma_digit_run_end(t, i + 1);
    }
}

/// A full tally occurrence at `i`: the marker, at least one digit, a slash,
/// and at least one digit again. The digit runs are maximal, as a greedy
/// match takes them.
pub open spec fn marker_match_at(t: Seq<u8>, i: int) -> bool {
    let d1 = i + marker().len();
    let e1 = digit_run_end(t, d1);
    let d2 = e1 + 1;
    let e2 = digit_run_end(t, d2);
    &&& bytes_matches_at(t, marker(), i)
    &&& e1 > d1
    &&& e1 < t.len() && t[e1] == 47
    &&& e2 > d2
}

/// The first full tally occurrence at or after `from`, if any.
pub open spec fn find_marker(t: Seq<u8>, from: int) -> Option<int>
    decreases t.len() - from,
{
    if from < 0 || from + marker().len() > t.len() {
        None
    } else if marker_match_at(t, from) {
        Some(from)
    } else {
        find_marker(t, from + 1)
    }
}

/// The value of the digit run `t[d..e)`, most significant digit first.
pub open spec fn digits_value(t: Seq<u8>, d: int, e: int) -> nat
    decreases e - d,
{
    if e <= d {
        0
    } else {
        digits_value(t, d, e - 1) * 10 + (if 0 <= e - 1 < t.len() {
            (t[e - 1] - 48) as nat
        } else {
            0
        })
    }
}

/// The pair of counts read from the first tally in `t`: zeros when there is
/// no tally, and zeros again when the first tally is malformed — a count
/// that does not fit the count type, or more passed than total.
pub open spec fn spec_parse_counts(t: Seq<u8>) -> (int, int) {
    match find_marker(t, 0) {
        None => (0int, 0int),
        Some(i) => {
            let d1 = i + marker().len();
            let e1 = digit_run_end(t, d1);
            let d2 = e1 + 1;
            let e2 = digit_run_end(t, d2);
            let passed = digits_value(t, d1, e1);
            let total = digits_value(t, d2, e2);
            if passed > i32::MAX || total > i32::MAX || passed > total {
                (0int, 0int)
            } else {
                (passed as int, total as int)
            }
        },
    }
}

/// The result of a completed run: the counts, and whether everything passed
/// (exit code zero, counts equal, and at least one test).
pub open spec fn spec_run_result(exit_code: int, stdout: Seq<u8>) -> (bool, int, int) {
    let (p, tt) = spec_parse_counts(stdout);
    ((exit_code == 0 && p == tt && tt > 0), p, tt)
}

/// Every run result keeps the data-model invariant, whatever the child
/// printed: the counts are nonnegative, passed never exceeds total, passing
/// demands exit code zero with a full and nonzero tally, and a zero total
/// never passes.
pub proof fn lemma_run_result_invariant(exit_code: int, stdout: Seq<u8>)
    ensures
        ({
            let (all, p, tt) = spec_run_result(exit_code, stdout);
            &&& 0 <= p <= tt
            &&& all <==> (exit_code == 0 && p == tt && tt > 0)
            &&& tt == 0 ==> !all
        }),
{
}

/// Longer digit runs have values at least as large.
proof fn lemma_digits_value_mono(t: Seq<u8>, d: int, j: int, e: int)
    requires
        d <= j <= e,
    ensures
        digits_value(t, d, e) >= digits_value(t, d, j),
    decreases e - j,
{
    if j < e {
        lemma_digits_value_mono(t, d, j, e - 1);
    }
}

/// First occurrence search for the raw marker bytes.
fn bytes_find(t: &Vec<u8>, pat: &Vec<u8>, from: usize) -> (r: Option<usize>)
    ensures
        match r {
            Some(i) => bytes_matches_at(t@, pat@, i as int) && from <= i && forall|j: int|
                from <= j < i ==> !bytes_matches_at(t@, pat@, j),
            None => forall|j: int| from <= j ==> !bytes_matches_at(t@, pat@, j),
        },
{
    let n = t.len();
    if pat.len() > n || from > n - pat.len() {
        proof {
            assert forall|j: int| from <= j implies !bytes_matches_at(t@, pat@, j) by {}
        }
        return None;
    }
    let limit: usize = n - pat.len();
    let mut i: usize = from;
    while i <= limit
        invariant
            from <= i,
            limit + pat@.len() == n == t@.len(),
            forall|j: int| from <= j < i ==> !bytes_matches_at(t@, pat@, j),
        decreases limit - i + 1,
    {
        let mut k: usize = 0;
        let mut ok: bool = true;
        while k < pat.len()
            invariant
                i <= limit,
                limit + pat@.len() == n == t@.len(),
                i + pat@.len() <= t@.len(),
                k <= pat@.len(),
                ok == (forall|j: int| 0 <= j < k ==> t@[i + j] == pat@[j]),
            decreases pat@.len() - k,
        {
            ok = ok && t[i + k] == pat[k];
            k += 1;
        }
        if ok {
            assert(bytes_matches_at(t@, pat@, i as int));
            return Some(i);
        }
        assert(!bytes_matches_at(t@, pat@, i as int));
        i += 1;
    }
    proof {
        assert forall|j: int| from <= j implies !bytes_matches_at(t@, pat@, j) by {}
    }
    None
}

/// Skipping positions without a full tally does not change which one is
/// found first.
proof fn lemma_find_marker_advance(t: Seq<u8>, a: int, b: int)
    requires
        0 <= a <= b,
        forall|j: int| a <= j < b ==> !marker_match_at(t, j),
    ensures
        find_marker(t, a) == find_marker(t, b),
    decreases b - a,
{
    if a < b {
        if a + marker().len() > t.len() {
            lemma_find_marker_oob(t, b);
        } else {
            lemma_find_marker_advance(t, a + 1, b);
        }
    }
}

/// No tally fits at or after `from` when the text is too short.
proof fn lemma_find_marker_oob(t: Seq<u8>, from: int)
    requires
        0 <= from,
        from + marker().len() > t.len(),
    ensures
        find_marker(t, from) is None,
{
}

/// When no position at or after `from` holds a full tally, none is found.
proof fn lemma_find_marker_none(t: Seq<u8>, from: int)
    requires
        0 <= from,
        forall|j: int| from <= j ==> !marker_match_at(t, j),
    ensures
        find_marker(t, from) is None,
    decreases t.len() - from,
{
    if !(from + marker().len() > t.len()) {
        lemma_find_marker_none(t, from + 1);
    }
}

/// End of the digit run starting at `i`, executably.
fn digit_run_end_exec(t: &Vec<u8>, i: usize) -> (r: usize)
    requires
        i <= t@.len(),
    ensures
        r as int == digit_run_end(t@, i as int),
        i <= r <= t@.len(),
{
    proof {
        lemma_digit_run_end(t@, i as int);
    }
    let n = t.len();
    let mut j: usize = i;
    while j < n && 48 <= t[j] && t[j] <= 57
        invariant
            i <= j <= n == t@.len(),
            digit_run_end(t@, i as int) == digit_run_end(t@, j as int),
        decreases n - j,
    {
        j += 1;
    }
    j
}

/// Parse the digit run `t[d..e)` as a count, or nothing when its value does
/// not fit the count type.
fn parse_digits(t: &Vec<u8>, d: usize, e: usize) -> (r: Option<i32>)
    requires
        d <= e <= t@.len(),
        forall|j: int| d <= j < e ==> is_digit(t@[j]),
    ensures
        r is Some <==> digits_value(t@, d as int, e as int) <= i32::MAX,
        r is Some ==> r->Some_0 >= 0 && r->Some_0 as int == digits_value(
            t@,
            d as int,
            e as int,
        ),
{
    let mut acc: i32 = 0;
    let mut over: bool = false;
    let mut j: usize = d;
    while j < e
        invariant
            d <= j <= e <= t@.len(),
            forall|k: int| d <= k < e ==> is_digit(t@[k]),
            !over ==> 0 <= acc && acc as int == digits_value(t@, d as int, j as int),
            over ==> digits_value(t@, d as int, j as int) > i32::MAX,
        decreases e - j,
    {
        let dig = (t[j] - 48) as i32;
        assert(0 <= dig <= 9);
        if over || acc > 214748364 || (acc == 214748364 && dig > 7) {
            proof {
                let v = digits_value(t@, d as int, j as int);
                if !over {
                    assert(v * 10 + dig > i32::MAX);
                } else {
                    assert(digits_value(t@, d as int, j + 1) >= v);
                }
            }
            over = true;
        } else {
            acc = acc * 10 + dig;
        }
        j += 1;
    }
    if over {
        proof {
            lemma_digits_value_mono(t@, d as int, j as int, e as int);
        }
        None
    } else {
        Some(acc)
    }
}

/// The counts read from the first tally in the captured output, executably.
pub fn parse_test_counts(stdout: &Vec<u8>) -> (r: (i32, i32))
    ensures
        r.0 as int == spec_parse_counts(stdout@).0,
        r.1 as int == spec_parse_counts(stdout@).1,
        0 <= r.0 <= r.1,
{
    let n = stdout.len();
    let mut mk: Vec<u8> = Vec::new();
    mk.push(84u8);
    mk.push(69u8);
    mk.push(83u8);
    mk.push(84u8);
    mk.push(83u8);
    mk.push(95u8);
    mk.push(80u8);
    mk.push(65u8);
    mk.push(83u8);
    mk.push(83u8);
    mk.push(69u8);
    mk.push(68u8);
    mk.push(58u8);
    proof {
        assert(mk@ =~= marker());
    }
    let mut pos: usize = 0;
    loop
        invariant
            pos <= n + 1,
            n == stdout@.len(),
            mk@ == marker(),
            find_marker(stdout@, 0) == find_marker(stdout@, pos as int),
        decreases n + 1 - pos,
    {
        match bytes_find(stdout, &mk, pos) {
            None => {
                proof {
                    assert forall|j: int| pos <= j implies !marker_match_at(stdout@, j) by {}
                    lemma_find_marker_none(stdout@, pos as int);
                }
                return (0, 0);
            },
            Some(i) => {
                proof {
                    assert forall|j: int| pos <= j < i implies !marker_match_at(stdout@, j) by {}
                    assert(i + 13 <= n);
                }
                let d1 = i + 13;
                let e1 = digit_run_end_exec(stdout, d1);
                if e1 > d1 && e1 < n && stdout[e1] == 47u8 {
                    let d2 = e1 + 1;
                    let e2 = digit_run_end_exec(stdout, d2);
                    if e2 > d2 {
                        proof {
                            assert(marker_match_at(stdout@, i as int));
                            lemma_find_marker_advance(stdout@, pos as int, i as int);
                            assert(find_marker(stdout@, i as int) == Some(i as int));
                            lemma_digit_run_end(stdout@, d1 as int);
                            lemma_digit_run_end(stdout@, d2 as int);
                        }
                        match (parse_digits(stdout, d1, e1), parse_digits(stdout, d2, e2)) {
                            (Some(passed), Some(total)) => {
                                if passed <= total {
                                    return (passed, total);
                                } else {
                                    return (0, 0);
                                }
                            },
                            _ => {
                                return (0, 0);
                            },
                        }
                    }
                }
                proof {
                    assert(!marker_match_at(stdout@, i as int));
                    lemma_find_marker_advance(stdout@, pos as int, i + 1);
                }
                pos = i + 1;
            },
        }
    }
}

/// Interpret a completed run: the tally from the captured output and whether
/// everything passed under the given exit code.
pub fn interpret_run_output(exit_code: i32, stdout: &Vec<u8>) -> (r: (bool, i32, i32))
    ensures
        r.0 == spec_run_result(exit_code as int, stdout@).0,
        r.1 as int == spec_run_result(exit_code as int, stdout@).1,
        r.2 as int == spec_run_result(exit_code as int, stdout@).2,
        0 <= r.1 <= r.2,
        r.0 ==> exit_code == 0 && r.1 == r.2 && r.2 > 0,
{
    let (passed, total) = parse_test_counts(stdout);
    let all_passed = exit_code == 0 && passed == total && total > 0;
    (all_passed, passed, total)
}

} // verus!
