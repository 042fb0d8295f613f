//! Rewriting of a fail-fast `def check(candidate): assert …` harness into a
//! run-all form: every assertion inside the check function is guarded so that
//! a failure is recorded instead of aborting, the function returns the record,
//! and a driver is appended that prints a machine-readable tally.

use vstd::prelude::*;

use crate::text::{
    char_is_space, chars_of, chars_to_string, is_space, lemma_trim_empty, lemma_ws_prefix_end,
    matches_at, push_all, spec_trim, starts_with, subvec, ws_prefix_end, ws_run_end,
};

verus! {

/// Lines of `t[s..]` where `s` is the start of the current line and `i` the
/// scan position: split on every newline.
pub open spec fn split_scan(t: Seq<char>, s: int, i: int) -> Seq<Seq<char>>
    recommends
        0 <= s <= i <= t.len(),
    decreases t.len() - i,
{
    if i < 0 || i >= t.len() {
        seq![t.subrange(s, t.len() as int)]
    } else if t[i] == '\n' {
        seq![t.subrange(s, i)] + split_scan(t, i + 1, i + 1)
    } else {
        split_scan(t, s, i + 1)
    }
}

/// The lines of `t`, split on newlines; a trailing newline yields a final
/// empty line.
pub open spec fn spec_split_lines(t: Seq<char>) -> Seq<Seq<char>> {
    split_scan(t, 0, 0)
}

/// The views of a sequence of character vectors.
pub open spec fn views_of(ls: Seq<Vec<char>>) -> Seq<Seq<char>> {
    Seq::new(ls.len(), |i: int| ls[i]@)
}

/// `ls[0..i]` joined with newlines.
pub open spec fn join_upto(ls: Seq<Seq<char>>, i: int) -> Seq<char>
    decreases i,
{
    if i <= 0 || i > ls.len() {
        Seq::empty()
    } else if i == 1 {
        ls[0]
    } else {
        join_upto(ls, i - 1) + seq!['\n'] + ls[i - 1]
    }
}

/// All of `ls` joined with newlines.
pub open spec fn spec_join_lines(ls: Seq<Seq<char>>) -> Seq<char> {
    join_upto(ls, ls.len() as int)
}

/// An `assert` line: optional leading whitespace, the keyword `assert`, at
/// least one whitespace character, and at least one further character.
pub open spec fn line_is_assert(l: Seq<char>) -> bool {
    let w = ws_prefix_end(l, 0);
    &&& w + 6 <= l.len()
    &&& l[w] == 'a' && l[w + 1] == 's' && l[w + 2] == 's' && l[w + 3] == 'e' && l[w + 4]
        == 'r' && l[w + 5] == 't'
    &&& l.len() >= w + 8
    &&& is_space(l[w + 6])
}

/// Executable test for [`line_is_assert`].
pub fn line_is_assert_exec(l: &Vec<char>) -> (r: bool)
    ensures
        r == line_is_assert(l@),
{
    let n = l.len();
    let w = ws_run_end(l, 0);
    if n < 8 || w > n - 8 {
        return false;
    }
    l[w] == 'a' && l[w + 1] == 's' && l[w + 2] == 's' && l[w + 3] == 'e' && l[w + 4] == 'r'
        && l[w + 5] == 't' && char_is_space(l[w + 6])
}

/// Some line of `ls` is an assert line.
pub open spec fn has_assert_line(ls: Seq<Seq<char>>) -> bool {
    exists|i: int| 0 <= i < ls.len() && line_is_assert(ls[i])
}

/// The shape of a check-function definition within a line: `def`, at least
/// one whitespace character, `check`, optional whitespace, and an opening
/// parenthesis, starting at `i` with the keyword `check` at `j` and the
/// parenthesis at `k`.
pub open spec fn check_def_shape_at(l: Seq<char>, i: int, j: int, k: int) -> bool {
    &&& 0 <= i && i + 3 <= l.len() && l[i] == 'd' && l[i + 1] == 'e' && l[i + 2] == 'f'
    &&& i + 3 < j <= l.len() && (forall|m: int| i + 3 <= m < j ==> is_space(l[m]))
    &&& j + 5 <= l.len() && l[j] == 'c' && l[j + 1] == 'h' && l[j + 2] == 'e' && l[j + 3]
        == 'c' && l[j + 4] == 'k'
    &&& j + 5 <= k < l.len() && (forall|m: int| j + 5 <= m < k ==> is_space(l[m])) && l[k]
        == '('
}

/// A line opens a check function when the definition shape occurs in it.
pub open spec fn line_is_check_def(l: Seq<char>) -> bool {
    exists|i: int, j: int, k: int| check_def_shape_at(l, i, j, k)
}

/// For a fixed `def` position, the keyword and parenthesis positions of the
/// definition shape are forced to the ends of the whitespace runs, so the
/// shape reduces to a direct check.
proof fn lemma_check_def_at(l: Seq<char>, i: int)
    requires
        0 <= i,
        i + 3 <= l.len(),
        l[i] == 'd' && l[i + 1] == 'e' && l[i + 2] == 'f',
    ensures
        (exists|j: int, k: int| check_def_shape_at(l, i, j, k)) <==> ({
            let e = ws_prefix_end(l, i + 3);
            let k0 = if e + 5 <= l.len() {
                ws_prefix_end(l, e + 5)
            } else {
                l.len() as int
            };
            &&& e > i + 3
            &&& e + 5 <= l.len()
            &&& l[e] == 'c' && l[e + 1] == 'h' && l[e + 2] == 'e' && l[e + 3] == 'c' && l[e
                + 4] == 'k'
            &&& k0 < l.len() && l[k0] == '('
        }),
{
    let e = ws_prefix_end(l, i + 3);
    lemma_ws_prefix_end(l, i + 3);
    if exists|j: int, k: int| check_def_shape_at(l, i, j, k) {
        let (j, k) = choose|j: int, k: int| check_def_shape_at(l, i, j, k);
        // `j` holds a non-whitespace character after a whitespace run, so it
        // is exactly the end of the run starting at `i + 3`
        assert(!is_space(l[j]));
        if j < e {
            assert(is_space(l[j]));
            assert(false);
        }
        if j > e {
            assert(e < l.len() && is_space(l[e]));
            assert(false);
        }
        assert(j == e);
        lemma_ws_prefix_end(l, j + 5);
        let k0 = ws_prefix_end(l, e + 5);
        assert(!is_space(l[k]));
        if k < k0 {
            assert(is_space(l[k]));
            assert(false);
        }
        if k > k0 {
            assert(k0 < l.len() && is_space(l[k0]));
            assert(false);
        }
        assert(k == k0);
    }
    let k0 = if e + 5 <= l.len() {
        ws_prefix_end(l, e + 5)
    } else {
        l.len() as int
    };
    if {
        &&& e > i + 3
        &&& e + 5 <= l.len()
        &&& l[e] == 'c' && l[e + 1] == 'h' && l[e + 2] == 'e' && l[e + 3] == 'c' && l[e + 4]
            == 'k'
        &&& k0 < l.len() && l[k0] == '('
    } {
        lemma_ws_prefix_end(l, e + 5);
        assert(check_def_shape_at(l, i, e, k0));
    }
}

/// Executable test for [`line_is_check_def`].
pub fn line_is_check_def_exec(l: &Vec<char>) -> (r: bool)
    ensures
        r == line_is_check_def(l@),
{
    let n = l.len();
    if n < 3 {
        proof {
            assert forall|i: int, j: int, k: int| !check_def_shape_at(l@, i, j, k) by {}
        }
        return false;
    }
    let mut i: usize = 0;
    while i <= n - 3
        invariant
            n == l@.len(),
            3 <= n,
            i <= n,
            forall|i2: int, j: int, k: int|
                i2 < i ==> !check_def_shape_at(l@, i2, j, k),
        decreases n - i,
    {
        if l[i] == 'd' && l[i + 1] == 'e' && l[i + 2] == 'f' {
            proof {
                lemma_check_def_at(l@, i as int);
            }
            let e = ws_run_end(l, i + 3);
            if e > i + 3 && n >= 5 && e <= n - 5 && l[e] == 'c' && l[e + 1] == 'h' && l[e + 2]
                == 'e' && l[e + 3] == 'c' && l[e + 4] == 'k' {
                let k0 = ws_run_end(l, e + 5);
                if k0 < n && l[k0] == '(' {
                    proof {
                        assert(exists|j: int, k: int| check_def_shape_at(l@, i as int, j, k));
                    }
                    return true;
                }
            }
            proof {
                assert(forall|j: int, k: int| !check_def_shape_at(l@, i as int, j, k));
            }
        } else {
            proof {
                assert forall|j: int, k: int| !check_def_shape_at(l@, i as int, j, k) by {}
            }
        }
        i += 1;
    }
    proof {
        assert forall|i2: int, j: int, k: int| !check_def_shape_at(l@, i2, j, k) by {
            if i2 >= i {
                assert(i2 + 3 > l@.len());
            }
        }
    }
    false
}

/// Split `t` into its lines.
pub fn split_lines_exec(t: &Vec<char>) -> (r: Vec<Vec<char>>)
    ensures
        views_of(r@) == spec_split_lines(t@),
{
    let n = t.len();
    let mut lines: Vec<Vec<char>> = Vec::new();
    let mut s: usize = 0;
    let mut i: usize = 0;
    while i < n
        invariant
            s <= i <= n == t@.len(),
            spec_split_lines(t@) == views_of(lines@) + split_scan(t@, s as int, i as int),
        decreases n - i,
    {
        if t[i] == '\n' {
            let piece = subvec(t, s, i);
            lines.push(piece);
            proof {
                assert(views_of(lines@) =~= views_of(lines@.drop_last()) + seq![
                    t@.subrange(s as int, i as int),
                ]);
                assert(views_of(lines@.drop_last()) + (seq![t@.subrange(s as int, i as int)]
                    + split_scan(t@, i + 1, i + 1)) =~= (views_of(lines@.drop_last()) + seq![
                    t@.subrange(s as int, i as int),
                ]) + split_scan(t@, i + 1, i + 1));
            }
            s = i + 1;
        }
        i += 1;
    }
    let piece = subvec(t, s, n);
    lines.push(piece);
    proof {
        assert(views_of(lines@) =~= views_of(lines@.drop_last()) + seq![
            t@.subrange(s as int, n as int),
        ]);
        assert(split_scan(t@, s as int, n as int) == seq![t@.subrange(s as int, n as int)]);
        assert(views_of(lines@.drop_last()) + seq![t@.subrange(s as int, n as int)]
            =~= views_of(lines@));
    }
    lines
}

/// Inside the check function, a line ends it when it is blank or does not
/// continue the function's indentation with at least one more space or tab.
pub open spec fn line_ends_check(indent: Seq<char>, l: Seq<char>) -> bool {
    spec_trim(l).len() == 0 || (!matches_at(l, indent + seq![' '], 0) && !matches_at(
        l,
        indent + seq!['\t'],
        0,
    ))
}

/// Executable test for [`line_ends_check`].
pub fn line_ends_check_exec(indent: &Vec<char>, l: &Vec<char>) -> (r: bool)
    ensures
        r == line_ends_check(indent@, l@),
{
    proof {
        lemma_trim_empty(l@);
    }
    if ws_run_end(l, 0) == l.len() {
        return true;
    }
    let mut pre_sp = crate::text::copy_chars(indent);
    pre_sp.push(' ');
    let mut pre_tab = crate::text::copy_chars(indent);
    pre_tab.push('\t');
    proof {
        assert(pre_sp@ =~= indent@ + seq![' ']);
        assert(pre_tab@ =~= indent@ + seq!['\t']);
    }
    let with_sp = starts_with(l, &pre_sp);
    let with_tab = starts_with(l, &pre_tab);
    !with_sp && !with_tab
}

/// What one line contributes to the rewritten harness, with the machine
/// state after it: the emitted lines, whether the scan is inside the check
/// function, and the check function's indentation.
pub open spec fn wrap_step(in_check: bool, indent: Seq<char>, l: Seq<char>) -> (
    Seq<Seq<char>>,
    bool,
    Seq<char>,
) {
    if line_is_check_def(l) {
        let ind = l.subrange(0, ws_prefix_end(l, 0));
        (seq![l, ind + "    _results = []"@], true, ind)
    } else if in_check && line_is_assert(l) {
        let w = ws_prefix_end(l, 0);
        let ind = l.subrange(0, w);
        let body = l.subrange(w, l.len() as int);
        (
            seq![
                ind + "try:"@,
                ind + "    "@ + body,
                ind + "    _results.append(True)"@,
                ind + "except:"@,
                ind + "    _results.append(False)"@,
            ],
            true,
            indent,
        )
    } else if in_check && line_ends_check(indent, l) {
        if spec_trim(l).len() > 0 {
            (seq![indent + "    return _results"@, Seq::<char>::empty(), l], false, indent)
        } else {
            (seq![indent + "    return _results"@, Seq::<char>::empty()], false, indent)
        }
    } else {
        (seq![l], in_check, indent)
    }
}

/// The rewritten lines of `ls[i..]`, starting from the given machine state;
/// a check function still open at the end is closed with its return line.
pub open spec fn wrap_lines(
    ls: Seq<Seq<char>>,
    i: int,
    in_check: bool,
    indent: Seq<char>,
) -> Seq<Seq<char>>
    decreases ls.len() - i,
{
    if i < 0 || i >= ls.len() {
        if in_check {
            seq![indent + "    return _results"@, Seq::<char>::empty()]
        } else {
            Seq::empty()
        }
    } else {
        let step = wrap_step(in_check, indent, ls[i]);
        step.0 + wrap_lines(ls, i + 1, step.1, step.2)
    }
}

/// The driver appended after the rewritten harness: call the check function
/// on the entry point, tally the recorded results, print the tally, and exit
/// accordingly.
pub open spec fn driver_lines(ep: Seq<char>) -> Seq<Seq<char>> {
    seq![
        "_test_results = check("@ + ep + ")"@,
        Seq::<char>::empty(),
        "# Report test results"@,
        "_passed = sum(_test_results)"@,
        "_total = len(_test_results)"@,
        "print(f\"TESTS_PASSED:{_passed}/{_total}\")"@,
        "exit(0 if _passed == _total else 1)"@,
    ]
}

/// The rewritten harness: the input unchanged when it has no assert line,
/// else the rewritten lines followed by the driver, joined with newlines.
pub open spec fn spec_wrap(t: Seq<char>, ep: Seq<char>) -> Seq<char> {
    let ls = spec_split_lines(t);
    if !has_assert_line(ls) {
        t
    } else {
        spec_join_lines(wrap_lines(ls, 0, false, Seq::empty()) + driver_lines(ep))
    }
}

/// The wrapper is the identity on text without an assert line.
pub proof fn lemma_wrap_identity_without_asserts(t: Seq<char>, ep: Seq<char>)
    requires
        !has_assert_line(spec_split_lines(t)),
    ensures
        spec_wrap(t, ep) == t,
{
}

/// Marks parallel to the lines one step emits: true on a line standing
/// inside the rewritten check function (a guarded assertion body, or a body
/// line passed through).
pub open spec fn step_marks(in_check: bool, indent: Seq<char>, l: Seq<char>) -> Seq<bool> {
    if line_is_check_def(l) {
        seq![false, false]
    } else if in_check && line_is_assert(l) {
        seq![false, true, false, false, false]
    } else if in_check && line_ends_check(indent, l) {
        if spec_trim(l).len() > 0 {
            seq![false, false, false]
        } else {
            seq![false, false]
        }
    } else {
        seq![in_check]
    }
}

/// Marks parallel to [`wrap_lines`].
pub open spec fn wrap_marks(
    ls: Seq<Seq<char>>,
    i: int,
    in_check: bool,
    indent: Seq<char>,
) -> Seq<bool>
    decreases ls.len() - i,
{
    if i < 0 || i >= ls.len() {
        if in_check {
            seq![false, false]
        } else {
            Seq::empty()
        }
    } else {
        let step = wrap_step(in_check, indent, ls[i]);
        step_marks(in_check, indent, ls[i]) + wrap_marks(ls, i + 1, step.1, step.2)
    }
}

/// Trimming whitespace followed by `try:` leaves `try:`.
proof fn lemma_trim_ws_try(ind: Seq<char>)
    requires
        forall|m: int| 0 <= m < ind.len() ==> is_space(ind[m]),
    ensures
        spec_trim(ind + "try:"@) == "try:"@,
{
    reveal_strlit("try:");
    let s = ind + "try:"@;
    lemma_ws_prefix_end(s, 0);
    crate::text::lemma_ws_suffix_start(s, s.len() as int);
    let a = ws_prefix_end(s, 0);
    let b = crate::text::ws_suffix_start(s, s.len() as int);
    assert(s[ind.len() as int] == 't');
    assert(!is_space('t'));
    if a < ind.len() {
        assert(!is_space(s[a]));
        assert(is_space(ind[a]));
        assert(false);
    }
    if a > ind.len() {
        assert(is_space(s[ind.len() as int]));
        assert(false);
    }
    if b < s.len() {
        assert(is_space(s[s.len() - 1]));
        assert(s[s.len() - 1] == ':');
        assert(false);
    }
    assert(s.subrange(ind.len() as int, s.len() as int) =~= "try:"@);
}

/// Every line the rewriter leaves inside the check function that has the
/// shape of an assert statement is immediately preceded by its guard line,
/// whose content is exactly `try:`. So the rewritten harness holds no
/// unguarded assertion inside the check function, whatever the input —
/// including a harness that was already rewritten once.
pub proof fn lemma_wrap_lines_guarded(
    ls: Seq<Seq<char>>,
    i: int,
    in_check: bool,
    indent: Seq<char>,
)
    ensures
        wrap_marks(ls, i, in_check, indent).len() == wrap_lines(ls, i, in_check, indent).len(),
        forall|x: int|
            #![trigger wrap_marks(ls, i, in_check, indent)[x]]
            0 <= x < wrap_lines(ls, i, in_check, indent).len() && wrap_marks(
                ls,
                i,
                in_check,
                indent,
            )[x] && line_is_assert(wrap_lines(ls, i, in_check, indent)[x]) ==> x >= 1
                && spec_trim(wrap_lines(ls, i, in_check, indent)[x - 1]) == "try:"@,
    decreases ls.len() - i,
{
    let out = wrap_lines(ls, i, in_check, indent);
    let marks = wrap_marks(ls, i, in_check, indent);
    if i < 0 || i >= ls.len() {
    } else {
        let l = ls[i];
        let step = wrap_step(in_check, indent, l);
        let sm = step_marks(in_check, indent, l);
        lemma_wrap_lines_guarded(ls, i + 1, step.1, step.2);
        let rest = wrap_lines(ls, i + 1, step.1, step.2);
        let rmarks = wrap_marks(ls, i + 1, step.1, step.2);
        assert(out == step.0 + rest);
        assert(marks == sm + rmarks);
        assert(sm.len() == step.0.len());
        assert forall|x: int|
            0 <= x < out.len() && marks[x] && line_is_assert(out[x]) implies x >= 1
            && spec_trim(out[x - 1]) == "try:"@ by {
            if x < sm.len() {
                assert(out[x] == step.0[x]);
                assert(marks[x] == sm[x]);
                if line_is_check_def(l) {
                    assert(!sm[x]);
                } else if in_check && line_is_assert(l) {
                    // only the guarded assertion is marked; its guard stands
                    // right before it
                    assert(x == 1);
                    let w = ws_prefix_end(l, 0);
                    lemma_ws_prefix_end(l, 0);
                    lemma_trim_ws_try(l.subrange(0, w));
                    assert(out[0] == l.subrange(0, w) + "try:"@);
                } else if in_check && line_ends_check(indent, l) {
                    assert(!sm[x]);
                } else {
                    // a line passed through inside the function is not an
                    // assert line, else the assert transition would have
                    // taken it
                    assert(out[x] == l);
                    assert(!(in_check && line_is_assert(l)));
                    assert(!marks[x]);
                }
            } else {
                let xr = x - sm.len();
                assert(out[x] == rest[xr]);
                assert(marks[x] == rmarks[xr]);
                assert(xr >= 1 && spec_trim(rest[xr - 1]) == "try:"@);
                assert(out[x - 1] == rest[xr - 1]);
            }
        }
    }
}

/// How many lines from `i` on are both marked and assert-shaped.
pub open spec fn count_marked_asserts(out: Seq<Seq<char>>, marks: Seq<bool>, i: int) -> nat
    decreases marks.len() - i,
{
    if i < 0 || i >= marks.len() || i >= out.len() {
        0
    } else {
        (if marks[i] && line_is_assert(out[i]) {
            1nat
        } else {
            0nat
        }) + count_marked_asserts(out, marks, i + 1)
    }
}

/// Counting marked assert lines distributes over parallel concatenation.
proof fn lemma_count_marked_concat(a1: Seq<Seq<char>>, a2: Seq<bool>, b1: Seq<Seq<char>>, b2: Seq<
    bool,
>)
    requires
        a1.len() == a2.len(),
        b1.len() == b2.len(),
    ensures
        count_marked_asserts(a1 + b1, a2 + b2, 0) == count_marked_asserts(a1, a2, 0)
            + count_marked_asserts(b1, b2, 0),
{
    lemma_count_marked_concat_from(a1, a2, b1, b2, 0);
}

proof fn lemma_count_marked_concat_from(
    a1: Seq<Seq<char>>,
    a2: Seq<bool>,
    b1: Seq<Seq<char>>,
    b2: Seq<bool>,
    i: int,
)
    requires
        a1.len() == a2.len(),
        b1.len() == b2.len(),
        0 <= i <= a1.len(),
    ensures
        count_marked_asserts(a1 + b1, a2 + b2, i) == count_marked_asserts(a1, a2, i)
            + count_marked_asserts(b1, b2, 0),
    decreases a1.len() - i,
{
    if i < a1.len() {
        assert((a1 + b1)[i] == a1[i]);
        assert((a2 + b2)[i] == a2[i]);
        lemma_count_marked_concat_from(a1, a2, b1, b2, i + 1);
    } else {
        lemma_count_marked_shift(a1, a2, b1, b2, 0);
    }
}

proof fn lemma_count_marked_shift(
    a1: Seq<Seq<char>>,
    a2: Seq<bool>,
    b1: Seq<Seq<char>>,
    b2: Seq<bool>,
    j: int,
)
    requires
        a1.len() == a2.len(),
        b1.len() == b2.len(),
        0 <= j <= b1.len(),
    ensures
        count_marked_asserts(a1 + b1, a2 + b2, a1.len() + j) == count_marked_asserts(b1, b2, j),
    decreases b1.len() - j,
{
    if j < b1.len() {
        assert((a1 + b1)[a1.len() + j] == b1[j]);
        assert((a2 + b2)[a1.len() + j] == b2[j]);
        lemma_count_marked_shift(a1, a2, b1, b2, j + 1);
    }
}

/// A guarded assertion line — the original assert line, indented one level
/// deeper — is itself assert-shaped.
proof fn lemma_guarded_line_is_assert(l: Seq<char>)
    requires
        line_is_assert(l),
    ensures
        line_is_assert(
            l.subrange(0, ws_prefix_end(l, 0)) + "    "@ + l.subrange(
                ws_prefix_end(l, 0),
                l.len() as int,
            ),
        ),
{
    reveal_strlit("    ");
    let w = ws_prefix_end(l, 0);
    lemma_ws_prefix_end(l, 0);
    let g = l.subrange(0, w) + "    "@ + l.subrange(w, l.len() as int);
    assert forall|m: int| 0 <= m < w + 4 implies is_space(g[m]) by {
        if m < w {
            assert(g[m] == l[m]);
        } else {
            assert(g[m] == "    "@[m - w]);
        }
    }
    assert(g[w + 4] == l[w]);
    lemma_ws_prefix_end(g, 0);
    let a = ws_prefix_end(g, 0);
    if a < w + 4 {
        assert(!is_space(g[a]));
        assert(false);
    }
    if a > w + 4 {
        assert(is_space(g[w + 4]));
        assert(false);
    }
    assert(g[w + 5] == l[w + 1]);
    assert(g[w + 6] == l[w + 2]);
    assert(g[w + 7] == l[w + 3]);
    assert(g[w + 8] == l[w + 4]);
    assert(g[w + 9] == l[w + 5]);
    assert(g[w + 10] == l[w + 6]);
    assert(g[a] == 'a' && g[a + 1] == 's' && g[a + 2] == 's' && g[a + 3] == 'e' && g[a + 4]
        == 'r' && g[a + 5] == 't');
    assert(is_space(g[a + 6]));
    assert(g.len() == l.len() + 4 >= a + 8);
}

/// How many lines of `ls[i..]` the rewriter takes through the assert
/// transition, starting from the given machine state.
pub open spec fn count_assert_steps(
    ls: Seq<Seq<char>>,
    i: int,
    in_check: bool,
    indent: Seq<char>,
) -> nat
    decreases ls.len() - i,
{
    if i < 0 || i >= ls.len() {
        0
    } else {
        let step = wrap_step(in_check, indent, ls[i]);
        (if !line_is_check_def(ls[i]) && in_check && line_is_assert(ls[i]) {
            1nat
        } else {
            0nat
        }) + count_assert_steps(ls, i + 1, step.1, step.2)
    }
}

/// The rewritten harness guards exactly one assertion per assert line met
/// inside the check function: its marked assert lines count the assert
/// transitions one for one. With [`lemma_wrap_lines_guarded`], each of
/// those lines sits in its own guard block.
pub proof fn lemma_one_guard_per_assert(
    ls: Seq<Seq<char>>,
    i: int,
    in_check: bool,
    indent: Seq<char>,
)
    ensures
        count_marked_asserts(
            wrap_lines(ls, i, in_check, indent),
            wrap_marks(ls, i, in_check, indent),
            0,
        ) == count_assert_steps(ls, i, in_check, indent),
    decreases ls.len() - i,
{
    reveal_with_fuel(count_marked_asserts, 7);
    if i < 0 || i >= ls.len() {
    } else {
        let l = ls[i];
        let step = wrap_step(in_check, indent, l);
        let sm = step_marks(in_check, indent, l);
        let rest = wrap_lines(ls, i + 1, step.1, step.2);
        let rmarks = wrap_marks(ls, i + 1, step.1, step.2);
        lemma_one_guard_per_assert(ls, i + 1, step.1, step.2);
        lemma_wrap_lines_guarded(ls, i + 1, step.1, step.2);
        lemma_count_marked_concat(step.0, sm, rest, rmarks);
        if line_is_check_def(l) {
            assert(count_marked_asserts(step.0, sm, 0) == 0);
        } else if in_check && line_is_assert(l) {
            lemma_guarded_line_is_assert(l);
            assert(count_marked_asserts(step.0, sm, 0) == 1);
        } else if in_check && line_ends_check(indent, l) {
            assert(count_marked_asserts(step.0, sm, 0) == 0);
        } else {
            assert(!(in_check && line_is_assert(l)));
            assert(count_marked_asserts(step.0, sm, 0) == 0);
        }
    }
}

/// Push one rewritten line.
fn push_line(out: &mut Vec<Vec<char>>, line: Vec<char>)
    ensures
        views_of(final(out)@) == views_of(old(out)@).push(line@),
{
    let ghost gl = line@;
    out.push(line);
    proof {
        assert(views_of(out@) =~= views_of(old(out)@).push(gl));
    }
}

/// Join lines with newlines.
pub fn join_lines_exec(lines: &Vec<Vec<char>>) -> (r: Vec<char>)
    ensures
        r@ == spec_join_lines(views_of(lines@)),
{
    let n = lines.len();
    let mut out: Vec<char> = Vec::new();
    let mut i: usize = 0;
    while i < n
        invariant
            i <= n == lines@.len(),
            out@ == join_upto(views_of(lines@), i as int),
        decreases n - i,
    {
        if i > 0 {
            out.push('\n');
        }
        let line = &lines[i];
        push_all(&mut out, line);
        i += 1;
        proof {
            let vs = views_of(lines@);
            if i == 1 {
                assert(out@ =~= vs[0]);
            } else {
                assert(out@ =~= (join_upto(vs, i - 1) + seq!['\n']) + vs[i - 1]);
                assert((join_upto(vs, i - 1) + seq!['\n']) + vs[i - 1] =~= join_upto(
                    vs,
                    i - 1,
                ) + seq!['\n'] + vs[i - 1]);
            }
        }
    }
    out
}

/// Rewrite a fail-fast assertion harness into a run-all harness. A text with
/// no assert line is returned unchanged. Otherwise every assert line inside
/// the check function is guarded to record success or failure, the function
/// returns the record, and a driver printing the tally is appended.
pub fn wrap_tests_for_complete_execution(test_code: &str, entry_point: &str) -> (r: String)
    ensures
        r@ == spec_wrap(test_code@, entry_point@),
{
    let t = chars_of(test_code);
    let lines = split_lines_exec(&t);
    let ghost ls = spec_split_lines(t@);
    let n = lines.len();
    let mut any = false;
    let mut gi: usize = 0;
    while gi < n
        invariant
            n == lines@.len(),
            gi <= n,
            views_of(lines@) == ls,
            any == exists|j: int| 0 <= j < gi && line_is_assert(ls[j]),
        decreases n - gi,
    {
        let la = line_is_assert_exec(&lines[gi]);
        proof {
            assert(lines@[gi as int]@ == ls[gi as int]);
        }
        let ghost old_any = any;
        any = any || la;
        gi += 1;
        proof {
            if any {
                if old_any {
                    let j = choose|j: int| 0 <= j < gi - 1 && line_is_assert(ls[j]);
                    assert(0 <= j < gi && line_is_assert(ls[j]));
                } else {
                    assert(line_is_assert(ls[gi - 1]));
                }
            } else {
                assert forall|j: int| !(0 <= j < gi && line_is_assert(ls[j])) by {
                    if 0 <= j < gi - 1 {
                        assert(!line_is_assert(ls[j]));
                    }
                }
            }
        }
    }
    if !any {
        assert(!has_assert_line(ls));
        return chars_to_string(&t);
    }
    let mut out: Vec<Vec<char>> = Vec::new();
    let mut in_check = false;
    let mut indent: Vec<char> = Vec::new();
    let mut i: usize = 0;
    while i < n
        invariant
            n == lines@.len(),
            i <= n,
            views_of(lines@) == ls,
            wrap_lines(ls, 0, false, Seq::<char>::empty()) == views_of(out@) + wrap_lines(
                ls,
                i as int,
                in_check,
                indent@,
            ),
        decreases n - i,
    {
        let l = &lines[i];
        proof {
            assert(l@ == ls[i as int]);
        }
        let ghost st0 = in_check;
        let ghost ind0 = indent@;
        let ghost pre = views_of(out@);
        let ghost step = wrap_step(st0, ind0, ls[i as int]);
        if line_is_check_def_exec(l) {
            let w = ws_run_end(l, 0);
            let ind = subvec(l, 0, w);
            push_line(&mut out, crate::text::copy_chars(l));
            push_line(&mut out, crate::text::concat_chars(&ind, &chars_of("    _results = []")));
            in_check = true;
            indent = ind;
            proof {
                assert(views_of(out@) =~= pre + step.0);
            }
        } else if in_check && line_is_assert_exec(l) {
            let w = ws_run_end(l, 0);
            let ind = subvec(l, 0, w);
            let body = subvec(l, w, l.len());
            push_line(&mut out, crate::text::concat_chars(&ind, &chars_of("try:")));
            let mut guarded = crate::text::concat_chars(&ind, &chars_of("    "));
            push_all(&mut guarded, &body);
            push_line(&mut out, guarded);
            push_line(
                &mut out,
                crate::text::concat_chars(&ind, &chars_of("    _results.append(True)")),
            );
            push_line(&mut out, crate::text::concat_chars(&ind, &chars_of("except:")));
            push_line(
                &mut out,
                crate::text::concat_chars(&ind, &chars_of("    _results.append(False)")),
            );
            proof {
                assert(views_of(out@) =~= pre + step.0);
            }
        } else if in_check && line_ends_check_exec(&indent, l) {
            push_line(
                &mut out,
                crate::text::concat_chars(&indent, &chars_of("    return _results")),
            );
            push_line(&mut out, Vec::new());
            proof {
                lemma_trim_empty(l@);
            }
            let all_ws = ws_run_end(l, 0) == l.len();
            if !all_ws {
                push_line(&mut out, crate::text::copy_chars(l));
            }
            in_check = false;
            proof {
                assert(views_of(out@) =~= pre + step.0);
            }
        } else {
            push_line(&mut out, crate::text::copy_chars(l));
            proof {
                assert(views_of(out@) =~= pre + step.0);
            }
        }
        i += 1;
        proof {
            assert(wrap_lines(ls, i - 1, st0, ind0) == step.0 + wrap_lines(
                ls,
                i as int,
                step.1,
                step.2,
            ));
            assert(in_check == step.1 && indent@ == step.2);
            assert(pre + (step.0 + wrap_lines(ls, i as int, in_check, indent@)) =~= (pre
                + step.0) + wrap_lines(ls, i as int, in_check, indent@));
        }
    }
    if in_check {
        let ghost pre = views_of(out@);
        push_line(
            &mut out,
            crate::text::concat_chars(&indent, &chars_of("    return _results")),
        );
        push_line(&mut out, Vec::new());
        proof {
            assert(views_of(out@) =~= pre + wrap_lines(ls, n as int, true, indent@));
        }
    }
    proof {
        assert(views_of(out@) =~= wrap_lines(ls, 0, false, Seq::<char>::empty()));
    }
    let ghost wrapped = views_of(out@);
    let ep = chars_of(entry_point);
    let mut call_line = chars_of("_test_results = check(");
    push_all(&mut call_line, &ep);
    let close_paren = chars_of(")");
    push_all(&mut call_line, &close_paren);
    push_line(&mut out, call_line);
    push_line(&mut out, Vec::new());
    push_line(&mut out, chars_of("# Report test results"));
    push_line(&mut out, chars_of("_passed = sum(_test_results)"));
    push_line(&mut out, chars_of("_total = len(_test_results)"));
    push_line(&mut out, chars_of("print(f\"TESTS_PASSED:{_passed}/{_total}\")"));
    push_line(&mut out, chars_of("exit(0 if _passed == _total else 1)"));
    proof {
        assert(views_of(out@) =~= wrapped + driver_lines(entry_point@));
    }
    let joined = join_lines_exec(&out);
    chars_to_string(&joined)
}

} // verus!
