//! Character-sequence primitives shared by the extraction, format-checking,
//! wrapping and validation passes: whitespace classification, case-insensitive
//! comparison, substring search and trimming, each with an exact specification
//! over `Seq<char>`.

use vstd::prelude::*;

verus! {

/// True when `c` is a Unicode whitespace character: the set recognised by
/// `str::trim` and by the whitespace class of the text patterns used here.
pub open spec fn is_space(c: char) -> bool {
    c == ' ' || c == '\t' || c == '\n' || c == '\r' || c == '\x0b' || c == '\x0c'
        || c == '\u{85}' || c == '\u{a0}' || c == '\u{1680}' || ('\u{2000}' <= c
        && c <= '\u{200a}') || c == '\u{2028}' || c == '\u{2029}' || c == '\u{202f}'
        || c == '\u{205f}' || c == '\u{3000}'
}

/// Executable test for [`is_space`].
pub fn char_is_space(c: char) -> (r: bool)
    ensures
        r == is_space(c),
{
    c == ' ' || c == '\t' || c == '\n' || c == '\r' || c == '\x0b' || c == '\x0c'
        || c == '\u{85}' || c == '\u{a0}' || c == '\u{1680}' || ('\u{2000}' <= c
        && c <= '\u{200a}') || c == '\u{2028}' || c == '\u{2029}' || c == '\u{202f}'
        || c == '\u{205f}' || c == '\u{3000}'
}

/// True when `c` is an ASCII capital letter.
pub open spec fn is_ascii_upper(c: char) -> bool {
    'A' <= c && c <= 'Z'
}

/// Case-insensitive character equality under Unicode simple case folding,
/// restricted to what can meet an ASCII letter: upper and lower ASCII
/// letters fold together, the Kelvin sign folds with `k`, and the long s
/// folds with `s`.
pub open spec fn eq_ci(a: char, b: char) -> bool {
    ||| a == b
    ||| (is_ascii_upper(a) && a as u32 + 32 == b as u32)
    ||| (is_ascii_upper(b) && b as u32 + 32 == a as u32)
    ||| ((a == 'k' || a == 'K' || a == '\u{212a}') && (b == 'k' || b == 'K' || b
        == '\u{212a}'))
    ||| ((a == 's' || a == 'S' || a == '\u{17f}') && (b == 's' || b == 'S' || b == '\u{17f}'))
}

/// Executable test for [`eq_ci`].
pub fn char_eq_ci(a: char, b: char) -> (r: bool)
    ensures
        r == eq_ci(a, b),
{
    a == b || ('A' <= a && a <= 'Z' && a as u32 + 32 == b as u32) || ('A' <= b && b <= 'Z' && b
        as u32 + 32 == a as u32) || ((a == 'k' || a == 'K' || a == '\u{212a}') && (b == 'k' || b
        == 'K' || b == '\u{212a}')) || ((a == 's' || a == 'S' || a == '\u{17f}') && (b == 's'
        || b == 'S' || b == '\u{17f}'))
}

/// The pattern `pat` occurs in `t` starting at index `i`; with `ci` the
/// comparison is ASCII-case-insensitive.
pub open spec fn matches_at_gen(t: Seq<char>, pat: Seq<char>, i: int, ci: bool) -> bool {
    &&& 0 <= i
    &&& i + pat.len() <= t.len()
    &&& forall|k: int|
        0 <= k < pat.len() ==> (if ci {
            eq_ci(t[i + k], pat[k])
        } else {
            t[i + k] == pat[k]
        })
}

/// Case-sensitive occurrence of `pat` in `t` at index `i`.
pub open spec fn matches_at(t: Seq<char>, pat: Seq<char>, i: int) -> bool {
    matches_at_gen(t, pat, i, false)
}

/// `t` contains `pat` somewhere.
pub open spec fn contains_sub(t: Seq<char>, pat: Seq<char>) -> bool {
    exists|i: int| matches_at(t, pat, i)
}

/// Index of the first occurrence of `pat` in `t` at or after `from`, or
/// `None` when there is none.
pub open spec fn spec_find_gen(t: Seq<char>, pat: Seq<char>, from: int, ci: bool) -> Option<
    int,
>
    decreases t.len() - from,
{
    if from < 0 || from + pat.len() > t.len() {
        None
    } else if matches_at_gen(t, pat, from, ci) {
        Some(from)
    } else {
        spec_find_gen(t, pat, from + 1, ci)
    }
}

/// First case-sensitive occurrence.
pub open spec fn spec_find(t: Seq<char>, pat: Seq<char>, from: int) -> Option<int> {
    spec_find_gen(t, pat, from, false)
}

/// A found index marks an occurrence, lies at or after `from`, and is the
/// first such; `None` means no occurrence at or after `from`.
pub proof fn lemma_spec_find_gen(t: Seq<char>, pat: Seq<char>, from: int, ci: bool)
    requires
        0 <= from,
    ensures
        match spec_find_gen(t, pat, from, ci) {
            Some(i) => matches_at_gen(t, pat, i, ci) && from <= i && forall|j: int|
                from <= j < i ==> !matches_at_gen(t, pat, j, ci),
            None => forall|j: int| from <= j ==> !matches_at_gen(t, pat, j, ci),
        },
    decreases t.len() - from,
{
    if from + pat.len() > t.len() {
        assert forall|j: int| from <= j implies !matches_at_gen(t, pat, j, ci) by {}
    } else if matches_at_gen(t, pat, from, ci) {
    } else {
        lemma_spec_find_gen(t, pat, from + 1, ci);
    }
}

/// Executable search for the first occurrence of `pat` in `t` at or after
/// `from`, case-insensitive when `ci` is set.
pub fn find_sub_gen(t: &Vec<char>, pat: &Vec<char>, from: usize, ci: bool) -> (r: Option<
    usize,
>)
    ensures
        match r {
            Some(i) => spec_find_gen(t@, pat@, from as int, ci) == Some(i as int),
            None => spec_find_gen(t@, pat@, from as int, ci) is None,
        },
{
    if pat.len() > t.len() || from > t.len() - pat.len() {
        proof {
            lemma_find_none_when_out(t@, pat@, from as int, ci);
        }
        return None;
    }
    let limit: usize = t.len() - pat.len();
    let mut i: usize = from;
    while i <= limit
        invariant
            from <= i,
            limit + pat.len() == t.len(),
            spec_find_gen(t@, pat@, from as int, ci) == spec_find_gen(t@, pat@, i as int, ci),
        decreases limit - i + 1,
    {
        let mut k: usize = 0;
        let mut ok: bool = true;
        while k < pat.len()
            invariant
                i + pat.len() <= t.len(),
                k <= pat.len(),
                ok == (forall|j: int|
                    0 <= j < k ==> (if ci {
                        eq_ci(t@[i + j], pat@[j])
                    } else {
                        t@[i + j] == pat@[j]
                    })),
            decreases pat.len() - k,
        {
            let same = if ci {
                char_eq_ci(t[i + k], pat[k])
            } else {
                t[i + k] == pat[k]
            };
            ok = ok && same;
            k += 1;
        }
        if ok {
            assert(matches_at_gen(t@, pat@, i as int, ci));
            return Some(i);
        }
        assert(!matches_at_gen(t@, pat@, i as int, ci));
        i += 1;
    }
    assert(spec_find_gen(t@, pat@, i as int, ci) is None);
    None
}

/// No occurrence fits when `from` is past the last feasible start.
proof fn lemma_find_none_when_out(t: Seq<char>, pat: Seq<char>, from: int, ci: bool)
    requires
        from + pat.len() > t.len() || from > t.len(),
    ensures
        spec_find_gen(t, pat, from, ci) is None,
    decreases t.len() - from,
{
    if !(from < 0 || from + pat.len() > t.len()) {
        lemma_find_none_when_out(t, pat, from + 1, ci);
    }
}

/// Executable case-sensitive search.
pub fn find_sub(t: &Vec<char>, pat: &Vec<char>, from: usize) -> (r: Option<usize>)
    ensures
        match r {
            Some(i) => spec_find(t@, pat@, from as int) == Some(i as int),
            None => spec_find(t@, pat@, from as int) is None,
        },
{
    find_sub_gen(t, pat, from, false)
}

/// End of the whitespace run that starts at index `i`: the first index at or
/// after `i` holding a non-whitespace character, or the length of `t`.
pub open spec fn ws_prefix_end(t: Seq<char>, i: int) -> int
    decreases t.len() - i,
{
    if 0 <= i && i < t.len() && is_space(t[i]) {
        ws_prefix_end(t, i + 1)
    } else {
        i
    }
}

/// Start of the whitespace run that ends just before index `i`, scanning
/// leftwards.
pub open spec fn ws_suffix_start(t: Seq<char>, i: int) -> int
    decreases i,
{
    if 0 < i && i <= t.len() && is_space(t[i - 1]) {
        ws_suffix_start(t, i - 1)
    } else {
        i
    }
}

/// `t` with leading and trailing whitespace removed.
pub open spec fn spec_trim(t: Seq<char>) -> Seq<char> {
    let a = ws_prefix_end(t, 0);
    let b = ws_suffix_start(t, t.len() as int);
    if a <= b {
        t.subrange(a, b)
    } else {
        Seq::empty()
    }
}

/// Everything skipped by [`ws_prefix_end`] is whitespace, and the character
/// at the returned index, if any, is not.
pub proof fn lemma_ws_prefix_end(t: Seq<char>, i: int)
    requires
        0 <= i <= t.len(),
    ensures
        i <= ws_prefix_end(t, i) <= t.len(),
        forall|j: int| i <= j < ws_prefix_end(t, i) ==> is_space(t[j]),
        ws_prefix_end(t, i) < t.len() ==> !is_space(t[ws_prefix_end(t, i)]),
    decreases t.len() - i,
{
    if 0 <= i && i < t.len() && is_space(t[i]) {
        lemma_ws_prefix_end(t, i + 1);
    }
}

/// Everything skipped by [`ws_suffix_start`] is whitespace, and the character
/// just before the returned index, if any, is not.
pub proof fn lemma_ws_suffix_start(t: Seq<char>, i: int)
    requires
        0 <= i <= t.len(),
    ensures
        0 <= ws_suffix_start(t, i) <= i,
        forall|j: int| ws_suffix_start(t, i) <= j < i ==> is_space(t[j]),
        ws_suffix_start(t, i) > 0 ==> !is_space(t[ws_suffix_start(t, i) - 1]),
    decreases i,
{
    if 0 < i && i <= t.len() && is_space(t[i - 1]) {
        lemma_ws_suffix_start(t, i - 1);
    }
}

/// The trimmed text is either empty or starts and ends with non-whitespace;
/// trimming again changes nothing.
pub proof fn lemma_trim_idempotent(t: Seq<char>)
    ensures
        spec_trim(spec_trim(t)) == spec_trim(t),
{
    let a = ws_prefix_end(t, 0);
    let b = ws_suffix_start(t, t.len() as int);
    lemma_ws_prefix_end(t, 0);
    lemma_ws_suffix_start(t, t.len() as int);
    let r = spec_trim(t);
    if a <= b && a < t.len() && b > 0 && a < b {
        assert(!is_space(r[0]));
        assert(!is_space(r[r.len() - 1]));
        assert(ws_prefix_end(r, 0) == 0);
        assert(ws_suffix_start(r, r.len() as int) == r.len());
        assert(r.subrange(0, r.len() as int) =~= r);
    } else {
        // either the range is empty or every character is whitespace
        if a > b {
            assert(r =~= Seq::<char>::empty());
        } else {
            // a <= b with a >= t.len() or b <= 0 forces an empty subrange
            if a == b {
                assert(r =~= Seq::<char>::empty());
            } else {
                // a < b requires a < t.len() and b > 0
                assert(a < t.len() && b > 0);
            }
        }
        assert(r.len() == 0);
        assert(ws_prefix_end(r, 0) == 0);
        assert(ws_suffix_start(r, 0) == 0);
        assert(spec_trim(r) =~= r);
    }
}

/// The trimmed text is empty exactly when every character is whitespace.
pub proof fn lemma_trim_empty(l: Seq<char>)
    ensures
        (spec_trim(l).len() == 0) <==> (ws_prefix_end(l, 0) == l.len()),
{
    lemma_ws_prefix_end(l, 0);
    lemma_ws_suffix_start(l, l.len() as int);
    let a = ws_prefix_end(l, 0);
    let b = ws_suffix_start(l, l.len() as int);
    if a < l.len() {
        if b <= a {
            assert(is_space(l[a]));
            assert(false);
        }
    }
}

/// Is `s` empty or whitespace only?
pub fn is_blank(s: &str) -> (r: bool)
    ensures
        r == (spec_trim(s@).len() == 0),
{
    let v = chars_of(s);
    proof {
        lemma_trim_empty(v@);
    }
    ws_run_end(&v, 0) == v.len()
}

/// An occurrence inside a subrange is an occurrence in the whole sequence.
pub proof fn lemma_matches_at_in_subrange(
    t: Seq<char>,
    a: int,
    b: int,
    pat: Seq<char>,
    i: int,
    ci: bool,
)
    requires
        0 <= a <= b <= t.len(),
        matches_at_gen(t.subrange(a, b), pat, i, ci),
    ensures
        matches_at_gen(t, pat, a + i, ci),
{
    let sub = t.subrange(a, b);
    assert forall|k: int| 0 <= k < pat.len() implies (if ci {
        eq_ci(t[a + i + k], pat[k])
    } else {
        t[a + i + k] == pat[k]
    }) by {
        assert(if ci {
            eq_ci(sub[i + k], pat[k])
        } else {
            sub[i + k] == pat[k]
        });
    }
}

/// If `pat` occurs nowhere in `t`, it occurs nowhere in the trimmed text.
pub proof fn lemma_trim_preserves_absence(t: Seq<char>, pat: Seq<char>, ci: bool)
    requires
        forall|i: int| !matches_at_gen(t, pat, i, ci),
        pat.len() > 0,
    ensures
        forall|i: int| !matches_at_gen(spec_trim(t), pat, i, ci),
{
    let a = ws_prefix_end(t, 0);
    let b = ws_suffix_start(t, t.len() as int);
    lemma_ws_prefix_end(t, 0);
    lemma_ws_suffix_start(t, t.len() as int);
    if a <= b {
        assert forall|i: int| !matches_at_gen(spec_trim(t), pat, i, ci) by {
            if matches_at_gen(spec_trim(t), pat, i, ci) {
                lemma_matches_at_in_subrange(t, a, b, pat, i, ci);
            }
        }
    } else {
        assert forall|i: int| !matches_at_gen(spec_trim(t), pat, i, ci) by {}
    }
}

/// Copy of `t[a..b]`.
pub fn subvec(t: &Vec<char>, a: usize, b: usize) -> (r: Vec<char>)
    requires
        a <= b <= t@.len(),
    ensures
        r@ == t@.subrange(a as int, b as int),
{
    let mut r: Vec<char> = Vec::new();
    let mut i: usize = a;
    while i < b
        invariant
            a <= i <= b <= t@.len(),
            r@ == t@.subrange(a as int, i as int),
        decreases b - i,
    {
        r.push(t[i]);
        i += 1;
        proof {
            assert(t@.subrange(a as int, i as int) =~= t@.subrange(a as int, i - 1) + seq![
                t@[i - 1],
            ]);
        }
    }
    r
}

/// Append every character of `src` to `dst`.
pub fn push_all(dst: &mut Vec<char>, src: &Vec<char>)
    ensures
        final(dst)@ == old(dst)@ + src@,
{
    let mut i: usize = 0;
    while i < src.len()
        invariant
            i <= src@.len(),
            dst@ == old(dst)@ + src@.subrange(0, i as int),
        decreases src@.len() - i,
    {
        dst.push(src[i]);
        i += 1;
        proof {
            assert(old(dst)@ + src@.subrange(0, i as int) =~= (old(dst)@ + src@.subrange(
                0,
                i - 1,
            )) + seq![src@[i - 1]]);
        }
    }
    proof {
        assert(src@.subrange(0, src@.len() as int) =~= src@);
    }
}

/// `t` with leading and trailing whitespace removed.
pub fn trim_chars(t: &Vec<char>) -> (r: Vec<char>)
    ensures
        r@ == spec_trim(t@),
{
    let n = t.len();
    let mut a: usize = 0;
    while a < n && char_is_space(t[a])
        invariant
            a <= n == t@.len(),
            ws_prefix_end(t@, 0) == ws_prefix_end(t@, a as int),
        decreases n - a,
    {
        a += 1;
    }
    assert(ws_prefix_end(t@, 0) == a as int);
    let mut b: usize = n;
    while b > 0 && char_is_space(t[b - 1])
        invariant
            b <= n == t@.len(),
            ws_suffix_start(t@, n as int) == ws_suffix_start(t@, b as int),
        decreases b,
    {
        b -= 1;
    }
    assert(ws_suffix_start(t@, n as int) == b as int);
    if a <= b {
        subvec(t, a, b)
    } else {
        Vec::new()
    }
}

/// The characters of `s`, in order.
pub fn chars_of(s: &str) -> (r: Vec<char>)
    ensures
        r@ == s@,
{
    let n = s.unicode_len();
    let mut r: Vec<char> = Vec::new();
    let mut i: usize = 0;
    while i < n
        invariant
            n == s@.len(),
            i <= n,
            r@ == s@.subrange(0, i as int),
        decreases n - i,
    {
        r.push(s.get_char(i));
        i += 1;
        proof {
            assert(s@.subrange(0, i as int) =~= s@.subrange(0, i - 1) + seq![s@[i - 1]]);
        }
    }
    proof {
        assert(s@.subrange(0, n as int) =~= s@);
    }
    r
}

/// A copy of `v`.
pub fn copy_chars(v: &Vec<char>) -> (r: Vec<char>)
    ensures
        r@ == v@,
{
    let r = subvec(v, 0, v.len());
    proof {
        assert(v@.subrange(0, v@.len() as int) =~= v@);
    }
    r
}

/// The concatenation of `a` and `b`.
pub fn concat_chars(a: &Vec<char>, b: &Vec<char>) -> (r: Vec<char>)
    ensures
        r@ == a@ + b@,
{
    let mut r = copy_chars(a);
    push_all(&mut r, b);
    r
}

/// Does `t` contain `pat` anywhere?
pub fn contains_pat(t: &Vec<char>, pat: &Vec<char>) -> (r: bool)
    ensures
        r == contains_sub(t@, pat@),
{
    proof {
        lemma_spec_find_gen(t@, pat@, 0, false);
    }
    match find_sub(t, pat, 0) {
        Some(i) => {
            assert(matches_at(t@, pat@, i as int));
            true
        },
        None => {
            assert forall|i: int| !matches_at(t@, pat@, i) by {}
            false
        },
    }
}

/// Do `a` and `b` hold the same characters?
pub fn vec_eq(a: &Vec<char>, b: &Vec<char>) -> (r: bool)
    ensures
        r == (a@ == b@),
{
    if a.len() != b.len() {
        return false;
    }
    let mut k: usize = 0;
    let mut ok: bool = true;
    while k < a.len()
        invariant
            a@.len() == b@.len(),
            k <= a@.len(),
            ok == (forall|j: int| 0 <= j < k ==> a@[j] == b@[j]),
        decreases a@.len() - k,
    {
        ok = ok && a[k] == b[k];
        k += 1;
    }
    if ok {
        proof {
            assert(a@ =~= b@);
        }
    }
    ok
}

/// Does `v` begin with `pre`?
pub fn starts_with(v: &Vec<char>, pre: &Vec<char>) -> (r: bool)
    ensures
        r == matches_at(v@, pre@, 0),
{
    if pre.len() > v.len() {
        return false;
    }
    let mut k: usize = 0;
    let mut ok: bool = true;
    while k < pre.len()
        invariant
            pre@.len() <= v@.len(),
            k <= pre@.len(),
            ok == (forall|j: int| 0 <= j < k ==> v@[j] == pre@[j]),
        decreases pre@.len() - k,
    {
        ok = ok && v[k] == pre[k];
        k += 1;
    }
    ok
}

/// First index at or after `from` holding a non-whitespace character.
pub fn ws_run_end(v: &Vec<char>, from: usize) -> (r: usize)
    requires
        from <= v@.len(),
    ensures
        r as int == ws_prefix_end(v@, from as int),
        from <= r <= v@.len(),
{
    proof {
        lemma_ws_prefix_end(v@, from as int);
    }
    let mut i: usize = from;
    while i < v.len() && char_is_space(v[i])
        invariant
            from <= i <= v@.len(),
            ws_prefix_end(v@, from as int) == ws_prefix_end(v@, i as int),
        decreases v@.len() - i,
    {
        i += 1;
    }
    i
}

/// Relies on `Iterator::collect` for `String`: the collected string holds
/// exactly the characters of the iterator, in order.
#[verifier::external_body]
pub fn chars_to_string(v: &Vec<char>) -> (r: String)
    ensures
        r@ == v@,
{
    v.iter().collect()
}

} // verus!
