//! Reading an issue number out of a branch name.
use vstd::prelude::*;
use crate::text::{occurs_at, occurs_at_exec, chars_of};

verus! {

pub open spec fn is_digit(c: char) -> bool {
    '0' <= c && c <= '9'
}

/// The end of the run of decimal digits that starts at `i`.
pub open spec fn digit_run_end(s: Seq<char>, i: int) -> int
    decreases s.len() - i,
{
    if 0 <= i < s.len() && is_digit(s[i]) {
        digit_run_end(s, i + 1)
    } else {
        i
    }
}

/// The number that a string of decimal digits denotes.
pub open spec fn digits_value(d: Seq<char>) -> nat
    decreases d.len(),
{
    if d.len() == 0 {
        0
    } else {
        digits_value(d.drop_last()) * 10 + ((d.last() as u32) - ('0' as u32)) as nat
    }
}

/// The pattern `pre`, one or more digits, `-` matches `s` at position `p`.
/// The digit run is taken whole, as a greedy match would take it.
pub open spec fn capture_at(s: Seq<char>, pre: Seq<char>, p: int) -> bool {
    &&& occurs_at(s, pre, p)
    &&& p + pre.len() < digit_run_end(s, p + pre.len())
    &&& digit_run_end(s, p + pre.len()) < s.len()
    &&& s[digit_run_end(s, p + pre.len())] == '-'
}

/// The digits that the pattern captures at `p`.
pub open spec fn captured_digits(s: Seq<char>, pre: Seq<char>, p: int) -> Seq<char> {
    s.subrange(p + pre.len(), digit_run_end(s, p + pre.len()))
}

/// The leftmost position at or after `from` where the pattern matches.
pub open spec fn leftmost_capture(s: Seq<char>, pre: Seq<char>, from: int) -> Option<int>
    decreases s.len() + 1 - from,
{
    if from < 0 || from > s.len() {
        None
    } else if capture_at(s, pre, from) {
        Some(from)
    } else {
        leftmost_capture(s, pre, from + 1)
    }
}

/// What one pattern yields: the captured number of its leftmost match (or of a
/// match at the start only, when `anchored`), if it fits in a `u32`.
pub open spec fn pattern_issue(s: Seq<char>, pre: Seq<char>, anchored: bool) -> Option<u32> {
    let m = if anchored {
        if capture_at(s, pre, 0) {
            Some(0int)
        } else {
            None
        }
    } else {
        leftmost_capture(s, pre, 0)
    };
    match m {
        Some(p) => {
            let v = digits_value(captured_digits(s, pre, p));
            if v <= u32::MAX {
                Some(v as u32)
            } else {
                None
            }
        },
        None => None,
    }
}

pub open spec fn feature_prefix() -> Seq<char> {
    seq!['f', 'e', 'a', 't', 'u', 'r', 'e', '/']
}

pub open spec fn issue_prefix() -> Seq<char> {
    seq!['i', 's', 's', 'u', 'e', '-']
}

pub open spec fn fix_prefix() -> Seq<char> {
    seq!['f', 'i', 'x', '/']
}

pub open spec fn bugfix_prefix() -> Seq<char> {
    seq!['b', 'u', 'g', 'f', 'i', 'x', '/']
}

pub open spec fn hotfix_prefix() -> Seq<char> {
    seq!['h', 'o', 't', 'f', 'i', 'x', '/']
}

/// The prefixed patterns, most specific first.
pub open spec fn issue_prefixes() -> Seq<Seq<char>> {
    seq![feature_prefix(), issue_prefix(), fix_prefix(), bugfix_prefix(), hotfix_prefix()]
}

/// The first of the prefixed patterns, from the `k`-th on, that yields a number,
/// and after them the bare number at the start of the name.
pub open spec fn issue_from(s: Seq<char>, k: int) -> Option<u32>
    decreases 5 - k,
{
    if k < 0 || k >= 5 {
        pattern_issue(s, Seq::<char>::empty(), true)
    } else {
        match pattern_issue(s, issue_prefixes()[k], false) {
            Some(n) => Some(n),
            None => issue_from(s, k + 1),
        }
    }
}

/// The issue number of a branch name: `feature/<n>-`, `issue-<n>-`, `fix/<n>-`,
/// `bugfix/<n>-`, `hotfix/<n>-` are tried in that order, then `<n>-` at the start.
pub open spec fn issue_number(branch: Seq<char>) -> Option<u32> {
    issue_from(branch, 0)
}

proof fn lemma_digit_run_end_bounds(s: Seq<char>, i: int)
    requires
        0 <= i <= s.len(),
    ensures
        i <= digit_run_end(s, i) <= s.len(),
        forall|j: int| i <= j < digit_run_end(s, i) ==> is_digit(s[j]),
    decreases s.len() - i,
{
    if i < s.len() && is_digit(s[i]) {
        lemma_digit_run_end_bounds(s, i + 1);
    }
}

/// Extending a digit string never makes its value smaller.
proof fn lemma_digits_value_grows(d: Seq<char>, n: int)
    requires
        0 <= n <= d.len(),
        forall|j: int| 0 <= j < d.len() ==> is_digit(#[trigger] d[j]),
    ensures
        digits_value(d.take(n)) <= digits_value(d),
    decreases d.len() - n,
{
    if n < d.len() {
        lemma_digits_value_grows(d, n + 1);
        assert(d.take(n + 1).drop_last() == d.take(n));
    } else {
        assert(d.take(n) == d);
    }
}

proof fn lemma_digit_block_end(s: Seq<char>, i: int, n: int)
    requires
        0 <= i,
        0 <= n,
        i + n < s.len(),
        forall|j: int| i <= j < i + n ==> is_digit(#[trigger] s[j]),
        !is_digit(s[i + n]),
    ensures
        digit_run_end(s, i) == i + n,
    decreases n,
{
    if n > 0 {
        lemma_digit_block_end(s, i + 1, n - 1);
    }
}

proof fn lemma_issue_from_skips(s: Seq<char>, from: int, k: int)
    requires
        0 <= from <= k <= 5,
        forall|j: int| from <= j < k ==> pattern_issue(s, #[trigger] issue_prefixes()[j], false) is None,
    ensures
        issue_from(s, from) == issue_from(s, k),
    decreases k - from,
{
    if from < k {
        lemma_issue_from_skips(s, from + 1, k);
    }
}

/// A name made of a pattern's prefix (or none), digits, `-` and anything
/// after captures those digits at its start.
proof fn lemma_capture_at_start(pre: Seq<char>, d: Seq<char>, rest: Seq<char>)
    requires
        d.len() > 0,
        forall|j: int| 0 <= j < d.len() ==> is_digit(#[trigger] d[j]),
    ensures
        capture_at(pre + d + seq!['-'] + rest, pre, 0),
        captured_digits(pre + d + seq!['-'] + rest, pre, 0) == d,
{
    let s = pre + d + seq!['-'] + rest;
    let n = pre.len() + d.len();
    assert(s.subrange(0, pre.len() as int) =~= pre);
    assert forall|j: int| pre.len() <= j < n implies is_digit(#[trigger] s[j]) by {
        assert(s[j] == d[j - pre.len()]);
    }
    assert(s[n as int] == '-');
    lemma_digit_block_end(s, pre.len() as int, d.len() as int);
    assert(s.subrange(pre.len() as int, n as int) =~= d);
}

/// A branch name `<prefix><n>-...` gives `n`, where `<prefix>` is one of the
/// prefixed patterns and no pattern tried before it matches the name.
pub proof fn lemma_prefixed_number(k: int, d: Seq<char>, rest: Seq<char>)
    requires
        0 <= k < 5,
        d.len() > 0,
        forall|j: int| 0 <= j < d.len() ==> is_digit(#[trigger] d[j]),
        digits_value(d) <= u32::MAX,
        forall|j: int|
            0 <= j < k ==> pattern_issue(
                issue_prefixes()[k] + d + seq!['-'] + rest,
                #[trigger] issue_prefixes()[j],
                false,
            ) is None,
    ensures
        issue_number(issue_prefixes()[k] + d + seq!['-'] + rest) == Some(digits_value(d) as u32),
{
    let pre = issue_prefixes()[k];
    let s = pre + d + seq!['-'] + rest;
    lemma_capture_at_start(pre, d, rest);
    assert(leftmost_capture(s, pre, 0) == Some(0int));
    lemma_issue_from_skips(s, 0, k);
}

/// A branch name `<n>-...` gives `n` where none of the prefixed patterns
/// matches it.
pub proof fn lemma_bare_number(d: Seq<char>, rest: Seq<char>)
    requires
        d.len() > 0,
        forall|j: int| 0 <= j < d.len() ==> is_digit(#[trigger] d[j]),
        digits_value(d) <= u32::MAX,
        forall|j: int|
            0 <= j < 5 ==> pattern_issue(d + seq!['-'] + rest, #[trigger] issue_prefixes()[j], false)
                is None,
    ensures
        issue_number(d + seq!['-'] + rest) == Some(digits_value(d) as u32),
{
    let e = Seq::<char>::empty();
    assert(e + d =~= d);
    lemma_capture_at_start(e, d, rest);
    lemma_issue_from_skips(d + seq!['-'] + rest, 0, 5);
}

proof fn lemma_no_digit_no_capture(s: Seq<char>, pre: Seq<char>, from: int)
    requires
        forall|j: int| 0 <= j < s.len() ==> !is_digit(#[trigger] s[j]),
    ensures
        leftmost_capture(s, pre, from) is None,
        !capture_at(s, pre, 0),
    decreases s.len() + 1 - from,
{
    assert(!capture_at(s, pre, from));
    assert(!capture_at(s, pre, 0));
    if 0 <= from <= s.len() {
        lemma_no_digit_no_capture(s, pre, from + 1);
    }
}

proof fn lemma_no_digit_from(s: Seq<char>, k: int)
    requires
        0 <= k <= 5,
        forall|j: int| 0 <= j < s.len() ==> !is_digit(#[trigger] s[j]),
    ensures
        issue_from(s, k) is None,
    decreases 5 - k,
{
    if k < 5 {
        lemma_no_digit_no_capture(s, issue_prefixes()[k], 0);
        lemma_no_digit_from(s, k + 1);
    } else {
        lemma_no_digit_no_capture(s, Seq::<char>::empty(), 0);
    }
}

/// A branch name without a decimal digit gives no issue number.
pub proof fn lemma_no_digit_no_number(s: Seq<char>)
    requires
        forall|j: int| 0 <= j < s.len() ==> !is_digit(#[trigger] s[j]),
    ensures
        issue_number(s) is None,
{
    lemma_no_digit_from(s, 0);
}

fn digit_run_end_exec(s: &Vec<char>, i: usize) -> (r: usize)
    requires
        i <= s.len(),
    ensures
        r == digit_run_end(s@, i as int),
{
    let mut e: usize = i;
    while e < s.len() && '0' <= s[e] && s[e] <= '9'
        invariant
            i <= e <= s.len(),
            digit_run_end(s@, i as int) == digit_run_end(s@, e as int),
        decreases s.len() - e,
    {
        e = e + 1;
    }
    e
}

/// The value of the digits `s[from..to]`, or `None` where it exceeds `u32::MAX`.
pub(crate) fn digits_value_exec(s: &Vec<char>, from: usize, to: usize) -> (r: Option<u32>)
    requires
        from <= to <= s.len(),
        forall|j: int| from <= j < to ==> is_digit(s@[j]),
    ensures
        r == (if digits_value(s@.subrange(from as int, to as int)) <= u32::MAX {
            Some(digits_value(s@.subrange(from as int, to as int)) as u32)
        } else {
            None
        }),
{
    let ghost d = s@.subrange(from as int, to as int);
    let mut v: u64 = 0;
    let mut i: usize = from;
    while i < to
        invariant
            from <= i <= to <= s.len(),
            d == s@.subrange(from as int, to as int),
            forall|j: int| from <= j < to ==> is_digit(s@[j]),
            v as nat == digits_value(d.take(i - from)),
            v <= u32::MAX,
        decreases to - i,
    {
        assert(d.take(i - from + 1).drop_last() == d.take(i - from));
        let c = s[i];
        assert(is_digit(c));
        let digit = (c as u32 - '0' as u32) as u64;
        v = v * 10 + digit;
        if v > 0xffff_ffff {
            proof {
                lemma_digits_value_grows(d, i - from + 1);
            }
            return None;
        }
        i = i + 1;
    }
    assert(d.take(to - from) == d);
    Some(v as u32)
}

fn capture_at_exec(s: &Vec<char>, pre: &Vec<char>, p: usize) -> (r: Option<u32>)
    ensures
        r is Some ==> capture_at(s@, pre@, p as int),
        capture_at(s@, pre@, p as int) ==> r == (if digits_value(captured_digits(s@, pre@, p as int)) <= u32::MAX {
            Some(digits_value(captured_digits(s@, pre@, p as int)) as u32)
        } else {
            None
        }),
{
    if !occurs_at_exec(s, pre, p) {
        return None;
    }
    let plen = pre.len();
    assert(p + plen <= s.len());
    let d = p + plen;
    let e = digit_run_end_exec(s, d);
    proof {
        lemma_digit_run_end_bounds(s@, d as int);
    }
    if d < e && e < s.len() && s[e] == '-' {
        digits_value_exec(s, d, e)
    } else {
        None
    }
}

/// What one pattern yields on `s` (see `pattern_issue`).
fn pattern_issue_exec(s: &Vec<char>, pre: &Vec<char>, anchored: bool) -> (r: Option<u32>)
    ensures
        r == pattern_issue(s@, pre@, anchored),
{
    if anchored {
        return capture_at_exec(s, pre, 0);
    }
    let mut p: usize = 0;
    loop
        invariant
            !anchored,
            p <= s.len(),
            leftmost_capture(s@, pre@, 0) == leftmost_capture(s@, pre@, p as int),
        decreases s.len() - p,
    {
        if occurs_at_exec(s, pre, p) {
            let d = p + pre.len();
            let e = digit_run_end_exec(s, d);
            proof {
                lemma_digit_run_end_bounds(s@, d as int);
            }
            if d < e && e < s.len() && s[e] == '-' {
                assert(capture_at(s@, pre@, p as int));
                return digits_value_exec(s, d, e);
            }
        }
        if p == s.len() {
            assert(leftmost_capture(s@, pre@, p + 1) == None::<int>);
            return None;
        }
        p = p + 1;
    }
}

/// Reads the issue number out of a branch name. The patterns `feature/<n>-`,
/// `issue-<n>-`, `fix/<n>-`, `bugfix/<n>-` and `hotfix/<n>-` are tried in that
/// order, each at its leftmost match, then `<n>-` at the start of the name; the
/// first whose digits fit in a `u32` gives the result.
pub fn extract_issue_number(branch: &str) -> (r: Option<u32>)
    ensures
        r == issue_number(branch@),
{
    let s = chars_of(branch);
    let pres: Vec<Vec<char>> = vec![
        vec!['f', 'e', 'a', 't', 'u', 'r', 'e', '/'],
        vec!['i', 's', 's', 'u', 'e', '-'],
        vec!['f', 'i', 'x', '/'],
        vec!['b', 'u', 'g', 'f', 'i', 'x', '/'],
        vec!['h', 'o', 't', 'f', 'i', 'x', '/'],
    ];
    assert(pres.len() == 5);
    assert(pres@[0]@ == issue_prefixes()[0]);
    assert(pres@[1]@ == issue_prefixes()[1]);
    assert(pres@[2]@ == issue_prefixes()[2]);
    assert(pres@[3]@ == issue_prefixes()[3]);
    assert(pres@[4]@ == issue_prefixes()[4]);
    let mut k: usize = 0;
    while k < 5
        invariant
            k <= 5,
            s@ == branch@,
            pres.len() == 5,
            forall|j: int| 0 <= j < 5 ==> (#[trigger] pres@[j])@ == issue_prefixes()[j],
            issue_number(s@) == issue_from(s@, k as int),
        decreases 5 - k,
    {
        let found = pattern_issue_exec(&s, &pres[k], false);
        if found.is_some() {
            return found;
        }
        k = k + 1;
    }
    let bare: Vec<char> = Vec::new();
    assert(bare@ == Seq::<char>::empty());
    pattern_issue_exec(&s, &bare, true)
}

} // verus!
