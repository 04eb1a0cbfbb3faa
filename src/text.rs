use vstd::prelude::*;

verus! {

/// The text views of a sequence of character vectors.
pub open spec fn views(v: Seq<Vec<char>>) -> Seq<Seq<char>> {
    v.map_values(|x: Vec<char>| x@)
}

/// Pushing a vector adds its view at the end of the views.
pub proof fn lemma_views_push(v: Seq<Vec<char>>, x: Vec<char>)
    ensures
        views(v.push(x)) == views(v).push(x@),
        views(v).len() == v.len(),
{
    assert(views(v.push(x)) =~= views(v).push(x@));
}

/// `pat` occurs in `s` starting at position `p`.
pub open spec fn occurs_at(s: Seq<char>, pat: Seq<char>, p: int) -> bool {
    0 <= p && p + pat.len() <= s.len() && s.subrange(p, p + pat.len()) == pat
}

/// `pat` occurs somewhere in `s`.
pub open spec fn occurs_in(s: Seq<char>, pat: Seq<char>) -> bool {
    exists|p: int| occurs_at(s, pat, p)
}

/// `s` without the leading `pre`, or `s` itself when it does not start with `pre`.
pub open spec fn strip_or_keep(s: Seq<char>, pre: Seq<char>) -> Seq<char> {
    if occurs_at(s, pre, 0) {
        s.subrange(pre.len() as int, s.len() as int)
    } else {
        s
    }
}

/// The pieces of `s` between occurrences of `sep`, empty pieces included:
/// one piece more than there are separators.
pub open spec fn split_on(s: Seq<char>, sep: char) -> Seq<Seq<char>>
    decreases s.len(),
{
    if s.len() == 0 {
        seq![Seq::<char>::empty()]
    } else {
        let r = split_on(s.drop_last(), sep);
        if s.last() == sep {
            r.push(Seq::<char>::empty())
        } else {
            r.update(r.len() - 1, r.last().push(s.last()))
        }
    }
}

/// Splitting always gives at least one piece.
pub proof fn lemma_split_on_nonempty(s: Seq<char>, sep: char)
    ensures
        split_on(s, sep).len() >= 1,
    decreases s.len(),
{
    if s.len() > 0 {
        lemma_split_on_nonempty(s.drop_last(), sep);
    }
}

/// The characters of `s`, in order.
pub fn chars_of(s: &str) -> (r: Vec<char>)
    ensures
        r@ == s@,
{
    let mut r: Vec<char> = Vec::new();
    for c in it: s.chars()
        invariant
            r@ == it.seq().take(it.index() as int),
    {
        r.push(c);
    }
    r
}

/// Relies on `FromIterator<char>` for `String`: collecting characters gives a
/// string of exactly those characters, in order.
#[verifier::external_body]
pub(crate) fn string_from_chars(cs: &[char]) -> (r: String)
    ensures
        r@ == cs@,
{
    String::from_iter(cs.iter())
}

/// A copy of `v`.
pub fn copy_chars(v: &Vec<char>) -> (r: Vec<char>)
    ensures
        r@ == v@,
{
    let mut r: Vec<char> = Vec::new();
    for i in 0..v.len()
        invariant
            r@ == v@.take(i as int),
    {
        r.push(v[i]);
    }
    r
}

/// The characters `v[from..to]`.
pub fn slice_chars(v: &Vec<char>, from: usize, to: usize) -> (r: Vec<char>)
    requires
        from <= to <= v.len(),
    ensures
        r@ == v@.subrange(from as int, to as int),
{
    let mut r: Vec<char> = Vec::new();
    let mut i: usize = from;
    while i < to
        invariant
            from <= i <= to <= v.len(),
            r@ == v@.subrange(from as int, i as int),
        decreases to - i,
    {
        r.push(v[i]);
        i = i + 1;
    }
    r
}

/// Whether `a` and `b` hold the same characters.
pub fn same_chars(a: &Vec<char>, b: &Vec<char>) -> (r: bool)
    ensures
        r == (a@ == b@),
{
    if a.len() != b.len() {
        return false;
    }
    let mut i: usize = 0;
    while i < a.len()
        invariant
            a.len() == b.len(),
            i <= a.len(),
            a@.take(i as int) == b@.take(i as int),
        decreases a.len() - i,
    {
        if a[i] != b[i] {
            assert(a@[i as int] != b@[i as int]);
            return false;
        }
        assert(a@.take(i + 1) == a@.take(i as int).push(a@[i as int]));
        assert(b@.take(i + 1) == b@.take(i as int).push(b@[i as int]));
        i = i + 1;
    }
    assert(a@ == a@.take(a.len() as int));
    assert(b@ == b@.take(b.len() as int));
    true
}

/// Whether `pat` occurs in `s` at position `p`.
pub fn occurs_at_exec(s: &Vec<char>, pat: &Vec<char>, p: usize) -> (r: bool)
    ensures
        r == occurs_at(s@, pat@, p as int),
{
    if pat.len() > s.len() || p > s.len() - pat.len() {
        return false;
    }
    let mut i: usize = 0;
    while i < pat.len()
        invariant
            p + pat.len() <= s.len(),
            i <= pat.len(),
            s@.subrange(p as int, p + i) == pat@.take(i as int),
        decreases pat.len() - i,
    {
        if s[p + i] != pat[i] {
            assert(s@.subrange(p as int, p + pat.len())[i as int] != pat@[i as int]);
            return false;
        }
        assert(s@.subrange(p as int, p + i + 1) == s@.subrange(p as int, p + i).push(s@[p + i]));
        assert(pat@.take(i + 1) == pat@.take(i as int).push(pat@[i as int]));
        i = i + 1;
    }
    assert(pat@ == pat@.take(pat.len() as int));
    true
}

/// Whether `pat` occurs anywhere in `s`.
pub fn occurs_in_exec(s: &Vec<char>, pat: &Vec<char>) -> (r: bool)
    ensures
        r == occurs_in(s@, pat@),
{
    let mut p: usize = 0;
    loop
        invariant
            p <= s.len(),
            forall|q: int| 0 <= q < p ==> !occurs_at(s@, pat@, q),
        ensures
            p == s.len(),
            forall|q: int| 0 <= q <= p ==> !occurs_at(s@, pat@, q),
        decreases s.len() - p,
    {
        if occurs_at_exec(s, pat, p) {
            return true;
        }
        if p == s.len() {
            break;
        }
        p = p + 1;
    }
    assert forall|q: int| !occurs_at(s@, pat@, q) by {
        if 0 <= q <= p {
        }
    }
    false
}

/// `s` without the leading `pre`, or a copy of `s` when it does not start with it.
pub fn strip_or_keep_exec(s: &Vec<char>, pre: &Vec<char>) -> (r: Vec<char>)
    ensures
        r@ == strip_or_keep(s@, pre@),
{
    if occurs_at_exec(s, pre, 0) {
        slice_chars(s, pre.len(), s.len())
    } else {
        copy_chars(s)
    }
}

/// The pieces of `s` between occurrences of `sep`.
pub fn split_chars(s: &Vec<char>, sep: char) -> (r: Vec<Vec<char>>)
    ensures
        views(r@) == split_on(s@, sep),
{
    let mut pieces: Vec<Vec<char>> = Vec::new();
    let mut cur: Vec<char> = Vec::new();
    let mut i: usize = 0;
    while i < s.len()
        invariant
            i <= s.len(),
            views(pieces@).push(cur@) == split_on(s@.take(i as int), sep),
        decreases s.len() - i,
    {
        let ghost before = s@.take(i as int);
        assert(s@.take(i + 1).drop_last() == before);
        proof {
            lemma_split_on_nonempty(before, sep);
        }
        if s[i] == sep {
            let done = cur;
            pieces.push(done);
            cur = Vec::new();
            assert(views(pieces@) == views(pieces@).drop_last().push(done@));
            assert(views(pieces@).push(cur@) == split_on(s@.take(i + 1), sep));
        } else {
            let ghost old_pieces = views(pieces@);
            cur.push(s[i]);
            assert(views(pieces@) == old_pieces);
            assert(views(pieces@).push(cur@) =~= split_on(s@.take(i + 1), sep));
        }
        i = i + 1;
    }
    assert(s@.take(s.len() as int) == s@);
    pieces.push(cur);
    assert(views(pieces@) =~= split_on(s@, sep));
    pieces
}

} // verus!
