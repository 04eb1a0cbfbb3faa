//! Filesystem paths as sequences of components.
use vstd::prelude::*;
use crate::text::{views, split_on, split_chars, same_chars, lemma_views_push};

verus! {

/// A piece between separators that names a component: neither empty (a
/// repeated or trailing `/`) nor `.`.
pub open spec fn is_component(piece: Seq<char>) -> bool {
    piece.len() > 0 && piece != seq!['.']
}

pub open spec fn component_filter() -> spec_fn(Seq<char>) -> bool {
    |piece: Seq<char>| is_component(piece)
}

/// The components of a path, in order.
pub open spec fn components(p: Seq<char>) -> Seq<Seq<char>> {
    split_on(p, '/').filter(component_filter())
}

pub open spec fn is_absolute(p: Seq<char>) -> bool {
    p.len() > 0 && p[0] == '/'
}

/// `a` and `b` name the same path, component by component.
pub open spec fn same_path(a: Seq<char>, b: Seq<char>) -> bool {
    is_absolute(a) == is_absolute(b) && components(a) == components(b)
}

/// `b` is `a` or one of its ancestors, component by component.
pub open spec fn path_starts_with(a: Seq<char>, b: Seq<char>) -> bool {
    &&& is_absolute(a) == is_absolute(b)
    &&& components(b).len() <= components(a).len()
    &&& components(a).take(components(b).len() as int) == components(b)
}

/// A path split into its components.
pub struct PathParts {
    pub absolute: bool,
    pub parts: Vec<Vec<char>>,
}

impl PathParts {
    pub open spec fn models(&self, p: Seq<char>) -> bool {
        self.absolute == is_absolute(p) && views(self.parts@) == components(p)
    }
}

fn is_component_exec(piece: &Vec<char>) -> (r: bool)
    ensures
        r == is_component(piece@),
{
    if piece.len() == 0 {
        return false;
    }
    if piece.len() == 1 && piece[0] == '.' {
        assert(piece@ == seq!['.']);
        return false;
    }
    assert(piece@.len() != 1 ==> piece@ != seq!['.']);
    true
}

/// Splits a path into its components.
pub fn path_parts(p: &Vec<char>) -> (r: PathParts)
    ensures
        r.models(p@),
{
    let pieces = split_chars(p, '/');
    let ghost all = views(pieces@);
    let ghost pred = component_filter();
    let mut parts: Vec<Vec<char>> = Vec::new();
    let mut i: usize = 0;
    while i < pieces.len()
        invariant
            i <= pieces.len(),
            all == views(pieces@),
            all == split_on(p@, '/'),
            pred == component_filter(),
            views(parts@) == all.take(i as int).filter(pred),
        decreases pieces.len() - i,
    {
        let ghost t = all.take(i + 1);
        assert(all.len() == pieces.len());
        assert(t.len() == i + 1);
        reveal(Seq::filter);
        assert(t.drop_last() == all.take(i as int));
        assert(t.last() == pieces@[i as int]@);
        assert(t.filter(pred) == (if pred(t.last()) {
            t.drop_last().filter(pred).push(t.last())
        } else {
            t.drop_last().filter(pred)
        }));
        let keep = is_component_exec(&pieces[i]);
        if keep {
            let piece = crate::text::copy_chars(&pieces[i]);
            proof {
                lemma_views_push(parts@, piece);
            }
            parts.push(piece);
            assert(pred(t.last()));
            assert(views(parts@) == t.filter(pred));
        } else {
            assert(!pred(t.last()));
            assert(views(parts@) == t.filter(pred));
        }
        i = i + 1;
    }
    assert(all.take(pieces.len() as int) == all);
    let absolute = p.len() > 0 && p[0] == '/';
    PathParts { absolute, parts }
}

fn same_parts_prefix(a: &Vec<Vec<char>>, b: &Vec<Vec<char>>) -> (r: bool)
    requires
        b.len() <= a.len(),
    ensures
        r == (views(a@).take(b.len() as int) == views(b@)),
{
    let mut i: usize = 0;
    while i < b.len()
        invariant
            b.len() <= a.len(),
            i <= b.len(),
            views(a@).take(i as int) == views(b@).take(i as int),
        decreases b.len() - i,
    {
        if !same_chars(&a[i], &b[i]) {
            assert(views(a@).take(b.len() as int)[i as int] != views(b@)[i as int]);
            return false;
        }
        assert(views(a@).take(i + 1) =~= views(a@).take(i as int).push(a@[i as int]@));
        assert(views(b@).take(i + 1) =~= views(b@).take(i as int).push(b@[i as int]@));
        i = i + 1;
    }
    assert(views(b@).take(b.len() as int) =~= views(b@));
    true
}

/// Whether the paths `a` and `b` have the same components.
pub fn same_path_exec(a: &PathParts, b: &PathParts) -> (r: bool)
    ensures
        forall|x: Seq<char>, y: Seq<char>| a.models(x) && b.models(y) ==> r == same_path(x, y),
{
    if a.absolute != b.absolute || a.parts.len() != b.parts.len() {
        assert(views(a.parts@).len() == a.parts.len());
        assert(views(b.parts@).len() == b.parts.len());
        return false;
    }
    let r = same_parts_prefix(&a.parts, &b.parts);
    assert(views(a.parts@).take(b.parts.len() as int) =~= views(a.parts@));
    r
}

/// Whether `b` is `a` or one of its ancestors.
pub fn starts_with_exec(a: &PathParts, b: &PathParts) -> (r: bool)
    ensures
        forall|x: Seq<char>, y: Seq<char>| a.models(x) && b.models(y) ==> r == path_starts_with(x, y),
{
    if a.absolute != b.absolute || b.parts.len() > a.parts.len() {
        assert(views(a.parts@).len() == a.parts.len());
        assert(views(b.parts@).len() == b.parts.len());
        return false;
    }
    same_parts_prefix(&a.parts, &b.parts)
}

} // verus!
