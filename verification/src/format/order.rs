//! The order of paths: step by step, keys before indices, keys by their
//! characters and indices by their number, a path before any longer path
//! that it begins.

use vstd::prelude::*;
use super::{ConfigItem, ItemView, PathSegment, SegmentView, items_view, path_view};
use super::hierarchical::{lemma_lex_irreflexive, lex_less, lex_lt};
use crate::text::chars_of;

verus! {

/// Whether step `a` sorts before step `b`.
pub open spec fn seg_lt(a: SegmentView, b: SegmentView) -> bool {
    match (a, b) {
        (SegmentView::Key(x), SegmentView::Key(y)) => lex_lt(x, y),
        (SegmentView::Key(_), SegmentView::Index(_)) => true,
        (SegmentView::Index(_), SegmentView::Key(_)) => false,
        (SegmentView::Index(i), SegmentView::Index(j)) => i < j,
    }
}

/// Whether path `a` sorts before path `b`.
pub open spec fn path_lt(a: Seq<SegmentView>, b: Seq<SegmentView>) -> bool
    decreases a.len(),
{
    if a.len() == 0 {
        b.len() > 0
    } else if b.len() == 0 {
        false
    } else if a[0] != b[0] {
        seg_lt(a[0], b[0])
    } else {
        path_lt(a.drop_first(), b.drop_first())
    }
}

/// Whether the entries are in path order (entries with equal paths in any order).
pub open spec fn sorted_by_path(s: Seq<ItemView>) -> bool {
    forall|i: int, j: int| 0 <= i < j < s.len() ==> !path_lt(#[trigger] s[j].path, #[trigger] s[i].path)
}

/// The entries of `s` whose path is `g`, in their order.
pub open spec fn with_path(s: Seq<ItemView>, g: Seq<SegmentView>) -> Seq<ItemView> {
    s.filter(at_path(g))
}

/// Whether an entry stands at path `g`.
pub open spec fn at_path(g: Seq<SegmentView>) -> spec_fn(ItemView) -> bool {
    |e: ItemView| e.path == g
}

/// With no entry at path `g`, none is picked.
proof fn lemma_with_path_none(s: Seq<ItemView>, g: Seq<SegmentView>)
    requires
        forall|i: int| 0 <= i < s.len() ==> (#[trigger] s[i]).path != g,
    ensures
        with_path(s, g) == Seq::<ItemView>::empty(),
    decreases s.len(),
{
    reveal(Seq::filter);
    if s.len() > 0 {
        lemma_with_path_none(s.drop_last(), g);
        assert(s.last() == s[s.len() - 1]);
    }
}

/// Key order is transitive.
pub proof fn lemma_lex_transitive(a: Seq<char>, b: Seq<char>, c: Seq<char>)
    requires
        lex_lt(a, b),
        lex_lt(b, c),
    ensures
        lex_lt(a, c),
    decreases a.len(),
{
    if a.len() > 0 && b.len() > 0 && c.len() > 0 && a[0] == b[0] && b[0] == c[0] {
        lemma_lex_transitive(a.drop_first(), b.drop_first(), c.drop_first());
    }
}

/// Step order is transitive.
pub proof fn lemma_seg_transitive(a: SegmentView, b: SegmentView, c: SegmentView)
    requires
        seg_lt(a, b),
        seg_lt(b, c),
    ensures
        seg_lt(a, c),
{
    match (a, b, c) {
        (SegmentView::Key(x), SegmentView::Key(y), SegmentView::Key(z)) => {
            lemma_lex_transitive(x, y, z);
        },
        _ => {},
    }
}

/// No step sorts before itself.
pub proof fn lemma_seg_irreflexive(a: SegmentView)
    ensures
        !seg_lt(a, a),
{
    match a {
        SegmentView::Key(x) => {
            lemma_lex_irreflexive(x);
        },
        _ => {},
    }
}

/// Path order is transitive.
pub proof fn lemma_path_transitive(a: Seq<SegmentView>, b: Seq<SegmentView>, c: Seq<SegmentView>)
    requires
        path_lt(a, b),
        path_lt(b, c),
    ensures
        path_lt(a, c),
    decreases a.len(),
{
    if a.len() > 0 && b.len() > 0 && c.len() > 0 {
        if a[0] == b[0] && b[0] == c[0] {
            lemma_path_transitive(a.drop_first(), b.drop_first(), c.drop_first());
        } else if a[0] != b[0] && b[0] != c[0] {
            lemma_seg_transitive(a[0], b[0], c[0]);
            if a[0] == c[0] {
                lemma_seg_irreflexive(a[0]);
            }
        }
    }
}

/// Whether step `a` sorts before step `b`.
fn seg_less(a: &PathSegment, b: &PathSegment) -> (r: bool)
    ensures
        r == seg_lt(a@, b@),
{
    match (a, b) {
        (PathSegment::Key(x), PathSegment::Key(y)) => {
            let xs = chars_of(x.as_str());
            let ys = chars_of(y.as_str());
            lex_less(&xs, &ys)
        },
        (PathSegment::Key(_), PathSegment::Index(_)) => true,
        (PathSegment::Index(_), PathSegment::Key(_)) => false,
        (PathSegment::Index(i), PathSegment::Index(j)) => *i < *j,
    }
}

/// Whether path `a` sorts before path `b`.
pub fn path_less(a: &Vec<PathSegment>, b: &Vec<PathSegment>) -> (r: bool)
    ensures
        r == path_lt(path_view(a@), path_view(b@)),
{
    let ghost av = path_view(a@);
    let ghost bv = path_view(b@);
    let mut i: usize = 0;
    assert(av.skip(0) == av && bv.skip(0) == bv);
    while i < a.len() && i < b.len() && super::segment_eq(&a[i], &b[i])
        invariant
            i <= a@.len(),
            i <= b@.len(),
            av == path_view(a@),
            bv == path_view(b@),
            path_lt(av, bv) == path_lt(av.skip(i as int), bv.skip(i as int)),
        decreases a@.len() - i,
    {
        proof {
            assert(av.skip(i as int).drop_first() == av.skip(i + 1));
            assert(bv.skip(i as int).drop_first() == bv.skip(i + 1));
            assert(av.skip(i as int)[0] == av[i as int]);
            assert(bv.skip(i as int)[0] == bv[i as int]);
        }
        i = i + 1;
    }
    if i == a.len() {
        i < b.len()
    } else if i == b.len() {
        false
    } else {
        assert(av.skip(i as int)[0] == av[i as int]);
        assert(bv.skip(i as int)[0] == bv[i as int]);
        seg_less(&a[i], &b[i])
    }
}

/// The entries in path order: the same entries, each kept the number of
/// times it came, and entries with equal paths in the order they came.
pub fn sort_by_path(v: Vec<ConfigItem>) -> (r: Vec<ConfigItem>)
    ensures
        sorted_by_path(items_view(r@)),
        items_view(r@).to_multiset() == items_view(v@).to_multiset(),
        forall|g: Seq<SegmentView>| #[trigger] with_path(items_view(r@), g) == with_path(items_view(v@), g),
{
    broadcast use vstd::seq_lib::group_to_multiset_ensures;

    let mut r: Vec<ConfigItem> = Vec::new();
    let mut rest = v;
    let ghost orig = items_view(rest@);
    // Take the entries from the back, so each is moved out once; an entry is
    // inserted before the first kept entry whose path sorts after its own.
    let ghost n = rest@.len();
    while rest.len() > 0
        invariant
            rest@.len() <= n,
            n == orig.len(),
            items_view(rest@) == orig.take(rest@.len() as int),
            sorted_by_path(items_view(r@)),
            items_view(r@).to_multiset() == orig.skip(rest@.len() as int).to_multiset(),
            forall|g: Seq<SegmentView>| #[trigger] with_path(items_view(r@), g) == with_path(orig.skip(rest@.len() as int), g),
        decreases rest@.len(),
    {
        let ghost before_rest = items_view(rest@);
        let x = rest.pop().unwrap();
        proof {
            assert(items_view(rest@) =~= before_rest.drop_last());
        }
        let ghost rv = items_view(r@);
        assert(forall|g: Seq<SegmentView>| #[trigger] with_path(rv, g) == with_path(orig.skip(rest@.len() + 1 as int), g));
        // Place `x` before every kept entry that does not sort before it:
        // the first position whose entry `x` does not follow.
        let mut p: usize = 0;
        while p < r.len() && path_less(&r[p].path, &x.path)
            invariant
                p <= r@.len(),
                rv == items_view(r@),
                forall|q: int| 0 <= q < p ==> path_lt(#[trigger] rv[q].path, x@.path),
            decreases r@.len() - p,
        {
            assert(rv[p as int] == r@[p as int]@);
            p = p + 1;
        }
        proof {
            if p < r@.len() {
                assert(rv[p as int] == r@[p as int]@);
                assert(!path_lt(rv[p as int].path, x@.path));
            }
        }
        let ghost xv = x@;
        r.insert(p, x);
        proof {
            let nv = items_view(r@);
            assert(nv =~= rv.insert(p as int, xv));
            assert forall|i: int, j: int| 0 <= i < j < nv.len() implies !path_lt(
                #[trigger] nv[j].path,
                #[trigger] nv[i].path,
            ) by {
                if j < p {
                    assert(nv[i] == rv[i] && nv[j] == rv[j]);
                } else if j == p {
                    assert(nv[i] == rv[i]);
                    assert(path_lt(rv[i].path, xv.path));
                    if path_lt(xv.path, rv[i].path) {
                        lemma_path_transitive(xv.path, rv[i].path, xv.path);
                        lemma_path_irreflexive(xv.path);
                    }
                } else if i == p {
                    assert(nv[j] == rv[j - 1]);
                    // rv[p] does not sort before x, and rv[j - 1] does not sort before rv[p]
                    if path_lt(rv[j - 1].path, xv.path) {
                        lemma_path_split(rv[j - 1].path, rv[p as int].path, xv.path);
                        if j - 1 == p {
                            lemma_path_irreflexive(rv[p as int].path);
                        }
                    }
                } else if i < p {
                    assert(nv[i] == rv[i] && nv[j] == rv[j - 1]);
                } else {
                    assert(nv[i] == rv[i - 1] && nv[j] == rv[j - 1]);
                }
            }
            let k = rest@.len() as int;
            assert(orig.skip(k) =~= orig.skip(k + 1).insert(0, orig[k]));
            assert(orig[k] == before_rest.last());
            assert(xv == before_rest.last());
            vstd::seq_lib::to_multiset_insert(rv, p as int, xv);
            vstd::seq_lib::to_multiset_insert(orig.skip(k + 1), 0, orig[k]);
            // Entries at x's path all stand at or after `p`, so x goes first among them.
            assert(orig.skip(k) =~= seq![xv] + orig.skip(k + 1));
            assert(nv =~= rv.take(p as int) + seq![xv] + rv.skip(p as int));
            assert(rv =~= rv.take(p as int) + rv.skip(p as int));
            assert forall|g: Seq<SegmentView>| #[trigger] with_path(nv, g) == with_path(orig.skip(k), g) by {
                let pred = at_path(g);
                let a = rv.take(p as int);
                let b = rv.skip(p as int);
                Seq::filter_distributes_over_add(a + seq![xv], b, pred);
                Seq::filter_distributes_over_add(a, seq![xv], pred);
                Seq::filter_distributes_over_add(a, b, pred);
                orig.skip(k + 1).lemma_filter_prepend(xv, pred);
                Seq::<ItemView>::empty().lemma_filter_prepend(xv, pred);
                assert(seq![xv] =~= seq![xv] + Seq::<ItemView>::empty());
                reveal(Seq::filter);
                assert(Seq::<ItemView>::empty().filter(pred) =~= Seq::<ItemView>::empty());
                let xs = if pred(xv) { seq![xv] } else { Seq::<ItemView>::empty() };
                assert(seq![xv].filter(pred) =~= xs);
                assert(nv.filter(pred) == a.filter(pred) + xs + b.filter(pred));
                assert(orig.skip(k).filter(pred) == xs + orig.skip(k + 1).filter(pred));
                assert(rv.filter(pred) == a.filter(pred) + b.filter(pred));
                assert(with_path(rv, g) == with_path(orig.skip(k + 1), g));
                assert(rv.filter(pred) == orig.skip(k + 1).filter(pred));
                if g == xv.path {
                    assert forall|i: int| 0 <= i < a.len() implies (#[trigger] a[i]).path != g by {
                        assert(a[i] == rv[i]);
                        assert(path_lt(rv[i].path, xv.path));
                        lemma_path_irreflexive(xv.path);
                    }
                    lemma_with_path_none(a, g);
                    assert(a.filter(pred) =~= Seq::<ItemView>::empty());
                    assert(nv.filter(pred) =~= xs + b.filter(pred));
                    assert(rv.filter(pred) =~= b.filter(pred));
                } else {
                    assert(xs =~= Seq::<ItemView>::empty());
                    assert(nv.filter(pred) =~= a.filter(pred) + b.filter(pred));
                    assert(orig.skip(k).filter(pred) =~= orig.skip(k + 1).filter(pred));
                }
                assert(with_path(nv, g) =~= with_path(orig.skip(k), g));
            }
        }
    }
    proof {
        assert(orig.skip(0) =~= orig);
    }
    r
}

/// No path sorts before itself.
pub proof fn lemma_path_irreflexive(a: Seq<SegmentView>)
    ensures
        !path_lt(a, a),
    decreases a.len(),
{
    if a.len() > 0 {
        lemma_path_irreflexive(a.drop_first());
    }
}

/// Of two different keys, one sorts before the other.
pub proof fn lemma_lex_trichotomy(a: Seq<char>, b: Seq<char>)
    ensures
        lex_lt(a, b) || lex_lt(b, a) || a == b,
    decreases a.len(),
{
    if a.len() > 0 && b.len() > 0 && a[0] == b[0] {
        lemma_lex_trichotomy(a.drop_first(), b.drop_first());
        if a.drop_first() == b.drop_first() {
            assert(a =~= b) by {
                assert forall|i: int| 0 <= i < a.len() implies a[i] == b[i] by {
                    if i > 0 {
                        assert(a[i] == a.drop_first()[i - 1]);
                        assert(b[i] == b.drop_first()[i - 1]);
                    }
                }
            }
        }
    } else if a.len() == 0 && b.len() == 0 {
        assert(a =~= b);
    }
}

/// Of two different steps, one sorts before the other.
pub proof fn lemma_seg_trichotomy(a: SegmentView, b: SegmentView)
    ensures
        seg_lt(a, b) || seg_lt(b, a) || a == b,
{
    match (a, b) {
        (SegmentView::Key(x), SegmentView::Key(y)) => {
            lemma_lex_trichotomy(x, y);
        },
        _ => {},
    }
}

/// Of two different paths, one sorts before the other.
pub proof fn lemma_path_trichotomy(a: Seq<SegmentView>, b: Seq<SegmentView>)
    ensures
        path_lt(a, b) || path_lt(b, a) || a == b,
    decreases a.len(),
{
    if a.len() > 0 && b.len() > 0 {
        if a[0] == b[0] {
            lemma_path_trichotomy(a.drop_first(), b.drop_first());
            if a.drop_first() == b.drop_first() {
                assert(a.drop_first().len() == b.drop_first().len());
                assert(a =~= b) by {
                    assert forall|i: int| 0 <= i < a.len() implies a[i] == b[i] by {
                        if i > 0 {
                            assert(a[i] == a.drop_first()[i - 1]);
                            assert(b[i] == b.drop_first()[i - 1]);
                        }
                    }
                }
            }
        } else {
            lemma_seg_trichotomy(a[0], b[0]);
        }
    } else if a.len() == 0 && b.len() == 0 {
        assert(a =~= b);
    }
}

/// When `a` sorts before `c`, any `b` sorts after `a` or before `c`.
pub proof fn lemma_path_split(a: Seq<SegmentView>, b: Seq<SegmentView>, c: Seq<SegmentView>)
    requires
        path_lt(a, c),
    ensures
        path_lt(a, b) || path_lt(b, c),
{
    lemma_path_trichotomy(a, b);
    if path_lt(b, a) {
        lemma_path_transitive(b, a, c);
    }
}

} // verus!
