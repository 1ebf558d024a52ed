//! Flattening a value tree and building a tree back from the entries gives
//! the value again: the entries' dotted paths name the places the values
//! came from, and their recorded types give the values back.

use vstd::prelude::*;
use super::{ItemView, SegmentView, path_text, written_text};
use super::hierarchical::{
    JsonView, array_key_spec, build_tree, empty_object, flat, flat_elements, flat_members,
    lemma_lex_irreflexive, lex_lt, obj_get, obj_set, path_parts, spec_insert, typed_value,
    walk_pos, lemma_int_text_reads_back, lemma_walk_pos,
};
use crate::text::{
    lacks, all_digits, decimal, first_index_of, int_text, is_digit, lemma_decimal_reads_back,
    parse_i64_spec, parse_usize_spec, split_on, without_plus,
};

verus! {

/// The pieces between the dots of a path's text, built step by step: a key
/// after the first starts a new piece, an index is appended to the piece
/// before it.
pub open spec fn seg_pieces(segs: Seq<SegmentView>) -> Seq<Seq<char>>
    decreases segs.len(),
{
    if segs.len() == 0 {
        seq![Seq::empty()]
    } else {
        let prev = seg_pieces(segs.drop_last());
        match segs.last() {
            SegmentView::Key(k) => if segs.len() > 1 {
                prev.push(k)
            } else {
                prev.update(prev.len() - 1, prev.last() + k)
            },
            SegmentView::Index(i) => prev.update(
                prev.len() - 1,
                prev.last() + seq!['['] + decimal(i as nat) + seq![']'],
            ),
        }
    }
}

proof fn lemma_seg_pieces_len(segs: Seq<SegmentView>)
    ensures
        seg_pieces(segs).len() >= 1,
    decreases segs.len(),
{
    if segs.len() > 0 {
        lemma_seg_pieces_len(segs.drop_last());
    }
}

/// Whether every key of the path lacks dots.
pub open spec fn keys_lack_dots(segs: Seq<SegmentView>) -> bool {
    forall|i: int| 0 <= i < segs.len() ==> (#[trigger] segs[i] matches SegmentView::Key(k) ==> lacks(k, '.'))
}

/// The text of a path splits at its dots into the path's pieces.
proof fn lemma_text_pieces(segs: Seq<SegmentView>)
    requires
        keys_lack_dots(segs),
    ensures
        split_on(path_text(segs), '.') == seg_pieces(segs),
    decreases segs.len(),
{
    if segs.len() == 0 {
        assert(split_on(Seq::<char>::empty(), '.') == seq![Seq::<char>::empty()]);
    } else {
        let prev = segs.drop_last();
        assert(keys_lack_dots(prev)) by {
            assert forall|i: int| 0 <= i < prev.len() implies (#[trigger] prev[i] matches SegmentView::Key(k)
                ==> lacks(k, '.')) by {
                assert(prev[i] == segs[i]);
            }
        }
        lemma_text_pieces(prev);
        lemma_seg_pieces_len(prev);
        let before = path_text(prev);
        assert(segs[segs.len() - 1] == segs.last());
        match segs.last() {
            SegmentView::Key(k) => {
                if segs.len() > 1 {
                    let b2 = before.push('.');
                    assert(split_on(b2, '.') == split_on(before, '.').push(Seq::<char>::empty())) by {
                        assert(b2.drop_last() =~= before);
                    }
                    crate::text::lemma_split_extend(b2, k, '.');
                    assert(before + seq!['.'] + k =~= b2 + k);
                    let r = split_on(before, '.');
                    assert(r.push(Seq::<char>::empty()).update(r.len() as int, Seq::<char>::empty() + k) =~= r.push(k));
                } else {
                    crate::text::lemma_split_extend(before, k, '.');
                }
            },
            SegmentView::Index(n) => {
                let tail = seq!['['] + decimal(n as nat) + seq![']'];
                lemma_decimal_reads_back(n as nat);
                assert(lacks(tail, '.')) by {
                    assert forall|i: int| 0 <= i < tail.len() implies tail[i] != '.' by {
                        if 0 < i < tail.len() - 1 {
                            assert(tail[i] == decimal(n as nat)[i - 1]);
                            assert(is_digit(decimal(n as nat)[i - 1]));
                        }
                    }
                }
                crate::text::lemma_split_extend(before, tail, '.');
                assert(before + seq!['['] + decimal(n as nat) + seq![']'] =~= before + tail);
                let r = split_on(before, '.');
                assert(r.last() + seq!['['] + decimal(n as nat) + seq![']'] =~= r.last() + tail);
            },
        }
    }
}

/// Whether a key can stand in a path's text: no dots and no brackets.
pub open spec fn plain_key(k: Seq<char>) -> bool {
    lacks(k, '.') && lacks(k, '[') && lacks(k, ']')
}

/// A plain key is a part without an index.
proof fn lemma_plain_part(k: Seq<char>)
    requires
        plain_key(k),
    ensures
        array_key_spec(k) == (k, None::<nat>),
{
    assert(!(exists|i: int| 0 <= i < k.len() && k[i] == '['));
}

/// A plain key with an index in brackets is that key and index.
proof fn lemma_indexed_part(k: Seq<char>, n: usize)
    requires
        plain_key(k),
    ensures
        array_key_spec(k + seq!['['] + decimal(n as nat) + seq![']']) == (k, Some(n as nat)),
{
    let d = decimal(n as nat);
    let p = k + seq!['['] + d + seq![']'];
    lemma_decimal_reads_back(n as nat);
    assert(p[k.len() as int] == '[');
    let s = k.len() as int;
    assert(exists|i: int| 0 <= i < p.len() && p[i] == '[');
    let c = choose|i: int| 0 <= i < p.len() && p[i] == '[' && forall|j: int| 0 <= j < i ==> p[j] != '[';
    assert(forall|j: int| 0 <= j < s ==> p[j] != '[') by {
        assert forall|j: int| 0 <= j < s implies p[j] != '[' by {
            assert(p[j] == k[j]);
        }
    }
    assert(0 <= s < p.len() && p[s] == '[' && forall|j: int| 0 <= j < s ==> p[j] != '[');
    if c < s {
        assert(p[c] == k[c]);
    } else if c > s {
        assert(p[s] != '[');
    }
    assert(first_index_of(p, '[') == Some(s));
    assert(p.last() == ']');
    assert(p.take(s) =~= k);
    assert(p.subrange(s + 1, p.len() - 1) =~= d);
    assert(is_digit(d[0]));
    assert(without_plus(d) == d);
}

/// Whether a path is one that the entries of a tree have: it begins with a
/// key, every key is plain, and every index follows a key.
pub open spec fn good_path(segs: Seq<SegmentView>) -> bool {
    &&& segs.len() > 0
    &&& segs[0] is Key
    &&& forall|i: int| 0 <= i < segs.len() ==> (#[trigger] segs[i] matches SegmentView::Key(k) ==> plain_key(k))
    &&& forall|i: int| 0 < i < segs.len() ==> (#[trigger] segs[i] is Index ==> segs[i - 1] is Key)
}

/// The parts of a good path: each key, with the index that follows it.
pub open spec fn parts_of(segs: Seq<SegmentView>) -> Seq<(Seq<char>, Option<nat>)>
    decreases segs.len(),
{
    if segs.len() == 0 {
        Seq::empty()
    } else {
        let prev = parts_of(segs.drop_last());
        match segs.last() {
            SegmentView::Key(k) => prev.push((k, None)),
            SegmentView::Index(i) => if prev.len() > 0 {
                prev.update(prev.len() - 1, (prev.last().0, Some(i as nat)))
            } else {
                prev
            },
        }
    }
}

proof fn lemma_good_prefix(segs: Seq<SegmentView>)
    requires
        good_path(segs),
        segs.len() > 1,
    ensures
        good_path(segs.drop_last()),
{
    let p = segs.drop_last();
    assert(p[0] == segs[0]);
    assert forall|i: int| 0 <= i < p.len() implies (#[trigger] p[i] matches SegmentView::Key(k) ==> plain_key(k)) by {
        assert(p[i] == segs[i]);
    }
    assert forall|i: int| 0 < i < p.len() && (#[trigger] p[i] is Index) implies p[i - 1] is Key by {
        assert(p[i] == segs[i]);
        assert(p[i - 1] == segs[i - 1]);
    }
}

/// The dotted text of a good path reads back as its parts.
pub proof fn lemma_path_parts(segs: Seq<SegmentView>)
    requires
        good_path(segs),
    ensures
        path_parts(path_text(segs)) == parts_of(segs),
        parts_of(segs).len() == seg_pieces(segs).len(),
        segs.last() matches SegmentView::Key(k) ==> seg_pieces(segs).last() == k,
        segs.last() matches SegmentView::Index(n) ==> (segs.len() > 1 && (segs[segs.len() - 2] matches SegmentView::Key(
            k,
        ) && seg_pieces(segs).last() == k + seq!['['] + decimal(n as nat) + seq![']'])),
    decreases segs.len(),
{
    assert(keys_lack_dots(segs)) by {
        assert forall|i: int| 0 <= i < segs.len() implies (#[trigger] segs[i] matches SegmentView::Key(k)
            ==> lacks(k, '.')) by {}
    }
    lemma_text_pieces(segs);
    let pieces = seg_pieces(segs);
    assert(segs[segs.len() - 1] == segs.last());
    if segs.len() == 1 {
        let e = segs.drop_last();
        assert(e =~= Seq::<SegmentView>::empty());
        assert(seg_pieces(e) == seq![Seq::<char>::empty()]);
        assert(parts_of(e) == Seq::<(Seq<char>, Option<nat>)>::empty());
        if let SegmentView::Key(k) = segs.last() {
            assert(seq![Seq::<char>::empty()].update(0, Seq::<char>::empty() + k) =~= seq![k]);
            lemma_plain_part(k);
            assert(pieces == seg_pieces(e).update(0, seg_pieces(e).last() + k));
            assert(pieces =~= seq![k]);
            assert(parts_of(segs) == parts_of(e).push((k, None::<nat>)));
            assert(pieces.map_values(|p: Seq<char>| array_key_spec(p)) =~= seq![(k, None::<nat>)]);
            assert(parts_of(segs) =~= seq![(k, None::<nat>)]);
        }
    } else {
        let prev = segs.drop_last();
        lemma_good_prefix(segs);
        lemma_path_parts(prev);
        lemma_text_pieces(prev);
        let pp = seg_pieces(prev);
        lemma_seg_pieces_len(prev);
        assert(prev.last() == segs[segs.len() - 2]);
        match segs.last() {
            SegmentView::Key(k) => {
                lemma_plain_part(k);
                assert(pieces == pp.push(k));
                assert(pieces.map_values(|p: Seq<char>| array_key_spec(p)) =~= pp.map_values(
                    |p: Seq<char>| array_key_spec(p),
                ).push((k, None::<nat>)));
            },
            SegmentView::Index(n) => {
                assert(segs[segs.len() - 1] is Index);
                assert(segs[segs.len() - 2] is Key);
                if let SegmentView::Key(k) = prev.last() {
                    assert(plain_key(k));
                    lemma_indexed_part(k, n);
                    assert(pp.last() == k);
                    let np = k + seq!['['] + decimal(n as nat) + seq![']'];
                    assert(pieces == pp.update(pp.len() - 1, pp.last() + seq!['['] + decimal(n as nat) + seq![']']));
                    assert(pieces =~= pp.update(pp.len() - 1, np));
                    let pv = pp.map_values(|p: Seq<char>| array_key_spec(p));
                    assert(pv.last() == (k, None::<nat>)) by {
                        lemma_plain_part(k);
                    }
                    assert(pieces.map_values(|p: Seq<char>| array_key_spec(p)) =~= pv.update(
                        pv.len() - 1,
                        (k, Some(n as nat)),
                    ));
                }
            },
        }
    }
}

/// The places and values of the leaves of `w`, standing at path `s`, in
/// the order that flattening lists them.
pub open spec fn at(w: JsonView, s: Seq<SegmentView>) -> Seq<(Seq<(Seq<char>, Option<nat>)>, JsonView)>
    decreases w, 1nat, 0int,
{
    match w {
        JsonView::Object(es) => at_members(es, s, es.len() as int),
        JsonView::Array(xs) => at_elements(xs, s, xs.len() as int),
        _ => seq![(parts_of(s), w)],
    }
}

/// The leaves of the first `n` members of an object at `s`.
pub open spec fn at_members(es: Seq<(Seq<char>, JsonView)>, s: Seq<SegmentView>, n: int) -> Seq<
    (Seq<(Seq<char>, Option<nat>)>, JsonView),
>
    decreases es, 0nat, n,
{
    if n <= 0 || n > es.len() {
        Seq::empty()
    } else {
        at_members(es, s, n - 1) + at(es[n - 1].1, s.push(SegmentView::Key(es[n - 1].0)))
    }
}

/// The leaves of the first `n` elements of an array at `s`.
pub open spec fn at_elements(xs: Seq<JsonView>, s: Seq<SegmentView>, n: int) -> Seq<
    (Seq<(Seq<char>, Option<nat>)>, JsonView),
>
    decreases xs, 0nat, n,
{
    if n <= 0 || n > xs.len() {
        Seq::empty()
    } else {
        at_elements(xs, s, n - 1) + at(xs[n - 1], s.push(SegmentView::Index((n - 1) as usize)))
    }
}

/// The places and written values of the entries that are no groups.
pub open spec fn leaves(items: Seq<ItemView>) -> Seq<(Seq<(Seq<char>, Option<nat>)>, JsonView)>
    decreases items.len(),
{
    if items.len() == 0 {
        Seq::empty()
    } else {
        let prev = leaves(items.drop_last());
        let v = items.last();
        if v.is_group {
            prev
        } else {
            prev.push((path_parts(path_text(v.path)), typed_value(written_text(v), v.value_type)))
        }
    }
}

proof fn lemma_leaves_concat(a: Seq<ItemView>, b: Seq<ItemView>)
    ensures
        leaves(a + b) == leaves(a) + leaves(b),
    decreases b.len(),
{
    if b.len() == 0 {
        assert(a + b =~= a);
        assert(leaves(a) + leaves(b) =~= leaves(a));
    } else {
        lemma_leaves_concat(a, b.drop_last());
        assert((a + b).drop_last() =~= a + b.drop_last());
        assert((a + b).last() == b.last());
        if !b.last().is_group {
            assert(leaves(a) + leaves(b.drop_last()).push((
                path_parts(path_text(b.last().path)),
                typed_value(written_text(b.last()), b.last().value_type),
            )) =~= (leaves(a) + leaves(b.drop_last())).push((
                path_parts(path_text(b.last().path)),
                typed_value(written_text(b.last()), b.last().value_type),
            )));
        }
    }
}

/// Whether the members' keys strictly increase.
pub open spec fn sorted_keys(es: Seq<(Seq<char>, JsonView)>) -> bool {
    forall|i: int, j: int| 0 <= i < j < es.len() ==> lex_lt(#[trigger] es[i].0, #[trigger] es[j].0)
}

/// Whether a value below the root comes back from its entries: objects and
/// arrays are not empty, object keys are plain and increase, arrays hold no
/// arrays directly and fit `usize` indices, integers are written as `i64`
/// writes them and other numbers are no `i64` text.
pub open spec fn rb_value(w: JsonView, in_array: bool) -> bool
    decreases w, 1nat, 0int,
{
    match w {
        JsonView::Object(es) => es.len() > 0 && sorted_keys(es) && rb_members(es, es.len() as int),
        JsonView::Array(xs) => !in_array && 0 < xs.len() <= usize::MAX && rb_elements(xs, xs.len() as int),
        JsonView::Number(n) => exists|k: int| i64::MIN <= k <= i64::MAX && n == #[trigger] int_text(k),
        JsonView::Float(t) => parse_i64_spec(t) is None,
        _ => true,
    }
}

/// Whether the first `n` members have plain keys and values that come back.
pub open spec fn rb_members(es: Seq<(Seq<char>, JsonView)>, n: int) -> bool
    decreases es, 0nat, n,
{
    if n <= 0 || n > es.len() {
        true
    } else {
        rb_members(es, n - 1) && plain_key(es[n - 1].0) && rb_value(es[n - 1].1, false)
    }
}

/// Whether the first `n` elements come back.
pub open spec fn rb_elements(xs: Seq<JsonView>, n: int) -> bool
    decreases xs, 0nat, n,
{
    if n <= 0 || n > xs.len() {
        true
    } else {
        rb_elements(xs, n - 1) && rb_value(xs[n - 1], true)
    }
}

/// Whether a document comes back from its entries: an object (possibly
/// empty) with increasing plain keys, whose members come back.
pub open spec fn rebuildable(v: JsonView) -> bool {
    v matches JsonView::Object(es) && sorted_keys(es) && rb_members(es, es.len() as int)
}

proof fn lemma_good_push_key(s: Seq<SegmentView>, k: Seq<char>)
    requires
        s.len() == 0 || good_path(s),
        plain_key(k),
    ensures
        good_path(s.push(SegmentView::Key(k))),
{
    let t = s.push(SegmentView::Key(k));
    if s.len() > 0 {
        assert(t[0] == s[0]);
    }
    assert forall|i: int| 0 <= i < t.len() implies (#[trigger] t[i] matches SegmentView::Key(q) ==> plain_key(q)) by {
        if i < s.len() {
            assert(t[i] == s[i]);
        }
    }
    assert forall|i: int| 0 < i < t.len() && (#[trigger] t[i] is Index) implies t[i - 1] is Key by {
        if i < s.len() {
            assert(t[i] == s[i]);
            assert(t[i - 1] == s[i - 1]);
        }
    }
}

proof fn lemma_good_push_index(s: Seq<SegmentView>, j: usize)
    requires
        good_path(s),
        s.last() is Key,
    ensures
        good_path(s.push(SegmentView::Index(j))),
{
    let t = s.push(SegmentView::Index(j));
    assert(t[0] == s[0]);
    assert forall|i: int| 0 <= i < t.len() implies (#[trigger] t[i] matches SegmentView::Key(q) ==> plain_key(q)) by {
        if i < s.len() {
            assert(t[i] == s[i]);
        }
    }
    assert forall|i: int| 0 < i < t.len() && (#[trigger] t[i] is Index) implies t[i - 1] is Key by {
        if i < s.len() {
            assert(t[i] == s[i]);
            assert(t[i - 1] == s[i - 1]);
        } else {
            assert(t[i - 1] == s[s.len() - 1]);
        }
    }
}

/// The entries of a value list, as places and written values, are the
/// value's leaves.
proof fn lemma_leaves_flat(w: JsonView, s: Seq<SegmentView>, depth: nat, key: Seq<char>, in_array: bool)
    requires
        rb_value(w, in_array) || (s.len() == 0 && rebuildable(w)),
        s.len() > 0 ==> good_path(s),
        s.len() == 0 ==> w is Object,
        w is Array ==> s.len() > 0 && s.last() is Key,
    ensures
        leaves(flat(w, s, depth, key)) == at(w, s),
    decreases w, 1nat, 0int,
{
    let group = if s.len() > 0 {
        seq![super::hierarchical::group_item(key, s, depth)]
    } else {
        Seq::<ItemView>::empty()
    };
    let inner = if s.len() > 0 {
        depth + 1
    } else {
        depth
    };
    assert(leaves(group) =~= Seq::<(Seq<(Seq<char>, Option<nat>)>, JsonView)>::empty()) by {
        if s.len() > 0 {
            assert(group.drop_last() =~= Seq::<ItemView>::empty());
            assert(leaves(group.drop_last()) == Seq::<(Seq<(Seq<char>, Option<nat>)>, JsonView)>::empty());
            assert(group.last().is_group);
        }
    }
    match w {
        JsonView::Object(es) => {
            lemma_leaves_members(es, s, inner, es.len() as int);
            lemma_leaves_concat(group, flat_members(es, s, inner, es.len() as int));
            assert(leaves(group) + at_members(es, s, es.len() as int) =~= at_members(es, s, es.len() as int));
        },
        JsonView::Array(xs) => {
            lemma_leaves_elements(xs, s, inner, xs.len() as int);
            lemma_leaves_concat(group, flat_elements(xs, s, inner, xs.len() as int));
            assert(leaves(group) + at_elements(xs, s, xs.len() as int) =~= at_elements(xs, s, xs.len() as int));
        },
        _ => {
            lemma_path_parts(s);
            super::hierarchical::law_type_preserved(w, s, depth, key);
            let items = flat(w, s, depth, key);
            assert(items.drop_last() =~= Seq::<ItemView>::empty());
            assert(leaves(items.drop_last()) == Seq::<(Seq<(Seq<char>, Option<nat>)>, JsonView)>::empty());
            let v = items.last();
            assert(v == items[0]);
            assert(!v.is_group);
            assert(written_text(v) == v.value.unwrap());
            assert(leaves(items) == leaves(items.drop_last()).push(
                (path_parts(path_text(v.path)), typed_value(written_text(v), v.value_type)),
            ));
            assert(leaves(items) =~= seq![(parts_of(s), w)]);
        },
    }
}

proof fn lemma_leaves_members(es: Seq<(Seq<char>, JsonView)>, s: Seq<SegmentView>, depth: nat, n: int)
    requires
        rb_members(es, es.len() as int),
        s.len() > 0 ==> good_path(s),
        0 <= n <= es.len(),
    ensures
        leaves(flat_members(es, s, depth, n)) == at_members(es, s, n),
    decreases es, 0nat, n,
{
    if n > 0 {
        lemma_leaves_members(es, s, depth, n - 1);
        lemma_rb_member(es, es.len() as int, n - 1);
        let k = es[n - 1].0;
        lemma_good_push_key(s, k);
        lemma_leaves_flat(es[n - 1].1, s.push(SegmentView::Key(k)), depth, k, false);
        lemma_leaves_concat(flat_members(es, s, depth, n - 1), flat(es[n - 1].1, s.push(SegmentView::Key(k)), depth, k));
    } else {
        assert(leaves(Seq::<ItemView>::empty()) == Seq::<(Seq<(Seq<char>, Option<nat>)>, JsonView)>::empty());
    }
}

proof fn lemma_leaves_elements(xs: Seq<JsonView>, s: Seq<SegmentView>, depth: nat, n: int)
    requires
        rb_elements(xs, xs.len() as int),
        xs.len() <= usize::MAX,
        good_path(s),
        s.last() is Key,
        0 <= n <= xs.len(),
    ensures
        leaves(flat_elements(xs, s, depth, n)) == at_elements(xs, s, n),
    decreases xs, 0nat, n,
{
    if n > 0 {
        lemma_leaves_elements(xs, s, depth, n - 1);
        lemma_rb_element(xs, xs.len() as int, n - 1);
        let j = (n - 1) as usize;
        lemma_good_push_index(s, j);
        let k = super::hierarchical::index_key((n - 1) as nat);
        lemma_leaves_flat(xs[n - 1], s.push(SegmentView::Index(j)), depth, k, true);
        lemma_leaves_concat(flat_elements(xs, s, depth, n - 1), flat(xs[n - 1], s.push(SegmentView::Index(j)), depth, k));
    } else {
        assert(leaves(Seq::<ItemView>::empty()) == Seq::<(Seq<(Seq<char>, Option<nat>)>, JsonView)>::empty());
    }
}

/// A member of a list whose first `n` members come back comes back.
proof fn lemma_rb_member(es: Seq<(Seq<char>, JsonView)>, n: int, i: int)
    requires
        rb_members(es, n),
        0 <= i < n <= es.len(),
    ensures
        plain_key(es[i].0),
        rb_value(es[i].1, false),
    decreases n,
{
    if i < n - 1 {
        lemma_rb_member(es, n - 1, i);
    }
}

/// An element of a list whose first `n` elements come back comes back.
proof fn lemma_rb_element(xs: Seq<JsonView>, n: int, i: int)
    requires
        rb_elements(xs, n),
        0 <= i < n <= xs.len(),
    ensures
        rb_value(xs[i], true),
    decreases n,
{
    if i < n - 1 {
        lemma_rb_element(xs, n - 1, i);
    }
}

/// The tree after the values are put at their places, one after another.
pub open spec fn fold_parts(t: JsonView, l: Seq<(Seq<(Seq<char>, Option<nat>)>, JsonView)>) -> JsonView
    decreases l.len(),
{
    if l.len() == 0 {
        t
    } else {
        spec_insert(fold_parts(t, l.drop_last()), l.last().0, l.last().1)
    }
}

proof fn lemma_fold_concat(
    t: JsonView,
    a: Seq<(Seq<(Seq<char>, Option<nat>)>, JsonView)>,
    b: Seq<(Seq<(Seq<char>, Option<nat>)>, JsonView)>,
)
    ensures
        fold_parts(t, a + b) == fold_parts(fold_parts(t, a), b),
    decreases b.len(),
{
    if b.len() == 0 {
        assert(a + b =~= a);
    } else {
        lemma_fold_concat(t, a, b.drop_last());
        assert((a + b).drop_last() =~= a + b.drop_last());
        assert((a + b).last() == b.last());
    }
}

/// Folding a list is putting its first value, then folding the rest.
proof fn lemma_fold_first(t: JsonView, l: Seq<(Seq<(Seq<char>, Option<nat>)>, JsonView)>)
    requires
        l.len() > 0,
    ensures
        fold_parts(t, l) == fold_parts(spec_insert(t, l[0].0, l[0].1), l.drop_first()),
{
    lemma_fold_concat(t, seq![l[0]], l.drop_first());
    assert(seq![l[0]] + l.drop_first() =~= l);
    assert(seq![l[0]].drop_last() =~= Seq::<(Seq<(Seq<char>, Option<nat>)>, JsonView)>::empty());
    assert(fold_parts(t, Seq::<(Seq<(Seq<char>, Option<nat>)>, JsonView)>::empty()) == t);
    assert(fold_parts(t, seq![l[0]]) == spec_insert(t, l[0].0, l[0].1));
}

/// Building a tree from entries folds the places and values of the entries
/// that are no groups.
proof fn lemma_build_fold(items: Seq<ItemView>, n: int)
    requires
        0 <= n <= items.len(),
    ensures
        build_tree(items, n) == fold_parts(empty_object(), leaves(items.take(n))),
    decreases n,
{
    if n == 0 {
        assert(items.take(0) =~= Seq::<ItemView>::empty());
        assert(leaves(Seq::<ItemView>::empty()) == Seq::<(Seq<(Seq<char>, Option<nat>)>, JsonView)>::empty());
        assert(fold_parts(empty_object(), Seq::<(Seq<(Seq<char>, Option<nat>)>, JsonView)>::empty()) == empty_object());
    } else {
        lemma_build_fold(items, n - 1);
        let t = items.take(n);
        assert(t.drop_last() =~= items.take(n - 1));
        assert(t.last() == items[n - 1]);
        let v = items[n - 1];
        let prev = leaves(items.take(n - 1));
        if !v.is_group {
            let x = (path_parts(path_text(v.path)), typed_value(written_text(v), v.value_type));
            assert(leaves(t) == prev.push(x));
            assert(prev.push(x).drop_last() =~= prev);
            assert(fold_parts(empty_object(), prev.push(x)) == spec_insert(fold_parts(empty_object(), prev), x.0, x.1));
        } else {
            assert(leaves(t) == prev);
        }
    }
}

/// Every key of the members sorts before `k`.
pub open spec fn below(es: Seq<(Seq<char>, JsonView)>, k: Seq<char>) -> bool {
    forall|j: int| 0 <= j < es.len() ==> lex_lt(#[trigger] es[j].0, k)
}

/// A key after all members is not found and is set at the end; a key at the
/// end after smaller ones is found there and set in place.
proof fn lemma_obj_end(es: Seq<(Seq<char>, JsonView)>, k: Seq<char>, c: JsonView, v: JsonView)
    requires
        below(es, k),
    ensures
        obj_get(es, k) is None,
        obj_set(es, k, v) == es.push((k, v)),
        obj_get(es.push((k, c)), k) == Some(c),
        obj_set(es.push((k, c)), k, v) == es.push((k, v)),
{
    lemma_walk_pos(es, k);
    assert(walk_pos(es, k) == es.len());
    assert(es.insert(es.len() as int, (k, v)) =~= es.push((k, v)));
    let es2 = es.push((k, c));
    lemma_walk_pos(es2, k);
    lemma_lex_irreflexive(k);
    let w = walk_pos(es2, k);
    if w < es.len() {
        assert(es2[w] == es[w]);
    } else if w > es.len() {
        assert(lex_lt(es2[es.len() as int].0, k));
    }
    assert(w == es.len());
    assert(es2.update(es.len() as int, (k, v)) =~= es.push((k, v)));
}

/// Whether putting values below `frame(c)` at places that begin with `pre`
/// is putting them into `c` at the rest of the place.
pub open spec fn frame_ok(frame: spec_fn(JsonView) -> JsonView, pre: Seq<(Seq<char>, Option<nat>)>) -> bool {
    forall|c: JsonView, q: Seq<(Seq<char>, Option<nat>)>, leaf: JsonView|
        q.len() > 0 ==> #[trigger] spec_insert(frame(c), pre + q, leaf) == frame(spec_insert(c, q, leaf))
}

/// The place of the member `k` of an object placed by `frame`.
proof fn lemma_member_frame(
    frame: spec_fn(JsonView) -> JsonView,
    pre: Seq<(Seq<char>, Option<nat>)>,
    es: Seq<(Seq<char>, JsonView)>,
    k: Seq<char>,
)
    requires
        frame_ok(frame, pre),
        below(es, k),
    ensures
        frame_ok(|c: JsonView| frame(JsonView::Object(es.push((k, c)))), pre.push((k, None))),
{
    let g = |c: JsonView| frame(JsonView::Object(es.push((k, c))));
    assert forall|c: JsonView, q: Seq<(Seq<char>, Option<nat>)>, leaf: JsonView| q.len() > 0 implies #[trigger] spec_insert(
        g(c),
        pre.push((k, None)) + q,
        leaf,
    ) == g(spec_insert(c, q, leaf)) by {
        let q2 = seq![(k, None::<nat>)] + q;
        assert(pre.push((k, None)) + q =~= pre + q2);
        assert(spec_insert(frame(JsonView::Object(es.push((k, c)))), pre + q2, leaf) == frame(
            spec_insert(JsonView::Object(es.push((k, c))), q2, leaf),
        ));
        lemma_obj_end(es, k, c, spec_insert(c, q, leaf));
        assert(q2.drop_first() =~= q);
        assert(q2[0] == (k, None::<nat>));
    }
}

/// Putting a value below an object that lacks member `k`, at a place that
/// begins with `k`.
proof fn lemma_member_start(
    frame: spec_fn(JsonView) -> JsonView,
    pre: Seq<(Seq<char>, Option<nat>)>,
    es: Seq<(Seq<char>, JsonView)>,
    k: Seq<char>,
    q: Seq<(Seq<char>, Option<nat>)>,
    leaf: JsonView,
)
    requires
        frame_ok(frame, pre),
        below(es, k),
    ensures
        q.len() > 0 ==> spec_insert(frame(JsonView::Object(es)), pre.push((k, None)) + q, leaf) == frame(
            JsonView::Object(es.push((k, spec_insert(empty_object(), q, leaf)))),
        ),
        q.len() == 0 ==> spec_insert(frame(JsonView::Object(es)), pre.push((k, None)) + q, leaf) == frame(
            JsonView::Object(es.push((k, leaf))),
        ),
{
    let q2 = seq![(k, None::<nat>)] + q;
    assert(pre.push((k, None)) + q =~= pre + q2);
    assert(spec_insert(frame(JsonView::Object(es)), pre + q2, leaf) == frame(spec_insert(JsonView::Object(es), q2, leaf)));
    assert(q2.drop_first() =~= q);
    assert(q2[0] == (k, None::<nat>));
    lemma_obj_end(es, k, leaf, leaf);
    lemma_obj_end(es, k, leaf, spec_insert(empty_object(), q, leaf));
}

/// An array padded to one more element than it has ends with the filler.
proof fn lemma_pad_one(xs: Seq<JsonView>, fill: JsonView)
    ensures
        super::hierarchical::pad(xs, xs.len() + 1, fill) == xs.push(fill),
        super::hierarchical::pad(xs, xs.len(), fill) == xs,
{
    assert(xs + Seq::new(1, |_i: int| fill) =~= xs.push(fill));
}

/// The state of an array member `k` after its first `m` elements: absent
/// before the first, else an array of them.
pub open spec fn array_state(es: Seq<(Seq<char>, JsonView)>, k: Seq<char>, xs: Seq<JsonView>, m: int) -> JsonView {
    if m == 0 {
        JsonView::Object(es)
    } else {
        JsonView::Object(es.push((k, JsonView::Array(xs.take(m)))))
    }
}

/// The place of element `m` of the array member `k` of an object placed by
/// `frame`.
proof fn lemma_element_frame(
    frame: spec_fn(JsonView) -> JsonView,
    pre: Seq<(Seq<char>, Option<nat>)>,
    es: Seq<(Seq<char>, JsonView)>,
    k: Seq<char>,
    ys: Seq<JsonView>,
)
    requires
        frame_ok(frame, pre),
        below(es, k),
    ensures
        frame_ok(
            |c: JsonView| frame(JsonView::Object(es.push((k, JsonView::Array(ys.push(c)))))),
            pre.push((k, Some(ys.len()))),
        ),
{
    let h = |c: JsonView| frame(JsonView::Object(es.push((k, JsonView::Array(ys.push(c))))));
    let j = ys.len();
    assert forall|c: JsonView, q: Seq<(Seq<char>, Option<nat>)>, leaf: JsonView| q.len() > 0 implies #[trigger] spec_insert(
        h(c),
        pre.push((k, Some(j))) + q,
        leaf,
    ) == h(spec_insert(c, q, leaf)) by {
        let q2 = seq![(k, Some(j))] + q;
        let node = JsonView::Object(es.push((k, JsonView::Array(ys.push(c)))));
        assert(pre.push((k, Some(j))) + q =~= pre + q2);
        assert(spec_insert(frame(node), pre + q2, leaf) == frame(spec_insert(node, q2, leaf)));
        lemma_obj_end(es, k, JsonView::Array(ys.push(c)), JsonView::Array(ys.push(spec_insert(c, q, leaf))));
        lemma_pad_one(ys, c);
        assert(super::hierarchical::pad(ys.push(c), j + 1, empty_object()) == ys.push(c));
        assert(q2.drop_first() =~= q);
        assert(q2[0] == (k, Some(j)));
        assert(ys.push(c).update(j as int, spec_insert(c, q, leaf)) =~= ys.push(spec_insert(c, q, leaf)));
    }
}

/// Putting a value at element `m` of the array member `k` after its first
/// `m` elements.
proof fn lemma_element_start(
    frame: spec_fn(JsonView) -> JsonView,
    pre: Seq<(Seq<char>, Option<nat>)>,
    es: Seq<(Seq<char>, JsonView)>,
    k: Seq<char>,
    xs: Seq<JsonView>,
    m: int,
    q: Seq<(Seq<char>, Option<nat>)>,
    leaf: JsonView,
)
    requires
        frame_ok(frame, pre),
        below(es, k),
        0 <= m < xs.len(),
    ensures
        q.len() > 0 ==> spec_insert(frame(array_state(es, k, xs, m)), pre.push((k, Some(m as nat))) + q, leaf)
            == frame(JsonView::Object(es.push((k, JsonView::Array(xs.take(m).push(spec_insert(empty_object(), q, leaf))))))),
        q.len() == 0 ==> spec_insert(frame(array_state(es, k, xs, m)), pre.push((k, Some(m as nat))) + q, leaf)
            == frame(JsonView::Object(es.push((k, JsonView::Array(xs.take(m).push(leaf)))))),
{
    let q2 = seq![(k, Some(m as nat))] + q;
    let node = array_state(es, k, xs, m);
    assert(pre.push((k, Some(m as nat))) + q =~= pre + q2);
    assert(spec_insert(frame(node), pre + q2, leaf) == frame(spec_insert(node, q2, leaf)));
    assert(q2.drop_first() =~= q);
    assert(q2[0] == (k, Some(m as nat)));
    let ys = xs.take(m);
    let item = if q.len() == 0 {
        leaf
    } else {
        spec_insert(empty_object(), q, leaf)
    };
    let fill = if q.len() == 0 {
        JsonView::Null
    } else {
        empty_object()
    };
    lemma_obj_end(es, k, JsonView::Array(ys), JsonView::Array(ys.push(item)));
    lemma_pad_one(ys, fill);
    if m == 0 {
        assert(ys =~= Seq::<JsonView>::empty());
        assert(super::hierarchical::as_elements(obj_get(es, k)) == Seq::<JsonView>::empty());
    } else {
        assert(super::hierarchical::as_elements(obj_get(es.push((k, JsonView::Array(ys))), k)) == ys);
    }
    assert(ys.push(fill).update(m, item) =~= ys.push(item));
}

/// Whether the place `p` lies strictly below the place `base`.
pub open spec fn extends(p: Seq<(Seq<char>, Option<nat>)>, base: Seq<(Seq<char>, Option<nat>)>) -> bool {
    p.len() > base.len() && p.take(base.len() as int) == base
}

proof fn lemma_extends_push(p: Seq<(Seq<char>, Option<nat>)>, base: Seq<(Seq<char>, Option<nat>)>, x: (Seq<char>, Option<nat>))
    requires
        extends(p, base.push(x)) || p == base.push(x),
    ensures
        extends(p, base),
{
    assert(p.take(base.len() as int) =~= base.push(x).take(base.len() as int));
    assert(base.push(x).take(base.len() as int) =~= base);
}

proof fn lemma_parts_key(s: Seq<SegmentView>, k: Seq<char>)
    ensures
        parts_of(s.push(SegmentView::Key(k))) == parts_of(s).push((k, None)),
{
    assert(s.push(SegmentView::Key(k)).drop_last() =~= s);
}

proof fn lemma_parts_index(s: Seq<SegmentView>, k: Seq<char>, j: usize)
    ensures
        parts_of(s.push(SegmentView::Key(k)).push(SegmentView::Index(j))) == parts_of(s).push((k, Some(j as nat))),
{
    let t = s.push(SegmentView::Key(k));
    lemma_parts_key(s, k);
    assert(t.push(SegmentView::Index(j)).drop_last() =~= t);
    assert(parts_of(s).push((k, None)).update(parts_of(s).len() as int, (k, Some(j as nat))) =~= parts_of(s).push(
        (k, Some(j as nat)),
    ));
}

/// Which item of `a + b` sits at `i`.
proof fn lemma_concat_index<A>(a: Seq<A>, b: Seq<A>, i: int)
    requires
        0 <= i < a.len() + b.len(),
    ensures
        (a + b)[i] == if i < a.len() {
            a[i]
        } else {
            b[i - a.len()]
        },
{
}

/// Every leaf of an object lies below the object's place; every leaf of an
/// array lies below the place of the object that holds it; there is one.
proof fn lemma_at_shape(w: JsonView, s: Seq<SegmentView>, in_array: bool)
    requires
        rb_value(w, in_array),
        w is Array ==> s.len() > 0 && s.last() is Key,
    ensures
        at(w, s).len() > 0,
        w is Object ==> forall|i: int| 0 <= i < at(w, s).len() ==> extends(#[trigger] at(w, s)[i].0, parts_of(s)),
        w is Array ==> forall|i: int|
            0 <= i < at(w, s).len() ==> extends(#[trigger] at(w, s)[i].0, parts_of(s.drop_last())),
    decreases w, 1nat, 0int,
{
    match w {
        JsonView::Object(es) => {
            lemma_at_members_shape(es, s, es.len() as int);
        },
        JsonView::Array(xs) => {
            lemma_at_elements_shape(xs, s, xs.len() as int);
        },
        _ => {},
    }
}

proof fn lemma_at_members_shape(es: Seq<(Seq<char>, JsonView)>, s: Seq<SegmentView>, n: int)
    requires
        rb_members(es, es.len() as int),
        0 <= n <= es.len(),
    ensures
        n > 0 ==> at_members(es, s, n).len() > 0,
        forall|i: int| 0 <= i < at_members(es, s, n).len() ==> extends(#[trigger] at_members(es, s, n)[i].0, parts_of(s)),
    decreases es, 0nat, n,
{
    if n > 0 {
        lemma_at_members_shape(es, s, n - 1);
        lemma_rb_member(es, es.len() as int, n - 1);
        let k = es[n - 1].0;
        let w = es[n - 1].1;
        let s2 = s.push(SegmentView::Key(k));
        lemma_at_shape(w, s2, false);
        lemma_parts_key(s, k);
        let a = at_members(es, s, n - 1);
        let b = at(w, s2);
        assert forall|i: int| 0 <= i < at_members(es, s, n).len() implies extends(
            #[trigger] at_members(es, s, n)[i].0,
            parts_of(s),
        ) by {
            lemma_concat_index(a, b, i);
            if i >= a.len() {
                let p = b[i - a.len()].0;
                match w {
                    JsonView::Object(_) => {
                        lemma_extends_push(p, parts_of(s), (k, None));
                    },
                    JsonView::Array(_) => {
                        assert(s2.drop_last() =~= s);
                    },
                    _ => {
                        assert(b[i - a.len()].0 == parts_of(s2));
                        lemma_extends_push(p, parts_of(s), (k, None));
                    },
                }
            }
        }
    }
}

proof fn lemma_at_elements_shape(xs: Seq<JsonView>, s: Seq<SegmentView>, n: int)
    requires
        rb_elements(xs, xs.len() as int),
        0 <= n <= xs.len(),
        s.len() > 0,
        s.last() is Key,
    ensures
        n > 0 ==> at_elements(xs, s, n).len() > 0,
        forall|i: int|
            0 <= i < at_elements(xs, s, n).len() ==> extends(#[trigger] at_elements(xs, s, n)[i].0, parts_of(s.drop_last())),
    decreases xs, 0nat, n,
{
    if n > 0 {
        lemma_at_elements_shape(xs, s, n - 1);
        lemma_rb_element(xs, xs.len() as int, n - 1);
        let x = xs[n - 1];
        let j = (n - 1) as usize;
        let s2 = s.push(SegmentView::Index(j));
        lemma_at_shape(x, s2, true);
        let k = s.last()->Key_0;
        assert(s =~= s.drop_last().push(SegmentView::Key(k)));
        lemma_parts_index(s.drop_last(), k, j);
        let base = parts_of(s.drop_last());
        let a = at_elements(xs, s, n - 1);
        let b = at(x, s2);
        assert forall|i: int| 0 <= i < at_elements(xs, s, n).len() implies extends(
            #[trigger] at_elements(xs, s, n)[i].0,
            base,
        ) by {
            lemma_concat_index(a, b, i);
            if i >= a.len() {
                let p = b[i - a.len()].0;
                if x is Object {
                    lemma_extends_push(p, base, (k, Some(j as nat)));
                } else {
                    assert(p == parts_of(s2));
                    lemma_extends_push(p, base, (k, Some(j as nat)));
                }
            }
        }
    }
}

/// Putting the leaves of the first `n` members of an object, placed by
/// `frame`, into the empty object builds the object of those members.
proof fn lemma_fold_members(
    es: Seq<(Seq<char>, JsonView)>,
    s: Seq<SegmentView>,
    frame: spec_fn(JsonView) -> JsonView,
    n: int,
)
    requires
        frame_ok(frame, parts_of(s)),
        sorted_keys(es),
        rb_members(es, es.len() as int),
        0 <= n <= es.len(),
    ensures
        fold_parts(frame(empty_object()), at_members(es, s, n)) == frame(JsonView::Object(es.take(n))),
    decreases es, 0nat, n,
{
    if n == 0 {
        assert(es.take(0) =~= Seq::<(Seq<char>, JsonView)>::empty());
        assert(fold_parts(frame(empty_object()), Seq::<(Seq<(Seq<char>, Option<nat>)>, JsonView)>::empty()) == frame(
            empty_object(),
        ));
    } else {
        lemma_fold_members(es, s, frame, n - 1);
        lemma_rb_member(es, es.len() as int, n - 1);
        let k = es[n - 1].0;
        let w = es[n - 1].1;
        let prefix = es.take(n - 1);
        assert(below(prefix, k)) by {
            assert forall|j: int| 0 <= j < prefix.len() implies lex_lt(#[trigger] prefix[j].0, k) by {
                assert(prefix[j] == es[j]);
            }
        }
        lemma_fold_concat(frame(empty_object()), at_members(es, s, n - 1), at(w, s.push(SegmentView::Key(k))));
        lemma_fold_member(prefix, k, w, s, frame);
        assert(prefix.push((k, w)) =~= es.take(n));
    }
}

/// Putting the leaves of member `k` of an object, placed by `frame`, into
/// the object that has the members before it adds the member.
proof fn lemma_fold_member(
    prefix: Seq<(Seq<char>, JsonView)>,
    k: Seq<char>,
    w: JsonView,
    s: Seq<SegmentView>,
    frame: spec_fn(JsonView) -> JsonView,
)
    requires
        frame_ok(frame, parts_of(s)),
        below(prefix, k),
        rb_value(w, false),
    ensures
        fold_parts(frame(JsonView::Object(prefix)), at(w, s.push(SegmentView::Key(k)))) == frame(
            JsonView::Object(prefix.push((k, w))),
        ),
    decreases w, 1nat, 0int,
{
    let s2 = s.push(SegmentView::Key(k));
    let pre = parts_of(s);
    lemma_parts_key(s, k);
    let start = frame(JsonView::Object(prefix));
    match w {
        JsonView::Object(gs) => {
            let g = |c: JsonView| frame(JsonView::Object(prefix.push((k, c))));
            lemma_member_frame(frame, pre, prefix, k);
            lemma_fold_members(gs, s2, g, gs.len() as int);
            assert(gs.take(gs.len() as int) =~= gs);
            let l = at(w, s2);
            lemma_at_shape(w, s2, false);
            let p0 = l[0].0;
            let l0 = l[0].1;
            let q0 = p0.skip(pre.len() as int + 1);
            assert(p0 =~= pre.push((k, None)) + q0);
            lemma_member_start(frame, pre, prefix, k, q0, l0);
            assert(spec_insert(g(empty_object()), pre.push((k, None)) + q0, l0) == g(spec_insert(empty_object(), q0, l0)));
            lemma_fold_first(start, l);
            lemma_fold_first(g(empty_object()), l);
        },
        JsonView::Array(xs) => {
            lemma_fold_elements(prefix, k, xs, s, frame, xs.len() as int);
            assert(xs.take(xs.len() as int) =~= xs);
        },
        _ => {
            let l = at(w, s2);
            assert(l == seq![(pre.push((k, None)), w)]);
            lemma_member_start(frame, pre, prefix, k, Seq::empty(), w);
            assert(pre.push((k, None)) + Seq::<(Seq<char>, Option<nat>)>::empty() =~= pre.push((k, None)));
            lemma_fold_first(start, l);
            assert(l.drop_first() =~= Seq::<(Seq<(Seq<char>, Option<nat>)>, JsonView)>::empty());
        },
    }
}

/// Putting the leaves of the first `m` elements of the array member `k`
/// builds the array of those elements.
proof fn lemma_fold_elements(
    prefix: Seq<(Seq<char>, JsonView)>,
    k: Seq<char>,
    xs: Seq<JsonView>,
    s: Seq<SegmentView>,
    frame: spec_fn(JsonView) -> JsonView,
    m: int,
)
    requires
        frame_ok(frame, parts_of(s)),
        below(prefix, k),
        rb_elements(xs, xs.len() as int),
        xs.len() <= usize::MAX,
        0 <= m <= xs.len(),
    ensures
        fold_parts(frame(JsonView::Object(prefix)), at_elements(xs, s.push(SegmentView::Key(k)), m)) == frame(
            array_state(prefix, k, xs, m),
        ),
    decreases xs, 0nat, m,
{
    let s2 = s.push(SegmentView::Key(k));
    let pre = parts_of(s);
    let start = frame(JsonView::Object(prefix));
    if m == 0 {
        assert(fold_parts(start, Seq::<(Seq<(Seq<char>, Option<nat>)>, JsonView)>::empty()) == start);
    } else {
        lemma_fold_elements(prefix, k, xs, s, frame, m - 1);
        let j = (m - 1) as usize;
        let x = xs[m - 1];
        lemma_rb_element(xs, xs.len() as int, m - 1);
        let s3 = s2.push(SegmentView::Index(j));
        lemma_parts_index(s, k, j);
        lemma_fold_concat(start, at_elements(xs, s2, m - 1), at(x, s3));
        let before = frame(array_state(prefix, k, xs, m - 1));
        let ys = xs.take(m - 1);
        assert(ys.push(x) =~= xs.take(m));
        let l = at(x, s3);
        match x {
            JsonView::Object(gs) => {
                let h = |c: JsonView| frame(JsonView::Object(prefix.push((k, JsonView::Array(ys.push(c))))));
                lemma_element_frame(frame, pre, prefix, k, ys);
                lemma_fold_members(gs, s3, h, gs.len() as int);
                assert(gs.take(gs.len() as int) =~= gs);
                lemma_at_shape(x, s3, true);
                let p0 = l[0].0;
                let l0 = l[0].1;
                let q0 = p0.skip(pre.len() as int + 1);
                assert(p0 =~= pre.push((k, Some(j as nat))) + q0);
                lemma_element_start(frame, pre, prefix, k, xs, m - 1, q0, l0);
                assert(spec_insert(h(empty_object()), pre.push((k, Some(j as nat))) + q0, l0) == h(
                    spec_insert(empty_object(), q0, l0),
                ));
                lemma_fold_first(before, l);
                lemma_fold_first(h(empty_object()), l);
            },
            _ => {
                assert(l == seq![(pre.push((k, Some(j as nat))), x)]);
                lemma_element_start(frame, pre, prefix, k, xs, m - 1, Seq::empty(), x);
                assert(pre.push((k, Some(j as nat))) + Seq::<(Seq<char>, Option<nat>)>::empty() =~= pre.push(
                    (k, Some(j as nat)),
                ));
                lemma_fold_first(before, l);
                assert(l.drop_first() =~= Seq::<(Seq<(Seq<char>, Option<nat>)>, JsonView)>::empty());
            },
        }
    }
}

/// Flattening a document into entries and building a tree back from them
/// gives the document again, for documents whose values all come back
/// (see `rebuildable`): nested objects and arrays are re-nested where they
/// were, and each value gets its type back.
pub proof fn law_flatten_rebuild(v: JsonView)
    requires
        rebuildable(v),
    ensures
        build_tree(flat(v, Seq::empty(), 0, Seq::empty()), flat(v, Seq::empty(), 0, Seq::empty()).len() as int) == v,
{
    let items = flat(v, Seq::empty(), 0, Seq::empty());
    lemma_build_fold(items, items.len() as int);
    assert(items.take(items.len() as int) =~= items);
    lemma_leaves_flat(v, Seq::empty(), 0, Seq::empty(), false);
    let id = |c: JsonView| c;
    assert(frame_ok(id, parts_of(Seq::<SegmentView>::empty()))) by {
        assert(parts_of(Seq::<SegmentView>::empty()) == Seq::<(Seq<char>, Option<nat>)>::empty());
        assert forall|c: JsonView, q: Seq<(Seq<char>, Option<nat>)>, leaf: JsonView| q.len() > 0 implies #[trigger] spec_insert(
            id(c),
            Seq::<(Seq<char>, Option<nat>)>::empty() + q,
            leaf,
        ) == id(spec_insert(c, q, leaf)) by {
            assert(Seq::<(Seq<char>, Option<nat>)>::empty() + q =~= q);
        }
    }
    if let JsonView::Object(es) = v {
        lemma_fold_members(es, Seq::empty(), id, es.len() as int);
        assert(es.take(es.len() as int) =~= es);
    }
}

} // verus!
