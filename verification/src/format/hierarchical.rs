//! Nested formats (JSON, YAML, TOML, XML) seen through one value tree: a
//! tree flattens into items, and items are inserted back into a tree.

use vstd::prelude::*;
use super::{
    ConfigItem, FormatType, ItemStatus, ItemView, PathSegment, SegmentView, ValueType, items_view,
    path_view, clone_path, path_text, written_text,
};
use crate::text::{
    all_digits, chars_of, chars_eq, decimal, decimal_chars, find_char, first_index_of, int_text,
    parse_i64_spec, parse_i64_text, parse_usize, parse_usize_spec, slice_chars, split_chars,
    split_on, string_of,
};

verus! {

/// A value tree of the kind that JSON describes. Object members are kept in
/// ascending order of their keys with no key twice, as in `serde_json`'s
/// default map.
#[derive(Debug)]
pub enum JsonValue {
    Null,
    Bool(bool),
    /// A number, held as the text that writes it.
    Number(String),
    /// Text to be read as a 64-bit floating-point number: a number where
    /// it reads as a finite one, and this text as a string otherwise.
    Float(String),
    Str(String),
    Array(Vec<JsonValue>),
    Object(Vec<(String, JsonValue)>),
}

/// The mathematical form of a value tree.
pub enum JsonView {
    Null,
    Bool(bool),
    Number(Seq<char>),
    Float(Seq<char>),
    Str(Seq<char>),
    Array(Seq<JsonView>),
    Object(Seq<(Seq<char>, JsonView)>),
}

/// The mathematical form of `v`.
pub open spec fn json_view(v: JsonValue) -> JsonView
    decreases v, 0nat,
{
    match v {
        JsonValue::Null => JsonView::Null,
        JsonValue::Bool(b) => JsonView::Bool(b),
        JsonValue::Number(n) => JsonView::Number(n@),
        JsonValue::Float(n) => JsonView::Float(n@),
        JsonValue::Str(s) => JsonView::Str(s@),
        JsonValue::Array(items) => JsonView::Array(array_view(items@, items@.len() as int)),
        JsonValue::Object(entries) => JsonView::Object(object_view(entries@, entries@.len() as int)),
    }
}

/// The mathematical forms of the first `n` elements.
pub open spec fn array_view(items: Seq<JsonValue>, n: int) -> Seq<JsonView>
    decreases items, n,
{
    if n <= 0 || n > items.len() {
        Seq::empty()
    } else {
        array_view(items, n - 1).push(json_view(items[n - 1]))
    }
}

/// The mathematical forms of the first `n` members.
pub open spec fn object_view(entries: Seq<(String, JsonValue)>, n: int) -> Seq<(Seq<char>, JsonView)>
    decreases entries, n,
{
    if n <= 0 || n > entries.len() {
        Seq::empty()
    } else {
        object_view(entries, n - 1).push((entries[n - 1].0@, json_view(entries[n - 1].1)))
    }
}

impl View for JsonValue {
    type V = JsonView;

    open spec fn view(&self) -> JsonView {
        json_view(*self)
    }
}

/// How deeply `v` nests: the number of arrays and objects on the longest
/// way down.
pub open spec fn json_height(v: JsonView) -> nat
    decreases v, 0nat,
{
    match v {
        JsonView::Array(items) => 1 + items_height(items, items.len() as int),
        JsonView::Object(entries) => 1 + entries_height(entries, entries.len() as int),
        _ => 0,
    }
}

/// The greatest height among the first `n` elements.
pub open spec fn items_height(items: Seq<JsonView>, n: int) -> nat
    decreases items, n,
{
    if n <= 0 || n > items.len() {
        0
    } else {
        let h = json_height(items[n - 1]);
        let rest = items_height(items, n - 1);
        if h > rest {
            h
        } else {
            rest
        }
    }
}

/// The greatest height among the values of the first `n` members.
pub open spec fn entries_height(entries: Seq<(Seq<char>, JsonView)>, n: int) -> nat
    decreases entries, n,
{
    if n <= 0 || n > entries.len() {
        0
    } else {
        let h = json_height(entries[n - 1].1);
        let rest = entries_height(entries, n - 1);
        if h > rest {
            h
        } else {
            rest
        }
    }
}


pub(crate) proof fn lemma_array_view(items: Seq<JsonValue>, n: int)
    requires
        0 <= n <= items.len(),
    ensures
        array_view(items, n).len() == n,
        forall|i: int| 0 <= i < n ==> #[trigger] array_view(items, n)[i] == json_view(items[i]),
    decreases n,
{
    if n > 0 {
        lemma_array_view(items, n - 1);
    }
}

pub(crate) proof fn lemma_object_view(entries: Seq<(String, JsonValue)>, n: int)
    requires
        0 <= n <= entries.len(),
    ensures
        object_view(entries, n).len() == n,
        forall|i: int|
            0 <= i < n ==> #[trigger] object_view(entries, n)[i] == (
                entries[i].0@,
                json_view(entries[i].1),
            ),
    decreases n,
{
    if n > 0 {
        lemma_object_view(entries, n - 1);
    }
}

proof fn lemma_items_height(items: Seq<JsonView>, n: int, i: int)
    requires
        0 <= i < n <= items.len(),
    ensures
        json_height(items[i]) <= items_height(items, n),
    decreases n,
{
    if i < n - 1 {
        lemma_items_height(items, n - 1, i);
    }
}

proof fn lemma_entries_height(entries: Seq<(Seq<char>, JsonView)>, n: int, i: int)
    requires
        0 <= i < n <= entries.len(),
    ensures
        json_height(entries[i].1) <= entries_height(entries, n),
    decreases n,
{
    if i < n - 1 {
        lemma_entries_height(entries, n - 1, i);
    }
}

/// The text that `bool`'s `Display` writes.
pub open spec fn bool_text(b: bool) -> Seq<char> {
    if b {
        seq!['t', 'r', 'u', 'e']
    } else {
        seq!['f', 'a', 'l', 's', 'e']
    }
}

/// The display name of an array element: its index in brackets.
pub open spec fn index_key(i: nat) -> Seq<char> {
    seq!['['] + decimal(i) + seq![']']
}

/// A leaf entry holding `text` as its active, template and default value.
pub open spec fn leaf_item(
    key: Seq<char>,
    path: Seq<SegmentView>,
    text: Seq<char>,
    depth: nat,
    t: ValueType,
) -> ItemView {
    ItemView {
        key,
        path,
        value: Some(text),
        template_value: Some(text),
        default_value: Some(text),
        depth: depth as usize,
        is_group: false,
        status: ItemStatus::Present,
        value_type: t,
    }
}

/// The entry that stands for an object or an array.
pub open spec fn group_item(key: Seq<char>, path: Seq<SegmentView>, depth: nat) -> ItemView {
    ItemView {
        key,
        path,
        value: None,
        template_value: None,
        default_value: None,
        depth: depth as usize,
        is_group: true,
        status: ItemStatus::Present,
        value_type: ValueType::Null,
    }
}

/// The entries that `v` flattens into, when it stands at `path` under the
/// name `key` and at nesting `depth`: objects and arrays give a group entry
/// (except at the root, whose path is empty) followed by the entries of
/// their members in order, one level deeper; other values give one leaf.
pub open spec fn flat(v: JsonView, path: Seq<SegmentView>, depth: nat, key: Seq<char>) -> Seq<ItemView>
    decreases v, 1nat, 0int,
{
    let group = if path.len() > 0 {
        seq![group_item(key, path, depth)]
    } else {
        Seq::empty()
    };
    let inner = if path.len() > 0 {
        depth + 1
    } else {
        depth
    };
    match v {
        JsonView::Object(es) => group + flat_members(es, path, inner, es.len() as int),
        JsonView::Array(xs) => group + flat_elements(xs, path, inner, xs.len() as int),
        JsonView::Str(s) => seq![leaf_item(key, path, s, depth, ValueType::String)],
        JsonView::Number(n) => seq![leaf_item(key, path, n, depth, ValueType::Number)],
        JsonView::Float(n) => seq![leaf_item(key, path, n, depth, ValueType::Number)],
        JsonView::Bool(b) => seq![leaf_item(key, path, bool_text(b), depth, ValueType::Bool)],
        JsonView::Null => seq![leaf_item(key, path, Seq::empty(), depth, ValueType::Null)],
    }
}

/// The entries of the first `n` members of an object at `path`.
pub open spec fn flat_members(
    es: Seq<(Seq<char>, JsonView)>,
    path: Seq<SegmentView>,
    depth: nat,
    n: int,
) -> Seq<ItemView>
    decreases es, 0nat, n,
{
    if n <= 0 || n > es.len() {
        Seq::empty()
    } else {
        flat_members(es, path, depth, n - 1) + flat(
            es[n - 1].1,
            path.push(SegmentView::Key(es[n - 1].0)),
            depth,
            es[n - 1].0,
        )
    }
}

/// The entries of the first `n` elements of an array at `path`.
pub open spec fn flat_elements(xs: Seq<JsonView>, path: Seq<SegmentView>, depth: nat, n: int) -> Seq<
    ItemView,
>
    decreases xs, 0nat, n,
{
    if n <= 0 || n > xs.len() {
        Seq::empty()
    } else {
        flat_elements(xs, path, depth, n - 1) + flat(
            xs[n - 1],
            path.push(SegmentView::Index((n - 1) as usize)),
            depth,
            index_key((n - 1) as nat),
        )
    }
}


/// The display name `[i]` of an array element.
pub fn index_key_string(i: usize) -> (s: String)
    ensures
        s@ == index_key(i as nat),
{
    let mut s = String::new();
    s.push('[');
    let d = decimal_chars(i);
    let ds = string_of(d.as_slice());
    s.append(ds.as_str());
    s.push(']');
    assert(s@ =~= index_key(i as nat));
    s
}

/// The text of a boolean.
pub fn bool_string(b: bool) -> (s: String)
    ensures
        s@ == bool_text(b),
{
    let mut s = String::new();
    if b {
        s.push('t');
        s.push('r');
        s.push('u');
        s.push('e');
    } else {
        s.push('f');
        s.push('a');
        s.push('l');
        s.push('s');
        s.push('e');
    }
    assert(s@ =~= bool_text(b));
    s
}

fn leaf(key: &String, path: &Vec<PathSegment>, text: &String, depth: usize, t: ValueType) -> (r:
    ConfigItem)
    ensures
        r@ == leaf_item(key@, path_view(path@), text@, depth as nat, t),
{
    ConfigItem {
        key: key.clone(),
        path: clone_path(path),
        value: Some(text.clone()),
        template_value: Some(text.clone()),
        default_value: Some(text.clone()),
        depth,
        is_group: false,
        status: ItemStatus::Present,
        value_type: t,
    }
}

fn group(key: &String, path: &Vec<PathSegment>, depth: usize) -> (r: ConfigItem)
    ensures
        r@ == group_item(key@, path_view(path@), depth as nat),
{
    ConfigItem {
        key: key.clone(),
        path: clone_path(path),
        value: None,
        template_value: None,
        default_value: None,
        depth,
        is_group: true,
        status: ItemStatus::Present,
        value_type: ValueType::Null,
    }
}

proof fn lemma_items_view_push(s: Seq<ConfigItem>, x: ConfigItem)
    ensures
        items_view(s.push(x)) == items_view(s).push(x@),
{
    assert(items_view(s.push(x)) =~= items_view(s).push(x@));
}

/// Appends to `vars` the entries that `value` flattens into when it stands
/// at `path` under the name `key_name` and at nesting `depth`.
pub fn flatten(
    value: &JsonValue,
    path: &Vec<PathSegment>,
    depth: usize,
    key_name: &String,
    vars: &mut Vec<ConfigItem>,
)
    requires
        depth + json_height(value@) <= usize::MAX,
    ensures
        items_view(final(vars)@) == items_view(old(vars)@) + flat(
            value@,
            path_view(path@),
            depth as nat,
            key_name@,
        ),
    decreases json_height(value@),
{
    let ghost pv = path_view(path@);
    let ghost start = items_view(vars@);
    match value {
        JsonValue::Object(entries) => {
            let ghost es = object_view(entries@, entries@.len() as int);
            proof {
                lemma_object_view(entries@, entries@.len() as int);
            }
            let ghost grp = if pv.len() > 0 {
                seq![group_item(key_name@, pv, depth as nat)]
            } else {
                Seq::empty()
            };
            if path.len() > 0 {
                let g = group(key_name, path, depth);
                proof {
                    lemma_items_view_push(vars@, g);
                }
                vars.push(g);
            }
            let inner = if path.len() > 0 {
                depth + 1
            } else {
                depth
            };
            assert(items_view(vars@) =~= start + grp + flat_members(es, pv, inner as nat, 0));
            let mut i: usize = 0;
            while i < entries.len()
                invariant
                    i <= entries@.len(),
                    es == object_view(entries@, entries@.len() as int),
                    es.len() == entries@.len(),
                    forall|k: int| 0 <= k < entries@.len() ==> #[trigger] es[k] == (
                        entries@[k].0@,
                        json_view(entries@[k].1),
                    ),
                    pv == path_view(path@),
                    value@ == JsonView::Object(es),
                    inner + entries_height(es, es.len() as int) <= usize::MAX,
                    items_view(vars@) == start + grp + flat_members(es, pv, inner as nat, i as int),
                decreases entries@.len() - i,
            {
                let mut child = clone_path(path);
                child.push(PathSegment::Key(entries[i].0.clone()));
                proof {
                    lemma_entries_height(es, es.len() as int, i as int);
                    assert(path_view(child@) =~= pv.push(SegmentView::Key(es[i as int].0)));
                }
                flatten(&entries[i].1, &child, inner, &entries[i].0, vars);
                i = i + 1;
                assert(items_view(vars@) =~= start + grp + flat_members(es, pv, inner as nat, i as int));
            }
        },
        JsonValue::Array(items) => {
            let ghost xs = array_view(items@, items@.len() as int);
            proof {
                lemma_array_view(items@, items@.len() as int);
            }
            let ghost grp = if pv.len() > 0 {
                seq![group_item(key_name@, pv, depth as nat)]
            } else {
                Seq::empty()
            };
            if path.len() > 0 {
                let g = group(key_name, path, depth);
                proof {
                    lemma_items_view_push(vars@, g);
                }
                vars.push(g);
            }
            let inner = if path.len() > 0 {
                depth + 1
            } else {
                depth
            };
            assert(items_view(vars@) =~= start + grp + flat_elements(xs, pv, inner as nat, 0));
            let mut i: usize = 0;
            while i < items.len()
                invariant
                    i <= items@.len(),
                    xs == array_view(items@, items@.len() as int),
                    xs.len() == items@.len(),
                    forall|k: int| 0 <= k < items@.len() ==> #[trigger] xs[k] == json_view(items@[k]),
                    pv == path_view(path@),
                    value@ == JsonView::Array(xs),
                    inner + items_height(xs, xs.len() as int) <= usize::MAX,
                    items_view(vars@) == start + grp + flat_elements(xs, pv, inner as nat, i as int),
                decreases items@.len() - i,
            {
                let mut child = clone_path(path);
                child.push(PathSegment::Index(i));
                let k = index_key_string(i);
                proof {
                    lemma_items_height(xs, xs.len() as int, i as int);
                    assert(path_view(child@) =~= pv.push(SegmentView::Index(i)));
                }
                flatten(&items[i], &child, inner, &k, vars);
                i = i + 1;
                assert(items_view(vars@) =~= start + grp + flat_elements(xs, pv, inner as nat, i as int));
            }
        },
        JsonValue::Str(s) => {
            let it = leaf(key_name, path, s, depth, ValueType::String);
            proof {
                lemma_items_view_push(vars@, it);
            }
            vars.push(it);
        },
        JsonValue::Number(n) | JsonValue::Float(n) => {
            let it = leaf(key_name, path, n, depth, ValueType::Number);
            proof {
                lemma_items_view_push(vars@, it);
            }
            vars.push(it);
        },
        JsonValue::Bool(b) => {
            let t = bool_string(*b);
            let it = leaf(key_name, path, &t, depth, ValueType::Bool);
            proof {
                lemma_items_view_push(vars@, it);
            }
            vars.push(it);
        },
        JsonValue::Null => {
            let t = String::new();
            let it = leaf(key_name, path, &t, depth, ValueType::Null);
            proof {
                lemma_items_view_push(vars@, it);
            }
            vars.push(it);
        },
    }
}


/// Whether `a` sorts strictly before `b`, character by character (for
/// strings this is the order of `String`'s `Ord`, since UTF-8 keeps code
/// point order).
pub open spec fn lex_lt(a: Seq<char>, b: Seq<char>) -> bool
    decreases a.len(),
{
    if a.len() == 0 {
        b.len() > 0
    } else if b.len() == 0 {
        false
    } else if a[0] != b[0] {
        a[0] < b[0]
    } else {
        lex_lt(a.drop_first(), b.drop_first())
    }
}

/// No key sorts before itself.
pub proof fn lemma_lex_irreflexive(a: Seq<char>)
    ensures
        !lex_lt(a, a),
    decreases a.len(),
{
    if a.len() > 0 {
        lemma_lex_irreflexive(a.drop_first());
    }
}

/// Whether `a` sorts before `b`.
pub fn lex_less(a: &Vec<char>, b: &Vec<char>) -> (r: bool)
    ensures
        r == lex_lt(a@, b@),
{
    let mut i: usize = 0;
    assert(a@.skip(0) == a@ && b@.skip(0) == b@);
    while i < a.len() && i < b.len() && a[i] == b[i]
        invariant
            i <= a@.len(),
            i <= b@.len(),
            a@.take(i as int) == b@.take(i as int),
            lex_lt(a@, b@) == lex_lt(a@.skip(i as int), b@.skip(i as int)),
        decreases a@.len() - i,
    {
        proof {
            assert(a@.skip(i as int).drop_first() == a@.skip(i + 1));
            assert(b@.skip(i as int).drop_first() == b@.skip(i + 1));
            assert(a@.take(i + 1) == a@.take(i as int).push(a@[i as int]));
            assert(b@.take(i + 1) == b@.take(i as int).push(b@[i as int]));
        }
        i = i + 1;
    }
    if i == a.len() {
        i < b.len()
    } else if i == b.len() {
        false
    } else {
        a[i] < b[i]
    }
}

/// How many leading members sort before `k`: the place where a search for
/// `k` stops.
pub open spec fn walk_pos(es: Seq<(Seq<char>, JsonView)>, k: Seq<char>) -> int
    decreases es.len(),
{
    if es.len() == 0 || !lex_lt(es[0].0, k) {
        0
    } else {
        1 + walk_pos(es.drop_first(), k)
    }
}

/// The value of member `k`, found as a search of an ordered map finds it.
pub open spec fn obj_get(es: Seq<(Seq<char>, JsonView)>, k: Seq<char>) -> Option<JsonView> {
    let i = walk_pos(es, k);
    if 0 <= i < es.len() && es[i].0 == k {
        Some(es[i].1)
    } else {
        None
    }
}

/// The members after member `k` is set to `v`: replaced where the search
/// finds it, else inserted where the search stops.
pub open spec fn obj_set(es: Seq<(Seq<char>, JsonView)>, k: Seq<char>, v: JsonView) -> Seq<
    (Seq<char>, JsonView),
> {
    let i = walk_pos(es, k);
    if 0 <= i < es.len() && es[i].0 == k {
        es.update(i, (k, v))
    } else {
        es.insert(i, (k, v))
    }
}

pub(crate) proof fn lemma_walk_pos(es: Seq<(Seq<char>, JsonView)>, k: Seq<char>)
    ensures
        0 <= walk_pos(es, k) <= es.len(),
        forall|j: int| 0 <= j < walk_pos(es, k) ==> lex_lt(#[trigger] es[j].0, k),
        walk_pos(es, k) < es.len() ==> !lex_lt(es[walk_pos(es, k)].0, k),
    decreases es.len(),
{
    if es.len() > 0 && lex_lt(es[0].0, k) {
        lemma_walk_pos(es.drop_first(), k);
        assert forall|j: int| 0 <= j < walk_pos(es, k) implies lex_lt(#[trigger] es[j].0, k) by {
            if j > 0 {
                assert(es[j] == es.drop_first()[j - 1]);
            }
        }
    }
}

proof fn lemma_walk_pos_prefix(es: Seq<(Seq<char>, JsonView)>, fs: Seq<(Seq<char>, JsonView)>, k: Seq<char>, i: int)
    requires
        0 <= i <= es.len(),
        i <= fs.len(),
        forall|j: int| 0 <= j < i ==> lex_lt(#[trigger] es[j].0, k) && fs[j] == es[j],
        i < fs.len() ==> !lex_lt(fs[i].0, k),
    ensures
        walk_pos(fs, k) == i,
    decreases i,
{
    if i > 0 {
        assert(lex_lt(es[0].0, k) && fs[0] == es[0]);
        assert forall|j: int| 0 <= j < i - 1 implies lex_lt(#[trigger] es.drop_first()[j].0, k)
            && fs.drop_first()[j] == es.drop_first()[j] by {
            assert(es.drop_first()[j] == es[j + 1]);
            assert(fs.drop_first()[j] == fs[j + 1]);
        }
        if i - 1 < fs.drop_first().len() {
            assert(fs.drop_first()[i - 1] == fs[i]);
        }
        lemma_walk_pos_prefix(es.drop_first(), fs.drop_first(), k, i - 1);
    }
}

/// Setting member `k` and then reading it gives back what was set.
pub proof fn lemma_obj_get_set(es: Seq<(Seq<char>, JsonView)>, k: Seq<char>, v: JsonView)
    ensures
        obj_get(obj_set(es, k, v), k) == Some(v),
{
    lemma_walk_pos(es, k);
    lemma_lex_irreflexive(k);
    let i = walk_pos(es, k);
    let fs = obj_set(es, k, v);
    assert(fs[i] == (k, v));
    lemma_walk_pos_prefix(es, fs, k, i);
}

/// The view of an exec list of members.
pub open spec fn members_view(es: Seq<(String, JsonValue)>) -> Seq<(Seq<char>, JsonView)> {
    object_view(es, es.len() as int)
}

pub(crate) proof fn lemma_members_view_ext(a: Seq<(String, JsonValue)>, b: Seq<(Seq<char>, JsonView)>)
    requires
        a.len() == b.len(),
        forall|i: int| 0 <= i < a.len() ==> (#[trigger] a[i]).0@ == b[i].0 && json_view(a[i].1) == b[i].1,
    ensures
        members_view(a) == b,
{
    lemma_object_view(a, a.len() as int);
    assert(members_view(a) =~= b);
}

/// Where a search for `key` stops among `es`, and whether it found `key` there.
pub fn obj_locate(es: &Vec<(String, JsonValue)>, key: &Vec<char>) -> (r: (usize, bool))
    ensures
        r.0 <= es@.len(),
        r.0 as int == walk_pos(members_view(es@), key@),
        r.1 == (r.0 < es@.len() && members_view(es@)[r.0 as int].0 == key@),
{
    let ghost mv = members_view(es@);
    proof {
        lemma_object_view(es@, es@.len() as int);
        lemma_walk_pos(mv, key@);
    }
    let mut i: usize = 0;
    while i < es.len()
        invariant
            i <= es@.len(),
            mv == members_view(es@),
            mv.len() == es@.len(),
            forall|j: int| 0 <= j < es@.len() ==> (#[trigger] mv[j]).0 == es@[j].0@,
            forall|j: int| 0 <= j < i ==> lex_lt(#[trigger] mv[j].0, key@),
            i <= walk_pos(mv, key@),
            0 <= walk_pos(mv, key@) <= mv.len(),
            walk_pos(mv, key@) < mv.len() ==> !lex_lt(mv[walk_pos(mv, key@)].0, key@),
        ensures
            i <= es@.len(),
            forall|j: int| 0 <= j < i ==> lex_lt(#[trigger] mv[j].0, key@),
            i < es@.len() ==> !lex_lt(mv[i as int].0, key@),
        decreases es@.len() - i,
    {
        let k = chars_of(es[i].0.as_str());
        if !lex_less(&k, key) {
            break;
        }
        proof {
            if walk_pos(mv, key@) == i {
                assert(false);
            }
        }
        i = i + 1;
    }
    proof {
        lemma_walk_pos_prefix(mv, mv, key@, i as int);
    }
    if i < es.len() {
        let k = chars_of(es[i].0.as_str());
        let f = chars_eq(&k, key);
        (i, f)
    } else {
        (i, false)
    }
}


/// The key and the index that a path part such as `ports[0]` names: when
/// the part ends with `]` and holds a `[`, the key is what precedes the
/// first `[` and the index is what stands between it and the final `]`,
/// read as `usize::from_str` reads it; otherwise the whole part is the key.
pub open spec fn array_key_spec(part: Seq<char>) -> (Seq<char>, Option<nat>) {
    match first_index_of(part, '[') {
        Some(s) => if part.len() > 0 && part.last() == ']' {
            (part.take(s), parse_usize_spec(part.subrange(s + 1, part.len() - 1)))
        } else {
            (part, None)
        },
        None => (part, None),
    }
}

/// An optional `usize` as an optional natural number.
pub open spec fn opt_nat(o: Option<usize>) -> Option<nat> {
    match o {
        Some(n) => Some(n as nat),
        None => None,
    }
}

/// Splits a path part into its key and optional array index.
pub fn array_key_chars(part: &Vec<char>) -> (r: (Vec<char>, Option<usize>))
    ensures
        (r.0@, opt_nat(r.1)) == array_key_spec(part@),
        r.0@.len() <= part@.len(),
        r.0@ == part@.take(r.0@.len() as int),
{
    match find_char(part, '[') {
        Some(s) => {
            if part.len() > 0 && part[part.len() - 1] == ']' {
                let key = slice_chars(part, 0, s);
                let inner = slice_chars(part, s + 1, part.len() - 1);
                let idx = parse_usize(&inner);
                assert(key@ == part@.take(s as int));
                (key, idx)
            } else {
                let k = slice_chars(part, 0, part.len());
                assert(part@.take(part@.len() as int) == part@);
                (k, None)
            }
        },
        None => {
            let k = slice_chars(part, 0, part.len());
            assert(part@.take(part@.len() as int) == part@);
            (k, None)
        },
    }
}

/// Splits a path part such as `ports[0]` into its key and optional array index.
pub fn parse_array_key(part: &str) -> (r: (&str, Option<usize>))
    ensures
        (r.0@, opt_nat(r.1)) == array_key_spec(part@),
{
    let cs = chars_of(part);
    let (key, idx) = array_key_chars(&cs);
    (part.substring_char(0, key.len()), idx)
}

/// The parts of a dotted path, each split into key and index.
pub open spec fn path_parts(path: Seq<char>) -> Seq<(Seq<char>, Option<nat>)> {
    split_on(path, '.').map_values(|p: Seq<char>| array_key_spec(p))
}

/// The value that `text` becomes, given the type it had: an integer that
/// `i64::from_str` reads is a number (written canonically), other text of
/// a number is read as a float; `true` and `false` are booleans; empty text
/// of a null is null; anything else is a string.
pub open spec fn typed_value(text: Seq<char>, t: ValueType) -> JsonView {
    match t {
        ValueType::Number => match parse_i64_spec(text) {
            Some(n) => JsonView::Number(int_text(n)),
            None => JsonView::Float(text),
        },
        ValueType::Bool => if text == seq!['t', 'r', 'u', 'e'] {
            JsonView::Bool(true)
        } else if text == seq!['f', 'a', 'l', 's', 'e'] {
            JsonView::Bool(false)
        } else {
            JsonView::Str(text)
        },
        ValueType::Null => if text.len() == 0 {
            JsonView::Null
        } else {
            JsonView::Str(text)
        },
        ValueType::String => JsonView::Str(text),
    }
}

/// Builds the value that `text` becomes, given the type it had.
pub fn typed_json(text: &Vec<char>, t: ValueType) -> (r: JsonValue)
    ensures
        r@ == typed_value(text@, t),
{
    match t {
        ValueType::Number => match parse_i64_text(text) {
            Some(n) => JsonValue::Number(string_of(n.as_slice())),
            None => JsonValue::Float(string_of(text.as_slice())),
        },
        ValueType::Bool => {
            let tr = chars_of("true");
            let fa = chars_of("false");
            proof {
                reveal_strlit("true");
                reveal_strlit("false");
                assert(tr@ =~= seq!['t', 'r', 'u', 'e']);
                assert(fa@ =~= seq!['f', 'a', 'l', 's', 'e']);
            }
            if chars_eq(text, &tr) {
                JsonValue::Bool(true)
            } else if chars_eq(text, &fa) {
                JsonValue::Bool(false)
            } else {
                JsonValue::Str(string_of(text.as_slice()))
            }
        },
        ValueType::Null => if text.len() == 0 {
            JsonValue::Null
        } else {
            JsonValue::Str(string_of(text.as_slice()))
        },
        ValueType::String => JsonValue::Str(string_of(text.as_slice())),
    }
}

/// The members of an object; nothing for any other value.
pub open spec fn as_members(v: JsonView) -> Seq<(Seq<char>, JsonView)> {
    match v {
        JsonView::Object(es) => es,
        _ => Seq::empty(),
    }
}

/// The elements of an array; nothing for any other value or for no value.
pub open spec fn as_elements(v: Option<JsonView>) -> Seq<JsonView> {
    match v {
        Some(JsonView::Array(xs)) => xs,
        _ => Seq::empty(),
    }
}

/// `xs` lengthened with copies of `fill` to at least `n` elements.
pub open spec fn pad(xs: Seq<JsonView>, n: nat, fill: JsonView) -> Seq<JsonView> {
    if xs.len() >= n {
        xs
    } else {
        xs + Seq::new((n - xs.len()) as nat, |_i: int| fill)
    }
}

/// The empty object.
pub open spec fn empty_object() -> JsonView {
    JsonView::Object(Seq::empty())
}

/// The tree after `leaf` is put at the location that `parts` names, below
/// `node`. Every step makes the node it passes an object (a node that is
/// not one is replaced by an empty object); a key creates its member when
/// missing; an index makes the member an array (replacing anything else)
/// and lengthens it as needed, with empty objects on the way and nulls at
/// the last step.
pub open spec fn spec_insert(node: JsonView, parts: Seq<(Seq<char>, Option<nat>)>, leaf: JsonView) -> JsonView
    decreases parts.len(),
{
    if parts.len() == 0 {
        node
    } else {
        let es = as_members(node);
        let key = parts[0].0;
        let last = parts.len() == 1;
        match parts[0].1 {
            Some(i) => {
                let fill = if last {
                    JsonView::Null
                } else {
                    empty_object()
                };
                let xs = pad(as_elements(obj_get(es, key)), i + 1, fill);
                let item = if last {
                    leaf
                } else {
                    spec_insert(xs[i as int], parts.drop_first(), leaf)
                };
                JsonView::Object(obj_set(es, key, JsonView::Array(xs.update(i as int, item))))
            },
            None => {
                let child = if last {
                    leaf
                } else {
                    spec_insert(
                        match obj_get(es, key) {
                            Some(c) => c,
                            None => empty_object(),
                        },
                        parts.drop_first(),
                        leaf,
                    )
                };
                JsonView::Object(obj_set(es, key, child))
            },
        }
    }
}

/// The mathematical form of a list of parsed path parts.
pub open spec fn parts_view(parts: Seq<(Vec<char>, Option<usize>)>) -> Seq<(Seq<char>, Option<nat>)> {
    parts.map_values(|p: (Vec<char>, Option<usize>)| (p.0@, opt_nat(p.1)))
}

proof fn lemma_array_view_ext(a: Seq<JsonValue>, b: Seq<JsonView>)
    requires
        a.len() == b.len(),
        forall|i: int| 0 <= i < a.len() ==> json_view(#[trigger] a[i]) == b[i],
    ensures
        array_view(a, a.len() as int) == b,
{
    lemma_array_view(a, a.len() as int);
    assert(array_view(a, a.len() as int) =~= b);
}

/// A new empty object.
pub fn new_object() -> (r: JsonValue)
    ensures
        r@ == empty_object(),
{
    let r = JsonValue::Object(Vec::new());
    assert(object_view(Seq::<(String, JsonValue)>::empty(), 0) =~= Seq::<(Seq<char>, JsonView)>::empty());
    r
}

fn insert_parts(node: JsonValue, parts: &Vec<(Vec<char>, Option<usize>)>, k: usize, leaf: JsonValue) -> (r: JsonValue)
    requires
        k < parts@.len(),
        forall|j: int| 0 <= j < parts@.len() ==> ((#[trigger] parts@[j]).1 matches Some(n) ==> n < usize::MAX),
    ensures
        r@ == spec_insert(node@, parts_view(parts@).skip(k as int), leaf@),
    decreases parts@.len() - k,
{
    let ghost pv = parts_view(parts@).skip(k as int);
    assert(pv[0] == (parts@[k as int].0@, opt_nat(parts@[k as int].1)));
    assert(pv.drop_first() == parts_view(parts@).skip(k + 1));
    let ghost node_v = node@;
    let mut es: Vec<(String, JsonValue)> = match node {
        JsonValue::Object(es) => es,
        _ => Vec::new(),
    };
    let ghost esv = members_view(es@);
    assert(esv == as_members(node_v)) by {
        if !(node_v is Object) {
            assert(members_view(es@) =~= Seq::<(Seq<char>, JsonView)>::empty());
        }
    }
    proof {
        lemma_object_view(es@, es@.len() as int);
        lemma_walk_pos(esv, parts@[k as int].0@);
    }
    let key = &parts[k].0;
    let n = parts.len();
    let last = k == n - 1;
    let (pos, found) = obj_locate(&es, key);
    let existing: Option<JsonValue> = if found {
        let (_, c) = es.remove(pos);
        Some(c)
    } else {
        None
    };
    let ghost removed = es@;
    assert(existing matches Some(c) ==> obj_get(esv, key@) == Some(c@));
    assert(existing is None ==> obj_get(esv, key@) is None);
    let newchild = match parts[k].1 {
        Some(i) => {
            let mut xs: Vec<JsonValue> = match existing {
                Some(JsonValue::Array(xs)) => xs,
                _ => Vec::new(),
            };
            let ghost xs0 = array_view(xs@, xs@.len() as int);
            assert(xs0 == as_elements(obj_get(esv, key@))) by {
                lemma_array_view(xs@, xs@.len() as int);
                if !(obj_get(esv, key@) matches Some(JsonView::Array(_))) {
                    assert(xs0 =~= Seq::<JsonView>::empty());
                }
            }
            let ghost fill = if last {
                JsonView::Null
            } else {
                empty_object()
            };
            let ghost padded = pad(xs0, (i + 1) as nat, fill);
            proof {
                lemma_array_view(xs@, xs@.len() as int);
            }
            while xs.len() <= i
                invariant
                    i < usize::MAX,
                    fill == (if last {
                        JsonView::Null
                    } else {
                        empty_object()
                    }),
                    xs0.len() <= xs@.len(),
                    xs@.len() <= i + 1 || xs@.len() == xs0.len(),
                    forall|j: int| 0 <= j < xs@.len() ==> json_view(#[trigger] xs@[j]) == (if j
                        < xs0.len() {
                        xs0[j]
                    } else {
                        fill
                    }),
                decreases i + 1 - xs@.len(),
            {
                if last {
                    xs.push(JsonValue::Null);
                } else {
                    xs.push(new_object());
                }
            }
            assert forall|j: int| 0 <= j < xs@.len() implies json_view(#[trigger] xs@[j]) == padded[j] by {
                if xs0.len() < (i + 1) as nat {
                    assert(padded == xs0 + Seq::new(((i + 1) as nat - xs0.len()) as nat, |_i: int| fill));
                }
            }
            assert(padded.len() == xs@.len());
            let old_item = xs.remove(i);
            let item = if last {
                leaf
            } else {
                insert_parts(old_item, parts, k + 1, leaf)
            };
            let ghost item_v = item@;
            xs.insert(i, item);
            proof {
                lemma_array_view_ext(xs@, padded.update(i as int, item_v));
            }
            JsonValue::Array(xs)
        },
        None => {
            if last {
                leaf
            } else {
                let child = match existing {
                    Some(c) => c,
                    None => new_object(),
                };
                insert_parts(child, parts, k + 1, leaf)
            }
        },
    };
    let ghost child_v = newchild@;
    let kstr = string_of(key.as_slice());
    es.insert(pos, (kstr, newchild));
    proof {
        let target = obj_set(esv, key@, child_v);
        if found {
            assert(target == esv.update(pos as int, (key@, child_v)));
        } else {
            assert(target == esv.insert(pos as int, (key@, child_v)));
        }
        assert forall|j: int| 0 <= j < es@.len() implies (#[trigger] es@[j]).0@ == target[j].0
            && json_view(es@[j].1) == target[j].1 by {
            if j < pos {
            } else if j == pos {
            } else {
            }
        }
        lemma_members_view_ext(es@, target);
        assert(json_view(JsonValue::Object(es)) == JsonView::Object(members_view(es@)));
    }
    JsonValue::Object(es)
}


/// Whether no part of `path` names the index `usize::MAX` (an array cannot
/// be lengthened past it).
pub open spec fn indices_fit(path: Seq<char>) -> bool {
    forall|j: int|
        0 <= j < path_parts(path).len() ==> ((#[trigger] path_parts(path)[j]).1 matches Some(n)
            ==> n < usize::MAX)
}

/// Puts the value that `new_val_str` becomes (given its original type) at
/// the location that the dotted `path` names, creating what is missing on
/// the way.
pub fn insert_into_value(root: &mut JsonValue, path: &str, new_val_str: &str, value_type: ValueType)
    requires
        indices_fit(path@),
    ensures
        final(root)@ == spec_insert(
            old(root)@,
            path_parts(path@),
            typed_value(new_val_str@, value_type),
        ),
{
    let parts = split_path(path);
    proof {
        assert(parts_view(parts@).skip(0) == parts_view(parts@));
        assert forall|j: int| 0 <= j < parts@.len() implies ((#[trigger] parts@[j]).1 matches Some(n)
            ==> n < usize::MAX) by {
            assert(parts_view(parts@)[j] == (parts@[j].0@, opt_nat(parts@[j].1)));
            assert(path_parts(path@)[j].1 == opt_nat(parts@[j].1));
        }
    }
    let text = chars_of(new_val_str);
    let leaf = typed_json(&text, value_type);
    let mut node = JsonValue::Null;
    std::mem::swap(&mut node, root);
    *root = insert_parts(node, &parts, 0, leaf);
}

/// The parts of a dotted path, each split into key and index.
pub fn split_path(path: &str) -> (parts: Vec<(Vec<char>, Option<usize>)>)
    ensures
        parts_view(parts@) == path_parts(path@),
        parts@.len() >= 1,
{
    let cs = chars_of(path);
    let pieces = split_chars(&cs, '.');
    proof {
        crate::text::lemma_split_on_nonempty(path@, '.');
    }
    let mut parts: Vec<(Vec<char>, Option<usize>)> = Vec::new();
    let mut i: usize = 0;
    while i < pieces.len()
        invariant
            i <= pieces@.len(),
            pieces@.map_values(|p: Vec<char>| p@) == split_on(path@, '.'),
            parts_view(parts@) == path_parts(path@).take(i as int),
        decreases pieces@.len() - i,
    {
        let part = array_key_chars(&pieces[i]);
        let ghost before = parts@;
        parts.push(part);
        proof {
            assert(pieces@.map_values(|p: Vec<char>| p@)[i as int] == pieces@[i as int]@);
            assert(parts_view(parts@) =~= parts_view(before).push((part.0@, opt_nat(part.1))));
            assert(path_parts(path@).take(i + 1) =~= path_parts(path@).take(i as int).push(
                path_parts(path@)[i as int],
            ));
        }
        i = i + 1;
    }
    assert(path_parts(path@).take(pieces@.len() as int) =~= path_parts(path@));
    parts
}

/// Whether no part of `path` names the index `usize::MAX`.
pub fn path_indices_fit(path: &str) -> (b: bool)
    ensures
        b == indices_fit(path@),
{
    let parts = split_path(path);
    let mut i: usize = 0;
    while i < parts.len()
        invariant
            i <= parts@.len(),
            parts_view(parts@) == path_parts(path@),
            forall|j: int| 0 <= j < i ==> ((#[trigger] path_parts(path@)[j]).1 matches Some(n) ==> n
                < usize::MAX),
        decreases parts@.len() - i,
    {
        assert(path_parts(path@)[i as int].1 == opt_nat(parts@[i as int].1));
        match parts[i].1 {
            Some(n) => {
                if n == usize::MAX {
                    return false;
                }
            },
            None => {},
        }
        i = i + 1;
    }
    true
}

/// The value found at the location that `parts` names below `node`, if
/// there is one.
pub open spec fn lookup(node: JsonView, parts: Seq<(Seq<char>, Option<nat>)>) -> Option<JsonView>
    decreases parts.len(),
{
    if parts.len() == 0 {
        Some(node)
    } else {
        match node {
            JsonView::Object(es) => match obj_get(es, parts[0].0) {
                Some(child) => match parts[0].1 {
                    Some(i) => match child {
                        JsonView::Array(xs) => if i < xs.len() {
                            lookup(xs[i as int], parts.drop_first())
                        } else {
                            None
                        },
                        _ => None,
                    },
                    None => lookup(child, parts.drop_first()),
                },
                None => None,
            },
            _ => None,
        }
    }
}

/// Whatever tree a value is put into, reading the same location gives the
/// value back.
pub proof fn lemma_insert_then_lookup(
    node: JsonView,
    parts: Seq<(Seq<char>, Option<nat>)>,
    leaf: JsonView,
)
    requires
        parts.len() > 0,
    ensures
        lookup(spec_insert(node, parts, leaf), parts) == Some(leaf),
    decreases parts.len(),
{
    let es = as_members(node);
    let key = parts[0].0;
    let last = parts.len() == 1;
    match parts[0].1 {
        Some(i) => {
            let fill = if last {
                JsonView::Null
            } else {
                empty_object()
            };
            let xs = pad(as_elements(obj_get(es, key)), i + 1, fill);
            let item = if last {
                leaf
            } else {
                spec_insert(xs[i as int], parts.drop_first(), leaf)
            };
            assert(xs.len() >= i + 1);
            let ys = xs.update(i as int, item);
            assert(ys[i as int] == item);
            lemma_obj_get_set(es, key, JsonView::Array(ys));
            let r = spec_insert(node, parts, leaf);
            assert(r == JsonView::Object(obj_set(es, key, JsonView::Array(ys))));
            if !last {
                lemma_insert_then_lookup(xs[i as int], parts.drop_first(), leaf);
            } else {
                assert(parts.drop_first().len() == 0);
            }
            assert(lookup(r, parts) == lookup(item, parts.drop_first()));
        },
        None => {
            let child = if last {
                leaf
            } else {
                spec_insert(
                    match obj_get(es, key) {
                        Some(c) => c,
                        None => empty_object(),
                    },
                    parts.drop_first(),
                    leaf,
                )
            };
            lemma_obj_get_set(es, key, child);
            let r = spec_insert(node, parts, leaf);
            assert(r == JsonView::Object(obj_set(es, key, child)));
            assert(lookup(r, parts) == lookup(child, parts.drop_first()));
            if !last {
                lemma_insert_then_lookup(
                    match obj_get(es, key) {
                        Some(c) => c,
                        None => empty_object(),
                    },
                    parts.drop_first(),
                    leaf,
                );
            }
        },
    }
}

/// Writing a value into a tree at a dotted path and reading that path back
/// gives the typed value that was written.
pub proof fn law_write_then_read(root: JsonView, path: Seq<char>, text: Seq<char>, t: ValueType)
    ensures
        lookup(spec_insert(root, path_parts(path), typed_value(text, t)), path_parts(path))
            == Some(typed_value(text, t)),
{
    crate::text::lemma_split_on_nonempty(path, '.');
    lemma_insert_then_lookup(root, path_parts(path), typed_value(text, t));
}

/// An `i64` written as `i64` writes it reads back as itself.
pub proof fn lemma_int_text_reads_back(k: int)
    requires
        i64::MIN <= k <= i64::MAX,
    ensures
        parse_i64_spec(int_text(k)) == Some(k),
{
    if k < 0 {
        crate::text::lemma_decimal_reads_back((-k) as nat);
        assert(int_text(k).drop_first() =~= decimal((-k) as nat));
    } else {
        crate::text::lemma_decimal_reads_back(k as nat);
        let d = decimal(k as nat);
        assert(crate::text::is_digit(d[0]));
        assert(crate::text::without_plus(d) == d);
    }
}

/// Type preservation: the text of a leaf, read back with the type that the
/// leaf recorded, gives the leaf's value again; for text, booleans and
/// null always, for an integer written as `i64` writes it, and for another
/// number whose text is no `i64`.
pub proof fn law_type_preserved(v: JsonView, path: Seq<SegmentView>, depth: nat, key: Seq<char>)
    requires
        !(v is Object),
        !(v is Array),
        v is Number ==> exists|k: int| i64::MIN <= k <= i64::MAX && v->Number_0 == #[trigger] int_text(k),
        v is Float ==> parse_i64_spec(v->Float_0) is None,
    ensures
        flat(v, path, depth, key).len() == 1,
        typed_value(flat(v, path, depth, key)[0].value.unwrap(), flat(v, path, depth, key)[0].value_type) == v,
{
    if let JsonView::Number(n) = v {
        let k = choose|k: int| i64::MIN <= k <= i64::MAX && n == #[trigger] int_text(k);
        lemma_int_text_reads_back(k);
    }
}

/// The tree that the leaf entries among the first `n` of `vars` build, each
/// put at the place its path names, starting from an empty object.
pub open spec fn build_tree(vars: Seq<ItemView>, n: int) -> JsonView
    decreases n,
{
    if n <= 0 || n > vars.len() {
        empty_object()
    } else {
        let prev = build_tree(vars, n - 1);
        let v = vars[n - 1];
        if v.is_group {
            prev
        } else {
            spec_insert(prev, path_parts(path_text(v.path)), typed_value(written_text(v), v.value_type))
        }
    }
}

/// Whether every leaf entry's path can be written back.
pub open spec fn all_indices_fit(vars: Seq<ItemView>) -> bool {
    forall|i: int| 0 <= i < vars.len() && !(#[trigger] vars[i]).is_group ==> indices_fit(path_text(vars[i].path))
}

/// The leaf entries of `vars` assembled into one tree.
pub fn tree_of(vars: &Vec<ConfigItem>) -> (root: JsonValue)
    requires
        all_indices_fit(items_view(vars@)),
    ensures
        root@ == build_tree(items_view(vars@), vars@.len() as int),
{
    let ghost iv = items_view(vars@);
    let mut root = new_object();
    let mut i: usize = 0;
    while i < vars.len()
        invariant
            i <= vars@.len(),
            iv == items_view(vars@),
            all_indices_fit(iv),
            root@ == build_tree(iv, i as int),
        decreases vars@.len() - i,
    {
        let var = &vars[i];
        assert(iv[i as int] == var@);
        if !var.is_group {
            let val = var.written_value();
            let p = var.path_string();
            insert_into_value(&mut root, p.as_str(), val.as_str(), var.value_type);
        }
        i = i + 1;
    }
    root
}

/// The XML text of a value: object members become elements named by their
/// keys (an array member repeats its element once per item, a `$text`
/// member contributes its string as text), array items follow one another,
/// and scalars are written as text.
pub open spec fn xml_text(v: JsonView) -> Seq<char>
    decreases v, 1nat, 0int,
{
    match v {
        JsonView::Object(es) => members_xml(es, es.len() as int),
        JsonView::Array(xs) => items_xml(xs, xs.len() as int),
        JsonView::Str(s) => s,
        JsonView::Number(n) => n,
        JsonView::Float(n) => n,
        JsonView::Bool(b) => bool_text(b),
        JsonView::Null => Seq::empty(),
    }
}

/// The opening tag `<name>`.
pub open spec fn open_tag(name: Seq<char>) -> Seq<char> {
    seq!['<'] + name + seq!['>']
}

/// The closing tag `</name>`.
pub open spec fn close_tag(name: Seq<char>) -> Seq<char> {
    seq!['<', '/'] + name + seq!['>']
}

/// The name of the member that holds an element's text.
pub open spec fn text_member() -> Seq<char> {
    seq!['$', 't', 'e', 'x', 't']
}

/// The XML of the first `n` items, one after another.
pub open spec fn items_xml(xs: Seq<JsonView>, n: int) -> Seq<char>
    decreases xs, 0nat, n,
{
    if n <= 0 || n > xs.len() {
        Seq::empty()
    } else {
        items_xml(xs, n - 1) + xml_text(xs[n - 1])
    }
}

/// The elements named `name` for the first `n` items, one per item.
pub open spec fn repeated_xml(name: Seq<char>, xs: Seq<JsonView>, n: int) -> Seq<char>
    decreases xs, 0nat, n,
{
    if n <= 0 || n > xs.len() {
        Seq::empty()
    } else {
        repeated_xml(name, xs, n - 1) + open_tag(name) + xml_text(xs[n - 1]) + close_tag(name)
    }
}

/// The XML of the first `n` members of an object.
pub open spec fn members_xml(es: Seq<(Seq<char>, JsonView)>, n: int) -> Seq<char>
    decreases es, 0nat, n,
{
    if n <= 0 || n > es.len() {
        Seq::empty()
    } else {
        let (k, v) = es[n - 1];
        let one = if k == text_member() {
            match v {
                JsonView::Str(s) => s,
                _ => Seq::empty(),
            }
        } else {
            match v {
                JsonView::Array(xs) => repeated_xml(k, xs, xs.len() as int),
                _ => open_tag(k) + xml_text(v) + close_tag(k),
            }
        };
        members_xml(es, n - 1) + one
    }
}

fn push_open_tag(s: &mut String, name: &String)
    ensures
        final(s)@ == old(s)@ + open_tag(name@),
{
    s.push('<');
    s.append(name.as_str());
    s.push('>');
    assert(s@ =~= old(s)@ + open_tag(name@));
}

fn push_close_tag(s: &mut String, name: &String)
    ensures
        final(s)@ == old(s)@ + close_tag(name@),
{
    s.push('<');
    s.push('/');
    s.append(name.as_str());
    s.push('>');
    assert(s@ =~= old(s)@ + close_tag(name@));
}

/// Writes a value tree as XML text.
pub fn json_to_xml(value: &JsonValue) -> (s: String)
    ensures
        s@ == xml_text(value@),
    decreases json_height(value@),
{
    match value {
        JsonValue::Object(map) => {
            let ghost es = object_view(map@, map@.len() as int);
            proof {
                lemma_object_view(map@, map@.len() as int);
            }
            let tm = chars_of("$text");
            proof {
                reveal_strlit("$text");
                assert(tm@ =~= text_member());
            }
            let mut s = String::new();
            let mut i: usize = 0;
            while i < map.len()
                invariant
                    i <= map@.len(),
                    es == object_view(map@, map@.len() as int),
                    es.len() == map@.len(),
                    forall|k: int| 0 <= k < map@.len() ==> #[trigger] es[k] == (
                        map@[k].0@,
                        json_view(map@[k].1),
                    ),
                    value@ == JsonView::Object(es),
                    tm@ == text_member(),
                    s@ == members_xml(es, i as int),
                decreases map@.len() - i,
            {
                let k = &map[i].0;
                let v = &map[i].1;
                let kc = chars_of(k.as_str());
                proof {
                    lemma_entries_height(es, es.len() as int, i as int);
                }
                if chars_eq(&kc, &tm) {
                    match v {
                        JsonValue::Str(t) => s.append(t.as_str()),
                        _ => {},
                    }
                } else {
                    match v {
                        JsonValue::Array(arr) => {
                            let ghost xs = array_view(arr@, arr@.len() as int);
                            proof {
                                lemma_array_view(arr@, arr@.len() as int);
                            }
                            let ghost s0 = s@;
                            let mut j: usize = 0;
                            while j < arr.len()
                                invariant
                                    j <= arr@.len(),
                                    xs == array_view(arr@, arr@.len() as int),
                                    xs.len() == arr@.len(),
                                    forall|m: int| 0 <= m < arr@.len() ==> #[trigger] xs[m] == json_view(arr@[m]),
                                    json_view(*v) == JsonView::Array(xs),
                                    json_height(JsonView::Array(xs)) < json_height(value@),
                                    s@ == s0 + repeated_xml(k@, xs, j as int),
                                decreases arr@.len() - j,
                            {
                                proof {
                                    lemma_items_height(xs, xs.len() as int, j as int);
                                }
                                push_open_tag(&mut s, k);
                                let inner = json_to_xml(&arr[j]);
                                s.append(inner.as_str());
                                push_close_tag(&mut s, k);
                                j = j + 1;
                                assert(s@ =~= s0 + repeated_xml(k@, xs, j as int));
                            }
                        },
                        _ => {
                            push_open_tag(&mut s, k);
                            let inner = json_to_xml(v);
                            s.append(inner.as_str());
                            push_close_tag(&mut s, k);
                        },
                    }
                }
                i = i + 1;
                assert(s@ =~= members_xml(es, i as int));
            }
            s
        },
        JsonValue::Array(arr) => {
            let ghost xs = array_view(arr@, arr@.len() as int);
            proof {
                lemma_array_view(arr@, arr@.len() as int);
            }
            let mut s = String::new();
            let mut j: usize = 0;
            while j < arr.len()
                invariant
                    j <= arr@.len(),
                    xs == array_view(arr@, arr@.len() as int),
                    xs.len() == arr@.len(),
                    forall|m: int| 0 <= m < arr@.len() ==> #[trigger] xs[m] == json_view(arr@[m]),
                    value@ == JsonView::Array(xs),
                    s@ == items_xml(xs, j as int),
                decreases arr@.len() - j,
            {
                proof {
                    lemma_items_height(xs, xs.len() as int, j as int);
                }
                let inner = json_to_xml(&arr[j]);
                s.append(inner.as_str());
                j = j + 1;
            }
            s
        },
        JsonValue::Str(v) => v.clone(),
        JsonValue::Number(v) => v.clone(),
        JsonValue::Float(v) => v.clone(),
        JsonValue::Bool(b) => bool_string(*b),
        JsonValue::Null => String::new(),
    }
}

/// Whether the tree is less than `limit` levels high.
pub fn height_below(v: &JsonValue, limit: usize) -> (r: bool)
    ensures
        r == (json_height(v@) < limit),
    decreases json_height(v@),
{
    match v {
        JsonValue::Object(entries) => {
            if limit <= 1 {
                return false;
            }
            let ghost es = object_view(entries@, entries@.len() as int);
            proof {
                lemma_object_view(entries@, entries@.len() as int);
            }
            let mut i: usize = 0;
            while i < entries.len()
                invariant
                    i <= entries@.len(),
                    es == object_view(entries@, entries@.len() as int),
                    es.len() == entries@.len(),
                    forall|k: int| 0 <= k < entries@.len() ==> #[trigger] es[k] == (
                        entries@[k].0@,
                        json_view(entries@[k].1),
                    ),
                    v@ == JsonView::Object(es),
                    limit > 1,
                    entries_height(es, i as int) < limit - 1,
                decreases entries@.len() - i,
            {
                proof {
                    lemma_entries_height(es, es.len() as int, i as int);
                    lemma_entries_height(es, i + 1, i as int);
                }
                if !height_below(&entries[i].1, limit - 1) {
                    assert(json_height(v@) == 1 + entries_height(es, es.len() as int));
                    return false;
                }
                i = i + 1;
            }
            assert(json_height(v@) == 1 + entries_height(es, es.len() as int));
            true
        },
        JsonValue::Array(items) => {
            if limit <= 1 {
                return false;
            }
            let ghost xs = array_view(items@, items@.len() as int);
            proof {
                lemma_array_view(items@, items@.len() as int);
            }
            let mut i: usize = 0;
            while i < items.len()
                invariant
                    i <= items@.len(),
                    xs == array_view(items@, items@.len() as int),
                    xs.len() == items@.len(),
                    forall|k: int| 0 <= k < items@.len() ==> #[trigger] xs[k] == json_view(items@[k]),
                    v@ == JsonView::Array(xs),
                    limit > 1,
                    items_height(xs, i as int) < limit - 1,
                decreases items@.len() - i,
            {
                proof {
                    lemma_items_height(xs, xs.len() as int, i as int);
                    lemma_items_height(xs, i + 1, i as int);
                }
                if !height_below(&items[i], limit - 1) {
                    assert(json_height(v@) == 1 + items_height(xs, xs.len() as int));
                    return false;
                }
                i = i + 1;
            }
            assert(json_height(v@) == 1 + items_height(xs, xs.len() as int));
            true
        },
        _ => limit > 0,
    }
}


/// The translation between a nested file format and the item list.
pub struct HierarchicalHandler {
    pub format_type: FormatType,
}

impl HierarchicalHandler {
    /// A handler for the given nested format.
    pub fn new(format_type: FormatType) -> (h: Self)
        ensures
            h.format_type == format_type,
    {
        HierarchicalHandler { format_type }
    }

    /// The entries that a parsed document flattens into.
    pub fn items_of(&self, value: &JsonValue) -> (vars: Vec<ConfigItem>)
        requires
            json_height(value@) <= usize::MAX,
        ensures
            items_view(vars@) == flat(value@, Seq::empty(), 0, Seq::empty()),
    {
        let mut vars: Vec<ConfigItem> = Vec::new();
        let path: Vec<PathSegment> = Vec::new();
        let key = String::new();
        flatten(value, &path, 0, &key, &mut vars);
        assert(path_view(path@) =~= Seq::<SegmentView>::empty());
        assert(items_view(Seq::<ConfigItem>::empty()) + flat(value@, Seq::empty(), 0, Seq::empty()) =~= flat(value@, Seq::empty(), 0, Seq::empty()));
        vars
    }

    /// The document that the entries are written back as.
    pub fn document_of(&self, vars: &Vec<ConfigItem>) -> (root: JsonValue)
        requires
            all_indices_fit(items_view(vars@)),
        ensures
            root@ == build_tree(items_view(vars@), vars@.len() as int),
    {
        tree_of(vars)
    }
}

} // verus!
