//! Java properties files: each key is split at its dots into a path, every
//! leading part of a path becomes a group (once), and the entries are kept
//! in path order.

use vstd::prelude::*;
use super::{
    ConfigItem, ItemStatus, ItemView, PathSegment, SegmentView, ValueType, clone_path, items_view,
    path_eq, path_text, path_view, written_text,
};
use super::order::{sort_by_path, sorted_by_path, with_path};
use super::ini::props_view;
use crate::text::{chars_of, lemma_split_on_nonempty, split_chars, split_on, string_of};

verus! {

/// The error that the properties reader reports.
#[verifier::external_type_specification]
#[verifier::external_body]
pub struct ExPropertiesError(java_properties::PropertiesError);

/// The keys and values that `java_properties::read` reads from `bytes`
/// (a later line for a key replacing an earlier one); none when it reports
/// an error.
pub uninterp spec fn properties_map(bytes: Seq<u8>) -> Option<Map<Seq<char>, Seq<char>>>;

/// Whether `ps` lists the map `m`: every key of `m` once, with its value.
pub open spec fn lists_map(ps: Seq<(Seq<char>, Seq<char>)>, m: Map<Seq<char>, Seq<char>>) -> bool {
    &&& forall|i: int, j: int| 0 <= i < j < ps.len() ==> #[trigger] ps[i].0 != #[trigger] ps[j].0
    &&& forall|i: int| 0 <= i < ps.len() ==> m.contains_key(#[trigger] ps[i].0) && m[ps[i].0] == ps[i].1
    &&& forall|k: Seq<char>| #[trigger] m.contains_key(k) ==> exists|i: int| 0 <= i < ps.len() && #[trigger] ps[i].0 == k
}

/// Calls `java_properties::read` on `bytes` and lists the map it returns,
/// one pair per key. The map is named `properties_map`; the order of the
/// pairs is the order in which the map is walked, which nothing here fixes.
#[verifier::external_body]
fn read_properties(bytes: &[u8]) -> (r: Result<Vec<(String, String)>, java_properties::PropertiesError>)
    ensures
        match r {
            Ok(ps) => properties_map(bytes@) matches Some(m) && lists_map(props_view(ps@), m),
            Err(_) => properties_map(bytes@) is None,
        },
{
    match java_properties::read(bytes) {
        Ok(map) => Ok(map.into_iter().collect()),
        Err(e) => Err(e),
    }
}

/// Whether `i` is the first position of a property with key `k`.
pub open spec fn first_key_at(ps: Seq<(Seq<char>, Seq<char>)>, k: Seq<char>, i: int) -> bool {
    0 <= i < ps.len() && ps[i].0 == k && forall|j: int| 0 <= j < i ==> ps[j].0 != k
}

/// The properties after `key` is set to `value`: the first property with
/// that key takes the value in its place, or the pair is appended.
pub open spec fn set_property(ps: Seq<(Seq<char>, Seq<char>)>, key: Seq<char>, value: Seq<char>) -> Seq<
    (Seq<char>, Seq<char>),
> {
    if exists|i: int| first_key_at(ps, key, i) {
        ps.update(choose|i: int| first_key_at(ps, key, i), (key, value))
    } else {
        ps.push((key, value))
    }
}

/// The first position of a property with key `key`, if any.
fn find_key(ps: &Vec<(String, String)>, key: &String) -> (r: Option<usize>)
    ensures
        match r {
            Some(i) => first_key_at(props_view(ps@), key@, i as int),
            None => forall|j: int| 0 <= j < ps@.len() ==> (#[trigger] props_view(ps@)[j]).0 != key@,
        },
{
    let ghost pv = props_view(ps@);
    let mut i: usize = 0;
    while i < ps.len()
        invariant
            i <= ps@.len(),
            pv == props_view(ps@),
            forall|j: int| 0 <= j < i ==> (#[trigger] pv[j]).0 != key@,
        decreases ps@.len() - i,
    {
        if ps[i].0 == *key {
            return Some(i);
        }
        i = i + 1;
    }
    None
}

/// Sets `key` to `value` in a section's properties.
fn set_key(ps: &mut Vec<(String, String)>, key: &String, value: &String)
    ensures
        props_view(final(ps)@) == set_property(props_view(old(ps)@), key@, value@),
{
    let ghost pv = props_view(ps@);
    match find_key(ps, key) {
        Some(i) => {
            proof {
                let c = choose|c: int| first_key_at(pv, key@, c);
                assert(first_key_at(pv, key@, c));
                if c > i {
                    assert(pv[i as int].0 != key@);
                }
                assert(c == i);
            }
            ps.set(i, (key.clone(), value.clone()));
            assert(props_view(ps@) =~= pv.update(i as int, (key@, value@)));
        },
        None => {
            assert(!exists|c: int| first_key_at(pv, key@, c));
            ps.push((key.clone(), value.clone()));
            assert(props_view(ps@) =~= pv.push((key@, value@)));
        },
    }
}

/// The bytes that a `java_properties::PropertiesWriter` made by
/// `PropertiesWriter::new` over a byte buffer holds after `write(key, value)`
/// for each pair in order and then `finish()`; none when one of these
/// reports an error.
pub uninterp spec fn properties_written(pairs: Seq<(Seq<char>, Seq<char>)>) -> Option<Seq<u8>>;

/// Writes the pairs in order with a `java_properties::PropertiesWriter`
/// over a byte buffer, then finishes it, and gives the buffer, or the first
/// error reported. The result is named `properties_written`.
#[verifier::external_body]
fn write_properties(pairs: &Vec<(String, String)>) -> (r: Result<Vec<u8>, java_properties::PropertiesError>)
    ensures
        match r {
            Ok(b) => properties_written(props_view(pairs@)) == Some(b@),
            Err(_) => properties_written(props_view(pairs@)) is None,
        },
{
    let mut buf: Vec<u8> = Vec::new();
    let mut w = java_properties::PropertiesWriter::new(&mut buf);
    for (k, v) in pairs.iter() {
        w.write(k, v)?;
    }
    w.finish()?;
    drop(w);
    Ok(buf)
}

/// Why entries could not be written as a properties file.
#[derive(Debug)]
pub enum PropertiesWriteError {
    /// The writer reported an error.
    Write(java_properties::PropertiesError),
}

/// The pairs to store: one per key, where the key first comes, with the
/// value of its last pair.
pub open spec fn stored_pairs(ps: Seq<(Seq<char>, Seq<char>)>) -> Seq<(Seq<char>, Seq<char>)>
    decreases ps.len(),
{
    if ps.len() == 0 {
        Seq::empty()
    } else {
        set_property(stored_pairs(ps.drop_last()), ps.last().0, ps.last().1)
    }
}

/// Why a properties file could not be read.
#[derive(Debug)]
pub enum PropertiesReadError {
    /// The text is not a valid properties file.
    Parse(java_properties::PropertiesError),
}

/// The translation between properties files and the item list.
pub struct PropertiesHandler;

/// The path made of the parts of a key.
pub open spec fn key_path(parts: Seq<Seq<char>>) -> Seq<SegmentView> {
    parts.map_values(|p: Seq<char>| SegmentView::Key(p))
}

/// The leading runs of `path` of lengths 1 to `n`.
pub open spec fn prefix_set(path: Seq<SegmentView>, n: int) -> Set<Seq<SegmentView>> {
    Set::new(|g: Seq<SegmentView>| 1 <= g.len() <= n && g == path.take(g.len() as int))
}

/// The group made of the first `j + 1` parts.
pub open spec fn group_entry(parts: Seq<Seq<char>>, j: int) -> ItemView {
    ItemView {
        key: parts[j],
        path: key_path(parts).take(j + 1),
        value: None,
        template_value: None,
        default_value: None,
        depth: j as usize,
        is_group: true,
        status: ItemStatus::Present,
        value_type: ValueType::Null,
    }
}

/// The groups for the leading runs of lengths 1 to `n` that are not in `seen`.
pub open spec fn group_entries(parts: Seq<Seq<char>>, seen: Set<Seq<SegmentView>>, n: int) -> Seq<ItemView>
    decreases n,
{
    if n <= 0 {
        Seq::empty()
    } else {
        group_entries(parts, seen, n - 1) + if seen.contains(key_path(parts).take(n)) {
            Seq::empty()
        } else {
            seq![group_entry(parts, n - 1)]
        }
    }
}

/// The entry of a key and its value.
pub open spec fn leaf_entry(parts: Seq<Seq<char>>, v: Seq<char>) -> ItemView {
    ItemView {
        key: parts.last(),
        path: key_path(parts),
        value: Some(v),
        template_value: Some(v),
        default_value: Some(v),
        depth: (parts.len() - 1) as usize,
        is_group: false,
        status: ItemStatus::Present,
        value_type: ValueType::String,
    }
}

/// The entries of one pair: the groups of its key not yet in `seen`, then
/// the entry itself.
pub open spec fn pair_entries(key: Seq<char>, v: Seq<char>, seen: Set<Seq<SegmentView>>) -> Seq<ItemView> {
    let parts = split_on(key, '.');
    group_entries(parts, seen, parts.len() - 1) + seq![leaf_entry(parts, v)]
}

/// The groups that the keys of the first `n` pairs have.
pub open spec fn groups_seen(ps: Seq<(Seq<char>, Seq<char>)>, n: int) -> Set<Seq<SegmentView>>
    decreases n,
{
    if n <= 0 || n > ps.len() {
        Set::empty()
    } else {
        let parts = split_on(ps[n - 1].0, '.');
        groups_seen(ps, n - 1).union(prefix_set(key_path(parts), parts.len() - 1))
    }
}

/// The entries of the first `n` pairs, in the order they are met.
pub open spec fn property_entries(ps: Seq<(Seq<char>, Seq<char>)>, n: int) -> Seq<ItemView>
    decreases n,
{
    if n <= 0 || n > ps.len() {
        Seq::empty()
    } else {
        property_entries(ps, n - 1) + pair_entries(ps[n - 1].0, ps[n - 1].1, groups_seen(ps, n - 1))
    }
}

/// The paths held in a list.
pub open spec fn listed_paths(s: Seq<Vec<PathSegment>>) -> Set<Seq<SegmentView>> {
    Set::new(|g: Seq<SegmentView>| exists|k: int| 0 <= k < s.len() && path_view(#[trigger] s[k]@) == g)
}

/// Whether `p` is among the listed paths.
fn contains_path(seen: &Vec<Vec<PathSegment>>, p: &Vec<PathSegment>) -> (r: bool)
    ensures
        r == listed_paths(seen@).contains(path_view(p@)),
{
    let mut k: usize = 0;
    while k < seen.len()
        invariant
            k <= seen@.len(),
            forall|q: int| 0 <= q < k ==> path_view(#[trigger] seen@[q]@) != path_view(p@),
        decreases seen@.len() - k,
    {
        if path_eq(seen[k].as_slice(), p.as_slice()) {
            assert(path_view(seen@[k as int]@) == path_view(p@));
            return true;
        }
        k = k + 1;
    }
    false
}

/// Appends the entries of one pair, and records its groups as seen.
fn pair_items(key: &String, value: &String, seen: &mut Vec<Vec<PathSegment>>, out: &mut Vec<ConfigItem>)
    ensures
        items_view(final(out)@) == items_view(old(out)@) + pair_entries(key@, value@, listed_paths(old(seen)@)),
        listed_paths(final(seen)@) == listed_paths(old(seen)@).union(
            prefix_set(key_path(split_on(key@, '.')), split_on(key@, '.').len() - 1),
        ),
{
    let kc = chars_of(key.as_str());
    let parts = split_chars(&kc, '.');
    let ghost pv = parts@.map_values(|p: Vec<char>| p@);
    let ghost path = key_path(pv);
    let ghost s0 = listed_paths(seen@);
    let ghost start = items_view(out@);
    proof {
        lemma_split_on_nonempty(key@, '.');
    }
    assert(pv == split_on(key@, '.'));
    let last = parts.len() - 1;
    let mut cur: Vec<PathSegment> = Vec::new();
    let mut i: usize = 0;
    assert(listed_paths(seen@) =~= s0.union(prefix_set(path, 0)));
    while i < last
        invariant
            last == parts@.len() - 1,
            i <= last,
            pv == parts@.map_values(|p: Vec<char>| p@),
            path == key_path(pv),
            path_view(cur@) == path.take(i as int),
            listed_paths(seen@) == s0.union(prefix_set(path, i as int)),
            items_view(out@) == start + group_entries(pv, s0, i as int),
        decreases last - i,
    {
        let part = string_of(parts[i].as_slice());
        assert(part@ == pv[i as int]);
        let ghost oc = cur@;
        cur.push(PathSegment::Key(part));
        let ghost g = path.take(i + 1);
        proof {
            assert(path[i as int] == SegmentView::Key(pv[i as int]));
            assert(path_view(cur@) =~= path_view(oc).push(SegmentView::Key(pv[i as int])));
            assert(path_view(cur@) =~= g);
        }
        let found = contains_path(seen, &cur);
        proof {
            assert(!prefix_set(path, i as int).contains(g));
            assert(found == s0.contains(g));
        }
        if !found {
            let p2 = clone_path(&cur);
            let ghost before = seen@;
            seen.push(p2);
            proof {
                assert forall|h: Seq<SegmentView>| #[trigger] listed_paths(seen@).contains(h)
                    == s0.union(prefix_set(path, i + 1)).contains(h) by {
                    if listed_paths(seen@).contains(h) {
                        let k = choose|k: int| 0 <= k < seen@.len() && path_view(#[trigger] seen@[k]@) == h;
                        if k < before.len() {
                            assert(seen@[k] == before[k]);
                            assert(listed_paths(before).contains(h));
                        }
                    }
                    if s0.union(prefix_set(path, i + 1)).contains(h) {
                        if h == g {
                            assert(path_view(seen@[before.len() as int]@) == h);
                        } else {
                            assert(listed_paths(before).contains(h));
                            let k = choose|k: int| 0 <= k < before.len() && path_view(#[trigger] before[k]@) == h;
                            assert(seen@[k] == before[k]);
                        }
                    }
                }
                assert(listed_paths(seen@) =~= s0.union(prefix_set(path, i + 1)));
            }
            let item = ConfigItem {
                key: string_of(parts[i].as_slice()),
                path: clone_path(&cur),
                value: None,
                template_value: None,
                default_value: None,
                depth: i,
                is_group: true,
                status: ItemStatus::Present,
                value_type: ValueType::Null,
            };
            let ghost ob = out@;
            out.push(item);
            proof {
                assert(item@ == group_entry(pv, i as int));
                assert(items_view(out@) =~= items_view(ob).push(item@));
                assert(group_entries(pv, s0, i + 1) =~= group_entries(pv, s0, i as int) + seq![group_entry(pv, i as int)]);
            }
        } else {
            proof {
                assert(listed_paths(seen@) =~= s0.union(prefix_set(path, i + 1)));
                assert(group_entries(pv, s0, i + 1) =~= group_entries(pv, s0, i as int));
            }
        }
        i = i + 1;
    }
    let name = string_of(parts[last].as_slice());
    let ghost oc = cur@;
    cur.push(PathSegment::Key(string_of(parts[last].as_slice())));
    proof {
        assert(path[last as int] == SegmentView::Key(pv[last as int]));
        assert(path_view(cur@) =~= path_view(oc).push(SegmentView::Key(pv[last as int])));
        assert(path_view(cur@) =~= path);
    }
    let leaf = ConfigItem {
        key: name,
        path: cur,
        value: Some(value.clone()),
        template_value: Some(value.clone()),
        default_value: Some(value.clone()),
        depth: last,
        is_group: false,
        status: ItemStatus::Present,
        value_type: ValueType::String,
    };
    let ghost ob = out@;
    out.push(leaf);
    proof {
        assert(leaf@ == leaf_entry(pv, value@));
        assert(items_view(out@) =~= items_view(ob).push(leaf@));
        assert(items_view(out@) =~= start + pair_entries(key@, value@, s0));
    }
}

/// The path and written value of each entry that is not a group, in order.
pub open spec fn property_pairs(vars: Seq<ItemView>, n: int) -> Seq<(Seq<char>, Seq<char>)>
    decreases n,
{
    if n <= 0 || n > vars.len() {
        Seq::empty()
    } else if vars[n - 1].is_group {
        property_pairs(vars, n - 1)
    } else {
        property_pairs(vars, n - 1).push((path_text(vars[n - 1].path), written_text(vars[n - 1])))
    }
}

impl PropertiesHandler {
    /// The entries of the pairs in the order they are met: for each key,
    /// the groups of its leading parts not met before, then the key itself.
    pub fn collect_entries(&self, pairs: &Vec<(String, String)>) -> (vars: Vec<ConfigItem>)
        ensures
            items_view(vars@) == property_entries(props_view(pairs@), pairs@.len() as int),
    {
        let ghost ps = props_view(pairs@);
        let mut vars: Vec<ConfigItem> = Vec::new();
        let mut seen: Vec<Vec<PathSegment>> = Vec::new();
        let mut n: usize = 0;
        assert(listed_paths(seen@) =~= Set::<Seq<SegmentView>>::empty());
        while n < pairs.len()
            invariant
                n <= pairs@.len(),
                ps == props_view(pairs@),
                items_view(vars@) == property_entries(ps, n as int),
                listed_paths(seen@) == groups_seen(ps, n as int),
            decreases pairs@.len() - n,
        {
            let (k, v) = &pairs[n];
            assert(ps[n as int] == (k@, v@));
            pair_items(k, v, &mut seen, &mut vars);
            n = n + 1;
        }
        vars
    }

    /// The entries of the pairs, in path order: the same entries as
    /// `collect_entries` gives, sorted by path, entries with equal paths
    /// kept in the order they are met.
    pub fn items_of(&self, pairs: &Vec<(String, String)>) -> (vars: Vec<ConfigItem>)
        ensures
            sorted_by_path(items_view(vars@)),
            items_view(vars@).to_multiset() == property_entries(props_view(pairs@), pairs@.len() as int).to_multiset(),
            forall|g: Seq<SegmentView>| #[trigger] with_path(items_view(vars@), g)
                == with_path(property_entries(props_view(pairs@), pairs@.len() as int), g),
    {
        let v = self.collect_entries(pairs);
        sort_by_path(v)
    }

    /// The entries of a properties file's bytes, in path order, or the
    /// reader's error.
    pub fn parse_content(&self, bytes: &[u8]) -> (r: Result<Vec<ConfigItem>, PropertiesReadError>)
        ensures
            match r {
                Ok(vars) => properties_map(bytes@) matches Some(m) && exists|ps: Seq<(Seq<char>, Seq<char>)>|
                    #[trigger] lists_map(ps, m) && sorted_by_path(items_view(vars@))
                        && items_view(vars@).to_multiset() == property_entries(ps, ps.len() as int).to_multiset()
                        && forall|g: Seq<SegmentView>| #[trigger] with_path(items_view(vars@), g)
                            == with_path(property_entries(ps, ps.len() as int), g),
                Err(_) => properties_map(bytes@) is None,
            },
    {
        match read_properties(bytes) {
            Ok(pairs) => {
                let vars = self.items_of(&pairs);
                assert(lists_map(props_view(pairs@), properties_map(bytes@).unwrap()));
                Ok(vars)
            },
            Err(e) => Err(PropertiesReadError::Parse(e)),
        }
    }

    /// The pairs to store for the entries: one per path, where the path
    /// first comes, with the written value of its last entry.
    pub fn stored(&self, vars: &Vec<ConfigItem>) -> (r: Vec<(String, String)>)
        ensures
            props_view(r@) == stored_pairs(property_pairs(items_view(vars@), vars@.len() as int)),
    {
        let all = self.pairs_of(vars);
        let ghost av = props_view(all@);
        let mut r: Vec<(String, String)> = Vec::new();
        let mut i: usize = 0;
        assert(av.take(0) =~= Seq::<(Seq<char>, Seq<char>)>::empty());
        assert(props_view(r@) =~= Seq::<(Seq<char>, Seq<char>)>::empty());
        while i < all.len()
            invariant
                i <= all@.len(),
                av == props_view(all@),
                props_view(r@) == stored_pairs(av.take(i as int)),
            decreases all@.len() - i,
        {
            let (k, v) = &all[i];
            set_key(&mut r, k, v);
            proof {
                let t = av.take(i + 1);
                assert(t.drop_last() =~= av.take(i as int));
                assert(t.last() == av[i as int]);
                assert(av[i as int] == (k@, v@));
            }
            i = i + 1;
        }
        assert(av.take(all@.len() as int) =~= av);
        r
    }

    /// The bytes of the properties file that holds the entries: the pairs
    /// to store, written in order by the properties writer, or its error.
    pub fn render(&self, vars: &Vec<ConfigItem>) -> (r: Result<Vec<u8>, PropertiesWriteError>)
        ensures
            match r {
                Ok(b) => properties_written(stored_pairs(property_pairs(items_view(vars@), vars@.len() as int)))
                    == Some(b@),
                Err(_) => properties_written(stored_pairs(property_pairs(items_view(vars@), vars@.len() as int)))
                    is None,
            },
    {
        let pairs = self.stored(vars);
        match write_properties(&pairs) {
            Ok(b) => Ok(b),
            Err(e) => Err(PropertiesWriteError::Write(e)),
        }
    }

    /// The path and written value of each entry that is not a group, in
    /// order (a later pair for the same path replaces an earlier one when
    /// they are stored).
    pub fn pairs_of(&self, vars: &Vec<ConfigItem>) -> (r: Vec<(String, String)>)
        ensures
            props_view(r@) == property_pairs(items_view(vars@), vars@.len() as int),
    {
        let ghost iv = items_view(vars@);
        let mut r: Vec<(String, String)> = Vec::new();
        let mut i: usize = 0;
        while i < vars.len()
            invariant
                i <= vars@.len(),
                iv == items_view(vars@),
                props_view(r@) == property_pairs(iv, i as int),
            decreases vars@.len() - i,
        {
            let var = &vars[i];
            assert(iv[i as int] == var@);
            if !var.is_group {
                let p = (var.path_string(), var.written_value());
                let ghost before = r@;
                r.push(p);
                assert(props_view(r@) =~= props_view(before).push((path_text(var@.path), written_text(var@))));
            }
            i = i + 1;
        }
        r
    }
}

proof fn lemma_property_pairs_keep(vars: Seq<ItemView>, n: int, i: int)
    requires
        0 <= i < n <= vars.len(),
        !vars[i].is_group,
    ensures
        property_pairs(vars, n).contains((path_text(vars[i].path), written_text(vars[i]))),
    decreases n,
{
    let w = (path_text(vars[i].path), written_text(vars[i]));
    if i < n - 1 {
        lemma_property_pairs_keep(vars, n - 1, i);
        let prev = property_pairs(vars, n - 1);
        let k = choose|k: int| 0 <= k < prev.len() && prev[k] == w;
        if !vars[n - 1].is_group {
            assert(property_pairs(vars, n)[k] == w);
        }
    } else {
        let r = property_pairs(vars, n);
        assert(r[r.len() - 1] == w);
    }
}

/// Every entry that is not a group is stored as a pair of its path and its
/// value, else its template value, else the empty text (so an entry that
/// only the template has keeps the template's value).
pub proof fn law_property_pairs_carry_values(vars: Seq<ItemView>, i: int)
    requires
        0 <= i < vars.len(),
        !vars[i].is_group,
    ensures
        property_pairs(vars, vars.len() as int).contains(
            (
                path_text(vars[i].path),
                match vars[i].value {
                    Some(v) => v,
                    None => match vars[i].template_value {
                        Some(t) => t,
                        None => Seq::empty(),
                    },
                },
            ),
        ),
{
    lemma_property_pairs_keep(vars, vars.len() as int, i);
}

} // verus!
