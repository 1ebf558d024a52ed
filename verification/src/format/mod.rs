//! The unified item model shared by every supported file format: a flat,
//! ordered list of items, each located by a path of object keys and array
//! indices.

use vstd::prelude::*;
use crate::text::{decimal, decimal_chars, string_of};

pub mod document;
pub mod env;
pub mod hierarchical;
pub mod ini;
pub mod order;
pub mod properties;
pub mod rebuild;
pub mod xml;

verus! {

/// Where an item stands relative to the template.
#[derive(Debug, Clone, Copy, PartialEq, Eq, Structural)]
pub enum ItemStatus {
    /// In the active configuration, and equal to the template (or there is no template).
    Present,
    /// In the template only.
    MissingFromActive,
    /// Changed by the user, or different from the template.
    Modified,
}

/// The original data type of a value, kept so that writing restores it.
#[derive(Debug, Clone, Copy, PartialEq, Eq, Structural)]
pub enum ValueType {
    /// Text.
    String,
    /// A number, integer or not.
    Number,
    /// `true` or `false`.
    Bool,
    /// An explicit null, or an empty value.
    Null,
}

/// One step of a path: a key of an object, or an index of an array.
#[derive(Debug)]
pub enum PathSegment {
    /// A named key in an object.
    Key(String),
    /// A position in an array.
    Index(usize),
}

/// The mathematical form of a path step.
pub enum SegmentView {
    Key(Seq<char>),
    Index(usize),
}

impl View for PathSegment {
    type V = SegmentView;

    open spec fn view(&self) -> SegmentView {
        match self {
            PathSegment::Key(k) => SegmentView::Key(k@),
            PathSegment::Index(i) => SegmentView::Index(*i),
        }
    }
}

impl Clone for PathSegment {
    fn clone(&self) -> (r: Self)
        ensures
            r == *self,
    {
        match self {
            PathSegment::Key(k) => PathSegment::Key(k.clone()),
            PathSegment::Index(i) => PathSegment::Index(*i),
        }
    }
}

impl PathSegment {
    /// The text of a step: a key as it is, an index in brackets.
    pub fn to_string(&self) -> (s: String)
        ensures
            s@ == match self@ {
                SegmentView::Key(k) => k,
                SegmentView::Index(i) => seq!['['] + decimal(i as nat) + seq![']'],
            },
    {
        match self {
            PathSegment::Key(k) => k.clone(),
            PathSegment::Index(i) => {
                let mut s = String::new();
                s.push('[');
                let d = decimal_chars(*i);
                let mut j: usize = 0;
                let ghost s0 = s@;
                while j < d.len()
                    invariant
                        j <= d@.len(),
                        s@ == s0 + d@.take(j as int),
                    decreases d@.len() - j,
                {
                    s.push(d[j]);
                    j = j + 1;
                    assert(s@ =~= s0 + d@.take(j as int));
                }
                assert(d@.take(d@.len() as int) == d@);
                s.push(']');
                s
            },
        }
    }
}

/// The mathematical form of a path.
pub open spec fn path_view(p: Seq<PathSegment>) -> Seq<SegmentView> {
    p.map_values(|s: PathSegment| s@)
}

/// The mathematical form of an optional string.
pub open spec fn opt_view(o: Option<String>) -> Option<Seq<char>> {
    match o {
        Some(s) => Some(s@),
        None => None,
    }
}

/// One configuration entry.
#[derive(Debug)]
pub struct ConfigItem {
    /// The short display name (such as `port` or `[0]`).
    pub key: String,
    /// The full location of the entry in the configuration tree.
    pub path: Vec<PathSegment>,
    /// The active value.
    pub value: Option<String>,
    /// The value found in the template, if any.
    pub template_value: Option<String>,
    /// The value to fall back to when the entry is missing.
    pub default_value: Option<String>,
    /// The nesting depth, for indentation.
    pub depth: usize,
    /// Whether this is an object or array rather than a leaf value.
    pub is_group: bool,
    /// Where the entry stands relative to the template.
    pub status: ItemStatus,
    /// The original type of the value.
    pub value_type: ValueType,
}

/// The mathematical form of a configuration entry.
pub struct ItemView {
    pub key: Seq<char>,
    pub path: Seq<SegmentView>,
    pub value: Option<Seq<char>>,
    pub template_value: Option<Seq<char>>,
    pub default_value: Option<Seq<char>>,
    pub depth: usize,
    pub is_group: bool,
    pub status: ItemStatus,
    pub value_type: ValueType,
}

impl View for ConfigItem {
    type V = ItemView;

    open spec fn view(&self) -> ItemView {
        ItemView {
            key: self.key@,
            path: path_view(self.path@),
            value: opt_view(self.value),
            template_value: opt_view(self.template_value),
            default_value: opt_view(self.default_value),
            depth: self.depth,
            is_group: self.is_group,
            status: self.status,
            value_type: self.value_type,
        }
    }
}

/// The mathematical form of a list of entries.
pub open spec fn items_view(v: Seq<ConfigItem>) -> Seq<ItemView> {
    v.map_values(|i: ConfigItem| i@)
}

/// A copy of an optional string.
pub fn clone_opt(o: &Option<String>) -> (r: Option<String>)
    ensures
        r == *o,
{
    match o {
        Some(s) => Some(s.clone()),
        None => None,
    }
}

/// A copy of a path.
pub fn clone_path(p: &Vec<PathSegment>) -> (r: Vec<PathSegment>)
    ensures
        r@ == p@,
{
    let mut r: Vec<PathSegment> = Vec::new();
    let mut i: usize = 0;
    while i < p.len()
        invariant
            i <= p@.len(),
            r@ == p@.take(i as int),
        decreases p@.len() - i,
    {
        r.push(p[i].clone());
        i = i + 1;
        assert(r@ =~= p@.take(i as int));
    }
    assert(p@.take(p@.len() as int) == p@);
    r
}

/// The first `n` steps of the path `p`.
pub fn path_prefix(p: &Vec<PathSegment>, n: usize) -> (r: Vec<PathSegment>)
    requires
        n <= p@.len(),
    ensures
        path_view(r@) == path_view(p@).take(n as int),
        r@ == p@.take(n as int),
{
    let mut r: Vec<PathSegment> = Vec::new();
    let mut i: usize = 0;
    while i < n
        invariant
            i <= n <= p@.len(),
            r@ == p@.take(i as int),
        decreases n - i,
    {
        r.push(p[i].clone());
        i = i + 1;
        assert(r@ =~= p@.take(i as int));
    }
    assert(path_view(r@) =~= path_view(p@).take(n as int));
    r
}

impl Clone for ConfigItem {
    fn clone(&self) -> (r: Self)
        ensures
            r@ == self@,
    {
        ConfigItem {
            key: self.key.clone(),
            path: clone_path(&self.path),
            value: clone_opt(&self.value),
            template_value: clone_opt(&self.template_value),
            default_value: clone_opt(&self.default_value),
            depth: self.depth,
            is_group: self.is_group,
            status: self.status,
            value_type: self.value_type,
        }
    }
}

/// A copy of a list of entries.
pub fn clone_items(v: &Vec<ConfigItem>) -> (r: Vec<ConfigItem>)
    ensures
        items_view(r@) == items_view(v@),
{
    let mut r: Vec<ConfigItem> = Vec::new();
    let mut i: usize = 0;
    while i < v.len()
        invariant
            i <= v@.len(),
            items_view(r@) == items_view(v@.take(i as int)),
        decreases v@.len() - i,
    {
        let c = v[i].clone();
        let ghost before = r@;
        r.push(c);
        proof {
            assert(v@.take(i + 1) == v@.take(i as int).push(v@[i as int]));
            assert(items_view(r@) =~= items_view(before).push(c@));
            assert(items_view(v@.take(i + 1)) =~= items_view(v@.take(i as int)).push(v@[i as int]@));
        }
        i = i + 1;
    }
    assert(v@.take(v@.len() as int) == v@);
    r
}

/// Whether two path steps are the same.
pub fn segment_eq(a: &PathSegment, b: &PathSegment) -> (r: bool)
    ensures
        r == (a@ == b@),
{
    match (a, b) {
        (PathSegment::Key(x), PathSegment::Key(y)) => *x == *y,
        (PathSegment::Index(x), PathSegment::Index(y)) => *x == *y,
        _ => false,
    }
}

/// Whether `prefix` is a prefix of the path `p` (every path is a prefix of itself).
pub open spec fn path_has_prefix(p: Seq<SegmentView>, prefix: Seq<SegmentView>) -> bool {
    prefix.len() <= p.len() && p.take(prefix.len() as int) == prefix
}

/// Whether the path `p` starts with `prefix`, as `slice::starts_with` decides.
pub fn path_starts_with(p: &[PathSegment], prefix: &[PathSegment]) -> (r: bool)
    ensures
        r == path_has_prefix(path_view(p@), path_view(prefix@)),
{
    if prefix.len() > p.len() {
        return false;
    }
    let mut i: usize = 0;
    while i < prefix.len()
        invariant
            prefix@.len() <= p@.len(),
            i <= prefix@.len(),
            forall|j: int| 0 <= j < i ==> p@[j]@ == prefix@[j]@,
        decreases prefix@.len() - i,
    {
        if !segment_eq(&p[i], &prefix[i]) {
            assert(path_view(p@).take(prefix@.len() as int)[i as int] != path_view(prefix@)[i as int]);
            return false;
        }
        i = i + 1;
    }
    assert(path_view(p@).take(prefix@.len() as int) =~= path_view(prefix@));
    true
}

/// Whether two paths are the same.
pub fn path_eq(a: &[PathSegment], b: &[PathSegment]) -> (r: bool)
    ensures
        r == (path_view(a@) == path_view(b@)),
{
    if a.len() != b.len() {
        assert(path_view(a@).len() != path_view(b@).len());
        return false;
    }
    let r = path_starts_with(a, b);
    assert(path_view(a@).take(b@.len() as int) =~= path_view(a@));
    r
}

/// The text of a path: keys joined by `.`, indices written `[n]` right
/// after what precedes them (for example `services[0].image`).
pub open spec fn path_text(p: Seq<SegmentView>) -> Seq<char>
    decreases p.len(),
{
    if p.len() == 0 {
        Seq::<char>::empty()
    } else {
        let before = path_text(p.drop_last());
        match p.last() {
            SegmentView::Key(k) => if p.len() > 1 {
                before + seq!['.'] + k
            } else {
                before + k
            },
            SegmentView::Index(n) => before + seq!['['] + decimal(n as nat) + seq![']'],
        }
    }
}

impl ConfigItem {
    /// The full path as text (such as `server.port`).
    pub fn path_string(&self) -> (s: String)
        ensures
            s@ == path_text(self@.path),
    {
        let mut s = String::new();
        let mut i: usize = 0;
        while i < self.path.len()
            invariant
                i <= self.path@.len(),
                s@ == path_text(path_view(self.path@).take(i as int)),
            decreases self.path@.len() - i,
        {
            proof {
                assert(path_view(self.path@).take(i + 1).drop_last() == path_view(self.path@).take(
                    i as int,
                ));
            }
            match &self.path[i] {
                PathSegment::Key(k) => {
                    if i > 0 {
                        s.push('.');
                    }
                    s.append(k.as_str());
                },
                PathSegment::Index(idx) => {
                    s.push('[');
                    let d = decimal_chars(*idx);
                    let ds = string_of(d.as_slice());
                    s.append(ds.as_str());
                    s.push(']');
                },
            }
            i = i + 1;
            assert(s@ =~= path_text(path_view(self.path@).take(i as int)));
        }
        assert(path_view(self.path@).take(self.path@.len() as int) == path_view(self.path@));
        s
    }
}


/// The supported file formats.
#[derive(Debug, Clone, Copy, PartialEq, Eq, Structural)]
pub enum FormatType {
    Env,
    Json,
    Yaml,
    Toml,
    Xml,
    Ini,
    Properties,
}

/// The format that a format name stands for, if any.
pub open spec fn named_format(f: Seq<char>) -> Option<FormatType> {
    if f == "env"@ {
        Some(FormatType::Env)
    } else if f == "json"@ {
        Some(FormatType::Json)
    } else if f == "yaml"@ || f == "yml"@ {
        Some(FormatType::Yaml)
    } else if f == "toml"@ {
        Some(FormatType::Toml)
    } else if f == "xml"@ {
        Some(FormatType::Xml)
    } else if f == "ini"@ {
        Some(FormatType::Ini)
    } else if f == "properties"@ {
        Some(FormatType::Properties)
    } else {
        None
    }
}

/// The format that a file extension stands for; env files for any other.
pub open spec fn extension_format(e: Seq<char>) -> FormatType {
    if e == "json"@ {
        FormatType::Json
    } else if e == "yaml"@ || e == "yml"@ {
        FormatType::Yaml
    } else if e == "toml"@ {
        FormatType::Toml
    } else if e == "xml"@ {
        FormatType::Xml
    } else if e == "ini"@ {
        FormatType::Ini
    } else if e == "properties"@ {
        FormatType::Properties
    } else {
        FormatType::Env
    }
}

/// The format chosen from a (lower-case) format name, when it names one,
/// else from the file's extension (none counts as empty).
pub open spec fn chosen_format(name: Option<Seq<char>>, ext: Option<Seq<char>>) -> FormatType {
    match name {
        Some(f) if named_format(f) is Some => named_format(f).unwrap(),
        _ => match ext {
            Some(e) => extension_format(e),
            None => extension_format(Seq::empty()),
        },
    }
}

/// The extension that `std::path::Path::extension` finds in `path`: what
/// follows the last dot of the file name, unless that dot begins the name.
pub uninterp spec fn path_extension(path: Seq<char>) -> Option<Seq<char>>;

/// Calls `std::path::Path::extension` on `path` (read as a path; the
/// extension is text again, as the path was). The result is named
/// `path_extension`.
#[verifier::external_body]
fn extension_of(path: &str) -> (r: Option<String>)
    ensures
        opt_view(r) == path_extension(path@),
{
    std::path::Path::new(path).extension().and_then(|s| s.to_str()).map(String::from)
}

/// Whether `s` is the word `w`.
fn is_word(s: &str, w: &str) -> (r: bool)
    ensures
        r == (s@ == w@),
{
    let a = crate::text::chars_of(s);
    let b = crate::text::chars_of(w);
    crate::text::chars_eq(&a, &b)
}

/// The format that a format name stands for, if any.
pub fn format_named(f: &str) -> (r: Option<FormatType>)
    ensures
        r == named_format(f@),
{
    if is_word(f, "env") {
        Some(FormatType::Env)
    } else if is_word(f, "json") {
        Some(FormatType::Json)
    } else if is_word(f, "yaml") || is_word(f, "yml") {
        Some(FormatType::Yaml)
    } else if is_word(f, "toml") {
        Some(FormatType::Toml)
    } else if is_word(f, "xml") {
        Some(FormatType::Xml)
    } else if is_word(f, "ini") {
        Some(FormatType::Ini)
    } else if is_word(f, "properties") {
        Some(FormatType::Properties)
    } else {
        None
    }
}

/// The format that a file extension stands for; env files for any other.
pub fn format_of_extension(e: &str) -> (r: FormatType)
    ensures
        r == extension_format(e@),
{
    if is_word(e, "json") {
        FormatType::Json
    } else if is_word(e, "yaml") || is_word(e, "yml") {
        FormatType::Yaml
    } else if is_word(e, "toml") {
        FormatType::Toml
    } else if is_word(e, "xml") {
        FormatType::Xml
    } else if is_word(e, "ini") {
        FormatType::Ini
    } else if is_word(e, "properties") {
        FormatType::Properties
    } else {
        FormatType::Env
    }
}

/// The format chosen from a lower-case format name (when it names a
/// format) or else from a file extension.
pub fn choose_format(lowered_name: Option<String>, extension: Option<String>) -> (r: FormatType)
    ensures
        r == chosen_format(opt_view(lowered_name), opt_view(extension)),
{
    if let Some(f) = &lowered_name {
        if let Some(t) = format_named(f.as_str()) {
            return t;
        }
    }
    match &extension {
        Some(e) => format_of_extension(e.as_str()),
        None => {
            let empty = String::new();
            format_of_extension(empty.as_str())
        },
    }
}

/// The format of a file: the one that the override names (in any case),
/// else the one that the path's extension stands for, else env.
pub fn detect_format(path: &str, override_format: Option<String>) -> (r: FormatType)
    ensures
        r == chosen_format(
            match override_format {
                Some(f) => Some(crate::text::lowercase(f@)),
                None => None,
            },
            path_extension(path@),
        ),
{
    let lowered = match &override_format {
        Some(f) => Some(crate::text::to_lowercase(f.as_str())),
        None => None,
    };
    choose_format(lowered, extension_of(path))
}

/// The handler of each format.
pub enum Handler {
    Env(env::EnvHandler),
    Hierarchical(hierarchical::HierarchicalHandler),
    Ini(ini::IniHandler),
    Properties(properties::PropertiesHandler),
}

/// The handler for a format: the nested formats share one handler that
/// knows which of them it reads.
pub fn get_handler(format: FormatType) -> (h: Handler)
    ensures
        match format {
            FormatType::Env => h is Env,
            FormatType::Ini => h is Ini,
            FormatType::Properties => h is Properties,
            _ => h matches Handler::Hierarchical(x) && x.format_type == format,
        },
{
    match format {
        FormatType::Env => Handler::Env(env::EnvHandler),
        FormatType::Json => Handler::Hierarchical(hierarchical::HierarchicalHandler::new(FormatType::Json)),
        FormatType::Yaml => Handler::Hierarchical(hierarchical::HierarchicalHandler::new(FormatType::Yaml)),
        FormatType::Toml => Handler::Hierarchical(hierarchical::HierarchicalHandler::new(FormatType::Toml)),
        FormatType::Xml => Handler::Hierarchical(hierarchical::HierarchicalHandler::new(FormatType::Xml)),
        FormatType::Ini => Handler::Ini(ini::IniHandler),
        FormatType::Properties => Handler::Properties(properties::PropertiesHandler),
    }
}


/// The text written for an entry: its value, else its template value, else
/// nothing.
pub open spec fn written_text(item: ItemView) -> Seq<char> {
    match item.value {
        Some(v) => v,
        None => match item.template_value {
            Some(t) => t,
            None => Seq::empty(),
        },
    }
}

impl ConfigItem {
    /// The text written for this entry: its value, else its template value,
    /// else the empty string.
    pub fn written_value(&self) -> (s: String)
        ensures
            s@ == written_text(self@),
    {
        match &self.value {
            Some(v) => v.clone(),
            None => match &self.template_value {
                Some(t) => t.clone(),
                None => String::new(),
            },
        }
    }
}


/// The position of the first entry of `ts`, from position `i` on, whose
/// path is `p`, if any.
pub open spec fn first_with_path_from(ts: Seq<ItemView>, p: Seq<SegmentView>, i: int) -> Option<int>
    decreases ts.len() - i,
{
    if i < 0 || i >= ts.len() {
        None
    } else if ts[i].path == p {
        Some(i)
    } else {
        first_with_path_from(ts, p, i + 1)
    }
}

/// The position of the first entry of `ts` whose path is `p`, if any.
pub open spec fn first_with_path(ts: Seq<ItemView>, p: Seq<SegmentView>) -> Option<int> {
    first_with_path_from(ts, p, 0)
}

/// Whether some entry of `s` has the path `p`.
pub open spec fn has_path(s: Seq<ItemView>, p: Seq<SegmentView>) -> bool {
    exists|k: int| 0 <= k < s.len() && #[trigger] s[k].path == p
}

proof fn lemma_first_with_path_from(ts: Seq<ItemView>, p: Seq<SegmentView>, i: int)
    requires
        0 <= i <= ts.len(),
        forall|k: int| 0 <= k < i ==> #[trigger] ts[k].path != p,
    ensures
        first_with_path(ts, p) == first_with_path_from(ts, p, i),
    decreases i,
{
    if i > 0 {
        lemma_first_with_path_from(ts, p, i - 1);
    }
}

/// An active entry compared with the template: with a template entry of
/// the same path it takes the template's value as template and default
/// value, and is modified exactly when its value differs; without one it
/// is present.
pub open spec fn merged_entry(v: ItemView, ts: Seq<ItemView>) -> ItemView {
    match first_with_path(ts, v.path) {
        Some(j) => ItemView {
            template_value: ts[j].value,
            default_value: ts[j].value,
            status: if v.value != ts[j].value {
                ItemStatus::Modified
            } else {
                ItemStatus::Present
            },
            ..v
        },
        None => ItemView { status: ItemStatus::Present, ..v },
    }
}

/// The entries after the first `n` template entries were considered: a
/// template entry whose path is not among the entries yet is appended as
/// missing, without a value.
pub open spec fn with_missing(vs: Seq<ItemView>, ts: Seq<ItemView>, n: int) -> Seq<ItemView>
    decreases n,
{
    if n <= 0 || n > ts.len() {
        vs
    } else {
        let prev = with_missing(vs, ts, n - 1);
        let t = ts[n - 1];
        if has_path(prev, t.path) {
            prev
        } else {
            prev.push(ItemView { status: ItemStatus::MissingFromActive, value: None, ..t })
        }
    }
}

/// The active entries merged with the template's entries.
pub open spec fn merge_spec(vs: Seq<ItemView>, ts: Seq<ItemView>) -> Seq<ItemView> {
    with_missing(vs.map_values(|v: ItemView| merged_entry(v, ts)), ts, ts.len() as int)
}

/// Appending missing template entries keeps the entries there were and
/// adds only missing entries without a value.
proof fn lemma_with_missing_keeps(vs: Seq<ItemView>, ts: Seq<ItemView>, n: int)
    ensures
        with_missing(vs, ts, n).len() >= vs.len(),
        forall|i: int| 0 <= i < vs.len() ==> #[trigger] with_missing(vs, ts, n)[i] == vs[i],
        forall|i: int|
            vs.len() <= i < with_missing(vs, ts, n).len() ==> (#[trigger] with_missing(vs, ts, n)[i]).status
                == ItemStatus::MissingFromActive && with_missing(vs, ts, n)[i].value is None,
    decreases n,
{
    if n > 0 && n <= ts.len() {
        lemma_with_missing_keeps(vs, ts, n - 1);
    }
}

/// After the first `n` template entries were considered, each of their
/// paths is among the entries.
proof fn lemma_with_missing_covers(vs: Seq<ItemView>, ts: Seq<ItemView>, n: int)
    requires
        n <= ts.len(),
    ensures
        forall|j: int| 0 <= j < n ==> has_path(with_missing(vs, ts, n), #[trigger] ts[j].path),
    decreases n,
{
    if n > 0 {
        lemma_with_missing_covers(vs, ts, n - 1);
        let prev = with_missing(vs, ts, n - 1);
        let cur = with_missing(vs, ts, n);
        assert forall|j: int| 0 <= j < n implies has_path(cur, #[trigger] ts[j].path) by {
            if j < n - 1 {
                let k = choose|k: int| 0 <= k < prev.len() && #[trigger] prev[k].path == ts[j].path;
                if !has_path(prev, ts[n - 1].path) {
                    assert(cur[k] == prev[k]);
                }
            } else if !has_path(prev, ts[n - 1].path) {
                assert(cur[prev.len() as int].path == ts[n - 1].path);
            }
        }
    }
}

/// Merging with a template: the active entries come first, in order, with
/// their paths, keys and values; each one that the template also has takes
/// the template's value as template and default value and is modified
/// exactly when its value differs; every path of the template is among the
/// merged entries; and the entries after the active ones are the
/// template's missing entries, without a value.
pub proof fn law_merge(vs: Seq<ItemView>, ts: Seq<ItemView>)
    ensures
        merge_spec(vs, ts).len() >= vs.len(),
        forall|i: int| 0 <= i < vs.len() ==> {
            let m = #[trigger] merge_spec(vs, ts)[i];
            &&& m.path == vs[i].path
            &&& m.key == vs[i].key
            &&& m.value == vs[i].value
            &&& match first_with_path(ts, vs[i].path) {
                Some(j) => m.template_value == ts[j].value && (m.status == ItemStatus::Modified
                    <==> vs[i].value != ts[j].value),
                None => m.status == ItemStatus::Present,
            }
        },
        forall|j: int| 0 <= j < ts.len() ==> has_path(merge_spec(vs, ts), #[trigger] ts[j].path),
        forall|i: int|
            vs.len() <= i < merge_spec(vs, ts).len() ==> (#[trigger] merge_spec(vs, ts)[i]).status
                == ItemStatus::MissingFromActive && merge_spec(vs, ts)[i].value is None,
{
    let mapped = vs.map_values(|v: ItemView| merged_entry(v, ts));
    lemma_with_missing_keeps(mapped, ts, ts.len() as int);
    lemma_with_missing_covers(mapped, ts, ts.len() as int);
    assert forall|i: int| 0 <= i < vs.len() implies {
        let m = #[trigger] merge_spec(vs, ts)[i];
        &&& m.path == vs[i].path
        &&& m.key == vs[i].key
        &&& m.value == vs[i].value
        &&& match first_with_path(ts, vs[i].path) {
            Some(j) => m.template_value == ts[j].value && (m.status == ItemStatus::Modified
                <==> vs[i].value != ts[j].value),
            None => m.status == ItemStatus::Present,
        }
    } by {
        assert(merge_spec(vs, ts)[i] == mapped[i]);
    }
}

/// Whether two optional strings are equal.
pub fn opt_eq(a: &Option<String>, b: &Option<String>) -> (r: bool)
    ensures
        r == (opt_view(*a) == opt_view(*b)),
{
    match (a, b) {
        (Some(x), Some(y)) => *x == *y,
        (None, None) => true,
        _ => false,
    }
}

/// An entry of a template that the active file lacks: missing, without a value.
pub open spec fn as_missing(v: ItemView) -> ItemView {
    ItemView { status: ItemStatus::MissingFromActive, value: None, ..v }
}

/// Marks every entry of a template as missing from the active file, with
/// no value (for a template that has no active file yet).
pub fn mark_all_missing(vars: &mut Vec<ConfigItem>)
    ensures
        items_view(final(vars)@) == items_view(old(vars)@).map_values(|v: ItemView| as_missing(v)),
{
    let ghost iv = items_view(vars@);
    let mut out: Vec<ConfigItem> = Vec::new();
    let mut i: usize = 0;
    while i < vars.len()
        invariant
            i <= vars@.len(),
            iv == items_view(vars@),
            items_view(out@) == iv.take(i as int).map_values(|v: ItemView| as_missing(v)),
        decreases vars@.len() - i,
    {
        let mut v = vars[i].clone();
        v.status = ItemStatus::MissingFromActive;
        v.value = None;
        let ghost before = items_view(out@);
        let ghost vv = v@;
        out.push(v);
        proof {
            assert(iv[i as int] == vars@[i as int]@);
            assert(vv == as_missing(iv[i as int]));
            assert(items_view(out@) =~= before.push(vv));
            assert(iv.take(i + 1).map_values(|v: ItemView| as_missing(v))
                =~= iv.take(i as int).map_values(|v: ItemView| as_missing(v)).push(as_missing(iv[i as int])));
        }
        i = i + 1;
    }
    assert(iv.take(iv.len() as int) =~= iv);
    *vars = out;
}

/// Where the first entry with path `p` stands in `ts`.
pub fn find_path(ts: &Vec<ConfigItem>, p: &Vec<PathSegment>) -> (r: Option<usize>)
    ensures
        match r {
            Some(j) => first_with_path(items_view(ts@), path_view(p@)) == Some(j as int),
            None => first_with_path(items_view(ts@), path_view(p@)) is None,
        },
        r matches Some(j) ==> j < ts@.len() && ts@[j as int]@.path == path_view(p@),
        r is None ==> !has_path(items_view(ts@), path_view(p@)),
{
    let ghost tv = items_view(ts@);
    let ghost pv = path_view(p@);
    let mut j: usize = 0;
    while j < ts.len()
        invariant
            j <= ts@.len(),
            tv == items_view(ts@),
            pv == path_view(p@),
            forall|k: int| 0 <= k < j ==> #[trigger] tv[k].path != pv,
        decreases ts@.len() - j,
    {
        assert(tv[j as int] == ts@[j as int]@);
        if path_eq(&ts[j].path, p) {
            proof {
                lemma_first_with_path_from(tv, pv, j as int);
            }
            return Some(j);
        }
        j = j + 1;
    }
    proof {
        lemma_first_with_path_from(tv, pv, j as int);
    }
    None
}

/// Merges the template's entries into the active entries: every active
/// entry is compared with the template entry of the same path, and
/// template entries that are not active are added as missing.
pub fn merge_template(vars: &mut Vec<ConfigItem>, template_vars: &Vec<ConfigItem>)
    ensures
        items_view(final(vars)@) == merge_spec(items_view(old(vars)@), items_view(template_vars@)),
{
    let ghost tv = items_view(template_vars@);
    let ghost ov = items_view(vars@);
    let ghost mapped = ov.map_values(|v: ItemView| merged_entry(v, tv));
    let mut out: Vec<ConfigItem> = Vec::new();
    let mut i: usize = 0;
    while i < vars.len()
        invariant
            i <= vars@.len(),
            tv == items_view(template_vars@),
            ov == items_view(vars@),
            mapped == ov.map_values(|v: ItemView| merged_entry(v, tv)),
            items_view(out@) == mapped.take(i as int),
        decreases vars@.len() - i,
    {
        let mut var = vars[i].clone();
        assert(var@ == ov[i as int]);
        match find_path(template_vars, &var.path) {
            Some(j) => {
                let t = &template_vars[j];
                assert(tv[j as int] == t@);
                var.template_value = clone_opt(&t.value);
                var.default_value = clone_opt(&t.value);
                if !opt_eq(&var.value, &t.value) {
                    var.status = ItemStatus::Modified;
                } else {
                    var.status = ItemStatus::Present;
                }
            },
            None => {
                var.status = ItemStatus::Present;
            },
        }
        let ghost before = out@;
        out.push(var);
        assert(items_view(out@) =~= items_view(before).push(var@));
        assert(mapped.take(i + 1) =~= mapped.take(i as int).push(mapped[i as int]));
        i = i + 1;
    }
    assert(mapped.take(ov.len() as int) == mapped);
    let mut k: usize = 0;
    while k < template_vars.len()
        invariant
            k <= template_vars@.len(),
            tv == items_view(template_vars@),
            items_view(out@) == with_missing(mapped, tv, k as int),
        decreases template_vars@.len() - k,
    {
        let t = &template_vars[k];
        assert(tv[k as int] == t@);
        let present = find_path(&out, &t.path);
        let ghost prev = items_view(out@);
        assert(prev == with_missing(mapped, tv, k as int));
        if present.is_none() {
            let mut new_item = t.clone();
            new_item.status = ItemStatus::MissingFromActive;
            new_item.value = None;
            let ghost before = out@;
            out.push(new_item);
            assert(items_view(out@) =~= items_view(before).push(new_item@));
            assert(new_item@ == ItemView { status: ItemStatus::MissingFromActive, value: None, ..tv[k as int] });
        } else {
            proof {
                let j = present->Some_0;
                assert(prev[j as int] == out@[j as int]@);
                assert(prev[j as int].path == tv[k as int].path);
                assert(has_path(prev, tv[k as int].path));
            }
        }
        k = k + 1;
    }
    *vars = out;
}

} // verus!
