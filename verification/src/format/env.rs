//! Flat `KEY=VALUE` files: every entry stands at the root.

use vstd::prelude::*;
use super::{
    ConfigItem, ItemStatus, ItemView, PathSegment, SegmentView, ValueType, items_view, written_text,
};
use crate::text::{
    chars_of, find_char, first_index_of, is_ws, lacks, lemma_split_extend, slice_chars, split_chars,
    split_on, string_of, trim, trim_chars, trim_end, trim_start,
};

verus! {

/// The translation between `.env` text and the item list.
pub struct EnvHandler;

/// The entry that one line gives, if any: lines that are empty or start
/// with `#` once trimmed give none, and so do lines without `=`; otherwise
/// the trimmed text before the first `=` is the key and the trimmed text
/// after it is the value.
pub open spec fn env_line_entry(line: Seq<char>) -> Option<ItemView> {
    let t = trim(line);
    if t.len() == 0 || t[0] == '#' {
        None
    } else {
        match first_index_of(t, '=') {
            Some(e) => {
                let k = trim(t.take(e));
                let v = trim(t.skip(e + 1));
                Some(
                    ItemView {
                        key: k,
                        path: seq![SegmentView::Key(k)],
                        value: Some(v),
                        template_value: Some(v),
                        default_value: Some(v),
                        depth: 0,
                        is_group: false,
                        status: ItemStatus::Present,
                        value_type: ValueType::String,
                    },
                )
            },
            None => None,
        }
    }
}

/// The entries of the first `n` lines.
pub open spec fn env_entries(lines: Seq<Seq<char>>, n: int) -> Seq<ItemView>
    decreases n,
{
    if n <= 0 || n > lines.len() {
        Seq::empty()
    } else {
        let prev = env_entries(lines, n - 1);
        match env_line_entry(lines[n - 1]) {
            Some(e) => prev.push(e),
            None => prev,
        }
    }
}

/// The entries of a whole `.env` text, line by line (`\r` before a line
/// break goes with the trimming).
pub open spec fn env_parse(content: Seq<char>) -> Seq<ItemView> {
    let lines = split_on(content, '\n');
    env_entries(lines, lines.len() as int)
}

/// The `KEY=VALUE` lines of the first `n` entries (groups are skipped).
pub open spec fn env_text(vars: Seq<ItemView>, n: int) -> Seq<char>
    decreases n,
{
    if n <= 0 || n > vars.len() {
        Seq::empty()
    } else {
        let prev = env_text(vars, n - 1);
        let v = vars[n - 1];
        if v.is_group {
            prev
        } else {
            prev + v.key + seq!['='] + written_text(v) + seq!['\n']
        }
    }
}

fn line_entry(line: &Vec<char>) -> (r: Option<ConfigItem>)
    ensures
        match r {
            Some(e) => env_line_entry(line@) == Some(e@),
            None => env_line_entry(line@) is None,
        },
{
    let t = trim_chars(line);
    if t.len() == 0 || t[0] == '#' {
        return None;
    }
    match find_char(&t, '=') {
        Some(e) => {
            let k = trim_chars(&slice_chars(&t, 0, e));
            let v = trim_chars(&slice_chars(&t, e + 1, t.len()));
            proof {
                assert(t@.subrange(0, e as int) == t@.take(e as int));
                assert(t@.subrange(e + 1, t@.len() as int) == t@.skip(e + 1));
            }
            let key = string_of(k.as_slice());
            let value = string_of(v.as_slice());
            let mut path: Vec<PathSegment> = Vec::new();
            path.push(PathSegment::Key(key.clone()));
            let item = ConfigItem {
                key,
                path,
                value: Some(value.clone()),
                template_value: Some(value.clone()),
                default_value: Some(value),
                depth: 0,
                is_group: false,
                status: ItemStatus::Present,
                value_type: ValueType::String,
            };
            assert(item@.path =~= seq![SegmentView::Key(k@)]);
            Some(item)
        },
        None => None,
    }
}

impl EnvHandler {
    /// The entries of a `.env` text.
    pub fn parse_content(&self, content: &str) -> (vars: Vec<ConfigItem>)
        ensures
            items_view(vars@) == env_parse(content@),
    {
        let cs = chars_of(content);
        let lines = split_chars(&cs, '\n');
        let ghost ls = split_on(content@, '\n');
        let mut vars: Vec<ConfigItem> = Vec::new();
        let mut i: usize = 0;
        while i < lines.len()
            invariant
                i <= lines@.len(),
                lines@.map_values(|p: Vec<char>| p@) == ls,
                ls == split_on(content@, '\n'),
                items_view(vars@) == env_entries(ls, i as int),
            decreases lines@.len() - i,
        {
            assert(ls[i as int] == lines@[i as int]@);
            match line_entry(&lines[i]) {
                Some(e) => {
                    let ghost before = vars@;
                    vars.push(e);
                    assert(items_view(vars@) =~= items_view(before).push(e@));
                },
                None => {},
            }
            i = i + 1;
        }
        vars
    }

    /// The `.env` text of the entries: one `KEY=VALUE` line per entry that
    /// is not a group, with the value, else the template value, else
    /// nothing.
    pub fn render(&self, vars: &Vec<ConfigItem>) -> (s: String)
        ensures
            s@ == env_text(items_view(vars@), vars@.len() as int),
    {
        let ghost iv = items_view(vars@);
        let mut s = String::new();
        let mut i: usize = 0;
        while i < vars.len()
            invariant
                i <= vars@.len(),
                iv == items_view(vars@),
                s@ == env_text(iv, i as int),
            decreases vars@.len() - i,
        {
            let var = &vars[i];
            assert(iv[i as int] == var@);
            if !var.is_group {
                let val = var.written_value();
                s.append(var.key.as_str());
                s.push('=');
                s.append(val.as_str());
                s.push('\n');
            }
            i = i + 1;
            assert(s@ =~= env_text(iv, i as int));
        }
        s
    }
}

/// Whether an entry's line reads back as the entry: a key that is not
/// empty, has no `=` or line break, does not start with `#` and has no
/// white space at its ends, and a written value with no line break and no
/// white space at its ends.
pub open spec fn env_safe(v: ItemView) -> bool {
    let k = v.key;
    let w = written_text(v);
    &&& k.len() > 0
    &&& k[0] != '#'
    &&& !is_ws(k[0])
    &&& !is_ws(k.last())
    &&& lacks(k, '=')
    &&& lacks(k, '\n')
    &&& lacks(w, '\n')
    &&& (w.len() > 0 ==> !is_ws(w[0]) && !is_ws(w.last()))
}

/// The entry that reads back from an entry's line: its key at the root,
/// with its written value as value, template and default.
pub open spec fn env_read_back(v: ItemView) -> ItemView {
    ItemView {
        key: v.key,
        path: seq![SegmentView::Key(v.key)],
        value: Some(written_text(v)),
        template_value: Some(written_text(v)),
        default_value: Some(written_text(v)),
        depth: 0,
        is_group: false,
        status: ItemStatus::Present,
        value_type: ValueType::String,
    }
}

/// The entries that read back from the first `n` entries (groups have no
/// line).
pub open spec fn env_written(vars: Seq<ItemView>, n: int) -> Seq<ItemView>
    decreases n,
{
    if n <= 0 || n > vars.len() {
        Seq::empty()
    } else if vars[n - 1].is_group {
        env_written(vars, n - 1)
    } else {
        env_written(vars, n - 1).push(env_read_back(vars[n - 1]))
    }
}

/// The lines of the first `n` entries.
pub open spec fn env_lines(vars: Seq<ItemView>, n: int) -> Seq<Seq<char>>
    decreases n,
{
    if n <= 0 || n > vars.len() {
        Seq::empty()
    } else if vars[n - 1].is_group {
        env_lines(vars, n - 1)
    } else {
        env_lines(vars, n - 1).push(vars[n - 1].key + seq!['='] + written_text(vars[n - 1]))
    }
}

proof fn lemma_trim_start_keeps(s: Seq<char>)
    requires
        s.len() == 0 || !is_ws(s[0]),
    ensures
        trim_start(s) == s,
{
}

proof fn lemma_trim_end_keeps(s: Seq<char>)
    requires
        s.len() == 0 || !is_ws(s.last()),
    ensures
        trim_end(s) == s,
{
}

/// The line of a safe entry reads back as the entry.
proof fn lemma_line_reads_back(v: ItemView)
    requires
        env_safe(v),
    ensures
        env_line_entry(v.key + seq!['='] + written_text(v)) == Some(env_read_back(v)),
{
    let k = v.key;
    let w = written_text(v);
    let line = k + seq!['='] + w;
    assert(line[0] == k[0]);
    lemma_trim_start_keeps(line);
    if w.len() > 0 {
        assert(line.last() == w.last());
    } else {
        assert(line.last() == '=');
    }
    lemma_trim_end_keeps(line);
    assert(trim(line) == line);
    let e = k.len() as int;
    assert(line[e] == '=');
    assert(forall|j: int| 0 <= j < e ==> line[j] != '=') by {
        assert forall|j: int| 0 <= j < e implies line[j] != '=' by {
            assert(line[j] == k[j]);
        }
    }
    let c = choose|i: int| 0 <= i < line.len() && line[i] == '=' && forall|j: int| 0 <= j < i ==> line[j] != '=';
    if c < e {
        assert(line[c] == k[c]);
    } else if c > e {
        assert(line[e] != '=');
    }
    assert(first_index_of(line, '=') == Some(e));
    assert(line.take(e) =~= k);
    assert(line.skip(e + 1) =~= w);
    lemma_trim_start_keeps(k);
    lemma_trim_end_keeps(k);
    lemma_trim_start_keeps(w);
    lemma_trim_end_keeps(w);
}

/// The entries of lines depend only on those lines.
proof fn lemma_env_entries_prefix(ls: Seq<Seq<char>>, x: Seq<char>, n: int)
    requires
        0 <= n <= ls.len(),
    ensures
        env_entries(ls.push(x), n) == env_entries(ls, n),
    decreases n,
{
    if n > 0 {
        lemma_env_entries_prefix(ls, x, n - 1);
        assert(ls.push(x)[n - 1] == ls[n - 1]);
    }
}

proof fn lemma_env_round_trip(vars: Seq<ItemView>, n: int)
    requires
        0 <= n <= vars.len(),
        forall|i: int| 0 <= i < vars.len() && !(#[trigger] vars[i]).is_group ==> env_safe(vars[i]),
    ensures
        split_on(env_text(vars, n), '\n') == env_lines(vars, n).push(Seq::empty()),
        env_entries(env_lines(vars, n), env_lines(vars, n).len() as int) == env_written(vars, n),
    decreases n,
{
    if n == 0 {
        assert(split_on(Seq::<char>::empty(), '\n') == seq![Seq::<char>::empty()]);
        assert(env_lines(vars, 0).push(Seq::<char>::empty()) =~= seq![Seq::<char>::empty()]);
    } else {
        lemma_env_round_trip(vars, n - 1);
        let v = vars[n - 1];
        let prev_text = env_text(vars, n - 1);
        let ls = env_lines(vars, n - 1);
        if !v.is_group {
            let line = v.key + seq!['='] + written_text(v);
            assert(lacks(line, '\n')) by {
                assert forall|i: int| 0 <= i < line.len() implies line[i] != '\n' by {
                    if i < v.key.len() {
                        assert(line[i] == v.key[i]);
                    } else if i > v.key.len() {
                        assert(line[i] == written_text(v)[i - v.key.len() - 1]);
                    }
                }
            }
            lemma_split_extend(prev_text, line, '\n');
            let t2 = prev_text + line;
            assert(env_text(vars, n) =~= t2.push('\n'));
            assert(t2.push('\n').drop_last() =~= t2);
            assert(ls.push(Seq::<char>::empty()).update(ls.len() as int, Seq::<char>::empty() + line) =~= ls.push(line));
            lemma_line_reads_back(v);
            lemma_env_entries_prefix(ls, line, ls.len() as int);
        }
    }
}

/// Writing entries and reading the text back gives, for each entry that
/// is not a group, an entry at the root with its key and its written value,
/// when each key and value can stand on a line as they are (see
/// `env_safe`).
pub proof fn law_env_write_then_read(vars: Seq<ItemView>)
    requires
        forall|i: int| 0 <= i < vars.len() && !(#[trigger] vars[i]).is_group ==> env_safe(vars[i]),
    ensures
        env_parse(env_text(vars, vars.len() as int)) == env_written(vars, vars.len() as int),
{
    let n = vars.len() as int;
    lemma_env_round_trip(vars, n);
    let ls = env_lines(vars, n);
    lemma_env_entries_prefix(ls, Seq::empty(), ls.len() as int);
    assert(trim(Seq::<char>::empty()) == Seq::<char>::empty());
    assert(ls.push(Seq::<char>::empty())[ls.len() as int] == Seq::<char>::empty());
}

proof fn lemma_trim_start_first(s: Seq<char>)
    ensures
        trim_start(s).len() > 0 ==> !is_ws(trim_start(s)[0]),
    decreases s.len(),
{
    if s.len() > 0 && is_ws(s[0]) {
        lemma_trim_start_first(s.drop_first());
    }
}

proof fn lemma_trim_end_prefix(s: Seq<char>)
    ensures
        trim_end(s).len() <= s.len(),
        trim_end(s) == s.take(trim_end(s).len() as int),
    decreases s.len(),
{
    if s.len() > 0 && is_ws(s.last()) {
        lemma_trim_end_prefix(s.drop_last());
        let t = trim_end(s.drop_last());
        assert(s.drop_last().take(t.len() as int) =~= s.take(t.len() as int));
    } else {
        assert(s.take(s.len() as int) =~= s);
    }
}

/// A trimmed text that is not empty starts with what the untrimmed text
/// has first after its leading white space, which is no white space.
proof fn lemma_trim_first(s: Seq<char>)
    ensures
        trim(s).len() > 0 ==> trim(s)[0] == trim_start(s)[0] && !is_ws(trim(s)[0]),
{
    lemma_trim_start_first(s);
    lemma_trim_end_prefix(trim_start(s));
    if trim(s).len() > 0 {
        assert(trim(s)[0] == trim_start(s).take(trim(s).len() as int)[0]);
    }
}

proof fn lemma_least_occurrence(s: Seq<char>, c: char, i: int)
    requires
        0 <= i < s.len(),
        s[i] == c,
    ensures
        exists|k: int| 0 <= k < s.len() && s[k] == c && forall|j: int| 0 <= j < k ==> s[j] != c,
    decreases i,
{
    if exists|j: int| 0 <= j < i && s[j] == c {
        let j = choose|j: int| 0 <= j < i && s[j] == c;
        lemma_least_occurrence(s, c, j);
    }
}

/// The first occurrence of `c` found in `s` is a `c` within `s`.
proof fn lemma_first_index_in_range(s: Seq<char>, c: char)
    ensures
        first_index_of(s, c) matches Some(e) ==> 0 <= e < s.len() && s[e] == c,
{
    if exists|i: int| 0 <= i < s.len() && s[i] == c {
        let i = choose|i: int| 0 <= i < s.len() && s[i] == c;
        lemma_least_occurrence(s, c, i);
    }
}

/// A line whose text starts with `#` once trimmed is a comment: it gives
/// no entry; and no line gives an entry whose key starts with `#`.
pub proof fn law_env_comment_line(line: Seq<char>)
    ensures
        trim(line).len() > 0 && trim(line)[0] == '#' ==> env_line_entry(line) is None,
        env_line_entry(line) matches Some(e) ==> e.key.len() == 0 || e.key[0] != '#',
{
    let t = trim(line);
    lemma_trim_first(line);
    lemma_first_index_in_range(t, '=');
    if t.len() > 0 && t[0] != '#' {
        match first_index_of(t, '=') {
            Some(e) => {
                if e > 0 {
                    let h = t.take(e);
                    assert(h[0] == t[0]);
                    lemma_trim_start_keeps(h);
                    lemma_trim_end_prefix(h);
                    let k = trim(h);
                    if k.len() > 0 {
                        assert(k[0] == h.take(k.len() as int)[0]);
                    }
                } else {
                    assert(t.take(0) =~= Seq::<char>::empty());
                    lemma_trim_start_keeps(t.take(0));
                    lemma_trim_end_prefix(t.take(0));
                }
            },
            None => {},
        }
    }
}

/// Parsing a `.env` text never gives an entry whose key starts with `#`:
/// commented lines are skipped.
pub proof fn law_env_no_commented_keys(content: Seq<char>)
    ensures
        forall|i: int|
            0 <= i < env_parse(content).len() ==> (#[trigger] env_parse(content)[i]).key.len() == 0
                || env_parse(content)[i].key[0] != '#',
{
    let lines = split_on(content, '\n');
    lemma_env_entries_no_comment(lines, lines.len() as int);
}

proof fn lemma_env_entries_no_comment(lines: Seq<Seq<char>>, n: int)
    ensures
        forall|i: int|
            0 <= i < env_entries(lines, n).len() ==> (#[trigger] env_entries(lines, n)[i]).key.len() == 0
                || env_entries(lines, n)[i].key[0] != '#',
    decreases n,
{
    if n > 0 && n <= lines.len() {
        lemma_env_entries_no_comment(lines, n - 1);
        law_env_comment_line(lines[n - 1]);
        let prev = env_entries(lines, n - 1);
        assert forall|i: int|
            0 <= i < env_entries(lines, n).len() implies (#[trigger] env_entries(lines, n)[i]).key.len() == 0
                || env_entries(lines, n)[i].key[0] != '#' by {
            if i < prev.len() {
                assert(env_entries(lines, n)[i] == prev[i]);
            }
        }
    }
}

} // verus!
