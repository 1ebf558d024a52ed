//! INI files: sections become groups, and their properties the entries
//! below them.

use vstd::prelude::*;
use super::{
    ConfigItem, ItemStatus, ItemView, PathSegment, SegmentView, ValueType, items_view, path_text,
    written_text,
};
use crate::text::{chars_of, find_char, first_index_of, slice_chars, string_of};

verus! {

/// The error that the INI parser reports.
#[verifier::external_type_specification]
#[verifier::external_body]
pub struct ExIniParseError(::ini::ParseError);

/// One section of an INI document: its name (none for the properties before
/// the first section header) and its properties in order.
pub struct IniSection {
    pub name: Option<String>,
    pub properties: Vec<(String, String)>,
}

/// The mathematical form of a section.
pub struct SectionView {
    pub name: Option<Seq<char>>,
    pub properties: Seq<(Seq<char>, Seq<char>)>,
}

impl View for IniSection {
    type V = SectionView;

    open spec fn view(&self) -> SectionView {
        SectionView {
            name: match self.name {
                Some(n) => Some(n@),
                None => None,
            },
            properties: props_view(self.properties@),
        }
    }
}

/// The mathematical form of a list of properties.
pub open spec fn props_view(ps: Seq<(String, String)>) -> Seq<(Seq<char>, Seq<char>)> {
    ps.map_values(|p: (String, String)| (p.0@, p.1@))
}

/// The mathematical form of a list of sections.
pub open spec fn sections_view(s: Seq<IniSection>) -> Seq<SectionView> {
    s.map_values(|x: IniSection| x@)
}

/// What `ini::Ini::load_from_str` reads from `text`: its sections in order,
/// the unnamed one first, each with its properties in order; none when the
/// text is not valid INI.
pub uninterp spec fn ini_document(text: Seq<char>) -> Option<Seq<SectionView>>;

/// Calls `ini::Ini::load_from_str` and lists the sections it read (with
/// `(Option<&str>, &Properties)` pairs turned into owned values, in the
/// order the document iterates them). The result is named `ini_document`.
#[verifier::external_body]
fn load_ini(text: &str) -> (r: Result<Vec<IniSection>, ::ini::ParseError>)
    ensures
        match r {
            Ok(v) => ini_document(text@) == Some(sections_view(v@)),
            Err(_) => ini_document(text@) is None,
        },
{
    match ::ini::Ini::load_from_str(text) {
        Ok(conf) => Ok(conf.iter().map(|(s, p)| IniSection {
            name: s.map(String::from),
            properties: p.iter().map(|(k, v)| (String::from(k), String::from(v))).collect(),
        }).collect()),
        Err(e) => Err(e),
    }
}

/// The line separator written between lines.
#[derive(Debug, Clone, Copy, PartialEq, Eq, Structural)]
pub enum LineBreak {
    /// `\n`, as on Unix.
    Lf,
    /// `\r\n`, as on Windows.
    CrLf,
}

/// The bytes that `ini::Ini::write_to_opt` writes, with `line_break` as its
/// line separator and the other options at their defaults, for an `Ini`
/// made by `Ini::new` and then `with_section(section).set(key, value)` for
/// each placement `(section, key, value)` in order.
pub uninterp spec fn ini_written(
    placements: Seq<(Option<Seq<char>>, Seq<char>, Seq<char>)>,
    line_break: LineBreak,
) -> Seq<u8>;

/// Builds an `ini::Ini` from the placements (`Ini::new`, then
/// `with_section(section).set(key, value)` for each in order) and writes
/// it to a byte buffer with `Ini::write_to_opt`. The result is named
/// `ini_written`. Writing to a `Vec<u8>` does not fail.
#[verifier::external_body]
fn write_ini(placements: &Vec<(Option<String>, String, String)>, line_break: LineBreak) -> (r: Vec<u8>)
    ensures
        r@ == ini_written(placements_view(placements@), line_break),
{
    let mut conf = ::ini::Ini::new();
    placements.iter().for_each(|(section, key, value)| {
        conf.with_section(section.clone()).set(key.clone(), value.clone());
    });
    let line_separator = match line_break {
        LineBreak::Lf => ::ini::LineSeparator::CR,
        LineBreak::CrLf => ::ini::LineSeparator::CRLF,
    };
    let mut buf: Vec<u8> = Vec::new();
    let _ = conf.write_to_opt(&mut buf, ::ini::WriteOption { line_separator, ..Default::default() });
    buf
}

/// The text without a leading byte-order mark (U+FEFF).
pub open spec fn without_bom(s: Seq<char>) -> Seq<char> {
    if s.len() > 0 && s[0] == '\u{feff}' {
        s.drop_first()
    } else {
        s
    }
}

/// Why INI text could not be read.
#[derive(Debug)]
pub enum IniError {
    /// The text is not valid INI.
    Parse(::ini::ParseError),
}

/// The translation between INI text and the item list.
pub struct IniHandler;

/// The entries of one section: a group for a named section (a missing or
/// empty name is the unnamed section, which has none), then one entry per
/// property, below the group.
pub open spec fn section_entries(s: SectionView) -> Seq<ItemView> {
    let name = match s.name {
        Some(n) => n,
        None => Seq::empty(),
    };
    let group = if name.len() > 0 {
        seq![
            ItemView {
                key: name,
                path: seq![SegmentView::Key(name)],
                value: None,
                template_value: None,
                default_value: None,
                depth: 0,
                is_group: true,
                status: ItemStatus::Present,
                value_type: ValueType::Null,
            },
        ]
    } else {
        Seq::empty()
    };
    group + s.properties.map_values(|p: (Seq<char>, Seq<char>)| ItemView {
        key: p.0,
        path: if name.len() == 0 {
            seq![SegmentView::Key(p.0)]
        } else {
            seq![SegmentView::Key(name), SegmentView::Key(p.0)]
        },
        value: Some(p.1),
        template_value: Some(p.1),
        default_value: Some(p.1),
        depth: if name.len() == 0 {
            0
        } else {
            1
        },
        is_group: false,
        status: ItemStatus::Present,
        value_type: ValueType::String,
    })
}

/// The entries of the first `n` sections.
pub open spec fn ini_entries(secs: Seq<SectionView>, n: int) -> Seq<ItemView>
    decreases n,
{
    if n <= 0 || n > secs.len() {
        Seq::empty()
    } else {
        ini_entries(secs, n - 1) + section_entries(secs[n - 1])
    }
}

/// Where an entry is written: the text of its path split at the first `.`
/// into section and key (no section when there is no `.`), with the
/// written value.
pub open spec fn ini_placement(v: ItemView) -> (Option<Seq<char>>, Seq<char>, Seq<char>) {
    let t = path_text(v.path);
    match first_index_of(t, '.') {
        Some(d) => (Some(t.take(d)), t.skip(d + 1), written_text(v)),
        None => (None, t, written_text(v)),
    }
}

/// The placements of the first `n` entries that are not groups.
pub open spec fn ini_placements(vars: Seq<ItemView>, n: int) -> Seq<(Option<Seq<char>>, Seq<char>, Seq<char>)>
    decreases n,
{
    if n <= 0 || n > vars.len() {
        Seq::empty()
    } else {
        let prev = ini_placements(vars, n - 1);
        if vars[n - 1].is_group {
            prev
        } else {
            prev.push(ini_placement(vars[n - 1]))
        }
    }
}

/// The mathematical form of a list of placements.
pub open spec fn placements_view(p: Seq<(Option<String>, String, String)>) -> Seq<(Option<Seq<char>>, Seq<char>, Seq<char>)> {
    p.map_values(|x: (Option<String>, String, String)| (
        match x.0 {
            Some(s) => Some(s@),
            None => None,
        },
        x.1@,
        x.2@,
    ))
}

fn section_items(sec: &IniSection, out: &mut Vec<ConfigItem>)
    ensures
        items_view(final(out)@) == items_view(old(out)@) + section_entries(sec@),
{
    let name = match &sec.name {
        Some(n) => n.clone(),
        None => String::new(),
    };
    let ghost start = items_view(out@);
    let named = !name.as_str().is_empty();
    if named {
        let mut path: Vec<PathSegment> = Vec::new();
        path.push(PathSegment::Key(name.clone()));
        let g = ConfigItem {
            key: name.clone(),
            path,
            value: None,
            template_value: None,
            default_value: None,
            depth: 0,
            is_group: true,
            status: ItemStatus::Present,
            value_type: ValueType::Null,
        };
        let ghost before = out@;
        out.push(g);
        proof {
            let se = section_entries(sec@);
            assert(g@.path =~= seq![SegmentView::Key(name@)]);
            assert(se[0] == g@);
            assert(se.take(1) =~= seq![g@]);
            assert(items_view(out@) =~= items_view(before).push(g@));
            assert(items_view(out@) =~= start + se.take(1));
        }
    } else {
        assert(section_entries(sec@).take(0) =~= Seq::<ItemView>::empty());
        assert(items_view(out@) =~= start + section_entries(sec@).take(0));
    }
    let ghost sv = sec@;
    let ghost grp = section_entries(sv).take(if named { 1int } else { 0int });
    let mut i: usize = 0;
    while i < sec.properties.len()
        invariant
            i <= sec.properties@.len(),
            sv == sec@,
            named == (name@.len() > 0),
            name@ == (match sv.name {
                Some(n) => n,
                None => Seq::<char>::empty(),
            }),
            grp == section_entries(sv).take(if named { 1int } else { 0int }),
            items_view(out@) == start + section_entries(sv).take((if named { 1int } else { 0int }) + i),
        decreases sec.properties@.len() - i,
    {
        let (k, v) = &sec.properties[i];
        assert(sv.properties[i as int] == (k@, v@));
        let mut path: Vec<PathSegment> = Vec::new();
        if named {
            path.push(PathSegment::Key(name.clone()));
        }
        path.push(PathSegment::Key(k.clone()));
        let item = ConfigItem {
            key: k.clone(),
            path,
            value: Some(v.clone()),
            template_value: Some(v.clone()),
            default_value: Some(v.clone()),
            depth: if named { 1 } else { 0 },
            is_group: false,
            status: ItemStatus::Present,
            value_type: ValueType::String,
        };
        let ghost before = out@;
        out.push(item);
        proof {
            let g: int = if named { 1 } else { 0 };
            let se = section_entries(sv);
            assert(se[g + i] == item@) by {
                if named {
                    assert(item@.path =~= seq![SegmentView::Key(name@), SegmentView::Key(k@)]);
                } else {
                    assert(item@.path =~= seq![SegmentView::Key(k@)]);
                }
            }
            assert(items_view(out@) =~= items_view(before).push(item@));
            assert(se.take(g + i + 1) =~= se.take(g + i).push(se[g + i]));
        }
        i = i + 1;
    }
    assert(section_entries(sv).take((if named { 1int } else { 0int }) + sec.properties@.len()) =~= section_entries(sv));
}

impl IniHandler {
    /// The entries of the sections of a parsed INI document.
    pub fn items_of(&self, sections: &Vec<IniSection>) -> (vars: Vec<ConfigItem>)
        ensures
            items_view(vars@) == ini_entries(sections_view(sections@), sections@.len() as int),
    {
        let ghost sv = sections_view(sections@);
        let mut vars: Vec<ConfigItem> = Vec::new();
        let mut i: usize = 0;
        while i < sections.len()
            invariant
                i <= sections@.len(),
                sv == sections_view(sections@),
                items_view(vars@) == ini_entries(sv, i as int),
            decreases sections@.len() - i,
        {
            assert(sv[i as int] == sections@[i as int]@);
            section_items(&sections[i], &mut vars);
            i = i + 1;
        }
        vars
    }

    /// The entries of an INI text (after a leading byte-order mark, which
    /// is dropped as the INI library drops it when it reads a file), or the
    /// parser's error.
    pub fn parse_content(&self, text: &str) -> (r: Result<Vec<ConfigItem>, IniError>)
        ensures
            match r {
                Ok(vars) => ini_document(without_bom(text@)) matches Some(secs) && items_view(vars@)
                    == ini_entries(secs, secs.len() as int),
                Err(_) => ini_document(without_bom(text@)) is None,
            },
    {
        let cs = chars_of(text);
        let body = if cs.len() > 0 && cs[0] == '\u{feff}' {
            let rest = string_of(slice_chars(&cs, 1, cs.len()).as_slice());
            assert(cs@.subrange(1, cs@.len() as int) == text@.drop_first());
            rest
        } else {
            string_of(cs.as_slice())
        };
        match load_ini(body.as_str()) {
            Ok(sections) => Ok(self.items_of(&sections)),
            Err(e) => Err(IniError::Parse(e)),
        }
    }

    /// The bytes of the INI file that holds the entries: their placements,
    /// set in order by the INI library and written with the given line
    /// separator.
    pub fn render(&self, vars: &Vec<ConfigItem>, line_break: LineBreak) -> (r: Vec<u8>)
        ensures
            r@ == ini_written(ini_placements(items_view(vars@), vars@.len() as int), line_break),
    {
        let p = self.placements(vars);
        write_ini(&p, line_break)
    }

    /// Where each entry that is not a group is written: section, key and value.
    pub fn placements(&self, vars: &Vec<ConfigItem>) -> (r: Vec<(Option<String>, String, String)>)
        ensures
            placements_view(r@) == ini_placements(items_view(vars@), vars@.len() as int),
    {
        let ghost iv = items_view(vars@);
        let mut r: Vec<(Option<String>, String, String)> = Vec::new();
        let mut i: usize = 0;
        while i < vars.len()
            invariant
                i <= vars@.len(),
                iv == items_view(vars@),
                placements_view(r@) == ini_placements(iv, i as int),
            decreases vars@.len() - i,
        {
            let var = &vars[i];
            assert(iv[i as int] == var@);
            if !var.is_group {
                let val = var.written_value();
                let t = chars_of(var.path_string().as_str());
                let tl = t.len();
                let p = match find_char(&t, '.') {
                    Some(d) => {
                        assert(d < tl);
                        let sec = string_of(slice_chars(&t, 0, d).as_slice());
                        let key = string_of(slice_chars(&t, d + 1, tl).as_slice());
                        assert(t@.subrange(0, d as int) == t@.take(d as int));
                        assert(t@.subrange(d + 1, t@.len() as int) == t@.skip(d + 1));
                        (Some(sec), key, val)
                    },
                    None => (None, string_of(t.as_slice()), val),
                };
                let ghost before = r@;
                r.push(p);
                assert(placements_view(r@) =~= placements_view(before).push(ini_placement(var@)));
            }
            i = i + 1;
        }
        r
    }
}

} // verus!
