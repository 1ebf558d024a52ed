//! What the screen shows: each entry's lines, the input box's title and
//! contents, the mode label and the status bar, and the theme colours and
//! emphasis of each. Layout is left to the drawing code.

use vstd::prelude::*;
use crate::app::{App, Mode, search_matches};
use crate::config::{KeybindsConfig, ThemeColor, ThemeConfig, hex_color};
use crate::format::{ConfigItem, ItemStatus, ItemView, items_view, path_text};
use crate::text::push_text;

verus! {

/// `n` copies of two spaces.
pub open spec fn indent_text(n: nat) -> Seq<char>
    decreases n,
{
    if n == 0 {
        Seq::empty()
    } else {
        indent_text((n - 1) as nat) + "  "@
    }
}

/// Two spaces per level of depth.
pub fn indent(depth: usize) -> (r: String)
    ensures
        r@ == indent_text(depth as nat),
{
    let mut s = String::new();
    let mut i: usize = 0;
    while i < depth
        invariant
            i <= depth,
            s@ == indent_text(i as nat),
        decreases depth - i,
    {
        push_text(&mut s, "  ");
        i = i + 1;
    }
    s
}

/// The parts joined by `sep`.
pub open spec fn joined(parts: Seq<Seq<char>>, sep: Seq<char>) -> Seq<char>
    decreases parts.len(),
{
    if parts.len() == 0 {
        Seq::empty()
    } else if parts.len() == 1 {
        parts[0]
    } else {
        joined(parts.drop_last(), sep) + sep + parts.last()
    }
}

/// The parts joined by `sep`.
pub fn join(parts: &Vec<String>, sep: &str) -> (r: String)
    ensures
        r@ == joined(parts@.map_values(|p: String| p@), sep@),
{
    let ghost pv = parts@.map_values(|p: String| p@);
    let mut s = String::new();
    let mut i: usize = 0;
    while i < parts.len()
        invariant
            i <= parts@.len(),
            pv == parts@.map_values(|p: String| p@),
            s@ == joined(pv.take(i as int), sep@),
        decreases parts@.len() - i,
    {
        if i > 0 {
            push_text(&mut s, sep);
        }
        push_text(&mut s, parts[i].as_str());
        proof {
            assert(pv.take(i + 1).drop_last() =~= pv.take(i as int));
            assert(pv.take(i + 1).last() == parts@[i as int]@);
            if i == 0 {
                assert(Seq::<char>::empty() + parts@[0]@ =~= parts@[0]@);
            }
        }
        i = i + 1;
    }
    assert(pv.take(parts@.len() as int) =~= pv);
    s
}

/// The label of a mode in the status bar.
pub open spec fn mode_label_text(mode: Mode) -> Seq<char> {
    match mode {
        Mode::Normal => " NORMAL "@,
        Mode::Insert => " INSERT "@,
        Mode::InsertKey => " RENAME "@,
        Mode::Search => " SEARCH "@,
    }
}

/// The label of a mode in the status bar.
pub fn mode_label(mode: Mode) -> (r: String)
    ensures
        r@ == mode_label_text(mode),
{
    match mode {
        Mode::Normal => String::from_str(" NORMAL "),
        Mode::Insert => String::from_str(" INSERT "),
        Mode::InsertKey => String::from_str(" RENAME "),
        Mode::Search => String::from_str(" SEARCH "),
    }
}

/// The key hints of normal mode: moving, jumping and searching; editing
/// unless a group is selected; adding when the selection is missing; the
/// array or item commands; deleting, undoing, saving and quitting.
pub open spec fn normal_hints(app: App, k: KeybindsConfig) -> Seq<Seq<char>> {
    let sel = app.selected as int;
    let valid = 0 <= sel < app.vars@.len();
    let group = valid && app.vars@[sel].is_group;
    let missing = valid && app.vars@[sel].status == ItemStatus::MissingFromActive;
    let array = valid && !app.vars@[sel].is_group && app.vars@[sel]@.path.len() > 0
        && app.vars@[sel]@.path.last() is Index;
    seq![
        k.down@ + "/"@ + k.up@ + " move"@,
        k.jump_top@ + "/"@ + k.jump_bottom@ + " jump"@,
        k.search@ + " search"@,
    ] + (if !group {
        seq![k.edit@ + "/"@ + k.edit_append@ + "/"@ + k.edit_substitute@ + " edit"@]
    } else {
        Seq::empty()
    }) + seq![k.rename@ + " rename"@, k.toggle_group@ + " toggle"@] + (if missing {
        seq!["a add"@]
    } else {
        Seq::empty()
    }) + (if array {
        seq![k.append_item@ + "/"@ + k.prepend_item@ + " array"@]
    } else {
        seq![
            k.append_item@ + "/"@ + k.prepend_item@ + " add"@,
            k.append_group@ + "/"@ + k.prepend_group@ + " group"@,
        ]
    }) + seq![
        k.delete_item@ + " del"@,
        k.undo@ + " undo"@,
        k.save@ + " save"@,
        k.quit@ + " quit"@,
    ]
}

/// What the status bar says: the status message, else the hints of the
/// mode.
pub open spec fn status_line_text(app: App, k: KeybindsConfig) -> Seq<char> {
    match app.status_message {
        Some(m) => m@,
        None => match app.mode {
            Mode::Normal => joined(normal_hints(app, k), " · "@),
            Mode::Insert => "Esc cancel · Enter commit"@,
            Mode::InsertKey => "Esc cancel · Enter rename"@,
            Mode::Search => "Esc normal · type to filter"@,
        },
    }
}

/// `a`, `/`, `b` and `tail` in a row.
fn pair_hint(a: &String, b: &String, tail: &str) -> (r: String)
    ensures
        r@ == a@ + "/"@ + b@ + tail@,
{
    let mut s = a.clone();
    push_text(&mut s, "/");
    push_text(&mut s, b.as_str());
    push_text(&mut s, tail);
    s
}

/// `a` followed by `tail`.
fn hint(a: &String, tail: &str) -> (r: String)
    ensures
        r@ == a@ + tail@,
{
    let mut s = a.clone();
    push_text(&mut s, tail);
    s
}

/// What the status bar says (see `status_line_text`).
pub fn status_text(app: &App, k: &KeybindsConfig) -> (r: String)
    ensures
        r@ == status_line_text(*app, *k),
{
    if let Some(m) = &app.status_message {
        return m.clone();
    }
    match app.mode {
        Mode::Normal => {
            let mut parts: Vec<String> = Vec::new();
            parts.push(pair_hint(&k.down, &k.up, " move"));
            parts.push(pair_hint(&k.jump_top, &k.jump_bottom, " jump"));
            parts.push(hint(&k.search, " search"));
            if !app.selected_is_group() {
                let mut e = pair_hint(&k.edit, &k.edit_append, "/");
                push_text(&mut e, k.edit_substitute.as_str());
                push_text(&mut e, " edit");
                parts.push(e);
            }
            parts.push(hint(&k.rename, " rename"));
            parts.push(hint(&k.toggle_group, " toggle"));
            if app.selected_is_missing() {
                parts.push(String::from_str("a add"));
            }
            if app.selected_is_array() {
                parts.push(pair_hint(&k.append_item, &k.prepend_item, " array"));
            } else {
                parts.push(pair_hint(&k.append_item, &k.prepend_item, " add"));
                parts.push(pair_hint(&k.append_group, &k.prepend_group, " group"));
            }
            parts.push(hint(&k.delete_item, " del"));
            parts.push(hint(&k.undo, " undo"));
            parts.push(hint(&k.save, " save"));
            parts.push(hint(&k.quit, " quit"));
            assert(parts@.map_values(|p: String| p@) =~= normal_hints(*app, *k));
            join(&parts, " · ")
        },
        Mode::Insert => String::from_str("Esc cancel · Enter commit"),
        Mode::InsertKey => String::from_str("Esc cancel · Enter rename"),
        Mode::Search => String::from_str("Esc normal · type to filter"),
    }
}

/// The texts of one entry in the list.
pub struct EntryText {
    /// The indentation.
    pub indent: String,
    /// `+ ` before a group, two spaces before a value.
    pub marker: String,
    /// The key.
    pub key: String,
    /// A note after the key: missing, missing group, or modified.
    pub note: String,
    /// For a value: the line below the key, as lead-in, value and default.
    pub value_line: Option<(String, String, String)>,
    /// Whether the entry is selected.
    pub selected: bool,
    /// Whether the entry matches the search.
    pub matched: bool,
}

/// The note after an entry's key.
pub open spec fn note_text(v: ItemView, selected: bool) -> Seq<char> {
    match v.status {
        ItemStatus::MissingFromActive => if v.is_group {
            " (missing group)"@
        } else {
            " (missing)"@
        },
        ItemStatus::Modified => if selected {
            Seq::empty()
        } else {
            " (*)"@
        },
        ItemStatus::Present => Seq::empty(),
    }
}

/// The value shown for an entry: what is being typed, for the selected
/// entry in insert mode; else its value (or nothing).
pub open spec fn shown_value(app: App, i: int) -> Seq<char> {
    if i == app.selected && app.mode == Mode::Insert {
        app.input.text()
    } else {
        match app.vars@[i]@.value {
            Some(v) => v,
            None => Seq::empty(),
        }
    }
}

/// The template value noted after a value that differs from it.
pub open spec fn default_note(v: ItemView) -> Seq<char> {
    match v.template_value {
        Some(t) => if v.value != Some(t) {
            " [Def: "@ + t + "]"@
        } else {
            Seq::empty()
        },
        None => Seq::empty(),
    }
}

/// The texts of entry `i` (see `EntryText`).
pub open spec fn entry_shown(e: EntryText, app: App, i: int) -> bool {
    let v = app.vars@[i]@;
    let sel = i == app.selected;
    &&& e.indent@ == indent_text(v.depth as nat)
    &&& e.marker@ == if v.is_group {
        "+ "@
    } else {
        "  "@
    }
    &&& e.key@ == v.key
    &&& e.note@ == note_text(v, sel)
    &&& e.selected == sel
    &&& e.matched == search_matches(items_view(app.vars@), app.search_query@).contains(i as usize)
    &&& if v.is_group {
        e.value_line is None
    } else {
        e.value_line matches Some(l) && l.0@ == indent_text(v.depth as nat) + "    └─ "@ && l.1@ == shown_value(app, i)
            && l.2@ == default_note(v)
    }
}

/// The texts of entry `i`, given the positions that match the search.
pub fn entry_text(app: &App, i: usize, matches: &Vec<usize>) -> (e: EntryText)
    requires
        i < app.vars@.len(),
        matches@ == search_matches(items_view(app.vars@), app.search_query@),
    ensures
        entry_shown(e, *app, i as int),
{
    let var = &app.vars[i];
    let sel = i == app.selected;
    let mut matched = false;
    let mut k: usize = 0;
    while k < matches.len()
        invariant
            k <= matches@.len(),
            matched == exists|q: int| 0 <= q < k && matches@[q] == i,
        decreases matches@.len() - k,
    {
        if matches[k] == i {
            matched = true;
        }
        k = k + 1;
    }
    let note = match var.status {
        ItemStatus::MissingFromActive => if var.is_group {
            String::from_str(" (missing group)")
        } else {
            String::from_str(" (missing)")
        },
        ItemStatus::Modified => if sel {
            String::new()
        } else {
            String::from_str(" (*)")
        },
        ItemStatus::Present => String::new(),
    };
    let value_line = if var.is_group {
        None
    } else {
        let mut lead = indent(var.depth);
        push_text(&mut lead, "    └─ ");
        let shown = if sel && app.mode == Mode::Insert {
            String::from_str(app.input.value())
        } else {
            match &var.value {
                Some(v) => v.clone(),
                None => String::new(),
            }
        };
        let def = match &var.template_value {
            Some(t) => {
                let differs = match &var.value {
                    Some(v) => *v != *t,
                    None => true,
                };
                if differs {
                    let mut d = String::from_str(" [Def: ");
                    push_text(&mut d, t.as_str());
                    push_text(&mut d, "]");
                    d
                } else {
                    String::new()
                }
            },
            None => String::new(),
        };
        Some((lead, shown, def))
    };
    EntryText {
        indent: indent(var.depth),
        marker: if var.is_group {
            String::from_str("+ ")
        } else {
            String::from_str("  ")
        },
        key: var.key.clone(),
        note,
        value_line,
        selected: sel,
        matched,
    }
}

/// The title of the input box: the selected entry's path, as renamed,
/// as a group, or as edited; ` Input ` when nothing is selected.
pub open spec fn input_title_text(app: App) -> Seq<char> {
    let sel = app.selected as int;
    if 0 <= sel < app.vars@.len() {
        let v = app.vars@[sel]@;
        if app.mode == Mode::InsertKey {
            " Rename Key: "@ + path_text(v.path) + " "@
        } else if v.is_group {
            " Group: "@ + path_text(v.path) + " "@
        } else {
            " Editing: "@ + path_text(v.path) + " "@
        }
    } else {
        " Input "@
    }
}

/// The title of the input box (see `input_title_text`).
pub fn input_title(app: &App) -> (r: String)
    ensures
        r@ == input_title_text(*app),
{
    if app.selected < app.vars.len() {
        let var = &app.vars[app.selected];
        let mut t = if app.mode == Mode::InsertKey {
            String::from_str(" Rename Key: ")
        } else if var.is_group {
            String::from_str(" Group: ")
        } else {
            String::from_str(" Editing: ")
        };
        push_text(&mut t, var.path_string().as_str());
        push_text(&mut t, " ");
        t
    } else {
        String::from_str(" Input ")
    }
}

/// What the input box shows: the input; `<group>` for a group (unless it
/// is being renamed); in normal mode the template value follows.
pub open spec fn input_display_text(app: App) -> Seq<char> {
    let sel = app.selected as int;
    let text = app.input.text();
    if 0 <= sel < app.vars@.len() {
        let v = app.vars@[sel]@;
        if app.mode == Mode::InsertKey {
            text
        } else if v.is_group {
            "<group>"@
        } else if app.mode == Mode::Normal {
            text + match v.template_value {
                Some(t) => "  [Template: "@ + t + "]"@,
                None => Seq::empty(),
            }
        } else {
            text
        }
    } else {
        text
    }
}

/// What the input box shows (see `input_display_text`).
pub fn input_display(app: &App) -> (r: String)
    ensures
        r@ == input_display_text(*app),
{
    let text = String::from_str(app.input.value());
    if app.selected < app.vars.len() {
        let var = &app.vars[app.selected];
        if app.mode == Mode::InsertKey {
            text
        } else if var.is_group {
            String::from_str("<group>")
        } else if app.mode == Mode::Normal {
            let mut s = text;
            if let Some(t) = &var.template_value {
                push_text(&mut s, "  [Template: ");
                push_text(&mut s, t.as_str());
                push_text(&mut s, "]");
            }
            s
        } else {
            text
        }
    } else {
        text
    }
}

/// How a piece of text is set off.
#[derive(Debug, Clone, Copy, PartialEq, Eq, Structural)]
pub enum Emphasis {
    Plain,
    Bold,
    Underlined,
    Dim,
    Italic,
}

/// The colours and emphasis of a piece of text; a colour left out is the
/// one around it.
#[derive(Debug, Clone, Copy, PartialEq, Eq, Structural)]
pub struct TextStyle {
    pub fg: Option<ThemeColor>,
    pub bg: Option<ThemeColor>,
    pub emphasis: Emphasis,
}

/// Text in colour `c`.
pub open spec fn in_color(c: ThemeColor, e: Emphasis) -> TextStyle {
    TextStyle { fg: Some(c), bg: None, emphasis: e }
}

fn colored(c: ThemeColor, e: Emphasis) -> (r: TextStyle)
    ensures
        r == in_color(c, e),
{
    TextStyle { fg: Some(c), bg: None, emphasis: e }
}

/// The styles of the parts of one entry of the list.
#[derive(Debug, Clone, Copy, PartialEq, Eq, Structural)]
pub struct EntryStyles {
    /// The whole entry.
    pub item: TextStyle,
    /// The group marker.
    pub marker: TextStyle,
    /// The key.
    pub key: TextStyle,
    /// The note after the key.
    pub note: TextStyle,
    /// The value.
    pub value: TextStyle,
    /// The template value noted after it.
    pub default: TextStyle,
}

/// The tree colour of a depth: the four depth colours in turn.
pub open spec fn depth_color(t: ThemeConfig, depth: usize) -> ThemeColor {
    if depth % 4 == 0 {
        hex_color(t.tree_depth_1@)
    } else if depth % 4 == 1 {
        hex_color(t.tree_depth_2@)
    } else if depth % 4 == 2 {
        hex_color(t.tree_depth_3@)
    } else {
        hex_color(t.tree_depth_4@)
    }
}

/// The styles of an entry: the selected one stands out on the highlight
/// background; otherwise a search match is underlined, a missing value is
/// dimmed, a changed one has the modified colour, and keys take the colour
/// of their depth.
pub open spec fn entry_styles_of(t: ThemeConfig, v: ItemView, selected: bool, matched: bool) -> EntryStyles {
    let missing_leaf = v.status == ItemStatus::MissingFromActive && !v.is_group;
    let text = if selected {
        hex_color(t.fg_highlight@)
    } else if missing_leaf {
        hex_color(t.fg_dimmed@)
    } else if v.status == ItemStatus::Modified {
        hex_color(t.fg_modified@)
    } else {
        hex_color(t.fg_normal@)
    };
    EntryStyles {
        item: if selected {
            TextStyle { fg: None, bg: Some(hex_color(t.bg_highlight@)), emphasis: Emphasis::Plain }
        } else {
            in_color(text, Emphasis::Plain)
        },
        marker: in_color(hex_color(t.border_normal@), Emphasis::Plain),
        key: if selected {
            in_color(hex_color(t.fg_highlight@), Emphasis::Bold)
        } else if matched {
            in_color(hex_color(t.bg_search@), Emphasis::Underlined)
        } else if missing_leaf {
            in_color(hex_color(t.fg_dimmed@), Emphasis::Dim)
        } else {
            in_color(depth_color(t, v.depth), Emphasis::Plain)
        },
        note: if v.status == ItemStatus::Modified {
            in_color(hex_color(t.fg_modified@), Emphasis::Plain)
        } else if selected {
            in_color(hex_color(t.fg_highlight@), Emphasis::Bold)
        } else {
            in_color(hex_color(t.fg_warning@), Emphasis::Bold)
        },
        value: if selected {
            in_color(hex_color(t.fg_highlight@), Emphasis::Plain)
        } else {
            in_color(hex_color(t.fg_normal@), Emphasis::Plain)
        },
        default: if selected {
            in_color(hex_color(t.bg_normal@), Emphasis::Dim)
        } else {
            in_color(hex_color(t.fg_dimmed@), Emphasis::Italic)
        },
    }
}

/// The styles of an entry (see `entry_styles_of`).
pub fn entry_styles(theme: &ThemeConfig, var: &ConfigItem, selected: bool, matched: bool) -> (r: EntryStyles)
    requires
        theme.readable(),
    ensures
        r == entry_styles_of(*theme, var@, selected, matched),
{
    let missing_leaf = var.status == ItemStatus::MissingFromActive && !var.is_group;
    let text = if selected {
        theme.fg_highlight()
    } else if missing_leaf {
        theme.fg_dimmed()
    } else if var.status == ItemStatus::Modified {
        theme.fg_modified()
    } else {
        theme.fg_normal()
    };
    let depth = if var.depth % 4 == 0 {
        theme.tree_depth_1()
    } else if var.depth % 4 == 1 {
        theme.tree_depth_2()
    } else if var.depth % 4 == 2 {
        theme.tree_depth_3()
    } else {
        theme.tree_depth_4()
    };
    EntryStyles {
        item: if selected {
            TextStyle { fg: None, bg: Some(theme.bg_highlight()), emphasis: Emphasis::Plain }
        } else {
            colored(text, Emphasis::Plain)
        },
        marker: colored(theme.border_normal(), Emphasis::Plain),
        key: if selected {
            colored(theme.fg_highlight(), Emphasis::Bold)
        } else if matched {
            colored(theme.bg_search(), Emphasis::Underlined)
        } else if missing_leaf {
            colored(theme.fg_dimmed(), Emphasis::Dim)
        } else {
            colored(depth, Emphasis::Plain)
        },
        note: if var.status == ItemStatus::Modified {
            colored(theme.fg_modified(), Emphasis::Plain)
        } else if selected {
            colored(theme.fg_highlight(), Emphasis::Bold)
        } else {
            colored(theme.fg_warning(), Emphasis::Bold)
        },
        value: if selected {
            colored(theme.fg_highlight(), Emphasis::Plain)
        } else {
            colored(theme.fg_normal(), Emphasis::Plain)
        },
        default: if selected {
            colored(theme.bg_normal(), Emphasis::Dim)
        } else {
            colored(theme.fg_dimmed(), Emphasis::Italic)
        },
    }
}

/// The styles of the fixed parts of the screen.
#[derive(Debug, Clone, Copy, PartialEq, Eq, Structural)]
pub struct ScreenStyles {
    /// The background of the whole screen; none when it is transparent.
    pub background: Option<ThemeColor>,
    /// The titles of the boxes.
    pub title: TextStyle,
    /// The border of the list.
    pub list_border: ThemeColor,
    /// The border of the input box.
    pub input_border: ThemeColor,
    /// The text of the input box.
    pub input_text: TextStyle,
    /// The mode label.
    pub mode: TextStyle,
    /// The status bar.
    pub status: TextStyle,
}

/// The styles of the fixed parts of the screen in `mode`: the input box's
/// border is active while typing, and the mode label's background tells
/// the mode.
pub open spec fn screen_styles_of(t: ThemeConfig, mode: Mode) -> ScreenStyles {
    ScreenStyles {
        background: if t.transparent {
            None
        } else {
            Some(hex_color(t.bg_normal@))
        },
        title: in_color(hex_color(t.fg_accent@), Emphasis::Bold),
        list_border: hex_color(t.border_normal@),
        input_border: match mode {
            Mode::Insert | Mode::InsertKey => hex_color(t.border_active@),
            Mode::Normal | Mode::Search => hex_color(t.border_normal@),
        },
        input_text: in_color(hex_color(t.fg_normal@), Emphasis::Plain),
        mode: TextStyle {
            fg: Some(hex_color(t.bg_normal@)),
            bg: Some(
                match mode {
                    Mode::Normal => hex_color(t.bg_highlight@),
                    Mode::Insert | Mode::InsertKey => hex_color(t.bg_active@),
                    Mode::Search => hex_color(t.bg_search@),
                },
            ),
            emphasis: Emphasis::Bold,
        },
        status: TextStyle {
            fg: Some(hex_color(t.fg_normal@)),
            bg: Some(hex_color(t.border_normal@)),
            emphasis: Emphasis::Plain,
        },
    }
}

/// The styles of the fixed parts of the screen (see `screen_styles_of`).
pub fn screen_styles(theme: &ThemeConfig, mode: Mode) -> (r: ScreenStyles)
    requires
        theme.readable(),
    ensures
        r == screen_styles_of(*theme, mode),
{
    ScreenStyles {
        background: if theme.transparent {
            None
        } else {
            Some(theme.bg_normal())
        },
        title: colored(theme.fg_accent(), Emphasis::Bold),
        list_border: theme.border_normal(),
        input_border: match mode {
            Mode::Insert | Mode::InsertKey => theme.border_active(),
            Mode::Normal | Mode::Search => theme.border_normal(),
        },
        input_text: colored(theme.fg_normal(), Emphasis::Plain),
        mode: TextStyle {
            fg: Some(theme.bg_normal()),
            bg: Some(
                match mode {
                    Mode::Normal => theme.bg_highlight(),
                    Mode::Insert | Mode::InsertKey => theme.bg_active(),
                    Mode::Search => theme.bg_search(),
                },
            ),
            emphasis: Emphasis::Bold,
        },
        status: TextStyle {
            fg: Some(theme.fg_normal()),
            bg: Some(theme.border_normal()),
            emphasis: Emphasis::Plain,
        },
    }
}

} // verus!
