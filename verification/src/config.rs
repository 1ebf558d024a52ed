//! The user's settings: the colours of the interface and the key bindings.

use vstd::prelude::*;
use vstd::utf8::{encode_utf8, is_char_boundary};
use crate::text::{chars_of, string_of};

verus! {

/// A colour of the interface: red, green and blue, or the terminal's own.
#[derive(Debug, Clone, Copy, PartialEq, Eq, Structural)]
pub enum ThemeColor {
    Rgb(u8, u8, u8),
    Reset,
}

/// The colours of the interface, each written `#rrggbb`.
#[derive(Debug)]
pub struct ThemeConfig {
    /// Whether the background is left to the terminal.
    pub transparent: bool,
    /// Default background.
    pub bg_normal: String,
    /// Background of the selection and of the standard elements.
    pub bg_highlight: String,
    /// Background of the active element (typing).
    pub bg_active: String,
    /// Background of the active element (searching).
    pub bg_search: String,
    /// Standard text.
    pub fg_normal: String,
    /// Secondary text.
    pub fg_dimmed: String,
    /// Text on the selection.
    pub fg_highlight: String,
    /// Entries missing from the active file.
    pub fg_warning: String,
    /// Modified entries.
    pub fg_modified: String,
    /// Titles and active elements.
    pub fg_accent: String,
    /// Borders.
    pub border_normal: String,
    /// Borders of the active element.
    pub border_active: String,
    /// Tree guides at depth 1.
    pub tree_depth_1: String,
    /// Tree guides at depth 2.
    pub tree_depth_2: String,
    /// Tree guides at depth 3.
    pub tree_depth_3: String,
    /// Tree guides at depth 4.
    pub tree_depth_4: String,
}

/// `s` without its leading `#` characters.
pub open spec fn trim_hashes(s: Seq<char>) -> Seq<char>
    decreases s.len(),
{
    if s.len() > 0 && s[0] == '#' {
        trim_hashes(s.drop_first())
    } else {
        s
    }
}

/// The value of a hexadecimal digit byte, either case.
pub open spec fn hex_digit_value(b: u8) -> Option<u8> {
    if 48 <= b <= 57 {
        Some((b - 48) as u8)
    } else if 97 <= b <= 102 {
        Some((b - 87) as u8)
    } else if 65 <= b <= 70 {
        Some((b - 55) as u8)
    } else {
        None
    }
}

/// The number that two bytes give as `u8::from_str_radix(.., 16)` reads
/// them (an optional leading `+`), or 0 when they are not one.
pub open spec fn byte_pair_value(b0: u8, b1: u8) -> u8 {
    if b0 == 43 {
        match hex_digit_value(b1) {
            Some(v) => v,
            None => 0,
        }
    } else {
        match (hex_digit_value(b0), hex_digit_value(b1)) {
            (Some(x), Some(y)) => (16 * x + y) as u8,
            _ => 0,
        }
    }
}

/// The UTF-8 bytes of a colour text once its leading `#`s are gone.
pub open spec fn hex_bytes(s: Seq<char>) -> Seq<u8> {
    encode_utf8(trim_hashes(s))
}

/// Whether a colour text can be read: when it has six bytes, its three
/// two-byte parts each hold whole characters.
pub open spec fn hex_readable(s: Seq<char>) -> bool {
    hex_bytes(s).len() == 6 ==> is_char_boundary(hex_bytes(s), 2) && is_char_boundary(hex_bytes(s), 4)
}

/// The colour of a text `#rrggbb` (any number of leading `#`): each
/// two-byte part read as a hexadecimal number (0 when it is not one); the
/// terminal's own colour when there are not exactly six bytes.
pub open spec fn hex_color(s: Seq<char>) -> ThemeColor {
    let b = hex_bytes(s);
    if b.len() == 6 {
        ThemeColor::Rgb(byte_pair_value(b[0], b[1]), byte_pair_value(b[2], b[3]), byte_pair_value(b[4], b[5]))
    } else {
        ThemeColor::Reset
    }
}

/// The value of a hexadecimal digit byte.
fn digit_value(b: u8) -> (r: Option<u8>)
    ensures
        r == hex_digit_value(b),
{
    if 48 <= b && b <= 57 {
        Some(b - 48)
    } else if 97 <= b && b <= 102 {
        Some(b - 87)
    } else if 65 <= b && b <= 70 {
        Some(b - 55)
    } else {
        None
    }
}

/// Two bytes read as a hexadecimal number, 0 when they are not one.
fn pair_value(b0: u8, b1: u8) -> (r: u8)
    ensures
        r == byte_pair_value(b0, b1),
{
    if b0 == 43 {
        match digit_value(b1) {
            Some(v) => v,
            None => 0,
        }
    } else {
        match (digit_value(b0), digit_value(b1)) {
            (Some(x), Some(y)) => 16 * x + y,
            _ => 0,
        }
    }
}

/// `s` without its leading `#` characters.
fn trimmed_hashes(s: &str) -> (r: String)
    ensures
        r@ == trim_hashes(s@),
{
    let cs = chars_of(s);
    let mut i: usize = 0;
    assert(cs@.skip(0) =~= cs@);
    while i < cs.len() && cs[i] == '#'
        invariant
            i <= cs@.len(),
            trim_hashes(cs@) == trim_hashes(cs@.skip(i as int)),
        decreases cs@.len() - i,
    {
        assert(cs@.skip(i as int).drop_first() =~= cs@.skip(i + 1));
        i = i + 1;
    }
    let rest = crate::text::slice_chars(&cs, i, cs.len());
    assert(rest@ =~= cs@.skip(i as int));
    string_of(rest.as_slice())
}

/// Whether a colour text can be read (see `hex_readable`).
pub fn hex_is_readable(hex: &str) -> (r: bool)
    ensures
        r == hex_readable(hex@),
{
    let t = trimmed_hashes(hex);
    let ts = t.as_str();
    if ts.as_bytes().len() == 6 {
        ts.is_char_boundary(2) && ts.is_char_boundary(4)
    } else {
        true
    }
}

impl ThemeConfig {
    /// The colour of a text `#rrggbb` (see `hex_color`).
    pub fn parse_hex(hex: &str) -> (c: ThemeColor)
        requires
            hex_readable(hex@),
        ensures
            c == hex_color(hex@),
    {
        let t = trimmed_hashes(hex);
        let b = t.as_str().as_bytes();
        if b.len() == 6 {
            ThemeColor::Rgb(pair_value(b[0], b[1]), pair_value(b[2], b[3]), pair_value(b[4], b[5]))
        } else {
            ThemeColor::Reset
        }
    }

    /// Whether every colour of the theme can be read.
    pub open spec fn readable(&self) -> bool {
        &&& hex_readable(self.bg_normal@)
        &&& hex_readable(self.bg_highlight@)
        &&& hex_readable(self.bg_active@)
        &&& hex_readable(self.bg_search@)
        &&& hex_readable(self.fg_normal@)
        &&& hex_readable(self.fg_dimmed@)
        &&& hex_readable(self.fg_highlight@)
        &&& hex_readable(self.fg_warning@)
        &&& hex_readable(self.fg_modified@)
        &&& hex_readable(self.fg_accent@)
        &&& hex_readable(self.border_normal@)
        &&& hex_readable(self.border_active@)
        &&& hex_readable(self.tree_depth_1@)
        &&& hex_readable(self.tree_depth_2@)
        &&& hex_readable(self.tree_depth_3@)
        &&& hex_readable(self.tree_depth_4@)
    }

    /// Whether every colour of the theme can be read.
    pub fn is_readable(&self) -> (r: bool)
        ensures
            r == self.readable(),
    {
        hex_is_readable(self.bg_normal.as_str()) && hex_is_readable(self.bg_highlight.as_str())
            && hex_is_readable(self.bg_active.as_str()) && hex_is_readable(self.bg_search.as_str())
            && hex_is_readable(self.fg_normal.as_str()) && hex_is_readable(self.fg_dimmed.as_str())
            && hex_is_readable(self.fg_highlight.as_str()) && hex_is_readable(self.fg_warning.as_str())
            && hex_is_readable(self.fg_modified.as_str()) && hex_is_readable(self.fg_accent.as_str())
            && hex_is_readable(self.border_normal.as_str()) && hex_is_readable(self.border_active.as_str())
            && hex_is_readable(self.tree_depth_1.as_str()) && hex_is_readable(self.tree_depth_2.as_str())
            && hex_is_readable(self.tree_depth_3.as_str()) && hex_is_readable(self.tree_depth_4.as_str())
    }

    pub fn bg_normal(&self) -> (c: ThemeColor)
        requires
            hex_readable(self.bg_normal@),
        ensures
            c == hex_color(self.bg_normal@),
    {
        Self::parse_hex(self.bg_normal.as_str())
    }

    pub fn bg_highlight(&self) -> (c: ThemeColor)
        requires
            hex_readable(self.bg_highlight@),
        ensures
            c == hex_color(self.bg_highlight@),
    {
        Self::parse_hex(self.bg_highlight.as_str())
    }

    pub fn bg_active(&self) -> (c: ThemeColor)
        requires
            hex_readable(self.bg_active@),
        ensures
            c == hex_color(self.bg_active@),
    {
        Self::parse_hex(self.bg_active.as_str())
    }

    pub fn bg_search(&self) -> (c: ThemeColor)
        requires
            hex_readable(self.bg_search@),
        ensures
            c == hex_color(self.bg_search@),
    {
        Self::parse_hex(self.bg_search.as_str())
    }

    pub fn fg_normal(&self) -> (c: ThemeColor)
        requires
            hex_readable(self.fg_normal@),
        ensures
            c == hex_color(self.fg_normal@),
    {
        Self::parse_hex(self.fg_normal.as_str())
    }

    pub fn fg_dimmed(&self) -> (c: ThemeColor)
        requires
            hex_readable(self.fg_dimmed@),
        ensures
            c == hex_color(self.fg_dimmed@),
    {
        Self::parse_hex(self.fg_dimmed.as_str())
    }

    pub fn fg_highlight(&self) -> (c: ThemeColor)
        requires
            hex_readable(self.fg_highlight@),
        ensures
            c == hex_color(self.fg_highlight@),
    {
        Self::parse_hex(self.fg_highlight.as_str())
    }

    pub fn fg_warning(&self) -> (c: ThemeColor)
        requires
            hex_readable(self.fg_warning@),
        ensures
            c == hex_color(self.fg_warning@),
    {
        Self::parse_hex(self.fg_warning.as_str())
    }

    pub fn fg_modified(&self) -> (c: ThemeColor)
        requires
            hex_readable(self.fg_modified@),
        ensures
            c == hex_color(self.fg_modified@),
    {
        Self::parse_hex(self.fg_modified.as_str())
    }

    pub fn fg_accent(&self) -> (c: ThemeColor)
        requires
            hex_readable(self.fg_accent@),
        ensures
            c == hex_color(self.fg_accent@),
    {
        Self::parse_hex(self.fg_accent.as_str())
    }

    pub fn border_normal(&self) -> (c: ThemeColor)
        requires
            hex_readable(self.border_normal@),
        ensures
            c == hex_color(self.border_normal@),
    {
        Self::parse_hex(self.border_normal.as_str())
    }

    pub fn border_active(&self) -> (c: ThemeColor)
        requires
            hex_readable(self.border_active@),
        ensures
            c == hex_color(self.border_active@),
    {
        Self::parse_hex(self.border_active.as_str())
    }

    pub fn tree_depth_1(&self) -> (c: ThemeColor)
        requires
            hex_readable(self.tree_depth_1@),
        ensures
            c == hex_color(self.tree_depth_1@),
    {
        Self::parse_hex(self.tree_depth_1.as_str())
    }

    pub fn tree_depth_2(&self) -> (c: ThemeColor)
        requires
            hex_readable(self.tree_depth_2@),
        ensures
            c == hex_color(self.tree_depth_2@),
    {
        Self::parse_hex(self.tree_depth_2.as_str())
    }

    pub fn tree_depth_3(&self) -> (c: ThemeColor)
        requires
            hex_readable(self.tree_depth_3@),
        ensures
            c == hex_color(self.tree_depth_3@),
    {
        Self::parse_hex(self.tree_depth_3.as_str())
    }

    pub fn tree_depth_4(&self) -> (c: ThemeColor)
        requires
            hex_readable(self.tree_depth_4@),
        ensures
            c == hex_color(self.tree_depth_4@),
    {
        Self::parse_hex(self.tree_depth_4.as_str())
    }
}

/// Whether a theme is the default one: the Catppuccin Mocha palette, with a
/// drawn background.
pub open spec fn is_default_theme(t: ThemeConfig) -> bool {
    &&& !t.transparent
    &&& t.bg_normal@ == "#1e1e2e"@
    &&& t.bg_highlight@ == "#89b4fa"@
    &&& t.bg_active@ == "#a6e3a1"@
    &&& t.bg_search@ == "#cba6f7"@
    &&& t.fg_normal@ == "#cdd6f4"@
    &&& t.fg_dimmed@ == "#6c7086"@
    &&& t.fg_highlight@ == "#1e1e2e"@
    &&& t.fg_warning@ == "#f38ba8"@
    &&& t.fg_modified@ == "#fab387"@
    &&& t.fg_accent@ == "#b4befe"@
    &&& t.border_normal@ == "#45475a"@
    &&& t.border_active@ == "#a6e3a1"@
    &&& t.tree_depth_1@ == "#b4befe"@
    &&& t.tree_depth_2@ == "#cba6f7"@
    &&& t.tree_depth_3@ == "#89b4fa"@
    &&& t.tree_depth_4@ == "#fab387"@
}

impl Default for ThemeConfig {
    /// The Catppuccin Mocha palette, with a drawn background.
    fn default() -> (t: Self)
        ensures
            is_default_theme(t),
    {
        ThemeConfig {
            transparent: false,
            bg_normal: String::from_str("#1e1e2e"),
            bg_highlight: String::from_str("#89b4fa"),
            bg_active: String::from_str("#a6e3a1"),
            bg_search: String::from_str("#cba6f7"),
            fg_normal: String::from_str("#cdd6f4"),
            fg_dimmed: String::from_str("#6c7086"),
            fg_highlight: String::from_str("#1e1e2e"),
            fg_warning: String::from_str("#f38ba8"),
            fg_modified: String::from_str("#fab387"),
            fg_accent: String::from_str("#b4befe"),
            border_normal: String::from_str("#45475a"),
            border_active: String::from_str("#a6e3a1"),
            tree_depth_1: String::from_str("#b4befe"),
            tree_depth_2: String::from_str("#cba6f7"),
            tree_depth_3: String::from_str("#89b4fa"),
            tree_depth_4: String::from_str("#fab387"),
        }
    }
}

/// The key bindings: a key, or a sequence of keys (`gg`), or a command
/// typed after `:`.
#[derive(Debug)]
pub struct KeybindsConfig {
    pub down: String,
    pub up: String,
    pub edit: String,
    pub edit_append: String,
    pub edit_substitute: String,
    pub save: String,
    pub quit: String,
    pub normal_mode: String,
    pub search: String,
    pub next_match: String,
    pub previous_match: String,
    pub jump_top: String,
    pub jump_bottom: String,
    pub append_item: String,
    pub prepend_item: String,
    pub delete_item: String,
    pub undo: String,
    /// Bring back what undo took away.
    pub redo: String,
    /// Rename the selected key or group.
    pub rename: String,
    /// Add a group after the selected entry's contents.
    pub append_group: String,
    /// Add a group before the selected entry's contents.
    pub prepend_group: String,
    /// Turn the selected entry from a value into a group or back.
    pub toggle_group: String,
}

/// Whether the bindings are the default ones.
pub open spec fn is_default_keybinds(k: KeybindsConfig) -> bool {
    &&& k.down@ == "j"@
    &&& k.up@ == "k"@
    &&& k.edit@ == "i"@
    &&& k.edit_append@ == "a"@
    &&& k.edit_substitute@ == "s"@
    &&& k.save@ == ":w"@
    &&& k.quit@ == ":q"@
    &&& k.normal_mode@ == "Esc"@
    &&& k.search@ == "/"@
    &&& k.next_match@ == "n"@
    &&& k.previous_match@ == "N"@
    &&& k.jump_top@ == "gg"@
    &&& k.jump_bottom@ == "G"@
    &&& k.append_item@ == "o"@
    &&& k.prepend_item@ == "O"@
    &&& k.delete_item@ == "dd"@
    &&& k.undo@ == "u"@
    &&& k.redo@ == "U"@
    &&& k.rename@ == "r"@
    &&& k.append_group@ == "alt+o"@
    &&& k.prepend_group@ == "alt+O"@
    &&& k.toggle_group@ == "t"@
}

impl Default for KeybindsConfig {
    /// The default bindings.
    fn default() -> (k: Self)
        ensures
            is_default_keybinds(k),
    {
        KeybindsConfig {
            down: String::from_str("j"),
            up: String::from_str("k"),
            edit: String::from_str("i"),
            edit_append: String::from_str("a"),
            edit_substitute: String::from_str("s"),
            save: String::from_str(":w"),
            quit: String::from_str(":q"),
            normal_mode: String::from_str("Esc"),
            search: String::from_str("/"),
            next_match: String::from_str("n"),
            previous_match: String::from_str("N"),
            jump_top: String::from_str("gg"),
            jump_bottom: String::from_str("G"),
            append_item: String::from_str("o"),
            prepend_item: String::from_str("O"),
            delete_item: String::from_str("dd"),
            undo: String::from_str("u"),
            redo: String::from_str("U"),
            rename: String::from_str("r"),
            append_group: String::from_str("alt+o"),
            prepend_group: String::from_str("alt+O"),
            toggle_group: String::from_str("t"),
        }
    }
}

/// All settings.
#[derive(Debug)]
pub struct Config {
    pub theme: ThemeConfig,
    pub keybinds: KeybindsConfig,
}

impl Default for Config {
    /// The default theme and bindings.
    fn default() -> (c: Self)
        ensures
            is_default_theme(c.theme),
            is_default_keybinds(c.keybinds),
    {
        Config { theme: ThemeConfig::default(), keybinds: KeybindsConfig::default() }
    }
}

} // verus!
