//! Key presses, and the line of text that is typed into, kept by
//! `tui_input`.

use vstd::prelude::*;
use tui_input::backend::crossterm::EventHandler;
use crossterm::event::KeyCode as TermCode;
use crossterm::event::KeyEventKind as TermKind;

verus! {

/// Which key was pressed.
#[derive(Debug, Clone, Copy, PartialEq, Eq, Structural)]
pub enum KeyCode {
    Char(char),
    Backspace,
    Delete,
    Left,
    Right,
    Up,
    Down,
    Home,
    End,
    Enter,
    Esc,
    /// Any other key.
    Other,
}

/// Whether a key went down, repeats, or went up.
#[derive(Debug, Clone, Copy, PartialEq, Eq, Structural)]
pub enum KeyKind {
    Press,
    Repeat,
    Release,
}

/// A key event: the key, the modifier keys held (a set of the bits below)
/// and its kind.
#[derive(Debug, Clone, Copy, PartialEq, Eq, Structural)]
pub struct Key {
    pub code: KeyCode,
    pub modifiers: u8,
    pub kind: KeyKind,
}

/// The modifier bit of the shift key.
pub const SHIFT: u8 = 1;

/// The modifier bit of the control key.
pub const CONTROL: u8 = 2;

/// The modifier bit of the alt key.
pub const ALT: u8 = 4;

/// The modifier bit of the meta key.
pub const META: u8 = 32;

impl Key {
    /// A key going down with no modifier held.
    pub fn plain(code: KeyCode) -> (k: Key)
        ensures
            k.code == code,
            k.modifiers == 0,
            k.kind == KeyKind::Press,
    {
        Key { code, modifiers: 0, kind: KeyKind::Press }
    }
}

/// Declares `tui_input::Input`, the line of text being typed into.
#[verifier::external_type_specification]
#[verifier::external_body]
pub struct ExInput(tui_input::Input);

/// The text that an input line holds.
pub uninterp spec fn input_text(i: tui_input::Input) -> Seq<char>;

/// How many characters of an input line's text come before its cursor.
pub uninterp spec fn input_cursor(i: tui_input::Input) -> usize;

/// The text that an input line's kill ring holds (what the last cuts took,
/// and what Ctrl-Y puts back).
pub uninterp spec fn input_kill_ring(i: tui_input::Input) -> Seq<char>;

/// Whether an input line's last request was a cut, so that the next cut
/// adds to the kill ring instead of replacing it.
pub uninterp spec fn input_after_cut(i: tui_input::Input) -> bool;

/// Calls `tui_input::Input::new`, which holds `value` with the cursor after
/// its last character, an empty kill ring, and no cut before.
#[verifier::external_body]
fn new_input(value: String) -> (r: tui_input::Input)
    ensures
        input_text(r) == value@,
        input_cursor(r) == value@.len(),
        input_kill_ring(r) == Seq::<char>::empty(),
        !input_after_cut(r),
{
    tui_input::Input::new(value)
}

/// Calls `tui_input::Input::value`, the text held.
#[verifier::external_body]
fn input_value(i: &tui_input::Input) -> (r: &str)
    ensures
        r@ == input_text(*i),
{
    i.value()
}

/// Calls `tui_input::Input::cursor`, the cursor position in characters.
#[verifier::external_body]
fn input_cursor_of(i: &tui_input::Input) -> (r: usize)
    ensures
        r == input_cursor(*i),
{
    i.cursor()
}

/// A request to an input line that moves its cursor.
pub enum CursorMove {
    ToStart,
    ToEnd,
}

/// Calls `tui_input::Input::handle` with the request `GoToStart` or
/// `GoToEnd`: the text stays, the cursor goes before the first or after the
/// last character.
#[verifier::external_body]
fn input_handle(i: &mut tui_input::Input, m: CursorMove)
    ensures
        input_text(*final(i)) == input_text(*old(i)),
        m is ToStart ==> input_cursor(*final(i)) == 0,
        m is ToEnd ==> input_cursor(*final(i)) == input_text(*old(i)).len(),
        input_kill_ring(*final(i)) == input_kill_ring(*old(i)),
        !input_after_cut(*final(i)),
{
    match m {
        CursorMove::ToStart => i.handle(tui_input::InputRequest::GoToStart),
        CursorMove::ToEnd => i.handle(tui_input::InputRequest::GoToEnd),
    };
}

/// What a key held with no modifier does to an input line, going from
/// text `t` with cursor `c` to text `t2` with cursor `c2`: Home and End move
/// the cursor to either end; Backspace and Delete remove a run of one or
/// more characters just before or just after the cursor (one grapheme),
/// and do nothing at the start or at the end of the text; Left and Right
/// move the cursor back or forward over one or more characters, and do
/// nothing at the start or at the end.
pub open spec fn plain_key_edit(code: KeyCode, t: Seq<char>, c: int, t2: Seq<char>, c2: int) -> bool {
    match code {
        KeyCode::Home => t2 == t && c2 == 0,
        KeyCode::End => t2 == t && c2 == t.len(),
        KeyCode::Backspace => if c == 0 {
            t2 == t && c2 == c
        } else {
            0 <= c2 < c && t2 == t.take(c2) + t.skip(c)
        },
        KeyCode::Delete => if c == t.len() {
            t2 == t && c2 == c
        } else {
            t2.len() < t.len() && t2 == t.take(c) + t.skip(c + t.len() - t2.len()) && c2 == c
        },
        KeyCode::Left => t2 == t && if c == 0 { c2 == c } else { c2 < c },
        KeyCode::Right => t2 == t && if c == t.len() { c2 == c } else { c < c2 },
        _ => true,
    }
}

/// What the kill-ring keys held with control do to an input line, from
/// text `t`, cursor `c`, kill ring `k` and cut flag `cut` to `t2`, `c2`,
/// `k2`, `cut2`: Ctrl-K cuts from the cursor to the end (added after the
/// ring's text right after another cut, else replacing it); Ctrl-U cuts the
/// whole text when there is one (added before the ring's text when the
/// cursor is at the end, else after it, right after another cut) and puts
/// the cursor at the start, and counts as a cut even on an empty text; Ctrl-Y puts the ring's text back at the cursor,
/// which moves past it. A typed character leaves the ring and ends a run of
/// cuts.
pub open spec fn kill_ring_edit(
    code: KeyCode,
    modifiers: u8,
    t: Seq<char>,
    c: int,
    k: Seq<char>,
    cut: bool,
    t2: Seq<char>,
    c2: int,
    k2: Seq<char>,
    cut2: bool,
) -> bool {
    if modifiers == CONTROL && code == KeyCode::Char('k') {
        &&& t2 == t.take(c)
        &&& c2 == c
        &&& k2 == if cut { k + t.skip(c) } else { t.skip(c) }
        &&& cut2
    } else if modifiers == CONTROL && code == KeyCode::Char('u') {
        if t.len() == 0 {
            t2 == t && c2 == c && k2 == k && cut2
        } else {
            &&& t2 == Seq::<char>::empty()
            &&& c2 == 0
            &&& k2 == if !cut {
                t
            } else if c == t.len() {
                t + k
            } else {
                k + t
            }
            &&& cut2
        }
    } else if modifiers == CONTROL && code == KeyCode::Char('y') {
        &&& if k.len() == 0 {
            t2 == t && c2 == c
        } else {
            t2 == t.take(c) + k + t.skip(c) && c2 == c + k.len()
        }
        &&& k2 == k
        &&& !cut2
    } else if (modifiers == 0 || modifiers == SHIFT || modifiers == CONTROL | ALT) && code is Char {
        k2 == k && !cut2
    } else {
        true
    }
}

/// Where tui-input's search for the previous word (`prev_word_byte`) puts
/// the cursor, in characters, from cursor `c` in text `t`.
pub uninterp spec fn word_start_before(t: Seq<char>, c: nat) -> nat;

/// Where tui-input's search for the next word (`next_word_byte`) puts the
/// cursor, in characters, from cursor `c` in text `t`.
pub uninterp spec fn word_start_after(t: Seq<char>, c: nat) -> nat;

/// What the word keys do to an input line (names as in `kill_ring_edit`,
/// with `before` and `after` the starts of the previous and the next word
/// from the cursor):
/// Ctrl-Left or Meta-b moves to the previous word's start, Ctrl-Right or
/// Meta-f to the next word's start (neither moves at the ends of the
/// text); Ctrl-W, Meta-d, Meta-Backspace or Alt-Backspace cut back to the
/// previous word's start, and Ctrl-Delete cut up to the next word's start
/// (added before or after the ring's text right after another cut, else
/// replacing it). A cut, even of nothing, counts as a cut; a move does not.
pub open spec fn word_edit(
    code: KeyCode,
    modifiers: u8,
    t: Seq<char>,
    c: int,
    k: Seq<char>,
    cut: bool,
    t2: Seq<char>,
    c2: int,
    k2: Seq<char>,
    cut2: bool,
    before: int,
    after: int,
) -> bool {
    if (code == KeyCode::Left && modifiers == CONTROL) || (code == KeyCode::Char('b') && modifiers == META) {
        &&& t2 == t
        &&& c2 == if c == 0 {
            c
        } else {
            before
        }
        &&& k2 == k
        &&& !cut2
    } else if (code == KeyCode::Right && modifiers == CONTROL) || (code == KeyCode::Char('f') && modifiers
        == META) {
        &&& t2 == t
        &&& c2 == if c == t.len() {
            c
        } else {
            after
        }
        &&& k2 == k
        &&& !cut2
    } else if (code == KeyCode::Char('w') && modifiers == CONTROL) || (code == KeyCode::Char('d') && modifiers
        == META) || (code == KeyCode::Backspace && (modifiers == META || modifiers == ALT)) {
        let p = before;
        &&& if c == 0 {
            t2 == t && c2 == c && k2 == k
        } else {
            &&& t2 == t.take(p) + t.skip(c)
            &&& c2 == p
            &&& k2 == if cut { t.subrange(p, c) + k } else { t.subrange(p, c) }
        }
        &&& cut2
    } else if code == KeyCode::Delete && modifiers == CONTROL {
        let n = after;
        &&& if c == t.len() {
            t2 == t && c2 == c && k2 == k
        } else {
            &&& t2 == t.take(c) + t.skip(n)
            &&& c2 == c
            &&& k2 == if cut { k + t.subrange(c, n) } else { t.subrange(c, n) }
        }
        &&& cut2
    } else {
        true
    }
}

/// Calls `tui_input`'s `handle_event` with the key as a crossterm key event.
/// A key that goes up changes nothing, nor do Up, Down, Enter, Esc and the
/// other keys; a character typed with no modifier, with shift, or with
/// control and alt together is inserted at the cursor, which moves past it;
/// the editing keys held with no modifier do what `plain_key_edit` says,
/// Ctrl-K, Ctrl-U, Ctrl-Y and typed characters what `kill_ring_edit` says,
/// and the word keys what `word_edit` says; the cursor stays within the
/// text. Which characters form one grapheme, and where a word starts
/// (named `word_start_before`, `word_start_after`), is left unsaid.
#[verifier::external_body]
fn input_handle_key(i: &mut tui_input::Input, key: Key)
    requires
        input_cursor(*old(i)) <= input_text(*old(i)).len(),
    ensures
        input_cursor(*final(i)) <= input_text(*final(i)).len(),
        key.kind == KeyKind::Release ==> *final(i) == *old(i),
        key.code is Up || key.code is Down || key.code is Enter || key.code is Esc || key.code is Other
            ==> *final(i) == *old(i),
        key.kind != KeyKind::Release && (key.modifiers == 0 || key.modifiers == SHIFT || key.modifiers
            == CONTROL | ALT) ==> (key.code matches KeyCode::Char(c) ==> input_text(*final(i))
            == input_text(*old(i)).insert(input_cursor(*old(i)) as int, c) && input_cursor(*final(i))
            == input_cursor(*old(i)) + 1),
        key.kind != KeyKind::Release && key.modifiers == 0 ==> plain_key_edit(
            key.code,
            input_text(*old(i)),
            input_cursor(*old(i)) as int,
            input_text(*final(i)),
            input_cursor(*final(i)) as int,
        ),
        key.kind != KeyKind::Release ==> kill_ring_edit(
            key.code,
            key.modifiers,
            input_text(*old(i)),
            input_cursor(*old(i)) as int,
            input_kill_ring(*old(i)),
            input_after_cut(*old(i)),
            input_text(*final(i)),
            input_cursor(*final(i)) as int,
            input_kill_ring(*final(i)),
            input_after_cut(*final(i)),
        ),
        key.kind != KeyKind::Release ==> word_edit(
            key.code,
            key.modifiers,
            input_text(*old(i)),
            input_cursor(*old(i)) as int,
            input_kill_ring(*old(i)),
            input_after_cut(*old(i)),
            input_text(*final(i)),
            input_cursor(*final(i)) as int,
            input_kill_ring(*final(i)),
            input_after_cut(*final(i)),
            word_start_before(input_text(*old(i)), input_cursor(*old(i)) as nat) as int,
            word_start_after(input_text(*old(i)), input_cursor(*old(i)) as nat) as int,
        ),
{
    let code = match key.code {
        KeyCode::Char(c) => TermCode::Char(c), KeyCode::Backspace => TermCode::Backspace,
        KeyCode::Delete => TermCode::Delete, KeyCode::Left => TermCode::Left, KeyCode::Right => TermCode::Right,
        KeyCode::Up => TermCode::Up, KeyCode::Down => TermCode::Down, KeyCode::Home => TermCode::Home,
        KeyCode::End => TermCode::End, KeyCode::Enter => TermCode::Enter, KeyCode::Esc => TermCode::Esc,
        KeyCode::Other => TermCode::Null,
    };
    let kind = match key.kind {
        KeyKind::Press => TermKind::Press, KeyKind::Repeat => TermKind::Repeat, KeyKind::Release => TermKind::Release,
    };
    let mods = crossterm::event::KeyModifiers::from_bits_truncate(key.modifiers);
    let ev = crossterm::event::KeyEvent::new_with_kind(code, mods, kind);
    i.handle_event(&crossterm::event::Event::Key(ev));
}

/// A line of text being typed into, with a cursor counted in characters.
#[derive(Debug)]
pub struct TextInput {
    inner: tui_input::Input,
}

impl TextInput {
    /// The text.
    pub closed spec fn text(&self) -> Seq<char> {
        input_text(self.inner)
    }

    /// The cursor position, in characters.
    pub closed spec fn cursor_at(&self) -> usize {
        input_cursor(self.inner)
    }

    /// The text of the kill ring.
    pub closed spec fn kill_ring(&self) -> Seq<char> {
        input_kill_ring(self.inner)
    }

    /// Whether the last edit was a cut.
    pub closed spec fn after_cut(&self) -> bool {
        input_after_cut(self.inner)
    }

    /// The cursor is within the text.
    #[verifier::type_invariant]
    spec fn cursor_within(&self) -> bool {
        input_cursor(self.inner) <= input_text(self.inner).len()
    }

    /// An input holding `value`, with the cursor after its last character.
    pub fn new(value: String) -> (r: Self)
        ensures
            r.text() == value@,
            r.cursor_at() == value@.len(),
            r.kill_ring() == Seq::<char>::empty(),
            !r.after_cut(),
    {
        TextInput { inner: new_input(value) }
    }

    /// The text.
    pub fn value(&self) -> (r: &str)
        ensures
            r@ == self.text(),
    {
        input_value(&self.inner)
    }

    /// The cursor position, in characters.
    pub fn cursor(&self) -> (r: usize)
        ensures
            r == self.cursor_at(),
    {
        input_cursor_of(&self.inner)
    }

    /// Moves the cursor before the first character.
    pub fn go_to_start(&mut self)
        ensures
            final(self).text() == old(self).text(),
            final(self).cursor_at() == 0,
            final(self).kill_ring() == old(self).kill_ring(),
            !final(self).after_cut(),
    {
        let mut line = new_input(String::new());
        std::mem::swap(&mut line, &mut self.inner);
        input_handle(&mut line, CursorMove::ToStart);
        self.inner = line;
    }

    /// Moves the cursor after the last character.
    pub fn go_to_end(&mut self)
        ensures
            final(self).text() == old(self).text(),
            final(self).cursor_at() == old(self).text().len(),
            final(self).kill_ring() == old(self).kill_ring(),
            !final(self).after_cut(),
    {
        let mut line = new_input(String::new());
        std::mem::swap(&mut line, &mut self.inner);
        input_handle(&mut line, CursorMove::ToEnd);
        self.inner = line;
    }

    /// What a key does to an input (see `input_handle_key`): the cursor
    /// stays within the text; a key going up changes nothing, nor do Up,
    /// Down, Enter, Esc and the other keys; a plain, shifted, or
    /// control-and-alt character is inserted at the cursor, which moves past
    /// it; the editing keys held with no modifier do what `plain_key_edit`
    /// says, the kill-ring keys what `kill_ring_edit` says and the word
    /// keys what `word_edit` says.
    pub open spec fn typed_from(self, b: TextInput, key: Key) -> bool {
        &&& self.cursor_at() <= self.text().len()
        &&& key.kind == KeyKind::Release ==> self == b
        &&& key.code is Up || key.code is Down || key.code is Enter || key.code is Esc || key.code is Other
            ==> self == b
        &&& key.kind != KeyKind::Release && key.modifiers == 0 ==> plain_key_edit(
            key.code,
            b.text(),
            b.cursor_at() as int,
            self.text(),
            self.cursor_at() as int,
        )
        &&& key.kind != KeyKind::Release ==> kill_ring_edit(
            key.code,
            key.modifiers,
            b.text(),
            b.cursor_at() as int,
            b.kill_ring(),
            b.after_cut(),
            self.text(),
            self.cursor_at() as int,
            self.kill_ring(),
            self.after_cut(),
        )
        &&& key.kind != KeyKind::Release ==> word_edit(
            key.code,
            key.modifiers,
            b.text(),
            b.cursor_at() as int,
            b.kill_ring(),
            b.after_cut(),
            self.text(),
            self.cursor_at() as int,
            self.kill_ring(),
            self.after_cut(),
            word_start_before(b.text(), b.cursor_at() as nat) as int,
            word_start_after(b.text(), b.cursor_at() as nat) as int,
        )
        &&& key.kind != KeyKind::Release && (key.modifiers == 0 || key.modifiers == SHIFT || key.modifiers
            == CONTROL | ALT) ==> (key.code matches KeyCode::Char(c) ==> self.text() == b.text().insert(
            b.cursor_at() as int,
            c,
        ) && self.cursor_at() == b.cursor_at() + 1)
    }

    /// Edits the text as the key asks.
    pub fn handle_key(&mut self, key: Key)
        ensures
            final(self).typed_from(*old(self), key),
    {
        proof {
            use_type_invariant(&*self);
        }
        let mut line = new_input(String::new());
        std::mem::swap(&mut line, &mut self.inner);
        input_handle_key(&mut line, key);
        self.inner = line;
    }
}

} // verus!
