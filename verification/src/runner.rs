//! What each key does: key sequences resolved against the bindings, `:`
//! commands, search, and typing. Writing the file is left to the caller,
//! which is told when to do it.

use vstd::prelude::*;
use crate::app::{
    App, InsertVariant, Mode, clamp_selection, indices_below_max, next_match_target, shown_text,
    stack_after_save, stack_view,
};
use crate::config::KeybindsConfig;
use crate::format::{ItemStatus, ItemView, items_view, opt_view};
use crate::input::{ALT, Key, KeyCode};
use crate::text::{chars_of, string_of};

verus! {

/// What the caller does after a key.
#[derive(Debug, Clone, Copy, PartialEq, Eq, Structural)]
pub enum Effect {
    Nothing,
    /// Write the entries to the output file, then report with `save_finished`.
    Save,
}

/// The commands that key sequences are bound to.
#[derive(Debug, Clone, Copy, PartialEq, Eq, Structural)]
pub enum Command {
    Down,
    Up,
    Edit,
    EditAppend,
    EditSubstitute,
    Search,
    NextMatch,
    PreviousMatch,
    JumpTop,
    JumpBottom,
    AppendItem,
    PrependItem,
    DeleteItem,
    Undo,
    Redo,
    Rename,
    AppendGroup,
    PrependGroup,
    ToggleGroup,
    AddMissing,
    EnterCommand,
    Quit,
}

/// The bindings in the order they are tried: the configured ones, then
/// `a` to add a missing entry, `:` to type a command and `q` to quit.
pub open spec fn bindings(k: KeybindsConfig) -> Seq<(Seq<char>, Command)> {
    seq![
        (k.down@, Command::Down),
        (k.up@, Command::Up),
        (k.edit@, Command::Edit),
        (k.edit_append@, Command::EditAppend),
        (k.edit_substitute@, Command::EditSubstitute),
        (k.search@, Command::Search),
        (k.next_match@, Command::NextMatch),
        (k.previous_match@, Command::PreviousMatch),
        (k.jump_top@, Command::JumpTop),
        (k.jump_bottom@, Command::JumpBottom),
        (k.append_item@, Command::AppendItem),
        (k.prepend_item@, Command::PrependItem),
        (k.delete_item@, Command::DeleteItem),
        (k.undo@, Command::Undo),
        (k.redo@, Command::Redo),
        (k.rename@, Command::Rename),
        (k.append_group@, Command::AppendGroup),
        (k.prepend_group@, Command::PrependGroup),
        (k.toggle_group@, Command::ToggleGroup),
        ("a"@, Command::AddMissing),
        (":"@, Command::EnterCommand),
        ("q"@, Command::Quit),
    ]
}

/// The command of the first of the first `n` bindings whose keys are
/// exactly `s`.
pub open spec fn first_exact(bs: Seq<(Seq<char>, Command)>, s: Seq<char>, n: int) -> Option<Command>
    decreases n,
{
    if n <= 0 || n > bs.len() {
        None
    } else {
        match first_exact(bs, s, n - 1) {
            Some(c) => Some(c),
            None => if bs[n - 1].0 == s {
                Some(bs[n - 1].1)
            } else {
                None
            },
        }
    }
}

/// Whether some binding's keys begin with `s`.
pub open spec fn some_prefix(bs: Seq<(Seq<char>, Command)>, s: Seq<char>) -> bool {
    exists|i: int| 0 <= i < bs.len() && crate::text::has_prefix(#[trigger] bs[i].0, s)
}

/// The command bound to exactly `s`, if any.
pub open spec fn bound_command(k: KeybindsConfig, s: Seq<char>) -> Option<Command> {
    first_exact(bindings(k), s, bindings(k).len() as int)
}

/// The text that a key adds to the key sequence: its character, after
/// `alt+` when alt is held; nothing for a key that is no character.
pub open spec fn key_text(key: Key) -> Seq<char> {
    match key.code {
        KeyCode::Char(c) => if key.modifiers & ALT != 0 {
            "alt+"@.push(c)
        } else {
            seq![c]
        },
        _ => Seq::empty(),
    }
}

/// The key sequence kept after a key that adds `kt` to `seq` and runs no
/// command: the whole sequence while it may still grow into a binding,
/// else the new key's text alone.
pub open spec fn pending_sequence(k: KeybindsConfig, seq: Seq<char>, kt: Seq<char>) -> Seq<char> {
    if some_prefix(bindings(k), seq + kt) {
        seq + kt
    } else {
        kt
    }
}

/// What the status bar shows while a command is typed.
pub open spec fn command_status(buf: Seq<char>) -> Option<Seq<char>> {
    if buf.len() == 0 {
        None
    } else {
        Some(buf)
    }
}

/// Only the status message may differ.
pub open spec fn same_but_status(a: App, b: App) -> bool {
    &&& a.vars == b.vars
    &&& a.selected == b.selected
    &&& a.mode == b.mode
    &&& a.running == b.running
    &&& a.input == b.input
    &&& a.search_query == b.search_query
    &&& a.undo_stack == b.undo_stack
    &&& a.redo_stack == b.redo_stack
}

/// Whether the selection points at an entry (or there is none).
pub open spec fn selection_valid(b: App) -> bool {
    b.vars@.len() == 0 || b.selected < b.vars@.len()
}

/// Whether the selected entry is missing from the active file.
pub open spec fn selection_missing(b: App) -> bool {
    0 <= b.selected < b.vars@.len() && b.vars@[b.selected as int].status == ItemStatus::MissingFromActive
}

/// What adding a missing entry does: a selected entry missing from the
/// active file becomes present, taking its template value unless it is a
/// group; the input shows it and the new entries are saved for undo.
pub open spec fn missing_added(a: App, b: App) -> bool {
    let sel = b.selected as int;
    if 0 <= sel < b.vars@.len() && b.vars@[sel].status == ItemStatus::MissingFromActive {
        let v = b.vars@[sel]@;
        let nv = ItemView {
            status: ItemStatus::Present,
            value: if v.is_group {
                v.value
            } else {
                v.template_value
            },
            ..v
        };
        &&& items_view(a.vars@) == items_view(b.vars@).update(sel, nv)
        &&& a.selected == b.selected
        &&& a.input_synced(b.input)
        &&& a.redo_stack@.len() == 0
        &&& stack_view(a.undo_stack@) == stack_after_save(stack_view(b.undo_stack@), items_view(a.vars@))
        &&& a.mode == b.mode
        &&& a.status_message == b.status_message
        &&& a.search_query == b.search_query
        &&& a.running == b.running
    } else {
        a == b
    }
}

/// What a command does to the editing state.
pub open spec fn performed(c: Command, b: App, a: App, k: KeybindsConfig) -> bool {
    match c {
        Command::Down => if b.selected < usize::MAX {
            a.moved_down_from(b)
        } else {
            a == b
        },
        Command::Up => a.moved_up_from(b),
        Command::Edit => a.insert_entered_from(b, InsertVariant::Start),
        Command::EditAppend => if selection_missing(b) {
            missing_added(a, b)
        } else {
            a.insert_entered_from(b, InsertVariant::End)
        },
        Command::EditSubstitute => a.insert_entered_from(b, InsertVariant::Substitute),
        Command::Search => {
            &&& a.mode == Mode::Search
            &&& a.search_query@ == Seq::<char>::empty()
            &&& opt_view(a.status_message) == Some(k.search@.push(' '))
            &&& a.vars == b.vars
            &&& a.selected == b.selected
            &&& a.running == b.running
            &&& a.input == b.input
            &&& a.undo_stack == b.undo_stack
            &&& a.redo_stack == b.redo_stack
        },
        Command::NextMatch => a.moved_to_next_match_from(b),
        Command::PreviousMatch => a.moved_to_previous_match_from(b),
        Command::JumpTop => a.moved_to_top_from(b),
        Command::JumpBottom => a.moved_to_bottom_from(b),
        Command::AppendItem => if selection_valid(b) && indices_below_max(items_view(b.vars@)) {
            a.entry_added_from(b, true, false, false)
        } else {
            a == b
        },
        Command::PrependItem => if selection_valid(b) && indices_below_max(items_view(b.vars@)) {
            a.entry_added_from(b, false, false, false)
        } else {
            a == b
        },
        Command::AppendGroup => if selection_valid(b) && indices_below_max(items_view(b.vars@)) {
            a.entry_added_from(b, true, true, true)
        } else {
            a == b
        },
        Command::PrependGroup => if selection_valid(b) && indices_below_max(items_view(b.vars@)) {
            a.entry_added_from(b, false, true, true)
        } else {
            a == b
        },
        Command::DeleteItem => if selection_valid(b) {
            a.deleted_from(b)
        } else {
            a == b
        },
        Command::Undo => a.undone_from(b),
        Command::Redo => a.redone_from(b),
        Command::Rename => a.key_entry_from(b),
        Command::ToggleGroup => a.toggled_from(b),
        Command::AddMissing => missing_added(a, b),
        Command::EnterCommand => same_but_status(a, b) && opt_view(a.status_message) == Some(":"@),
        Command::Quit => {
            &&& !a.running
            &&& a.vars == b.vars
            &&& a.selected == b.selected
            &&& a.mode == b.mode
            &&& a.status_message == b.status_message
            &&& a.input == b.input
            &&& a.search_query == b.search_query
            &&& a.undo_stack == b.undo_stack
            &&& a.redo_stack == b.redo_stack
        },
    }
}

/// What a typed `:` command does: the save command asks for a save, the
/// quit command stops the loop, `:wq` does both, and anything else is
/// reported as unknown.
pub open spec fn executed(cmd: Seq<char>, b: App, a: App, k: KeybindsConfig, e: Effect) -> bool {
    if cmd == k.save@ {
        e == Effect::Save && a == b
    } else if cmd == k.quit@ {
        e == Effect::Nothing && same_but_running(a, b) && !a.running
    } else if cmd == ":wq"@ {
        e == Effect::Save && same_but_running(a, b) && !a.running
    } else {
        e == Effect::Nothing && same_but_status(a, b) && opt_view(a.status_message) == Some(
            "Unknown command: "@ + cmd,
        )
    }
}

/// Only whether the loop goes on may differ.
pub open spec fn same_but_running(a: App, b: App) -> bool {
    &&& a.vars == b.vars
    &&& a.selected == b.selected
    &&& a.mode == b.mode
    &&& a.status_message == b.status_message
    &&& a.input == b.input
    &&& a.search_query == b.search_query
    &&& a.undo_stack == b.undo_stack
    &&& a.redo_stack == b.redo_stack
}


/// What a key does while a `:` command is typed: Enter runs it, Esc drops
/// it, Backspace removes its last character and a character extends it;
/// the status bar follows the command.
pub open spec fn command_key_handled(
    bs: RunnerState,
    rs: RunnerState,
    b: App,
    a: App,
    k: KeybindsConfig,
    key: Key,
    e: Effect,
) -> bool {
    &&& rs.key_sequence == bs.key_sequence
    &&& match key.code {
        KeyCode::Enter => rs.command_buffer@ == Seq::<char>::empty() && executed(bs.command_buffer@, b, a, k, e),
        KeyCode::Esc => {
            &&& rs.command_buffer@ == Seq::<char>::empty()
            &&& same_but_status(a, b)
            &&& a.status_message is None
            &&& e == Effect::Nothing
        },
        KeyCode::Backspace => {
            &&& rs.command_buffer@ == (if bs.command_buffer@.len() > 0 {
                bs.command_buffer@.drop_last()
            } else {
                bs.command_buffer@
            })
            &&& same_but_status(a, b)
            &&& opt_view(a.status_message) == command_status(rs.command_buffer@)
            &&& e == Effect::Nothing
        },
        KeyCode::Char(c) => {
            &&& rs.command_buffer@ == bs.command_buffer@.push(c)
            &&& same_but_status(a, b)
            &&& opt_view(a.status_message) == command_status(rs.command_buffer@)
            &&& e == Effect::Nothing
        },
        _ => rs.command_buffer == bs.command_buffer && a == b && e == Effect::Nothing,
    }
}

/// What a key does in normal mode with no command typed: a character key
/// extends the key sequence, which runs the command bound to it exactly,
/// is kept while it may still grow into a binding, and else restarts from
/// the new key; another key clears the sequence, and moves the selection
/// (arrows), asks for a save (Enter) or clears the status (Esc).
pub open spec fn navigation_key_handled(
    bs: RunnerState,
    rs: RunnerState,
    b: App,
    a: App,
    k: KeybindsConfig,
    key: Key,
    e: Effect,
) -> bool {
    let kt = key_text(key);
    if kt.len() > 0 {
        let s = bs.key_sequence@ + kt;
        &&& e == Effect::Nothing
        &&& match bound_command(k, s) {
            Some(c) => {
                &&& rs.key_sequence@ == Seq::<char>::empty()
                &&& performed(c, b, a, k)
                &&& rs.command_buffer@ == if c == Command::EnterCommand {
                    ":"@
                } else {
                    Seq::<char>::empty()
                }
            },
            None => {
                &&& rs.key_sequence@ == pending_sequence(k, bs.key_sequence@, kt)
                &&& a == b
                &&& rs.command_buffer == bs.command_buffer
            },
        }
    } else {
        &&& rs.key_sequence@ == Seq::<char>::empty()
        &&& rs.command_buffer == bs.command_buffer
        &&& match key.code {
            KeyCode::Down => performed(Command::Down, b, a, k) && e == Effect::Nothing,
            KeyCode::Up => performed(Command::Up, b, a, k) && e == Effect::Nothing,
            KeyCode::Enter => a == b && e == Effect::Save,
            KeyCode::Esc => same_but_status(a, b) && a.status_message is None && e == Effect::Nothing,
            _ => a == b && e == Effect::Nothing,
        }
    }
}

/// The search after the query became `q`: the status shows it, and the
/// first match after the selection (or else the first match) is selected.
pub open spec fn searched(a: App, b: App, q: Seq<char>, k: KeybindsConfig) -> bool {
    &&& a.search_query@ == q
    &&& opt_view(a.status_message) == Some(k.search@ + q)
    &&& a.vars == b.vars
    &&& a.mode == b.mode
    &&& a.undo_stack == b.undo_stack
    &&& a.redo_stack == b.redo_stack
    &&& a.running == b.running
    &&& match next_match_target(items_view(b.vars@), q, b.selected) {
        Some(t) => a.selected == t && a.input_synced(b.input),
        None => a.selected == b.selected && a.input == b.input,
    }
}

/// What a key does while searching: Enter or Esc end the search, Backspace
/// and characters edit the query and search again.
pub open spec fn search_key_handled(b: App, a: App, k: KeybindsConfig, key: Key) -> bool {
    match key.code {
        KeyCode::Enter | KeyCode::Esc => {
            &&& a.mode == Mode::Normal
            &&& a.status_message is None
            &&& a.vars == b.vars
            &&& a.selected == b.selected
            &&& a.running == b.running
            &&& a.input == b.input
            &&& a.search_query == b.search_query
            &&& a.undo_stack == b.undo_stack
            &&& a.redo_stack == b.redo_stack
        },
        KeyCode::Backspace => searched(
            a,
            b,
            if b.search_query@.len() > 0 {
                b.search_query@.drop_last()
            } else {
                b.search_query@
            },
            k,
        ),
        KeyCode::Char(c) => searched(a, b, b.search_query@.push(c), k),
        _ => a == b,
    }
}

/// What a key does while typing: Esc abandons, Enter stores, any other key
/// edits the input.
pub open spec fn typing_key_handled(b: App, a: App, key: Key) -> bool {
    match key.code {
        KeyCode::Esc => a.insert_cancelled_from(b),
        KeyCode::Enter => a.normal_entered_from(b),
        _ => {
            &&& a.input.typed_from(b.input, key)
            &&& a.vars == b.vars
            &&& a.selected == b.selected
            &&& a.mode == b.mode
            &&& a.status_message == b.status_message
            &&& a.running == b.running
            &&& a.search_query == b.search_query
            &&& a.undo_stack == b.undo_stack
            &&& a.redo_stack == b.redo_stack
        },
    }
}

/// What a key does, by mode.
pub open spec fn key_handled(
    bs: RunnerState,
    rs: RunnerState,
    b: App,
    a: App,
    k: KeybindsConfig,
    key: Key,
    e: Effect,
) -> bool {
    match b.mode {
        Mode::Normal => if bs.command_buffer@.len() > 0 {
            command_key_handled(bs, rs, b, a, k, key, e)
        } else {
            navigation_key_handled(bs, rs, b, a, k, key, e)
        },
        Mode::Search => search_key_handled(b, a, k, key) && rs == bs && e == Effect::Nothing,
        Mode::Insert | Mode::InsertKey => typing_key_handled(b, a, key) && rs == bs && e == Effect::Nothing,
    }
}

/// `s` without its last character (unchanged when empty).
fn without_last(s: &String) -> (r: String)
    ensures
        r@ == if s@.len() > 0 {
            s@.drop_last()
        } else {
            s@
        },
{
    let cs = chars_of(s.as_str());
    if cs.len() == 0 {
        return String::new();
    }
    let kept = crate::text::slice_chars(&cs, 0, cs.len() - 1);
    assert(kept@ =~= s@.drop_last());
    string_of(kept.as_slice())
}

/// The text a key adds to the key sequence (see `key_text`).
fn key_string(key: Key) -> (r: String)
    ensures
        r@ == key_text(key),
{
    match key.code {
        KeyCode::Char(c) => {
            let mut s = String::new();
            if key.modifiers & ALT != 0 {
                crate::text::push_text(&mut s, "alt+");
            }
            s.push(c);
            proof {
                assert(Seq::<char>::empty() + "alt+"@ =~= "alt+"@);
            }
            s
        },
        _ => String::new(),
    }
}

/// Records the outcome of a save in the status bar.
pub fn save_finished(app: &mut App, saved: bool, output: &str)
    ensures
        same_but_status(*final(app), *old(app)),
        opt_view(final(app).status_message) == if saved {
            Some("Saved to "@ + output@)
        } else {
            Some("Error saving file"@)
        },
{
    if saved {
        let mut m = String::from_str("Saved to ");
        crate::text::push_text(&mut m, output);
        app.status_message = Some(m);
    } else {
        app.status_message = Some(String::from_str("Error saving file"));
    }
}

/// Adds the selected entry from the template to the active configuration
/// when it is missing there (see `missing_added`).
pub fn add_missing_item(app: &mut App)
    ensures
        missing_added(*final(app), *old(app)),
{
    if app.selected < app.vars.len() && app.vars[app.selected].status == ItemStatus::MissingFromActive {
        let sel = app.selected;
        let ghost iv = items_view(app.vars@);
        let mut var = app.vars.remove(sel);
        var.status = ItemStatus::Present;
        if !var.is_group {
            var.value = crate::format::clone_opt(&var.template_value);
        }
        let ghost vv = var@;
        app.vars.insert(sel, var);
        assert(items_view(app.vars@) =~= iv.update(sel as int, vv));
        app.sync_input_with_selected();
        app.save_undo_state();
    }
}

/// The command bound to exactly `s`, and whether some binding's keys begin
/// with `s`.
pub fn lookup_binding(k: &KeybindsConfig, s: &str) -> (r: (Option<Command>, bool))
    ensures
        r.0 == bound_command(*k, s@),
        r.1 == some_prefix(bindings(*k), s@),
{
    let binds: Vec<(&str, Command)> = vec![
        (k.down.as_str(), Command::Down),
        (k.up.as_str(), Command::Up),
        (k.edit.as_str(), Command::Edit),
        (k.edit_append.as_str(), Command::EditAppend),
        (k.edit_substitute.as_str(), Command::EditSubstitute),
        (k.search.as_str(), Command::Search),
        (k.next_match.as_str(), Command::NextMatch),
        (k.previous_match.as_str(), Command::PreviousMatch),
        (k.jump_top.as_str(), Command::JumpTop),
        (k.jump_bottom.as_str(), Command::JumpBottom),
        (k.append_item.as_str(), Command::AppendItem),
        (k.prepend_item.as_str(), Command::PrependItem),
        (k.delete_item.as_str(), Command::DeleteItem),
        (k.undo.as_str(), Command::Undo),
        (k.redo.as_str(), Command::Redo),
        (k.rename.as_str(), Command::Rename),
        (k.append_group.as_str(), Command::AppendGroup),
        (k.prepend_group.as_str(), Command::PrependGroup),
        (k.toggle_group.as_str(), Command::ToggleGroup),
        ("a", Command::AddMissing),
        (":", Command::EnterCommand),
        ("q", Command::Quit),
    ];
    let ghost bs = bindings(*k);
    assert(binds@.len() == bs.len());
    assert forall|i: int| 0 <= i < bs.len() implies (#[trigger] binds@[i]).0@ == bs[i].0 && binds@[i].1
        == bs[i].1 by {}
    let sc = chars_of(s);
    let mut exact: Option<Command> = None;
    let mut prefix = false;
    let mut i: usize = 0;
    while i < binds.len()
        invariant
            i <= binds@.len(),
            binds@.len() == bs.len(),
            bs == bindings(*k),
            sc@ == s@,
            forall|q: int| 0 <= q < bs.len() ==> (#[trigger] binds@[q]).0@ == bs[q].0 && binds@[q].1 == bs[q].1,
            exact == first_exact(bs, s@, i as int),
            prefix == exists|q: int| 0 <= q < i && crate::text::has_prefix(#[trigger] bs[q].0, s@),
        decreases binds@.len() - i,
    {
        let bc = chars_of(binds[i].0);
        if exact.is_none() && crate::text::chars_eq(&bc, &sc) {
            exact = Some(binds[i].1);
        }
        let p = crate::text::starts_with_chars(&bc, &sc);
        proof {
            assert(bc@ == bs[i as int].0);
            if p {
                assert(crate::text::has_prefix(bs[i as int].0, s@));
            }
        }
        prefix = prefix || p;
        i = i + 1;
    }
    (exact, prefix)
}

/// The two buffers of the key loop: a `:` command being typed, and the
/// keys typed so far toward a multi-key binding.
pub struct RunnerState {
    pub command_buffer: String,
    pub key_sequence: String,
}

impl RunnerState {
    /// Empty buffers.
    pub fn new() -> (r: Self)
        ensures
            r.command_buffer@ == Seq::<char>::empty(),
            r.key_sequence@ == Seq::<char>::empty(),
    {
        RunnerState { command_buffer: String::new(), key_sequence: String::new() }
    }

    /// Shows the command being typed in the status bar (nothing when there is none).
    pub fn sync_command_status(&self, app: &mut App)
        ensures
            same_but_status(*final(app), *old(app)),
            opt_view(final(app).status_message) == command_status(self.command_buffer@),
    {
        if self.command_buffer.as_str().is_empty() {
            app.status_message = None;
        } else {
            app.status_message = Some(self.command_buffer.clone());
        }
    }

    /// Runs a typed `:` command (see `executed`).
    pub fn execute_command(&self, app: &mut App, keys: &KeybindsConfig, cmd: &str) -> (e: Effect)
        ensures
            executed(cmd@, *old(app), *final(app), *keys, e),
    {
        let cc = chars_of(cmd);
        let save = chars_of(keys.save.as_str());
        let quit = chars_of(keys.quit.as_str());
        let wq = chars_of(":wq");
        if crate::text::chars_eq(&cc, &save) {
            Effect::Save
        } else if crate::text::chars_eq(&cc, &quit) {
            app.running = false;
            Effect::Nothing
        } else if crate::text::chars_eq(&cc, &wq) {
            app.running = false;
            Effect::Save
        } else {
            let mut m = String::from_str("Unknown command: ");
            crate::text::push_text(&mut m, cmd);
            app.status_message = Some(m);
            Effect::Nothing
        }
    }

    /// Runs a bound command (see `performed`).
    pub fn perform(&mut self, app: &mut App, keys: &KeybindsConfig, c: Command)
        requires
            old(self).command_buffer@ == Seq::<char>::empty(),
        ensures
            performed(c, *old(app), *final(app), *keys),
            final(self).key_sequence == old(self).key_sequence,
            final(self).command_buffer@ == if c == Command::EnterCommand {
                ":"@
            } else {
                Seq::<char>::empty()
            },
    {
        match c {
            Command::Down => {
                if app.selected < usize::MAX {
                    app.next();
                }
            },
            Command::Up => app.previous(),
            Command::Edit => app.enter_insert(InsertVariant::Start),
            Command::EditAppend => {
                if app.selected_is_missing() {
                    add_missing_item(app);
                } else {
                    app.enter_insert(InsertVariant::End);
                }
            },
            Command::EditSubstitute => app.enter_insert(InsertVariant::Substitute),
            Command::Search => {
                app.mode = Mode::Search;
                app.search_query = String::new();
                let mut m = keys.search.clone();
                m.push(' ');
                app.status_message = Some(m);
            },
            Command::NextMatch => app.jump_next_match(),
            Command::PreviousMatch => app.jump_previous_match(),
            Command::JumpTop => app.jump_top(),
            Command::JumpBottom => app.jump_bottom(),
            Command::AppendItem | Command::PrependItem | Command::AppendGroup | Command::PrependGroup => {
                let valid = app.vars.len() == 0 || app.selected < app.vars.len();
                if valid && app.indices_below_limit() {
                    let group = c == Command::AppendGroup || c == Command::PrependGroup;
                    app.add_item(c == Command::AppendItem || c == Command::AppendGroup, group, group);
                }
            },
            Command::DeleteItem => {
                if app.vars.len() == 0 || app.selected < app.vars.len() {
                    app.delete_selected();
                }
            },
            Command::Undo => app.undo(),
            Command::Redo => app.redo(),
            Command::Rename => app.enter_insert_key(),
            Command::ToggleGroup => app.toggle_group_selected(),
            Command::AddMissing => add_missing_item(app),
            Command::EnterCommand => {
                self.command_buffer.push(':');
                proof {
                    reveal_strlit(":");
                    assert(self.command_buffer@ =~= ":"@);
                }
                self.sync_command_status(app);
            },
            Command::Quit => {
                app.running = false;
            },
        }
    }

    /// Handles a key while a `:` command is typed (see `command_key_handled`).
    pub fn handle_command_mode(&mut self, app: &mut App, keys: &KeybindsConfig, key: Key) -> (e: Effect)
        ensures
            command_key_handled(*old(self), *final(self), *old(app), *final(app), *keys, key, e),
    {
        match key.code {
            KeyCode::Enter => {
                let cmd = self.command_buffer.clone();
                self.command_buffer = String::new();
                self.execute_command(app, keys, cmd.as_str())
            },
            KeyCode::Esc => {
                self.command_buffer = String::new();
                app.status_message = None;
                Effect::Nothing
            },
            KeyCode::Backspace => {
                self.command_buffer = without_last(&self.command_buffer);
                self.sync_command_status(app);
                Effect::Nothing
            },
            KeyCode::Char(c) => {
                self.command_buffer.push(c);
                self.sync_command_status(app);
                Effect::Nothing
            },
            _ => Effect::Nothing,
        }
    }

    /// Handles a key in normal mode with no command typed (see
    /// `navigation_key_handled`).
    pub fn handle_navigation_mode(&mut self, app: &mut App, keys: &KeybindsConfig, key: Key) -> (e: Effect)
        requires
            old(self).command_buffer@ == Seq::<char>::empty(),
        ensures
            navigation_key_handled(*old(self), *final(self), *old(app), *final(app), *keys, key, e),
    {
        let key_str = key_string(key);
        if !key_str.as_str().is_empty() {
            crate::text::push_text(&mut self.key_sequence, key_str.as_str());
            let (exact, prefix) = lookup_binding(keys, self.key_sequence.as_str());
            match exact {
                Some(c) => {
                    self.key_sequence = String::new();
                    self.perform(app, keys, c);
                },
                None => {
                    if !prefix {
                        self.key_sequence = key_str;
                    }
                },
            }
            Effect::Nothing
        } else {
            self.key_sequence = String::new();
            match key.code {
                KeyCode::Down => {
                    if app.selected < usize::MAX {
                        app.next();
                    }
                    Effect::Nothing
                },
                KeyCode::Up => {
                    app.previous();
                    Effect::Nothing
                },
                KeyCode::Enter => Effect::Save,
                KeyCode::Esc => {
                    app.status_message = None;
                    Effect::Nothing
                },
                _ => Effect::Nothing,
            }
        }
    }

    /// Handles a key in normal mode: a command being typed takes it, else
    /// navigation does.
    pub fn handle_normal_mode(&mut self, app: &mut App, keys: &KeybindsConfig, key: Key) -> (e: Effect)
        ensures
            if old(self).command_buffer@.len() > 0 {
                command_key_handled(*old(self), *final(self), *old(app), *final(app), *keys, key, e)
            } else {
                navigation_key_handled(*old(self), *final(self), *old(app), *final(app), *keys, key, e)
            },
    {
        if !self.command_buffer.as_str().is_empty() {
            self.handle_command_mode(app, keys, key)
        } else {
            assert(self.command_buffer@ =~= Seq::<char>::empty());
            self.handle_navigation_mode(app, keys, key)
        }
    }

    /// Handles a key while typing a value (see `typing_key_handled`).
    pub fn handle_insert_mode(&mut self, app: &mut App, key: Key) -> (e: Effect)
        ensures
            typing_key_handled(*old(app), *final(app), key),
            *final(self) == *old(self),
            e == Effect::Nothing,
    {
        match key.code {
            KeyCode::Esc => app.cancel_insert(),
            KeyCode::Enter => app.enter_normal(),
            _ => app.input.handle_key(key),
        }
        Effect::Nothing
    }

    /// Handles a key while typing a key name; typing works as for values.
    pub fn handle_insert_key_mode(&mut self, app: &mut App, key: Key) -> (e: Effect)
        ensures
            typing_key_handled(*old(app), *final(app), key),
            *final(self) == *old(self),
            e == Effect::Nothing,
    {
        self.handle_insert_mode(app, key)
    }

    /// Handles a key while searching (see `search_key_handled`).
    pub fn handle_search_mode(&mut self, app: &mut App, keys: &KeybindsConfig, key: Key) -> (e: Effect)
        ensures
            search_key_handled(*old(app), *final(app), *keys, key),
            *final(self) == *old(self),
            e == Effect::Nothing,
    {
        match key.code {
            KeyCode::Enter | KeyCode::Esc => {
                app.mode = Mode::Normal;
                app.status_message = None;
            },
            KeyCode::Backspace => {
                app.search_query = without_last(&app.search_query);
                let mut m = keys.search.clone();
                crate::text::push_text(&mut m, app.search_query.as_str());
                app.status_message = Some(m);
                app.jump_next_match();
            },
            KeyCode::Char(c) => {
                app.search_query.push(c);
                let mut m = keys.search.clone();
                crate::text::push_text(&mut m, app.search_query.as_str());
                app.status_message = Some(m);
                app.jump_next_match();
            },
            _ => {},
        }
        Effect::Nothing
    }

    /// Handles a key in whatever mode the editor is (see `key_handled`).
    pub fn handle_key_event(&mut self, app: &mut App, keys: &KeybindsConfig, key: Key) -> (e: Effect)
        ensures
            key_handled(*old(self), *final(self), *old(app), *final(app), *keys, key, e),
    {
        match app.mode {
            Mode::Normal => self.handle_normal_mode(app, keys, key),
            Mode::Insert => self.handle_insert_mode(app, key),
            Mode::InsertKey => self.handle_insert_key_mode(app, key),
            Mode::Search => self.handle_search_mode(app, keys, key),
        }
    }
}

} // verus!
