use mould::app::{App, InsertVariant, Mode};
use mould::config::KeybindsConfig;
use mould::format::{ConfigItem, ItemStatus, PathSegment, ValueType};
use mould::input::{Key, KeyCode, KeyKind, TextInput, ALT, CONTROL};
use mould::runner::{add_missing_item, lookup_binding, save_finished, Command, Effect, RunnerState};

fn leaf(key: &str, path: Vec<PathSegment>, value: &str) -> ConfigItem {
    ConfigItem {
        key: key.to_string(),
        path,
        value: Some(value.to_string()),
        template_value: None,
        default_value: None,
        depth: 0,
        is_group: false,
        status: ItemStatus::Present,
        value_type: ValueType::String,
    }
}

fn k(s: &str) -> PathSegment {
    PathSegment::Key(s.to_string())
}

fn flat_app() -> App {
    App::new(vec![
        leaf("alpha", vec![k("alpha")], "1"),
        leaf("beta", vec![k("beta")], "2"),
        leaf("gamma", vec![k("gamma")], "3"),
    ])
}

fn press(state: &mut RunnerState, app: &mut App, keys: &KeybindsConfig, c: char) -> Effect {
    state.handle_key_event(app, keys, Key::plain(KeyCode::Char(c)))
}

#[test]
fn new_app_selects_the_first_entry_and_shows_its_value() {
    let app = flat_app();
    assert_eq!(app.selected, 0);
    assert_eq!(app.mode, Mode::Normal);
    assert!(app.running);
    assert_eq!(app.input.value(), "1");
    assert_eq!(app.input.cursor(), 1);
}

#[test]
fn next_then_previous_returns_to_the_same_entry() {
    let mut app = flat_app();
    app.next();
    assert_eq!(app.selected, 1);
    assert_eq!(app.input.value(), "2");
    app.previous();
    assert_eq!(app.selected, 0);
    app.previous();
    assert_eq!(app.selected, 2);
    app.next();
    assert_eq!(app.selected, 0);
}

#[test]
fn jumps_go_to_the_ends() {
    let mut app = flat_app();
    app.jump_bottom();
    assert_eq!(app.selected, 2);
    app.jump_top();
    assert_eq!(app.selected, 0);
}

#[test]
fn search_matches_keys_ignoring_case() {
    let mut app = flat_app();
    app.search_query = "A".to_string();
    assert_eq!(app.matching_indices(), vec![0, 1, 2]);
    app.search_query = "MM".to_string();
    assert_eq!(app.matching_indices(), vec![2]);
    app.jump_next_match();
    assert_eq!(app.selected, 2);
    app.search_query = "ta".to_string();
    app.jump_previous_match();
    assert_eq!(app.selected, 1);
}

#[test]
fn editing_stores_the_input_and_marks_the_entry_modified() {
    let mut app = flat_app();
    app.enter_insert(InsertVariant::Substitute);
    assert_eq!(app.mode, Mode::Insert);
    assert_eq!(app.input.value(), "");
    assert_eq!(app.undo_stack.len(), 1);
    app.input.handle_key(Key::plain(KeyCode::Char('x')));
    app.enter_normal();
    assert_eq!(app.vars[0].value.as_deref(), Some("x"));
    assert_eq!(app.vars[0].status, ItemStatus::Modified);
    app.undo();
    assert_eq!(app.vars[0].value.as_deref(), Some("1"));
    assert_eq!(app.status_message.as_deref(), Some("Undo applied"));
    app.undo();
    assert_eq!(app.status_message.as_deref(), Some("Nothing to undo"));
}

#[test]
fn typing_inserts_at_the_cursor() {
    let mut app = flat_app();
    app.enter_insert(InsertVariant::Start);
    assert_eq!(app.input.cursor(), 0);
    app.input.handle_key(Key::plain(KeyCode::Char('a')));
    assert_eq!(app.input.value(), "a1");
    assert_eq!(app.input.cursor(), 1);
    app.input.handle_key(Key { code: KeyCode::Char('b'), modifiers: 0, kind: KeyKind::Release });
    assert_eq!(app.input.value(), "a1");
}

#[test]
fn deleting_a_group_removes_its_children_and_reindexes_the_array() {
    let mut group = leaf("[0]", vec![k("list"), PathSegment::Index(0)], "");
    group.is_group = true;
    group.value = None;
    let mut app = App::new(vec![
        group,
        leaf("name", vec![k("list"), PathSegment::Index(0), k("name")], "a"),
        leaf("[1]", vec![k("list"), PathSegment::Index(1)], "b"),
    ]);
    app.delete_selected();
    assert_eq!(app.vars.len(), 1);
    assert_eq!(app.vars[0].key, "[0]");
    assert_eq!(app.vars[0].path_string(), "list[0]");
    assert_eq!(app.undo_stack.len(), 1);
}

#[test]
fn adding_an_array_element_shifts_the_later_ones() {
    let mut app = App::new(vec![
        leaf("[0]", vec![k("l"), PathSegment::Index(0)], "a"),
        leaf("[1]", vec![k("l"), PathSegment::Index(1)], "b"),
    ]);
    app.add_array_item(true);
    assert_eq!(app.vars.len(), 3);
    assert_eq!(app.selected, 1);
    assert_eq!(app.vars[1].path_string(), "l[1]");
    assert_eq!(app.vars[1].value.as_deref(), Some(""));
    assert_eq!(app.vars[2].key, "[2]");
    assert_eq!(app.mode, Mode::Insert);
}

#[test]
fn cancelling_typing_restores_the_stored_value() {
    let mut app = flat_app();
    app.enter_insert(InsertVariant::End);
    app.input.handle_key(Key::plain(KeyCode::Char('z')));
    app.cancel_insert();
    assert_eq!(app.mode, Mode::Normal);
    assert_eq!(app.input.value(), "1");
    assert_eq!(app.vars[0].value.as_deref(), Some("1"));
}

#[test]
fn gg_runs_jump_top_through_the_key_sequence() {
    let keys = KeybindsConfig::default();
    let mut state = RunnerState::new();
    let mut app = flat_app();
    app.jump_bottom();
    press(&mut state, &mut app, &keys, 'g');
    assert_eq!(state.key_sequence, "g");
    assert_eq!(app.selected, 2);
    press(&mut state, &mut app, &keys, 'g');
    assert_eq!(state.key_sequence, "");
    assert_eq!(app.selected, 0);
}

#[test]
fn an_unbound_key_restarts_the_sequence() {
    let keys = KeybindsConfig::default();
    let mut state = RunnerState::new();
    let mut app = flat_app();
    press(&mut state, &mut app, &keys, 'g');
    press(&mut state, &mut app, &keys, 'z');
    assert_eq!(state.key_sequence, "z");
    press(&mut state, &mut app, &keys, 'j');
    assert_eq!(state.key_sequence, "j");
    assert_eq!(app.selected, 0);
    state.handle_key_event(&mut app, &keys, Key::plain(KeyCode::Esc));
    assert_eq!(state.key_sequence, "");
    press(&mut state, &mut app, &keys, 'j');
    assert_eq!(app.selected, 1);
}

#[test]
fn alt_characters_are_named_with_alt() {
    let keys = KeybindsConfig::default();
    let mut state = RunnerState::new();
    let mut app = flat_app();
    state.handle_key_event(&mut app, &keys, Key { code: KeyCode::Char('x'), modifiers: ALT, kind: KeyKind::Press });
    assert_eq!(state.key_sequence, "alt+x");
}

#[test]
fn bindings_are_looked_up_in_order() {
    let keys = KeybindsConfig::default();
    assert_eq!(lookup_binding(&keys, "dd"), (Some(Command::DeleteItem), true));
    assert_eq!(lookup_binding(&keys, "d"), (None, true));
    assert_eq!(lookup_binding(&keys, "a"), (Some(Command::EditAppend), true));
    assert_eq!(lookup_binding(&keys, "r"), (Some(Command::Rename), true));
    assert_eq!(lookup_binding(&keys, "x"), (None, false));
}

#[test]
fn commands_save_quit_and_report_unknown_ones() {
    let keys = KeybindsConfig::default();
    let mut state = RunnerState::new();
    let mut app = flat_app();
    press(&mut state, &mut app, &keys, ':');
    assert_eq!(state.command_buffer, ":");
    assert_eq!(app.status_message.as_deref(), Some(":"));
    press(&mut state, &mut app, &keys, 'w');
    let e = state.handle_key_event(&mut app, &keys, Key::plain(KeyCode::Enter));
    assert_eq!(e, Effect::Save);
    assert!(app.running);
    save_finished(&mut app, true, "out.env");
    assert_eq!(app.status_message.as_deref(), Some("Saved to out.env"));

    press(&mut state, &mut app, &keys, ':');
    press(&mut state, &mut app, &keys, 'x');
    state.handle_key_event(&mut app, &keys, Key::plain(KeyCode::Backspace));
    assert_eq!(state.command_buffer, ":");
    press(&mut state, &mut app, &keys, 'z');
    state.handle_key_event(&mut app, &keys, Key::plain(KeyCode::Enter));
    assert_eq!(app.status_message.as_deref(), Some("Unknown command: :z"));

    press(&mut state, &mut app, &keys, ':');
    press(&mut state, &mut app, &keys, 'w');
    press(&mut state, &mut app, &keys, 'q');
    let e = state.handle_key_event(&mut app, &keys, Key::plain(KeyCode::Enter));
    assert_eq!(e, Effect::Save);
    assert!(!app.running);
}

#[test]
fn q_quits_and_enter_saves() {
    let keys = KeybindsConfig::default();
    let mut state = RunnerState::new();
    let mut app = flat_app();
    let e = state.handle_key_event(&mut app, &keys, Key::plain(KeyCode::Enter));
    assert_eq!(e, Effect::Save);
    save_finished(&mut app, false, "x");
    assert_eq!(app.status_message.as_deref(), Some("Error saving file"));
    state.handle_key_event(&mut app, &keys, Key::plain(KeyCode::Esc));
    assert_eq!(app.status_message, None);
    press(&mut state, &mut app, &keys, 'q');
    assert!(!app.running);
}

#[test]
fn search_mode_filters_as_the_query_is_typed() {
    let keys = KeybindsConfig::default();
    let mut state = RunnerState::new();
    let mut app = flat_app();
    press(&mut state, &mut app, &keys, '/');
    assert_eq!(app.mode, Mode::Search);
    assert_eq!(app.status_message.as_deref(), Some("/ "));
    press(&mut state, &mut app, &keys, 'g');
    assert_eq!(app.selected, 2);
    assert_eq!(app.status_message.as_deref(), Some("/g"));
    state.handle_key_event(&mut app, &keys, Key::plain(KeyCode::Backspace));
    assert_eq!(app.search_query, "");
    state.handle_key_event(&mut app, &keys, Key::plain(KeyCode::Enter));
    assert_eq!(app.mode, Mode::Normal);
    assert_eq!(app.status_message, None);
}

#[test]
fn insert_mode_keys_edit_then_enter_commits() {
    let keys = KeybindsConfig::default();
    let mut state = RunnerState::new();
    let mut app = flat_app();
    press(&mut state, &mut app, &keys, 'a');
    assert_eq!(app.mode, Mode::Insert);
    press(&mut state, &mut app, &keys, '0');
    state.handle_key_event(&mut app, &keys, Key::plain(KeyCode::Enter));
    assert_eq!(app.mode, Mode::Normal);
    assert_eq!(app.vars[0].value.as_deref(), Some("10"));
}

#[test]
fn adding_a_missing_entry_takes_the_template_value() {
    let mut missing = leaf("k", vec![k("k")], "");
    missing.value = None;
    missing.template_value = Some("tpl".to_string());
    missing.status = ItemStatus::MissingFromActive;
    let mut app = App::new(vec![missing]);
    add_missing_item(&mut app);
    assert_eq!(app.vars[0].status, ItemStatus::Present);
    assert_eq!(app.vars[0].value.as_deref(), Some("tpl"));
    assert_eq!(app.input.value(), "tpl");
    assert_eq!(app.undo_stack.len(), 1);
    add_missing_item(&mut app);
    assert_eq!(app.undo_stack.len(), 1);
}

#[test]
fn status_helpers_describe_the_selection() {
    let mut app = App::new(vec![leaf("[0]", vec![k("l"), PathSegment::Index(0)], "a")]);
    assert!(app.selected_is_array());
    assert!(!app.selected_is_group());
    assert!(!app.selected_is_missing());
    app.vars[0].status = ItemStatus::MissingFromActive;
    assert!(app.selected_is_missing());
}

#[test]
fn editing_keys_move_and_delete_around_the_cursor() {
    let mut input = TextInput::new("abc".to_string());
    assert_eq!(input.cursor(), 3);
    input.handle_key(Key::plain(KeyCode::Left));
    assert_eq!(input.cursor(), 2);
    input.handle_key(Key::plain(KeyCode::Backspace));
    assert_eq!(input.value(), "ac");
    assert_eq!(input.cursor(), 1);
    input.handle_key(Key::plain(KeyCode::Delete));
    assert_eq!(input.value(), "a");
    assert_eq!(input.cursor(), 1);
    input.handle_key(Key::plain(KeyCode::Delete));
    assert_eq!(input.value(), "a");
    input.handle_key(Key::plain(KeyCode::Home));
    assert_eq!(input.cursor(), 0);
    input.handle_key(Key::plain(KeyCode::Backspace));
    assert_eq!(input.value(), "a");
    input.handle_key(Key::plain(KeyCode::Right));
    assert_eq!(input.cursor(), 1);
    input.handle_key(Key::plain(KeyCode::Up));
    input.handle_key(Key::plain(KeyCode::Esc));
    assert_eq!(input.value(), "a");
    assert_eq!(input.cursor(), 1);
    input.handle_key(Key::plain(KeyCode::Home));
    input.handle_key(Key::plain(KeyCode::End));
    assert_eq!(input.cursor(), 1);
}

#[test]
fn a_adds_a_missing_entry_and_edits_at_the_end_otherwise() {
    let keys = KeybindsConfig::default();
    let mut state = RunnerState::new();
    let mut missing = leaf("k", vec![k("k")], "");
    missing.value = None;
    missing.template_value = Some("tpl".to_string());
    missing.status = ItemStatus::MissingFromActive;
    let mut app = App::new(vec![missing]);
    press(&mut state, &mut app, &keys, 'a');
    assert_eq!(app.mode, Mode::Normal);
    assert_eq!(app.vars[0].value.as_deref(), Some("tpl"));
    press(&mut state, &mut app, &keys, 'a');
    assert_eq!(app.mode, Mode::Insert);
    assert_eq!(app.input.cursor(), 3);
}

fn group(key: &str, path: Vec<PathSegment>) -> ConfigItem {
    let mut g = leaf(key, path, "");
    g.value = None;
    g.is_group = true;
    g
}

#[test]
fn i_on_a_group_renames_it_and_everything_below() {
    let keys = KeybindsConfig::default();
    let mut state = RunnerState::new();
    let mut app = App::new(vec![
        group("server", vec![k("server")]),
        leaf("port", vec![k("server"), k("port")], "80"),
        leaf("other", vec![k("other")], "1"),
    ]);
    press(&mut state, &mut app, &keys, 'i');
    assert_eq!(app.mode, Mode::InsertKey);
    assert_eq!(app.input.value(), "server");
    assert_eq!(app.undo_stack.len(), 1);
    for _ in 0..6 {
        state.handle_key_event(&mut app, &keys, Key::plain(KeyCode::Backspace));
    }
    for c in "other".chars() {
        state.handle_key_event(&mut app, &keys, Key::plain(KeyCode::Char(c)));
    }
    state.handle_key_event(&mut app, &keys, Key::plain(KeyCode::Enter));
    assert_eq!(app.mode, Mode::InsertKey);
    assert_eq!(app.status_message.as_deref(), Some("Key already exists"));
    state.handle_key_event(&mut app, &keys, Key::plain(KeyCode::Char('s')));
    state.handle_key_event(&mut app, &keys, Key::plain(KeyCode::Enter));
    assert_eq!(app.mode, Mode::Normal);
    assert_eq!(app.vars[0].key, "others");
    assert_eq!(app.vars[0].path_string(), "others");
    assert_eq!(app.vars[0].status, ItemStatus::Modified);
    assert_eq!(app.vars[1].path_string(), "others.port");
    assert_eq!(app.vars[1].key, "port");
    assert_eq!(app.vars[2].path_string(), "other");
    app.undo();
    assert_eq!(app.vars[0].path_string(), "server");
}

#[test]
fn r_refuses_array_elements_and_empty_names() {
    let keys = KeybindsConfig::default();
    let mut state = RunnerState::new();
    let mut app = App::new(vec![leaf("[0]", vec![k("xs"), PathSegment::Index(0)], "1")]);
    press(&mut state, &mut app, &keys, 'r');
    assert_eq!(app.mode, Mode::Normal);
    assert_eq!(app.status_message.as_deref(), Some("Cannot rename array indices"));
    let mut app = App::new(vec![leaf("x", vec![k("x")], "1")]);
    press(&mut state, &mut app, &keys, 'r');
    assert_eq!(app.mode, Mode::InsertKey);
    state.handle_key_event(&mut app, &keys, Key::plain(KeyCode::Backspace));
    state.handle_key_event(&mut app, &keys, Key::plain(KeyCode::Enter));
    assert_eq!(app.status_message.as_deref(), Some("Key cannot be empty"));
    state.handle_key_event(&mut app, &keys, Key::plain(KeyCode::Esc));
    assert_eq!(app.mode, Mode::Normal);
    assert_eq!(app.vars[0].key, "x");
}

#[test]
fn control_k_cuts_and_control_y_puts_back() {
    let ctrl = |c: char| Key { code: KeyCode::Char(c), modifiers: CONTROL, kind: KeyKind::Press };
    let mut input = TextInput::new("abc".to_string());
    input.handle_key(Key::plain(KeyCode::Left));
    input.handle_key(ctrl('k'));
    assert_eq!(input.value(), "ab");
    assert_eq!(input.cursor(), 2);
    input.handle_key(Key::plain(KeyCode::Home));
    input.handle_key(ctrl('y'));
    assert_eq!(input.value(), "cab");
    assert_eq!(input.cursor(), 1);
    input.handle_key(ctrl('u'));
    assert_eq!(input.value(), "");
    input.handle_key(ctrl('y'));
    assert_eq!(input.value(), "cab");
    assert_eq!(input.cursor(), 3);
}

#[test]
fn redo_brings_back_what_undo_took() {
    let keys = KeybindsConfig::default();
    assert_eq!(keys.redo, "U");
    let mut state = RunnerState::new();
    let mut app = flat_app();
    press(&mut state, &mut app, &keys, 'a');
    press(&mut state, &mut app, &keys, '0');
    state.handle_key_event(&mut app, &keys, Key::plain(KeyCode::Enter));
    assert_eq!(app.vars[0].value.as_deref(), Some("10"));
    press(&mut state, &mut app, &keys, 'u');
    assert_eq!(app.vars[0].value.as_deref(), Some("1"));
    assert_eq!(app.redo_stack.len(), 1);
    press(&mut state, &mut app, &keys, 'U');
    assert_eq!(app.vars[0].value.as_deref(), Some("10"));
    assert_eq!(app.status_message.as_deref(), Some("Redo applied"));
    press(&mut state, &mut app, &keys, 'U');
    assert_eq!(app.status_message.as_deref(), Some("Nothing to redo"));
    press(&mut state, &mut app, &keys, 'u');
    press(&mut state, &mut app, &keys, 'a');
    assert_eq!(app.redo_stack.len(), 0);
}

#[test]
fn t_toggles_between_value_and_empty_group() {
    let keys = KeybindsConfig::default();
    let mut state = RunnerState::new();
    let mut app = App::new(vec![
        group("g", vec![k("g")]),
        leaf("x", vec![k("g"), k("x")], "1"),
        leaf("y", vec![k("y")], "2"),
    ]);
    press(&mut state, &mut app, &keys, 't');
    assert!(app.vars[0].is_group);
    assert_eq!(app.status_message.as_deref(), Some("Cannot turn a group with entries into a value"));
    app.jump_bottom();
    press(&mut state, &mut app, &keys, 't');
    assert!(app.vars[2].is_group);
    assert_eq!(app.vars[2].value, None);
    assert_eq!(app.vars[2].status, ItemStatus::Modified);
    press(&mut state, &mut app, &keys, 't');
    assert!(!app.vars[2].is_group);
    assert_eq!(app.vars[2].value.as_deref(), Some(""));
    assert_eq!(app.undo_stack.len(), 2);
}

#[test]
fn o_adds_a_sibling_after_the_subtree_and_names_it() {
    let keys = KeybindsConfig::default();
    let mut state = RunnerState::new();
    let mut app = App::new(vec![
        group("g", vec![k("g")]),
        leaf("x", vec![k("g"), k("x")], "1"),
        leaf("y", vec![k("y")], "2"),
    ]);
    press(&mut state, &mut app, &keys, 'o');
    assert_eq!(app.selected, 2);
    assert_eq!(app.mode, Mode::InsertKey);
    assert_eq!(app.vars.len(), 4);
    assert_eq!(app.vars[2].path_string(), "");
    for c in "z".chars() {
        state.handle_key_event(&mut app, &keys, Key::plain(KeyCode::Char(c)));
    }
    state.handle_key_event(&mut app, &keys, Key::plain(KeyCode::Enter));
    assert_eq!(app.mode, Mode::Normal);
    assert_eq!(app.vars[2].path_string(), "z");
    assert_eq!(app.vars[2].value.as_deref(), Some(""));
    assert_eq!(app.vars[3].path_string(), "y");
}

#[test]
fn alt_o_adds_a_child_group() {
    let keys = KeybindsConfig::default();
    let mut state = RunnerState::new();
    let mut app = App::new(vec![
        group("g", vec![k("g")]),
        leaf("x", vec![k("g"), k("x")], "1"),
    ]);
    state.handle_key_event(&mut app, &keys, Key { code: KeyCode::Char('o'), modifiers: ALT, kind: KeyKind::Press });
    assert_eq!(app.selected, 2);
    assert!(app.vars[2].is_group);
    assert_eq!(app.vars[2].depth, 1);
    for c in "sub".chars() {
        state.handle_key_event(&mut app, &keys, Key::plain(KeyCode::Char(c)));
    }
    state.handle_key_event(&mut app, &keys, Key::plain(KeyCode::Enter));
    assert_eq!(app.vars[2].path_string(), "g.sub");
    app.jump_top();
    state.handle_key_event(&mut app, &keys, Key { code: KeyCode::Char('O'), modifiers: ALT, kind: KeyKind::Press });
    assert_eq!(app.selected, 1);
    assert_eq!(app.vars[1].depth, 1);
}

#[test]
fn word_keys_move_and_cut_by_word() {
    let ctrl = |code: KeyCode| Key { code, modifiers: CONTROL, kind: KeyKind::Press };
    let mut input = TextInput::new("ab cd".to_string());
    input.handle_key(ctrl(KeyCode::Left));
    assert_eq!(input.cursor(), 3);
    input.handle_key(ctrl(KeyCode::Char('w')));
    assert_eq!(input.value(), "cd");
    assert_eq!(input.cursor(), 0);
    input.handle_key(ctrl(KeyCode::Char('y')));
    assert_eq!(input.value(), "ab cd");
    input.handle_key(Key::plain(KeyCode::Home));
    input.handle_key(ctrl(KeyCode::Right));
    assert_eq!(input.cursor(), 3);
    input.handle_key(ctrl(KeyCode::Char('u')));
    assert_eq!(input.value(), "");
    let mut empty = TextInput::new(String::new());
    empty.handle_key(ctrl(KeyCode::Char('u')));
    empty.handle_key(ctrl(KeyCode::Char('y')));
    assert_eq!(empty.value(), "");
}
