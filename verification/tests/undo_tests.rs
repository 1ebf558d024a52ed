use mould::format::{ConfigItem, ItemStatus, ValueType};
use mould::undo::UndoTree;

fn dummy_item(key: &str) -> ConfigItem {
    ConfigItem {
        key: key.to_string(),
        path: vec![],
        value: Some(key.to_string()),
        template_value: None,
        default_value: None,
        depth: 0,
        is_group: false,
        status: ItemStatus::Present,
        value_type: ValueType::String,
    }
}

#[test]
fn test_undo_redo_tree() {
    let state1 = vec![dummy_item("A")];
    let mut tree = UndoTree::new(state1.clone(), 0);

    let state2 = vec![dummy_item("B")];
    tree.push(state2.clone(), 1);

    let state3 = vec![dummy_item("C")];
    tree.push(state3.clone(), 2);

    let action = tree.undo().unwrap();
    assert_eq!(action.state[0].key, "B");
    assert_eq!(action.selected, 1);

    let action = tree.undo().unwrap();
    assert_eq!(action.state[0].key, "A");
    assert_eq!(action.selected, 0);

    assert!(tree.undo().is_none());

    let action = tree.redo().unwrap();
    assert_eq!(action.state[0].key, "B");
    assert_eq!(action.selected, 1);

    let action = tree.redo().unwrap();
    assert_eq!(action.state[0].key, "C");
    assert_eq!(action.selected, 2);

    tree.undo();
    tree.undo();

    let state4 = vec![dummy_item("D")];
    tree.push(state4.clone(), 3);

    let action = tree.undo().unwrap();
    assert_eq!(action.state[0].key, "A");

    let action = tree.redo().unwrap();
    assert_eq!(action.state[0].key, "D");
}

#[test]
fn test_redo_fallback_fix() {
    let state1 = vec![dummy_item("A")];
    let mut tree = UndoTree::new(state1.clone(), 0);

    let state2 = vec![dummy_item("B")];
    tree.push(state2.clone(), 1);

    tree.undo();
    let action = tree.redo().unwrap();
    assert_eq!(action.state[0].key, "B");

    assert!(tree.redo().is_none());
}

#[test]
fn undo_right_after_push_gives_the_previous_state() {
    let mut tree = UndoTree::new(vec![dummy_item("X")], 4);
    tree.push(vec![dummy_item("Y")], 5);
    let action = tree.undo().unwrap();
    assert_eq!(action.state[0].key, "X");
    assert_eq!(action.selected, 4);
    let again = tree.redo().unwrap();
    assert_eq!(again.state[0].key, "Y");
}

#[test]
fn a_fresh_tree_has_nothing_to_undo_or_redo() {
    let mut tree = UndoTree::new(vec![], 0);
    assert!(tree.undo().is_none());
    assert!(tree.redo().is_none());
}
