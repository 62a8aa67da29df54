use todo_engine::item::{ItemEdit, TodoItem};
use todo_engine::registry::Registry;

fn item(id: u32, done: bool, task: &str) -> TodoItem {
    TodoItem { id, done, task: task.to_string() }
}

#[test]
fn new_registry_is_empty() {
    let r = Registry::new();
    assert_eq!(r.len(), 0);
    assert_eq!(r.snapshot().len(), 0);
    assert!(!r.has_id(1));
}

#[test]
fn insert_appends_in_order() {
    let mut r = Registry::new();
    r.insert(item(3, false, "c"));
    r.insert(item(1, true, "a"));
    r.insert(item(2, false, "b"));
    let all = r.snapshot();
    assert_eq!(all.len(), 3);
    assert_eq!(all[0].id, 3);
    assert_eq!(all[1].id, 1);
    assert_eq!(all[2].id, 2);
    assert!(r.has_id(1) && r.has_id(2) && r.has_id(3));
}

#[test]
fn load_preserves_input_order() {
    let mut r = Registry::new();
    r.insert(item(9, false, "first"));
    r.load(vec![item(4, false, "d"), item(5, true, "e")]);
    let all = r.snapshot();
    assert_eq!(all.len(), 3);
    assert_eq!(all[0].id, 9);
    assert_eq!(all[1].id, 4);
    assert_eq!(all[2].id, 5);
}

#[test]
fn remove_disposes_and_keeps_the_rest_in_order() {
    let mut r = Registry::new();
    r.load(vec![item(1, false, "a"), item(2, false, "b"), item(3, false, "c")]);
    r.remove(2);
    let all = r.snapshot();
    assert_eq!(all.len(), 2);
    assert_eq!(all[0].id, 1);
    assert_eq!(all[1].id, 3);
    assert!(!r.has_id(2));
}

#[test]
fn remove_absent_id_is_a_no_op() {
    let mut r = Registry::new();
    r.load(vec![item(1, false, "a")]);
    r.remove(7);
    let all = r.snapshot();
    assert_eq!(all.len(), 1);
    assert_eq!(all[0].id, 1);
}

#[test]
fn update_flips_only_the_target() {
    let mut r = Registry::new();
    r.load(vec![item(1, false, "a"), item(2, false, "b")]);
    r.update(2, ItemEdit::FlipDone);
    let all = r.snapshot();
    assert_eq!(all[0].done, false);
    assert_eq!(all[1].done, true);
    r.update(2, ItemEdit::FlipDone);
    assert_eq!(r.snapshot()[1].done, false);
}

#[test]
fn update_replace_keeps_identity_and_position() {
    let mut r = Registry::new();
    r.load(vec![item(1, false, "a"), item(2, false, "b")]);
    r.update(1, ItemEdit::Replace(item(1, true, "a, but louder")));
    let all = r.snapshot();
    assert_eq!(all[0].id, 1);
    assert_eq!(all[0].done, true);
    assert_eq!(all[0].task, "a, but louder");
    assert_eq!(all[1].task, "b");
}

#[test]
fn update_absent_id_is_a_no_op() {
    let mut r = Registry::new();
    r.load(vec![item(1, false, "a")]);
    r.update(9, ItemEdit::SetDone(true));
    assert_eq!(r.snapshot()[0].done, false);
}

#[test]
fn update_all_touches_every_record() {
    let mut r = Registry::new();
    r.load(vec![item(1, false, "a"), item(2, true, "b"), item(3, false, "c")]);
    r.update_all(ItemEdit::SetDone(true));
    assert!(r.snapshot().iter().all(|t| t.done));
    r.update_all(ItemEdit::SetDone(false));
    assert!(r.snapshot().iter().all(|t| !t.done));
}

#[test]
fn clear_empties_the_registry() {
    let mut r = Registry::new();
    r.load(vec![item(1, false, "a"), item(2, true, "b")]);
    r.clear();
    assert_eq!(r.len(), 0);
    assert_eq!(r.snapshot().len(), 0);
    assert!(!r.has_id(1));
    assert!(!r.has_id(2));
}

#[test]
fn item_at_reads_in_registry_order() {
    let mut r = Registry::new();
    r.load(vec![item(5, false, "x"), item(6, true, "y")]);
    assert_eq!(r.item_at(0).id, 5);
    assert_eq!(r.item_at(1).id, 6);
    assert_eq!(r.item_at(1).task, "y");
}
