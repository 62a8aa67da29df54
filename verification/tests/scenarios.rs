use todo_engine::dispatch::{LaneKind, MutationIntent};
use todo_engine::engine::Engine;
use todo_engine::derived::filtered_view;
use todo_engine::item::TodoItem;
use todo_engine::settle::{Settlement, StoreError, ToggleReply};

fn item(id: u32, done: bool, task: &str) -> TodoItem {
    TodoItem { id, done, task: task.to_string() }
}

fn loaded_engine() -> Engine {
    let mut engine = Engine::new();
    let v = engine.dispatch_load();
    let applied = engine.on_settled(
        v,
        Settlement::Loaded(Ok(vec![item(1, false, "Buy milk"), item(2, true, "Pay rent")])),
    );
    assert!(applied);
    engine
}

#[test]
fn initial_load_then_views() {
    let engine = loaded_engine();

    let all = filtered_view(&engine.registry, "");
    assert_eq!(all.len(), 2);
    assert_eq!(all[0].id, 1);
    assert_eq!(all[0].done, false);
    assert_eq!(all[0].task, "Buy milk");
    assert_eq!(all[1].id, 2);
    assert_eq!(all[1].done, true);
    assert_eq!(all[1].task, "Pay rent");

    let pay = filtered_view(&engine.registry, "Pay");
    assert_eq!(pay.len(), 1);
    assert_eq!(pay[0].id, 2);
    assert_eq!(pay[0].done, true);
    assert_eq!(pay[0].task, "Pay rent");
}

#[test]
fn confirmed_insert_appends_at_tail() {
    let mut engine = loaded_engine();

    let v = engine.dispatch(&MutationIntent::Add("Walk dog".to_string()));
    let applied = engine.on_settled(v, Settlement::Added(Ok(item(3, false, "Walk dog"))));
    assert!(applied);

    let all = engine.registry.snapshot();
    assert_eq!(all.len(), 3);
    assert_eq!(all[0].id, 1);
    assert_eq!(all[1].id, 2);
    assert_eq!(all[2].id, 3);
    assert_eq!(all[2].done, false);
    assert_eq!(all[2].task, "Walk dog");
}

#[test]
fn delete_settling_first_makes_toggle_a_no_op() {
    let mut engine = loaded_engine();

    let v_toggle = engine.dispatch(&MutationIntent::Toggle(2));
    let v_delete = engine.dispatch(&MutationIntent::Delete(2));

    let applied_delete = engine.on_settled(v_delete, Settlement::Deleted(Ok(2)));
    assert!(applied_delete);
    let applied_toggle = engine.on_settled(v_toggle, Settlement::Toggled(Ok(ToggleReply::Bare(2))));
    assert!(applied_toggle);

    let all = engine.registry.snapshot();
    assert_eq!(all.len(), 1);
    assert_eq!(all[0].id, 1);
    assert!(all.iter().all(|t| t.id != 2));
}

#[test]
fn failed_add_leaves_registry_and_surfaces_message() {
    let mut engine = loaded_engine();

    let v = engine.dispatch(&MutationIntent::Add("Dup".to_string()));
    let applied = engine.on_settled(
        v,
        Settlement::Added(Err(StoreError { message: "duplicate task".to_string() })),
    );
    assert!(applied);

    let all = engine.registry.snapshot();
    assert_eq!(all.len(), 2);
    assert_eq!(all[0].id, 1);
    assert_eq!(all[1].id, 2);

    assert_eq!(engine.message_of(LaneKind::Add), Some("duplicate task".to_string()));
    assert_eq!(engine.message_of(LaneKind::Load), None);
    assert_eq!(engine.message_of(LaneKind::Delete), None);
    assert_eq!(engine.message_of(LaneKind::Toggle), None);
}

#[test]
fn delete_all_empties_registry() {
    let mut engine = loaded_engine();

    let v = engine.dispatch(&MutationIntent::DeleteAll);
    let applied = engine.on_settled(v, Settlement::Cleared(Ok(())));
    assert!(applied);

    assert_eq!(engine.registry.snapshot().len(), 0);
    assert_eq!(filtered_view(&engine.registry, "").len(), 0);
}
