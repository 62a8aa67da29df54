use todo_engine::dispatch::{LaneKind, MutationIntent};
use todo_engine::engine::Engine;
use todo_engine::item::TodoItem;
use todo_engine::settle::{Settlement, StoreError, ToggleReply};

fn item(id: u32, done: bool, task: &str) -> TodoItem {
    TodoItem { id, done, task: task.to_string() }
}

fn engine_with(items: Vec<TodoItem>) -> Engine {
    let mut engine = Engine::new();
    let v = engine.dispatch_load();
    assert!(engine.on_settled(v, Settlement::Loaded(Ok(items))));
    engine
}

#[test]
fn settled_value_consumed_exactly_once() {
    let mut engine = engine_with(vec![item(1, false, "one")]);

    let v = engine.dispatch(&MutationIntent::Toggle(1));
    assert!(engine.on_settled(v, Settlement::Toggled(Ok(ToggleReply::Bare(1)))));
    assert_eq!(engine.registry.snapshot()[0].done, true);

    // The same settled value observed again must not be applied again.
    let again = engine.on_settled(v, Settlement::Toggled(Ok(ToggleReply::Bare(1))));
    assert!(!again);
    assert_eq!(engine.registry.snapshot()[0].done, true);
}

#[test]
fn settlement_without_dispatch_is_ignored() {
    let mut engine = engine_with(vec![item(1, false, "one")]);

    let applied = engine.on_settled(99, Settlement::Deleted(Ok(1)));
    assert!(!applied);
    assert_eq!(engine.registry.snapshot().len(), 1);
}

#[test]
fn settlement_on_the_wrong_lane_is_ignored() {
    let mut engine = engine_with(vec![item(1, false, "one")]);

    let v = engine.dispatch(&MutationIntent::Add("two".to_string()));
    // A delete settlement cannot answer a version parked on the add lane.
    let applied = engine.on_settled(v, Settlement::Deleted(Ok(1)));
    assert!(!applied);
    assert_eq!(engine.registry.snapshot().len(), 1);
    assert_eq!(engine.pending_on(LaneKind::Add), 1);
}

#[test]
fn results_apply_in_arrival_order() {
    let mut engine = engine_with(vec![]);

    let v_first = engine.dispatch(&MutationIntent::Add("first".to_string()));
    let v_second = engine.dispatch(&MutationIntent::Add("second".to_string()));

    // The second dispatch settles first: arrival order decides the sequence.
    assert!(engine.on_settled(v_second, Settlement::Added(Ok(item(10, false, "second")))));
    assert!(engine.on_settled(v_first, Settlement::Added(Ok(item(11, false, "first")))));

    let all = engine.registry.snapshot();
    assert_eq!(all.len(), 2);
    assert_eq!(all[0].task, "second");
    assert_eq!(all[1].task, "first");
}

#[test]
fn later_success_clears_the_kind_message() {
    let mut engine = engine_with(vec![]);

    let v1 = engine.dispatch(&MutationIntent::Add("a".to_string()));
    assert!(engine.on_settled(
        v1,
        Settlement::Added(Err(StoreError { message: "store down".to_string() })),
    ));
    assert_eq!(engine.message_of(LaneKind::Add), Some("store down".to_string()));

    let v2 = engine.dispatch(&MutationIntent::Add("a".to_string()));
    assert!(engine.on_settled(v2, Settlement::Added(Ok(item(1, false, "a")))));
    assert_eq!(engine.message_of(LaneKind::Add), None);
}

#[test]
fn error_message_is_scoped_to_its_kind() {
    let mut engine = engine_with(vec![item(1, false, "one")]);

    let v = engine.dispatch(&MutationIntent::Delete(1));
    assert!(engine.on_settled(
        v,
        Settlement::Deleted(Err(StoreError { message: "lost connection".to_string() })),
    ));

    // The failure neither mutates the registry nor leaks to other kinds.
    assert_eq!(engine.registry.snapshot().len(), 1);
    assert_eq!(engine.message_of(LaneKind::Delete), Some("lost connection".to_string()));
    assert_eq!(engine.message_of(LaneKind::Add), None);
    assert_eq!(engine.message_of(LaneKind::DeleteAll), None);
}

#[test]
fn pending_counts_track_in_flight_calls() {
    let mut engine = engine_with(vec![item(1, false, "one")]);
    assert_eq!(engine.pending_on(LaneKind::Toggle), 0);

    let v1 = engine.dispatch(&MutationIntent::Toggle(1));
    let v2 = engine.dispatch(&MutationIntent::Toggle(1));
    assert_eq!(engine.pending_on(LaneKind::Toggle), 2);

    assert!(engine.on_settled(v1, Settlement::Toggled(Ok(ToggleReply::Bare(1)))));
    assert_eq!(engine.pending_on(LaneKind::Toggle), 1);
    assert!(engine.on_settled(v2, Settlement::Toggled(Ok(ToggleReply::Bare(1)))));
    assert_eq!(engine.pending_on(LaneKind::Toggle), 0);
}

#[test]
fn toggle_with_full_record_replaces_in_place() {
    let mut engine = engine_with(vec![item(1, false, "one"), item(2, false, "two")]);

    let v = engine.dispatch(&MutationIntent::Toggle(1));
    assert!(engine.on_settled(
        v,
        Settlement::Toggled(Ok(ToggleReply::Full(item(1, true, "one (checked)")))),
    ));

    let all = engine.registry.snapshot();
    assert_eq!(all.len(), 2);
    assert_eq!(all[0].id, 1);
    assert_eq!(all[0].done, true);
    assert_eq!(all[0].task, "one (checked)");
    assert_eq!(all[1].id, 2);
}

#[test]
fn mark_all_done_twice_equals_once() {
    let mut engine = engine_with(vec![item(1, false, "a"), item(2, true, "b")]);

    let v1 = engine.dispatch(&MutationIntent::MarkAllDone);
    assert!(engine.on_settled(v1, Settlement::MarkedAllDone(Ok(()))));
    let once: Vec<(u32, bool, String)> =
        engine.registry.snapshot().into_iter().map(|t| (t.id, t.done, t.task)).collect();

    let v2 = engine.dispatch(&MutationIntent::MarkAllDone);
    assert!(engine.on_settled(v2, Settlement::MarkedAllDone(Ok(()))));
    let twice: Vec<(u32, bool, String)> =
        engine.registry.snapshot().into_iter().map(|t| (t.id, t.done, t.task)).collect();

    assert_eq!(once, twice);
    assert!(once.iter().all(|&(_, done, _)| done));
}

#[test]
fn mark_all_undone_unsets_every_flag() {
    let mut engine = engine_with(vec![item(1, true, "a"), item(2, true, "b")]);

    let v = engine.dispatch(&MutationIntent::MarkAllUndone);
    assert!(engine.on_settled(v, Settlement::MarkedAllUndone(Ok(()))));

    let all = engine.registry.snapshot();
    assert!(all.iter().all(|t| !t.done));
}

#[test]
fn added_record_round_trips_through_listing() {
    let mut engine = engine_with(vec![]);

    let v = engine.dispatch(&MutationIntent::Add("X".to_string()));
    assert!(engine.on_settled(v, Settlement::Added(Ok(item(1, false, "X")))));

    let all = engine.registry.snapshot();
    assert!(all.iter().any(|t| t.task == "X" && t.done == false));
}

#[test]
fn load_with_colliding_ids_is_a_guarded_no_op() {
    let mut engine = engine_with(vec![item(1, false, "one")]);

    let v = engine.dispatch_load();
    assert!(engine.on_settled(
        v,
        Settlement::Loaded(Ok(vec![item(1, false, "duplicate"), item(2, false, "two")])),
    ));
    let all = engine.registry.snapshot();
    assert_eq!(all.len(), 1);
    assert_eq!(all[0].task, "one");
}

#[test]
fn add_with_existing_id_is_a_guarded_no_op() {
    let mut engine = engine_with(vec![item(1, false, "one")]);

    let v = engine.dispatch(&MutationIntent::Add("again".to_string()));
    assert!(engine.on_settled(v, Settlement::Added(Ok(item(1, false, "again")))));
    let all = engine.registry.snapshot();
    assert_eq!(all.len(), 1);
    assert_eq!(all[0].task, "one");
}

#[test]
fn search_settlement_reads_without_mutating() {
    let mut engine = engine_with(vec![item(1, false, "one")]);

    let v = engine.dispatch(&MutationIntent::Search("on".to_string()));
    assert!(engine.on_settled(v, Settlement::Searched(Ok(vec![item(1, false, "one")]))));
    assert_eq!(engine.registry.snapshot().len(), 1);
    assert_eq!(engine.message_of(LaneKind::Search), None);

    let v2 = engine.dispatch(&MutationIntent::Search("on".to_string()));
    assert!(engine.on_settled(
        v2,
        Settlement::Searched(Err(StoreError { message: "timeout".to_string() })),
    ));
    assert_eq!(engine.registry.snapshot().len(), 1);
    assert_eq!(engine.message_of(LaneKind::Search), Some("timeout".to_string()));
}

#[test]
fn deleted_id_never_reappears() {
    let mut engine = engine_with(vec![item(1, false, "one"), item(2, true, "two")]);

    let v = engine.dispatch(&MutationIntent::Delete(2));
    assert!(engine.on_settled(v, Settlement::Deleted(Ok(2))));
    assert!(engine.registry.snapshot().iter().all(|t| t.id != 2));

    // Later settlements referencing the disposed identity are no-ops.
    let v2 = engine.dispatch(&MutationIntent::Toggle(2));
    assert!(engine.on_settled(v2, Settlement::Toggled(Ok(ToggleReply::Bare(2)))));
    let v3 = engine.dispatch(&MutationIntent::Delete(2));
    assert!(engine.on_settled(v3, Settlement::Deleted(Ok(2))));

    let all = engine.registry.snapshot();
    assert_eq!(all.len(), 1);
    assert_eq!(all[0].id, 1);
    assert_eq!(all[0].task, "one");
}
