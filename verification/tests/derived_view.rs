use todo_engine::derived::{contains_text, filtered_view};
use todo_engine::dispatch::MutationIntent;
use todo_engine::engine::Engine;
use todo_engine::item::TodoItem;
use todo_engine::registry::Registry;
use todo_engine::settle::{Settlement, ToggleReply};

fn item(id: u32, done: bool, task: &str) -> TodoItem {
    TodoItem { id, done, task: task.to_string() }
}

#[test]
fn contains_text_finds_runs_of_characters() {
    assert!(contains_text("Pay rent", "Pay"));
    assert!(contains_text("Pay rent", "ay r"));
    assert!(contains_text("Pay rent", "rent"));
    assert!(contains_text("Pay rent", "Pay rent"));
    assert!(contains_text("Pay rent", ""));
    assert!(contains_text("", ""));
    assert!(!contains_text("Pay rent", "pay"));
    assert!(!contains_text("Pay rent", "rent due"));
    assert!(!contains_text("ab", "aba"));
    assert!(contains_text("aab", "ab"));
}

#[test]
fn empty_filter_returns_the_full_sequence() {
    let mut r = Registry::new();
    r.load(vec![item(1, false, "alpha"), item(2, true, "beta"), item(3, false, "gamma")]);
    let viewed = filtered_view(&r, "");
    let all = r.snapshot();
    assert_eq!(viewed.len(), all.len());
    for (v, a) in viewed.iter().zip(all.iter()) {
        assert_eq!(v.id, a.id);
        assert_eq!(v.done, a.done);
        assert_eq!(v.task, a.task);
    }
}

#[test]
fn filter_keeps_matching_records_in_order() {
    let mut r = Registry::new();
    r.load(vec![
        item(1, false, "water plants"),
        item(2, false, "pay water bill"),
        item(3, true, "call plumber"),
    ]);
    let viewed = filtered_view(&r, "water");
    assert_eq!(viewed.len(), 2);
    assert_eq!(viewed[0].id, 1);
    assert_eq!(viewed[1].id, 2);
}

#[test]
fn narrower_filter_yields_a_subsequence_of_the_wider_view() {
    let mut r = Registry::new();
    r.load(vec![
        item(1, false, "pay water bill"),
        item(2, false, "water plants"),
        item(3, false, "pay rent"),
    ]);
    // "pay water" matches a subset of what "pay" matches, in the same order.
    let wide = filtered_view(&r, "pay");
    let narrow = filtered_view(&r, "pay water");
    assert_eq!(wide.len(), 2);
    assert_eq!(narrow.len(), 1);
    let mut wide_ids = wide.iter().map(|t| t.id);
    for t in narrow.iter() {
        assert!(wide_ids.any(|id| id == t.id));
    }
}

#[test]
fn filtering_never_mutates_the_registry() {
    let mut r = Registry::new();
    r.load(vec![item(1, false, "alpha"), item(2, true, "beta")]);
    let viewed = filtered_view(&r, "alpha");
    assert_eq!(viewed.len(), 1);
    let all = r.snapshot();
    assert_eq!(all.len(), 2);
    assert_eq!(all[1].task, "beta");
}

#[test]
fn records_hidden_by_the_filter_stay_interactive() {
    let mut engine = Engine::new();
    let v = engine.dispatch_load();
    assert!(engine.on_settled(
        v,
        Settlement::Loaded(Ok(vec![item(1, false, "visible"), item(2, false, "hidden")])),
    ));

    // Record 2 is excluded from the view...
    let viewed = filtered_view(&engine.registry, "visible");
    assert_eq!(viewed.len(), 1);
    assert_eq!(viewed[0].id, 1);

    // ...yet still fully reachable: a toggle applies to it as usual.
    let vt = engine.dispatch(&MutationIntent::Toggle(2));
    assert!(engine.on_settled(vt, Settlement::Toggled(Ok(ToggleReply::Bare(2)))));
    let all = engine.registry.snapshot();
    assert_eq!(all[1].id, 2);
    assert_eq!(all[1].done, true);
}
