use itemstore::{Item, ItemQuery, ItemUpdate, Store};

fn item(id: &str, title: &str, completed: bool) -> Item {
    Item { id: String::from(id), title: String::from(title), completed }
}

fn fresh(stored: Option<&str>) -> Store {
    Store::new(String::from("todos"), stored.map(String::from))
}

#[test]
fn new_from_empty_slot_is_empty() {
    let store = fresh(None);
    assert_eq!(store.count(), (0, 0, 0));
    assert_eq!(store.name(), "todos");
}

#[test]
fn corrupt_state_recovery() {
    // A malformed stored value yields a working, empty store.
    let store = fresh(Some("not json array"));
    assert_eq!(store.count(), (0, 0, 0));
    // An element missing its completed flag is malformed too.
    let store = fresh(Some("[[\"buy milk\",\"1\"]]"));
    assert_eq!(store.count(), (0, 0, 0));
}

#[test]
fn corrupt_state_recovery_is_idempotent() {
    // A store recovered from a corrupt slot flushes a well-formed value.
    let mut store = fresh(Some("{broken"));
    store.insert(item("1", "a", false));
    let flushed = store.flush_value();
    let reloaded = fresh(Some(&flushed));
    assert_eq!(reloaded.count(), (1, 1, 0));
}

#[test]
fn insert_monotonicity() {
    let mut store = fresh(None);
    store.insert(item("1", "buy milk", false));
    assert_eq!(store.count().0, 1);
    store.insert(item("2", "walk dog", true));
    assert_eq!(store.count().0, 2);
    let all = store.find(ItemQuery::EmptyItemQuery);
    assert_eq!(all.len(), 2);
    assert_eq!(all[1].id, "2");
    assert_eq!(all[1].title, "walk dog");
    assert!(all[1].completed);
}

#[test]
fn insert_keeps_duplicate_ids() {
    // Insert does not de-duplicate on id.
    let mut store = fresh(None);
    store.insert(item("1", "first", false));
    store.insert(item("1", "second", false));
    assert_eq!(store.count().0, 2);
}

#[test]
fn count_consistency() {
    let mut store = fresh(None);
    store.insert(item("1", "a", false));
    store.insert(item("2", "b", true));
    store.insert(item("3", "c", true));
    let (total, active, completed) = store.count();
    assert_eq!((total, active, completed), (3, 1, 2));
    assert_eq!(active + completed, total);
}

#[test]
fn find_by_completed_flag() {
    let mut store = fresh(None);
    store.insert(item("1", "a", false));
    store.insert(item("2", "b", true));
    store.insert(item("3", "c", false));
    let done = store.find(ItemQuery::Completed { completed: true });
    assert_eq!(done.len(), 1);
    assert_eq!(done[0].id, "2");
    let open = store.find(ItemQuery::Completed { completed: false });
    assert_eq!(open.len(), 2);
    assert_eq!(open[0].id, "1");
    assert_eq!(open[1].id, "3");
}

#[test]
fn find_is_stable() {
    let mut store = fresh(None);
    store.insert(item("1", "a", true));
    store.insert(item("2", "b", true));
    let first = store.find(ItemQuery::Completed { completed: true });
    let second = store.find(ItemQuery::Completed { completed: true });
    assert_eq!(first.len(), second.len());
    for (a, b) in first.iter().zip(second.iter()) {
        assert_eq!(a.id, b.id);
        assert_eq!(a.title, b.title);
        assert_eq!(a.completed, b.completed);
    }
}

#[test]
fn update_targeting() {
    let mut store = fresh(None);
    store.insert(item("1", "keep me", false));
    store.insert(item("2", "change me", false));
    store.update(ItemUpdate {
        id: String::from("2"),
        title: Some(String::from("changed")),
        completed: Some(true),
    });
    let all = store.find(ItemQuery::EmptyItemQuery);
    assert_eq!(all.len(), 2);
    assert_eq!(all[0].id, "1");
    assert_eq!(all[0].title, "keep me");
    assert!(!all[0].completed);
    assert_eq!(all[1].id, "2");
    assert_eq!(all[1].title, "changed");
    assert!(all[1].completed);
}

#[test]
fn update_leaves_unset_fields_unchanged() {
    let mut store = fresh(None);
    store.insert(item("1", "title stays", false));
    store.update(ItemUpdate { id: String::from("1"), title: None, completed: Some(true) });
    let all = store.find(ItemQuery::EmptyItemQuery);
    assert_eq!(all[0].title, "title stays");
    assert!(all[0].completed);
}

#[test]
fn update_of_unknown_id_is_noop() {
    let mut store = fresh(None);
    store.insert(item("1", "a", false));
    store.update(ItemUpdate {
        id: String::from("missing"),
        title: Some(String::from("x")),
        completed: Some(true),
    });
    let all = store.find(ItemQuery::EmptyItemQuery);
    assert_eq!(all.len(), 1);
    assert_eq!(all[0].title, "a");
    assert!(!all[0].completed);
}

#[test]
fn update_applies_to_every_matching_id() {
    let mut store = fresh(None);
    store.insert(item("1", "first", false));
    store.insert(item("1", "second", false));
    store.update(ItemUpdate { id: String::from("1"), title: None, completed: Some(true) });
    let all = store.find(ItemQuery::EmptyItemQuery);
    assert!(all[0].completed);
    assert!(all[1].completed);
}

#[test]
fn remove_completeness() {
    let mut store = fresh(None);
    store.insert(item("1", "a", false));
    store.insert(item("2", "b", true));
    store.insert(item("3", "c", false));
    store.remove(ItemQuery::Completed { completed: true });
    let matching = store.find(ItemQuery::Completed { completed: true });
    assert_eq!(matching.len(), 0);
    let rest = store.find(ItemQuery::EmptyItemQuery);
    assert_eq!(rest.len(), 2);
    assert_eq!(rest[0].id, "1");
    assert_eq!(rest[0].title, "a");
    assert_eq!(rest[1].id, "3");
    assert_eq!(rest[1].title, "c");
}

#[test]
fn remove_with_empty_query_clears_all() {
    let mut store = fresh(None);
    store.insert(item("1", "a", false));
    store.insert(item("2", "b", true));
    store.remove(ItemQuery::EmptyItemQuery);
    assert_eq!(store.count(), (0, 0, 0));
}

#[test]
fn flush_value_reloads_identically() {
    let mut store = fresh(None);
    store.insert(item("1", "buy milk", false));
    store.insert(item("2", "say \"hi\"", true));
    let flushed = store.flush_value();
    let reloaded = fresh(Some(&flushed));
    assert_eq!(reloaded.count(), (2, 1, 1));
    let all = reloaded.find(ItemQuery::EmptyItemQuery);
    assert_eq!(all[0].title, "buy milk");
    assert_eq!(all[1].title, "say \"hi\"");
}

#[test]
fn end_to_end_scenario() {
    let mut store = fresh(None);
    store.insert(item("1", "buy milk", false));
    store.insert(item("2", "walk dog", true));
    assert_eq!(store.count(), (2, 1, 1));

    let done = store.find(ItemQuery::Completed { completed: true });
    assert_eq!(done.len(), 1);
    assert_eq!(done[0].id, "2");
    assert_eq!(done[0].title, "walk dog");

    store.remove(ItemQuery::Completed { completed: true });
    assert_eq!(store.count(), (1, 1, 0));

    let flushed = store.flush_value();
    let reloaded = fresh(Some(&flushed));
    assert_eq!(reloaded.count(), (1, 1, 0));
    let all = reloaded.find(ItemQuery::EmptyItemQuery);
    assert_eq!(all.len(), 1);
    assert_eq!(all[0].id, "1");
    assert_eq!(all[0].title, "buy milk");
    assert!(!all[0].completed);
}
