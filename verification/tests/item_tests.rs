use itemstore::{Item, ItemQuery, ItemUpdate};

fn item(id: &str, title: &str, completed: bool) -> Item {
    Item { id: String::from(id), title: String::from(title), completed }
}

#[test]
fn empty_query_matches_everything() {
    let q = ItemQuery::EmptyItemQuery;
    assert!(q.matches(&item("1", "a", false)));
    assert!(q.matches(&item("2", "b", true)));
}

#[test]
fn completed_query_matches_by_flag() {
    let done = ItemQuery::Completed { completed: true };
    assert!(done.matches(&item("1", "a", true)));
    assert!(!done.matches(&item("2", "b", false)));
    let open = ItemQuery::Completed { completed: false };
    assert!(!open.matches(&item("1", "a", true)));
    assert!(open.matches(&item("2", "b", false)));
}

#[test]
fn update_reports_its_target_id() {
    let u = ItemUpdate { id: String::from("7"), title: None, completed: None };
    assert_eq!(u.id(), "7");
}

#[test]
fn apply_changes_only_set_fields() {
    let base = item("1", "old", false);
    let u = ItemUpdate { id: String::from("1"), title: None, completed: None };
    let same = base.apply(&u);
    assert_eq!(same.id, "1");
    assert_eq!(same.title, "old");
    assert!(!same.completed);

    let u = ItemUpdate {
        id: String::from("1"),
        title: Some(String::from("new")),
        completed: Some(true),
    };
    let changed = base.apply(&u);
    assert_eq!(changed.id, "1");
    assert_eq!(changed.title, "new");
    assert!(changed.completed);
}
