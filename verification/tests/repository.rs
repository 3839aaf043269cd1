use todo_backend::todo_list::{Error, TodoCreate, TodoList, TodoUpdate};

fn create(list: &mut TodoList, title: &str, order: Option<i32>) -> i32 {
    let created = list
        .create_todo(&TodoCreate { title: title.to_string(), order })
        .expect("create should succeed");
    created.id
}

#[test]
fn create_then_get_returns_same_fields() {
    let mut list = TodoList::new();
    let id = create(&mut list, "buy milk", Some(7));
    let fetched = list.get_todo(id).expect("record should exist");
    assert_eq!(fetched.id, id);
    assert_eq!(fetched.title, "buy milk");
    assert_eq!(fetched.completed, false);
    assert_eq!(fetched.order, Some(7));
}

#[test]
fn create_without_order_then_get() {
    let mut list = TodoList::new();
    let id = create(&mut list, "walk the dog", None);
    let fetched = list.get_todo(id).expect("record should exist");
    assert_eq!(fetched.title, "walk the dog");
    assert_eq!(fetched.completed, false);
    assert_eq!(fetched.order, None);
}

#[test]
fn get_absent_id_is_not_found() {
    let list = TodoList::new();
    assert!(matches!(list.get_todo(12), Err(Error::NotFound)));
}

#[test]
fn update_only_completed_preserves_title_and_order() {
    let mut list = TodoList::new();
    let id = create(&mut list, "write report", Some(3));
    let updated = list
        .update_todo(
            id,
            TodoUpdate { title: None, completed: Some(true), order: None },
        )
        .expect("record should exist");
    assert_eq!(updated.title, "write report");
    assert_eq!(updated.completed, true);
    assert_eq!(updated.order, Some(3));
    let fetched = list.get_todo(id).expect("record should exist");
    assert_eq!(fetched.title, "write report");
    assert_eq!(fetched.completed, true);
    assert_eq!(fetched.order, Some(3));
}

#[test]
fn update_only_title_preserves_completed_and_order() {
    let mut list = TodoList::new();
    let id = create(&mut list, "old title", Some(1));
    list.update_todo(
        id,
        TodoUpdate { title: None, completed: Some(true), order: None },
    )
    .expect("record should exist");
    let updated = list
        .update_todo(
            id,
            TodoUpdate { title: Some("new title".to_string()), completed: None, order: None },
        )
        .expect("record should exist");
    assert_eq!(updated.title, "new title");
    assert_eq!(updated.completed, true);
    assert_eq!(updated.order, Some(1));
}

#[test]
fn update_only_order_preserves_title_and_completed() {
    let mut list = TodoList::new();
    let id = create(&mut list, "stretch", Some(1));
    let updated = list
        .update_todo(
            id,
            TodoUpdate { title: None, completed: None, order: Some(9) },
        )
        .expect("record should exist");
    assert_eq!(updated.title, "stretch");
    assert_eq!(updated.completed, false);
    assert_eq!(updated.order, Some(9));
}

#[test]
fn update_absent_id_is_not_found() {
    let mut list = TodoList::new();
    create(&mut list, "only record", None);
    let result = list.update_todo(
        999,
        TodoUpdate { title: None, completed: Some(true), order: None },
    );
    assert!(matches!(result, Err(Error::NotFound)));
    let all = list.all().expect("listing should succeed");
    assert_eq!(all.len(), 1);
    assert_eq!(all[0].completed, false);
}

#[test]
fn delete_removes_exactly_one() {
    let mut list = TodoList::new();
    let first = create(&mut list, "first", None);
    let second = create(&mut list, "second", None);
    let before = list.all().expect("listing should succeed").len();
    list.delete_todo(first).expect("delete should succeed");
    assert!(matches!(list.get_todo(first), Err(Error::NotFound)));
    let after = list.all().expect("listing should succeed");
    assert_eq!(after.len(), before - 1);
    assert_eq!(after[0].id, second);
}

#[test]
fn delete_absent_id_is_a_success_that_changes_nothing() {
    let mut list = TodoList::new();
    create(&mut list, "keep me", None);
    assert_eq!(list.delete_todo(41), Ok(()));
    assert_eq!(list.all().expect("listing should succeed").len(), 1);
}

#[test]
fn clear_empties_regardless_of_contents() {
    let mut list = TodoList::new();
    create(&mut list, "one", Some(1));
    create(&mut list, "two", Some(2));
    create(&mut list, "three", None);
    list.clear().expect("clear should succeed");
    assert!(list.all().expect("listing should succeed").is_empty());
    list.clear().expect("clear of an empty list should succeed");
    assert!(list.all().expect("listing should succeed").is_empty());
}

#[test]
fn search_finds_case_insensitive_substrings() {
    let mut list = TodoList::new();
    create(&mut list, "todo_001", None);
    create(&mut list, "todo_002", None);
    let both = list.search_todo("todo").expect("search should succeed");
    assert_eq!(both.len(), 2);
    let first = list.search_todo("001").expect("search should succeed");
    assert_eq!(first.len(), 1);
    assert_eq!(first[0].title, "todo_001");
    let none = list.search_todo("x").expect("search should succeed");
    assert!(none.is_empty());
}

#[test]
fn search_folds_case_on_both_sides() {
    let mut list = TodoList::new();
    create(&mut list, "Buy MILK", None);
    let found = list.search_todo("mIlK").expect("search should succeed");
    assert_eq!(found.len(), 1);
    assert_eq!(found[0].title, "Buy MILK");
}

#[test]
fn search_empty_term_matches_everything() {
    let mut list = TodoList::new();
    create(&mut list, "a", None);
    create(&mut list, "b", None);
    let found = list.search_todo("").expect("search should succeed");
    assert_eq!(found.len(), 2);
}

#[test]
fn search_no_match_is_empty_not_an_error() {
    let mut list = TodoList::new();
    create(&mut list, "groceries", None);
    let found = list.search_todo("unrelated").expect("search should succeed");
    assert!(found.is_empty());
}

#[test]
fn created_ids_are_pairwise_distinct() {
    let mut list = TodoList::new();
    let mut ids: Vec<i32> = Vec::new();
    for k in 0..5 {
        ids.push(create(&mut list, &format!("task {}", k), None));
    }
    for a in 0..ids.len() {
        for b in (a + 1)..ids.len() {
            assert_ne!(ids[a], ids[b]);
        }
    }
}

#[test]
fn ids_are_not_reused_after_delete_or_clear() {
    let mut list = TodoList::new();
    let first = create(&mut list, "first", None);
    list.delete_todo(first).expect("delete should succeed");
    let second = create(&mut list, "second", None);
    assert_ne!(first, second);
    list.clear().expect("clear should succeed");
    let third = create(&mut list, "third", None);
    assert_ne!(first, third);
    assert_ne!(second, third);
}

#[test]
fn listing_keeps_storage_order() {
    let mut list = TodoList::new();
    let a = create(&mut list, "a", None);
    let b = create(&mut list, "b", None);
    let c = create(&mut list, "c", None);
    let all = list.all().expect("listing should succeed");
    let ids: Vec<i32> = all.iter().map(|t| t.id).collect();
    assert_eq!(ids, vec![a, b, c]);
}
