use todo_backend::api::{todo_url, TodoList};
use todo_backend::todo_list::{Error, TodoCreate, TodoUpdate};

#[test]
fn url_is_base_slash_id() {
    assert_eq!(todo_url("http://localhost:8000", 42), "http://localhost:8000/42");
}

#[test]
fn url_of_zero_and_single_digits() {
    assert_eq!(todo_url("http://h", 0), "http://h/0");
    assert_eq!(todo_url("http://h", 7), "http://h/7");
}

#[test]
fn url_of_large_and_negative_ids() {
    assert_eq!(todo_url("b", 1234567890), "b/1234567890");
    assert_eq!(todo_url("b", i32::MAX), "b/2147483647");
    assert_eq!(todo_url("b", -7), "b/-7");
    assert_eq!(todo_url("b", i32::MIN), "b/-2147483648");
}

#[test]
fn url_of_empty_base() {
    assert_eq!(todo_url("", 5), "/5");
}

#[test]
fn adapter_create_derives_url_and_copies_fields() {
    let mut list = TodoList::new("http://localhost:8000".to_string());
    let created = list
        .create_todo(&TodoCreate { title: "todo_001".to_string(), order: Some(1) })
        .expect("create should succeed");
    assert_eq!(created.url, "http://localhost:8000/1");
    assert_eq!(created.title, "todo_001");
    assert_eq!(created.completed, false);
    assert_eq!(created.order, Some(1));
}

#[test]
fn adapter_get_and_all_adapt_every_record() {
    let mut list = TodoList::new("http://api".to_string());
    let first = list
        .create_todo(&TodoCreate { title: "a".to_string(), order: None })
        .expect("create should succeed");
    list.create_todo(&TodoCreate { title: "b".to_string(), order: Some(2) })
        .expect("create should succeed");

    let all = list.all().expect("listing should succeed");
    assert_eq!(all.len(), 2);
    assert_eq!(all[0].url, "http://api/1");
    assert_eq!(all[1].url, "http://api/2");
    assert_eq!(all[0].title, "a");
    assert_eq!(all[1].title, "b");

    assert_eq!(first.url, "http://api/1");
    let fetched = list.get_todo(1).expect("record should exist");
    assert_eq!(fetched.url, "http://api/1");
    assert!(matches!(list.get_todo(3), Err(Error::NotFound)));
}

#[test]
fn adapter_update_returns_adapted_record() {
    let mut list = TodoList::new("http://api".to_string());
    list.create_todo(&TodoCreate { title: "task".to_string(), order: None })
        .expect("create should succeed");
    let updated = list
        .update_todo(
            1,
            TodoUpdate { title: None, completed: Some(true), order: Some(4) },
        )
        .expect("record should exist");
    assert_eq!(updated.url, "http://api/1");
    assert_eq!(updated.title, "task");
    assert_eq!(updated.completed, true);
    assert_eq!(updated.order, Some(4));
}

#[test]
fn adapter_search_adapts_matches() {
    let mut list = TodoList::new("http://api".to_string());
    list.create_todo(&TodoCreate { title: "todo_001".to_string(), order: None })
        .expect("create should succeed");
    list.create_todo(&TodoCreate { title: "todo_002".to_string(), order: None })
        .expect("create should succeed");
    let both = list.search_todo("TODO").expect("search should succeed");
    assert_eq!(both.len(), 2);
    let second = list.search_todo("002").expect("search should succeed");
    assert_eq!(second.len(), 1);
    assert_eq!(second[0].url, "http://api/2");
    assert_eq!(second[0].title, "todo_002");
}

#[test]
fn adapter_delete_and_clear_pass_through() {
    let mut list = TodoList::new("http://api".to_string());
    list.create_todo(&TodoCreate { title: "a".to_string(), order: None })
        .expect("create should succeed");
    list.create_todo(&TodoCreate { title: "b".to_string(), order: None })
        .expect("create should succeed");
    assert_eq!(list.delete_todo(1), Ok(()));
    assert!(matches!(list.get_todo(1), Err(Error::NotFound)));
    assert_eq!(list.all().expect("listing should succeed").len(), 1);
    assert_eq!(list.clear(), Ok(()));
    assert!(list.all().expect("listing should succeed").is_empty());
}
