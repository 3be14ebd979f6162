use todomvc::domain::{Filter, Todo, UNASSIGNED};
use todomvc::messages::message_pool;
use todomvc::store::TodoStore;
use todomvc::ids::TodoId;

#[test]
fn filter_defaults_to_all() {
    assert_eq!(Filter::default(), Filter::All);
    assert_eq!(TodoStore::new().current_filter(), Filter::All);
}

#[test]
fn filter_predicate() {
    assert!(Filter::All.shows(false));
    assert!(Filter::All.shows(true));
    assert!(Filter::Active.shows(false));
    assert!(!Filter::Active.shows(true));
    assert!(!Filter::Completed.shows(false));
    assert!(Filter::Completed.shows(true));
}

#[test]
fn new_todo_is_open_and_unassigned() {
    let todo = Todo::new("wash dishes".to_string());
    assert_eq!(todo.label, "wash dishes");
    assert!(!todo.completed);
    assert_eq!(todo.ordinal, u16::MAX);
    assert_eq!(UNASSIGNED, u16::MAX);
}

#[test]
fn random_message_is_one_of_the_messages() {
    let pool = message_pool();
    assert_eq!(pool.len(), 22);
    assert_eq!(pool[0], "Lorem ipsum dolor sit amet");
    assert_eq!(pool[21], "malesuada consequat");
    for _ in 0..200 {
        let message = Todo::random_message();
        assert!(pool.contains(&message.as_str()), "{}", message);
    }
}

#[test]
fn random_message_varies() {
    let first = Todo::random_message();
    let mut other = false;
    for _ in 0..500 {
        if Todo::random_message() != first {
            other = true;
        }
    }
    assert!(other);
}

#[test]
fn add_item_hands_out_fresh_handles() {
    let mut store = TodoStore::new();
    assert_eq!(store.len(), 0);
    assert!(store.can_add());
    let a = store.add_item("a".to_string());
    let b = store.add_item("b".to_string());
    assert_eq!(a, TodoId(0));
    assert_eq!(b, TodoId(1));
    assert!(store.delete_item(a));
    let c = store.add_item("c".to_string());
    assert_eq!(c, TodoId(2));
    assert_eq!(store.len(), 2);
    let item = store.get(c).unwrap();
    assert_eq!(item.id, c);
    assert_eq!(item.todo.label, "c");
    assert!(!item.todo.completed);
    assert_eq!(item.todo.ordinal, UNASSIGNED);
    assert!(item.changed);
}

#[test]
fn find_and_get_by_handle() {
    let mut store = TodoStore::new();
    let a = store.add_item("a".to_string());
    let b = store.add_item("b".to_string());
    assert_eq!(store.find(a), Some(0));
    assert_eq!(store.find(b), Some(1));
    assert_eq!(store.find(TodoId(9)), None);
    assert!(store.get(TodoId(9)).is_none());
    assert_eq!(store.get(b).unwrap().todo.label, "b");
}

#[test]
fn toggle_flips_and_marks() {
    let mut store = TodoStore::new();
    let a = store.add_item("a".to_string());
    let b = store.add_item("b".to_string());
    store.clear_changed();
    assert!(!store.get(a).unwrap().changed);
    assert!(store.toggle_completed(b));
    assert!(store.get(b).unwrap().todo.completed);
    assert!(store.get(b).unwrap().changed);
    assert!(!store.get(a).unwrap().todo.completed);
    assert!(!store.get(a).unwrap().changed);
    assert!(store.toggle_completed(b));
    assert!(!store.get(b).unwrap().todo.completed);
    assert_eq!(store.get(b).unwrap().todo.label, "b");
}

#[test]
fn toggle_of_a_missing_item_does_nothing() {
    let mut store = TodoStore::new();
    let a = store.add_item("a".to_string());
    store.clear_changed();
    assert!(!store.toggle_completed(TodoId(5)));
    assert_eq!(store.len(), 1);
    assert!(!store.get(a).unwrap().todo.completed);
    assert!(!store.get(a).unwrap().changed);
}

#[test]
fn delete_removes_one_item() {
    let mut store = TodoStore::new();
    let a = store.add_item("a".to_string());
    let b = store.add_item("b".to_string());
    let c = store.add_item("c".to_string());
    assert!(store.delete_item(b));
    assert!(!store.delete_item(b));
    assert_eq!(store.len(), 2);
    assert!(store.get(b).is_none());
    assert_eq!(store.find(a), Some(0));
    assert_eq!(store.find(c), Some(1));
}

#[test]
fn delete_all_completed_keeps_the_open_items_in_order() {
    let mut store = TodoStore::new();
    let a = store.add_item("a".to_string());
    let b = store.add_item("b".to_string());
    let c = store.add_item("c".to_string());
    let d = store.add_item("d".to_string());
    store.toggle_completed(a);
    store.toggle_completed(c);
    assert_eq!(store.delete_all_completed(), 2);
    assert_eq!(store.len(), 2);
    assert_eq!(store.find(b), Some(0));
    assert_eq!(store.find(d), Some(1));
    assert_eq!(store.delete_all_completed(), 0);
    assert_eq!(store.len(), 2);
}

#[test]
fn set_filter_changes_what_is_visible() {
    let mut store = TodoStore::new();
    let a = store.add_item("a".to_string());
    let b = store.add_item("b".to_string());
    store.toggle_completed(a);
    assert_eq!(store.visible(), vec![a, b]);
    store.set_filter(Filter::Active);
    assert_eq!(store.current_filter(), Filter::Active);
    assert_eq!(store.visible(), vec![b]);
    store.set_filter(Filter::Completed);
    assert_eq!(store.visible(), vec![a]);
    store.set_filter(Filter::All);
    assert_eq!(store.visible(), vec![a, b]);
    assert_eq!(store.len(), 2);
}

#[test]
fn clear_changed_clears_every_marker() {
    let mut store = TodoStore::new();
    let a = store.add_item("a".to_string());
    let b = store.add_item("b".to_string());
    store.toggle_completed(a);
    store.clear_changed();
    assert!(!store.get(a).unwrap().changed);
    assert!(!store.get(b).unwrap().changed);
    assert!(store.get(a).unwrap().todo.completed);
    assert_eq!(store.get(a).unwrap().todo.label, "a");
}

#[test]
fn room_counts_the_free_places() {
    let mut store = TodoStore::new();
    assert_eq!(store.room(), 65535);
    assert!(store.can_add());
    store.add_item("a".to_string());
    assert_eq!(store.room(), 65534);
    store.delete_all_completed();
    assert_eq!(store.room(), 65534);
}

#[test]
fn a_store_takes_no_more_than_it_can_order() {
    let mut store = TodoStore::new();
    for _ in 0..65535 {
        store.add_item(String::new());
    }
    assert_eq!(store.len(), 65535);
    assert_eq!(store.room(), 0);
    assert!(!store.can_add());
}
