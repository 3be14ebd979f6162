use todomvc::commands::{Command, NodeContext};
use todomvc::domain::Todo;
use todomvc::store::TodoStore;
use todomvc::ids::{NodeId, TodoId};
use todomvc::interaction::Interaction;
use todomvc::todo_row::{
    bound_todo, on_clear_btn_clicked, on_complete_todo_click, on_todo_row_hover, sync_row,
    sync_row_system, ClearButtonNode, RowChange, RowNode, TodoRow,
};

fn row(node: u32, todo: TodoId, dirty: bool) -> RowNode {
    RowNode { row: NodeId(node), binding: TodoRow(todo), dirty }
}

fn change(node: u32, interaction: Interaction) -> RowChange {
    RowChange { row: NodeId(node), interaction }
}

fn button(entity: u32, parent: u32, interaction: Interaction) -> ClearButtonNode {
    ClearButtonNode { entity: NodeId(entity), parent: NodeId(parent), interaction }
}

#[test]
fn row_texts() {
    let open = Todo { label: "walk the dog".to_string(), completed: false, ordinal: 0 };
    let text = sync_row(NodeId(4), &open);
    assert_eq!(text.row, NodeId(4));
    assert_eq!(text.label, "walk the dog");
    assert_eq!(text.check, "   ");
    let done = Todo { label: "".to_string(), completed: true, ordinal: 1 };
    let text = sync_row(NodeId(5), &done);
    assert_eq!(text.row, NodeId(5));
    assert_eq!(text.label, "");
    assert_eq!(text.check, " X ");
}

#[test]
fn rows_are_synced_when_dirty_or_changed() {
    let mut store = TodoStore::new();
    let a = store.add_item("a".to_string());
    let b = store.add_item("b".to_string());
    let c = store.add_item("c".to_string());
    store.clear_changed();
    store.toggle_completed(b);
    let mut rows = vec![row(1, a, false), row(2, b, false), row(3, c, true), row(4, TodoId(77), true)];
    let updates = sync_row_system(&mut rows, &store);
    assert_eq!(updates.len(), 2);
    assert_eq!(updates[0].row, NodeId(2));
    assert_eq!(updates[0].label, "b");
    assert_eq!(updates[0].check, " X ");
    assert_eq!(updates[1].row, NodeId(3));
    assert_eq!(updates[1].label, "c");
    assert_eq!(updates[1].check, "   ");
    // The row of the missing item is skipped and stays as it is.
    assert_eq!(rows, vec![row(1, a, false), row(2, b, false), row(3, c, false), row(4, TodoId(77), true)]);
    store.clear_changed();
    let updates = sync_row_system(&mut rows, &store);
    assert!(updates.is_empty());
}

#[test]
fn binding_lookup() {
    let rows = vec![row(1, TodoId(10), false), row(2, TodoId(20), false)];
    assert_eq!(bound_todo(&rows, NodeId(2)), Some(TodoId(20)));
    assert_eq!(bound_todo(&rows, NodeId(1)), Some(TodoId(10)));
    assert_eq!(bound_todo(&rows, NodeId(3)), None);
    assert_eq!(bound_todo(&Vec::new(), NodeId(1)), None);
}

#[test]
fn toggle_button_flips_the_item_of_its_row() {
    let mut store = TodoStore::new();
    let a = store.add_item("a".to_string());
    let b = store.add_item("b".to_string());
    let rows = vec![row(1, a, false), row(2, b, false)];
    on_complete_todo_click(
        &vec![change(2, Interaction::Clicked), change(1, Interaction::Hovered), change(9, Interaction::Clicked)],
        &rows,
        &mut store,
    );
    assert!(!store.get(a).unwrap().todo.completed);
    assert!(store.get(b).unwrap().todo.completed);
    on_complete_todo_click(&vec![change(2, Interaction::Clicked)], &rows, &mut store);
    assert!(!store.get(b).unwrap().todo.completed);
}

#[test]
fn toggle_on_a_stale_binding_does_nothing() {
    let mut store = TodoStore::new();
    let a = store.add_item("a".to_string());
    let rows = vec![row(1, a, false), row(2, TodoId(50), false)];
    on_complete_todo_click(&vec![change(2, Interaction::Clicked)], &rows, &mut store);
    assert_eq!(store.len(), 1);
    assert!(!store.get(a).unwrap().todo.completed);
}

#[test]
fn delete_button_removes_the_item_of_its_row() {
    let mut store = TodoStore::new();
    let a = store.add_item("a".to_string());
    let b = store.add_item("b".to_string());
    let c = store.add_item("c".to_string());
    let rows = vec![row(1, a, false), row(2, b, false), row(3, c, false)];
    on_clear_btn_clicked(
        &vec![change(2, Interaction::Clicked), change(3, Interaction::Hovered), change(2, Interaction::Clicked)],
        &rows,
        &mut store,
    );
    assert_eq!(store.len(), 2);
    assert!(store.get(b).is_none());
    assert!(store.get(a).is_some());
    assert!(store.get(c).is_some());
    // The row is still bound to the item that is gone: the click is lost.
    on_clear_btn_clicked(&vec![change(2, Interaction::Clicked)], &rows, &mut store);
    assert_eq!(store.len(), 2);
}

#[test]
fn hover_shows_the_delete_button() {
    let mut ctx = NodeContext::new(0);
    let buttons = vec![button(30, 2, Interaction::Idle)];
    on_todo_row_hover(
        &mut ctx,
        &vec![change(1, Interaction::Hovered), change(2, Interaction::Hovered), change(3, Interaction::Clicked)],
        &buttons,
    );
    assert_eq!(ctx.take_commands(), vec![Command::SpawnClearButton { row: NodeId(1) }]);
}

#[test]
fn leaving_a_row_removes_its_delete_button() {
    let mut ctx = NodeContext::new(0);
    let buttons = vec![
        button(30, 1, Interaction::Idle),
        button(31, 2, Interaction::Idle),
        button(32, 1, Interaction::Clicked),
        button(33, 1, Interaction::Hovered),
    ];
    on_todo_row_hover(&mut ctx, &vec![change(1, Interaction::Idle)], &buttons);
    assert_eq!(
        ctx.take_commands(),
        vec![
            Command::DespawnRecursive { node: NodeId(30) },
            Command::DespawnRecursive { node: NodeId(32) },
        ]
    );
    on_todo_row_hover(&mut ctx, &vec![change(5, Interaction::Idle)], &buttons);
    assert!(ctx.commands().is_empty());
}

#[test]
fn hover_requests_follow_what_is_queued() {
    let mut ctx = NodeContext::new(0);
    ctx.push(Command::DespawnRecursive { node: NodeId(99) });
    on_todo_row_hover(
        &mut ctx,
        &vec![change(2, Interaction::Idle), change(1, Interaction::Hovered)],
        &vec![button(31, 2, Interaction::Idle)],
    );
    assert_eq!(
        ctx.take_commands(),
        vec![
            Command::DespawnRecursive { node: NodeId(99) },
            Command::DespawnRecursive { node: NodeId(31) },
            Command::SpawnClearButton { row: NodeId(1) },
        ]
    );
}
