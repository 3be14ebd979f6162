use todomvc::commands::{Command, NodeContext};
use todomvc::domain::UNASSIGNED;
use todomvc::messages::message_pool;
use todomvc::store::TodoStore;
use todomvc::focus::{BlurEvent, FocusEvent};
use todomvc::ids::{NodeId, TodoId};
use todomvc::interaction::Interaction;
use todomvc::todo_body::{on_todo_added, PriorTodos, TodoBody};
use todomvc::todo_input::{
    count_clicks, on_add_button_clicked, on_todo_input_focus, InputChild, InputChildKind,
};

fn child(parent: u32, entity: u32, kind: InputChildKind) -> InputChild {
    InputChild { parent: NodeId(parent), entity: NodeId(entity), kind }
}

#[test]
fn focus_swaps_the_placeholder_for_the_control() {
    let mut ctx = NodeContext::new(0);
    let children = vec![
        child(1, 10, InputChildKind::Text),
        child(2, 11, InputChildKind::Text),
        child(1, 12, InputChildKind::Other),
    ];
    on_todo_input_focus(
        &mut ctx,
        &vec![FocusEvent { focused: NodeId(1) }],
        &vec![],
        &vec![NodeId(1), NodeId(2)],
        &children,
    );
    assert_eq!(
        ctx.take_commands(),
        vec![
            Command::DespawnRecursive { node: NodeId(10) },
            Command::SpawnAddButton { input: NodeId(1) },
        ]
    );
}

#[test]
fn blur_swaps_the_control_for_the_placeholder() {
    let mut ctx = NodeContext::new(0);
    let children = vec![child(1, 20, InputChildKind::AddTodoButton), child(1, 21, InputChildKind::Text)];
    on_todo_input_focus(
        &mut ctx,
        &vec![],
        &vec![BlurEvent { blurred: NodeId(1) }],
        &vec![NodeId(1)],
        &children,
    );
    assert_eq!(
        ctx.take_commands(),
        vec![
            Command::DespawnRecursive { node: NodeId(20) },
            Command::SpawnPlaceholder { input: NodeId(1) },
        ]
    );
}

#[test]
fn events_of_other_nodes_are_ignored() {
    let mut ctx = NodeContext::new(0);
    on_todo_input_focus(
        &mut ctx,
        &vec![FocusEvent { focused: NodeId(5) }],
        &vec![BlurEvent { blurred: NodeId(6) }],
        &vec![NodeId(1)],
        &vec![child(5, 10, InputChildKind::Text), child(6, 11, InputChildKind::AddTodoButton)],
    );
    assert!(ctx.commands().is_empty());
}

#[test]
fn an_event_delivered_twice_is_handled_once() {
    let mut ctx = NodeContext::new(0);
    on_todo_input_focus(
        &mut ctx,
        &vec![FocusEvent { focused: NodeId(1) }, FocusEvent { focused: NodeId(1) }],
        &vec![BlurEvent { blurred: NodeId(2) }, BlurEvent { blurred: NodeId(2) }],
        &vec![NodeId(1), NodeId(2)],
        &vec![child(1, 10, InputChildKind::Text), child(2, 20, InputChildKind::AddTodoButton)],
    );
    assert_eq!(
        ctx.take_commands(),
        vec![
            Command::DespawnRecursive { node: NodeId(10) },
            Command::SpawnAddButton { input: NodeId(1) },
            Command::DespawnRecursive { node: NodeId(20) },
            Command::SpawnPlaceholder { input: NodeId(2) },
        ]
    );
}

#[test]
fn each_click_on_the_control_adds_a_todo() {
    let mut store = TodoStore::new();
    let first = store.add_item("mine".to_string());
    let added = on_add_button_clicked(
        &vec![Interaction::Clicked, Interaction::Hovered, Interaction::Clicked, Interaction::Idle],
        &mut store,
    );
    assert_eq!(added, vec![TodoId(1), TodoId(2)]);
    assert_eq!(store.len(), 3);
    assert_eq!(store.get(first).unwrap().todo.label, "mine");
    let pool = message_pool();
    for id in added {
        let item = store.get(id).unwrap();
        assert!(pool.contains(&item.todo.label.as_str()));
        assert!(!item.todo.completed);
        assert_eq!(item.todo.ordinal, UNASSIGNED);
        assert!(item.changed);
    }
    assert!(on_add_button_clicked(&vec![Interaction::Hovered], &mut store).is_empty());
    assert_eq!(store.len(), 3);
}

#[test]
fn the_body_appears_with_the_first_item() {
    let mut ctx = NodeContext::new(40);
    let mut prior = PriorTodos(None);
    on_todo_added(&mut ctx, &mut prior, 0, Some(NodeId(3)));
    assert_eq!(prior, PriorTodos(None));
    assert!(ctx.commands().is_empty());
    on_todo_added(&mut ctx, &mut prior, 1, Some(NodeId(3)));
    assert_eq!(prior, PriorTodos(Some(TodoBody { body: NodeId(40), list: NodeId(41) })));
    assert_eq!(prior.list(), Some(NodeId(41)));
    assert_eq!(
        ctx.take_commands(),
        vec![Command::SpawnBody { body: NodeId(40), list: NodeId(41), container: NodeId(3) }]
    );
    on_todo_added(&mut ctx, &mut prior, 5, Some(NodeId(3)));
    assert_eq!(prior, PriorTodos(Some(TodoBody { body: NodeId(40), list: NodeId(41) })));
    assert!(ctx.commands().is_empty());
}

#[test]
fn the_body_vanishes_with_the_last_item() {
    let mut ctx = NodeContext::new(40);
    let mut prior = PriorTodos(Some(TodoBody { body: NodeId(7), list: NodeId(8) }));
    on_todo_added(&mut ctx, &mut prior, 0, Some(NodeId(3)));
    assert_eq!(prior, PriorTodos(None));
    assert_eq!(prior.list(), None);
    assert_eq!(ctx.take_commands(), vec![Command::DespawnRecursive { node: NodeId(7) }]);
    on_todo_added(&mut ctx, &mut prior, 2, Some(NodeId(3)));
    assert_eq!(prior, PriorTodos(Some(TodoBody { body: NodeId(40), list: NodeId(41) })));
}

#[test]
fn without_a_container_the_body_waits() {
    let mut ctx = NodeContext::new(40);
    let mut prior = PriorTodos(None);
    on_todo_added(&mut ctx, &mut prior, 3, None);
    assert_eq!(prior, PriorTodos(None));
    assert!(ctx.commands().is_empty());
    on_todo_added(&mut ctx, &mut prior, 3, Some(NodeId(1)));
    assert_eq!(prior.list(), Some(NodeId(41)));
}

#[test]
fn clicks_are_counted() {
    assert_eq!(count_clicks(&vec![]), 0);
    assert_eq!(count_clicks(&vec![Interaction::Hovered, Interaction::Idle]), 0);
    assert_eq!(
        count_clicks(&vec![Interaction::Clicked, Interaction::Idle, Interaction::Clicked]),
        2
    );
}

#[test]
fn a_full_store_still_takes_other_changes() {
    let mut store = TodoStore::new();
    for _ in 0..65535 {
        store.add_item(String::new());
    }
    assert_eq!(store.room(), 0);
    let added = on_add_button_clicked(&vec![Interaction::Hovered, Interaction::Idle], &mut store);
    assert!(added.is_empty());
    assert_eq!(store.len(), 65535);
}

#[test]
fn a_body_that_stays_needs_no_handles() {
    let mut ctx = NodeContext::new(u32::MAX);
    let mut prior = PriorTodos(Some(TodoBody { body: NodeId(7), list: NodeId(8) }));
    on_todo_added(&mut ctx, &mut prior, 4, Some(NodeId(1)));
    assert_eq!(prior, PriorTodos(Some(TodoBody { body: NodeId(7), list: NodeId(8) })));
    on_todo_added(&mut ctx, &mut prior, 0, None);
    assert_eq!(prior, PriorTodos(None));
    assert_eq!(ctx.take_commands(), vec![Command::DespawnRecursive { node: NodeId(7) }]);
    assert_eq!(ctx.room(), 0);
}
