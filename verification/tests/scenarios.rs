use todomvc::commands::{Command, NodeContext};
use todomvc::domain::Filter;
use todomvc::store::{todo_ordering_system, TodoStore};
use todomvc::focus::{focusable_click_system, BlurEvent, FocusEvent, FocusTable};
use todomvc::ids::NodeId;
use todomvc::interaction::{
    left_button_pressed, node_click_event_source, ElementState, Interaction, InteractionChange,
    MouseButton, MouseButtonInput,
};
use todomvc::todo_body::PriorTodos;
use todomvc::todo_footer::{
    count_label_system, on_filter_tab_button_click, CountLabel, CountLabelNode, FilterTabButton,
    FilterTabChange,
};
use todomvc::todo_input::{on_todo_input_focus, InputChild, InputChildKind};
use todomvc::todo_list::sync_list_system;
use todomvc::todo_row::{on_complete_todo_click, sync_row_system, RowChange, RowNode};

const CONTAINER: NodeId = NodeId(1);
const COUNT_LABEL: NodeId = NodeId(2);
const INPUT: NodeId = NodeId(3);

struct Ui {
    store: TodoStore,
    ctx: NodeContext,
    prior: PriorTodos,
    rows: Vec<RowNode>,
    labels: Vec<CountLabelNode>,
}

fn ui() -> Ui {
    Ui {
        store: TodoStore::new(),
        ctx: NodeContext::new(100),
        prior: PriorTodos(None),
        rows: Vec::new(),
        labels: vec![CountLabelNode { entity: COUNT_LABEL, label: CountLabel(None) }],
    }
}

/// The stages of a frame behind the user's actions.
fn settle(ui: &mut Ui) -> (Vec<Command>, Vec<(NodeId, String, String)>, Vec<String>) {
    todo_ordering_system(&mut ui.store);
    let visible = ui.store.visible();
    sync_list_system(
        &mut ui.ctx,
        &mut ui.prior,
        ui.store.len(),
        &visible,
        Some(CONTAINER),
        &mut ui.rows,
    );
    let texts = sync_row_system(&mut ui.rows, &ui.store)
        .into_iter()
        .map(|t| (t.row, t.label, t.check))
        .collect();
    let counts = count_label_system(ui.store.len(), &mut ui.labels)
        .into_iter()
        .map(|t| t.value)
        .collect();
    ui.store.clear_changed();
    (ui.ctx.take_commands(), texts, counts)
}

#[test]
fn first_item_creates_the_list_and_one_row() {
    let mut ui = ui();
    let (commands, texts, counts) = settle(&mut ui);
    assert!(commands.is_empty());
    assert!(texts.is_empty());
    assert_eq!(counts, vec!["0 items left".to_string()]);

    let item = ui.store.add_item("wash dishes".to_string());
    let (commands, texts, counts) = settle(&mut ui);
    assert_eq!(
        commands,
        vec![
            Command::SpawnBody { body: NodeId(100), list: NodeId(101), container: CONTAINER },
            Command::SpawnRow { row: NodeId(102), list: NodeId(101), todo: item },
        ]
    );
    assert_eq!(ui.rows.len(), 1);
    assert_eq!(ui.rows[0].row, NodeId(102));
    assert_eq!(ui.rows[0].binding.0, item);
    assert_eq!(ui.store.get(item).unwrap().todo.ordinal, 0);
    assert_eq!(texts, vec![(NodeId(102), "wash dishes".to_string(), "   ".to_string())]);
    assert_eq!(counts, vec!["1 item left".to_string()]);

    // The next frame has nothing to do.
    let (commands, texts, counts) = settle(&mut ui);
    assert!(commands.is_empty());
    assert!(texts.is_empty());
    assert!(counts.is_empty());
}

#[test]
fn completed_item_leaves_the_active_list() {
    let mut ui = ui();
    let one = ui.store.add_item("one".to_string());
    let two = ui.store.add_item("two".to_string());
    settle(&mut ui);
    let first_row = ui.rows[0].row;
    let second_row = ui.rows[1].row;
    assert_eq!(ui.rows[0].binding.0, one);
    assert_eq!(ui.rows[1].binding.0, two);

    // The toggle button of the first row is clicked, then the tab "Active".
    on_complete_todo_click(
        &vec![RowChange { row: first_row, interaction: Interaction::Clicked }],
        &ui.rows,
        &mut ui.store,
    );
    on_filter_tab_button_click(
        &vec![FilterTabChange { tab: FilterTabButton(Filter::Active), interaction: Interaction::Clicked }],
        &mut ui.store,
    );
    assert!(ui.store.get(one).unwrap().todo.completed);
    assert_eq!(ui.store.current_filter(), Filter::Active);

    let (commands, texts, counts) = settle(&mut ui);
    // Rows are reused by position: the first row now shows the second item,
    // and the row at the end is destroyed. No row is created.
    assert_eq!(commands, vec![Command::DespawnRecursive { node: second_row }]);
    assert_eq!(ui.rows.len(), 1);
    assert_eq!(ui.rows[0].row, first_row);
    assert_eq!(ui.rows[0].binding.0, two);
    assert_eq!(texts, vec![(first_row, "two".to_string(), "   ".to_string())]);
    assert!(counts.is_empty());
    assert_eq!(ui.store.len(), 2);
}

#[test]
fn input_swaps_placeholder_and_control_with_the_focus() {
    let mut focusables = FocusTable::new();
    focusables.insert(INPUT);
    let mut ctx = NodeContext::new(100);
    let inputs = vec![INPUT];
    let press = MouseButtonInput { button: MouseButton::Left, state: ElementState::Pressed };

    // The input node is clicked.
    let clicks = node_click_event_source(&vec![InteractionChange {
        node: INPUT,
        interaction: Interaction::Clicked,
    }]);
    assert!(left_button_pressed(&vec![press]));
    let mut focus = Vec::new();
    let mut blur = Vec::new();
    focusable_click_system(&clicks, &vec![press], &mut focusables, &mut focus, &mut blur);
    assert_eq!(focus, vec![FocusEvent { focused: INPUT }]);
    assert!(blur.is_empty());
    let children = vec![InputChild { parent: INPUT, entity: NodeId(10), kind: InputChildKind::Text }];
    on_todo_input_focus(&mut ctx, &focus, &blur, &inputs, &children);
    assert_eq!(
        ctx.take_commands(),
        vec![
            Command::DespawnRecursive { node: NodeId(10) },
            Command::SpawnAddButton { input: INPUT },
        ]
    );

    // The pointer is pressed on a node that cannot hold the focus.
    let clicks = node_click_event_source(&vec![InteractionChange {
        node: NodeId(50),
        interaction: Interaction::Clicked,
    }]);
    let mut focus = Vec::new();
    let mut blur = Vec::new();
    focusable_click_system(&clicks, &vec![press], &mut focusables, &mut focus, &mut blur);
    assert!(focus.is_empty());
    assert_eq!(blur, vec![BlurEvent { blurred: INPUT }]);
    let children =
        vec![InputChild { parent: INPUT, entity: NodeId(11), kind: InputChildKind::AddTodoButton }];
    on_todo_input_focus(&mut ctx, &focus, &blur, &inputs, &children);
    assert_eq!(
        ctx.take_commands(),
        vec![
            Command::DespawnRecursive { node: NodeId(11) },
            Command::SpawnPlaceholder { input: INPUT },
        ]
    );
}

#[test]
fn deleting_every_item_removes_rows_and_body() {
    let mut ui = ui();
    let a = ui.store.add_item("a".to_string());
    let b = ui.store.add_item("b".to_string());
    settle(&mut ui);
    let body = ui.prior.0.unwrap().body;
    let rows: Vec<NodeId> = ui.rows.iter().map(|r| r.row).collect();
    ui.store.delete_item(a);
    ui.store.delete_item(b);
    let (commands, texts, counts) = settle(&mut ui);
    assert_eq!(
        commands,
        vec![
            Command::DespawnRecursive { node: rows[0] },
            Command::DespawnRecursive { node: rows[1] },
            Command::DespawnRecursive { node: body },
        ]
    );
    assert!(ui.rows.is_empty());
    assert!(texts.is_empty());
    assert_eq!(counts, vec!["0 items left".to_string()]);
    assert_eq!(ui.prior, PriorTodos(None));
}
