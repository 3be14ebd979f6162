use todomvc::buttons::ButtonBehavior;
use todomvc::domain::Filter;
use todomvc::store::TodoStore;
use todomvc::ids::{MaterialId, NodeId};
use todomvc::interaction::Interaction;
use todomvc::text::decimal_string;
use todomvc::todo_footer::{
    count_label, count_label_system, on_clear_completed_click, on_filter_tab_button_click,
    set_filter_tab_active_system, was_any_clicked, CountLabel, CountLabelNode, FilterTabButton,
    FilterTabChange, FilterTabNode,
};

fn tab(filter: Filter, is_active: bool) -> FilterTabNode {
    FilterTabNode {
        tab: FilterTabButton(filter),
        behavior: ButtonBehavior {
            normal: MaterialId(1),
            pressed: MaterialId(2),
            hover: MaterialId(3),
            active: Some(MaterialId(4)),
            is_active,
        },
    }
}

#[test]
fn numbers_in_decimal() {
    assert_eq!(decimal_string(0), "0");
    assert_eq!(decimal_string(7), "7");
    assert_eq!(decimal_string(10), "10");
    assert_eq!(decimal_string(65535), "65535");
    assert_eq!(decimal_string(1234567890), "1234567890");
    assert_eq!(decimal_string(usize::MAX), format!("{}", usize::MAX));
}

#[test]
fn count_label_pluralizes() {
    assert_eq!(count_label(0), "0 items left");
    assert_eq!(count_label(1), "1 item left");
    assert_eq!(count_label(2), "2 items left");
    assert_eq!(count_label(11), "11 items left");
    assert_eq!(count_label(21), "21 items left");
    assert_eq!(count_label(100), "100 items left");
}

#[test]
fn count_label_is_written_when_the_count_differs() {
    let mut labels = vec![
        CountLabelNode { entity: NodeId(1), label: CountLabel(None) },
        CountLabelNode { entity: NodeId(2), label: CountLabel(Some(3)) },
        CountLabelNode { entity: NodeId(3), label: CountLabel(Some(1)) },
    ];
    let updates = count_label_system(1, &mut labels);
    assert_eq!(updates.len(), 2);
    assert_eq!(updates[0].node, NodeId(1));
    assert_eq!(updates[0].value, "1 item left");
    assert_eq!(updates[1].node, NodeId(2));
    assert_eq!(updates[1].value, "1 item left");
    for l in &labels {
        assert_eq!(l.label, CountLabel(Some(1)));
    }
    assert_eq!(labels[2].entity, NodeId(3));
    assert!(count_label_system(1, &mut labels).is_empty());
    let updates = count_label_system(0, &mut labels);
    assert_eq!(updates.len(), 3);
    assert_eq!(updates[2].value, "0 items left");
}

#[test]
fn clicks_are_told_from_other_changes() {
    assert!(!was_any_clicked(&vec![]));
    assert!(!was_any_clicked(&vec![Interaction::Hovered, Interaction::Idle]));
    assert!(was_any_clicked(&vec![Interaction::Hovered, Interaction::Clicked]));
}

#[test]
fn clear_completed_on_click() {
    let mut store = TodoStore::new();
    let a = store.add_item("a".to_string());
    let b = store.add_item("b".to_string());
    store.toggle_completed(a);
    assert_eq!(on_clear_completed_click(&vec![Interaction::Hovered], &mut store), 0);
    assert_eq!(store.len(), 2);
    assert_eq!(on_clear_completed_click(&vec![], &mut store), 0);
    assert_eq!(store.len(), 2);
    assert_eq!(
        on_clear_completed_click(&vec![Interaction::Clicked, Interaction::Clicked], &mut store),
        1
    );
    assert_eq!(store.len(), 1);
    assert!(store.get(a).is_none());
    assert!(store.get(b).is_some());
}

#[test]
fn tab_click_sets_the_filter() {
    let mut store = TodoStore::new();
    let hover = FilterTabChange { tab: FilterTabButton(Filter::Completed), interaction: Interaction::Hovered };
    let active = FilterTabChange { tab: FilterTabButton(Filter::Active), interaction: Interaction::Clicked };
    let all = FilterTabChange { tab: FilterTabButton(Filter::All), interaction: Interaction::Idle };
    on_filter_tab_button_click(&vec![hover, all], &mut store);
    assert_eq!(store.current_filter(), Filter::All);
    on_filter_tab_button_click(&vec![active, hover], &mut store);
    assert_eq!(store.current_filter(), Filter::Active);
    on_filter_tab_button_click(&vec![], &mut store);
    assert_eq!(store.current_filter(), Filter::Active);
    let completed = FilterTabChange { tab: FilterTabButton(Filter::Completed), interaction: Interaction::Clicked };
    on_filter_tab_button_click(&vec![active, completed, all], &mut store);
    assert_eq!(store.current_filter(), Filter::Completed);
}

#[test]
fn the_tab_of_the_filter_is_active() {
    let mut tabs = vec![tab(Filter::All, true), tab(Filter::Active, false), tab(Filter::Completed, true)];
    set_filter_tab_active_system(Filter::Active, &mut tabs);
    assert_eq!(tabs, vec![tab(Filter::All, false), tab(Filter::Active, true), tab(Filter::Completed, false)]);
    set_filter_tab_active_system(Filter::All, &mut tabs);
    assert_eq!(tabs, vec![tab(Filter::All, true), tab(Filter::Active, false), tab(Filter::Completed, false)]);
}
