//! The footer of the list: the count of the items, the filter tabs, and the
//! control that clears the completed items.

use vstd::prelude::*;
use vstd::string::*;
use crate::buttons::ButtonBehavior;
use crate::domain::{Filter, TodoItem};
use crate::store::TodoStore;
use crate::ids::NodeId;
use crate::interaction::Interaction;
use crate::text::{decimal, decimal_string};

verus! {

/// The count that a label showed last, if it showed one yet.
#[derive(Debug, Clone, Copy, PartialEq, Eq, Structural)]
pub struct CountLabel(pub Option<usize>);

/// A count label with its node.
#[derive(Debug, Clone, Copy, PartialEq, Eq, Structural)]
pub struct CountLabelNode {
    pub entity: NodeId,
    pub label: CountLabel,
}

/// A new text for a text node.
#[derive(Debug)]
pub struct TextUpdate {
    pub node: NodeId,
    pub value: String,
}

impl View for TextUpdate {
    type V = (NodeId, Seq<char>);

    open spec fn view(&self) -> (NodeId, Seq<char>) {
        (self.node, self.value@)
    }
}

/// The node and the text of each update.
pub open spec fn text_views(updates: Seq<TextUpdate>) -> Seq<(NodeId, Seq<char>)> {
    Seq::new(updates.len(), |i: int| updates[i]@)
}

/// The tab of a filter.
#[derive(Debug, Clone, Copy, PartialEq, Eq, Structural)]
pub struct FilterTabButton(pub Filter);

/// A filter tab with the looks of its button.
#[derive(Debug, Clone, Copy, PartialEq, Eq, Structural)]
pub struct FilterTabNode {
    pub tab: FilterTabButton,
    pub behavior: ButtonBehavior,
}

/// A filter tab whose interaction state changed in this frame.
#[derive(Debug, Clone, Copy, PartialEq, Eq, Structural)]
pub struct FilterTabChange {
    pub tab: FilterTabButton,
    pub interaction: Interaction,
}

/// What the count label says of `count` items: "1 item left", and "items"
/// for every other count.
pub open spec fn count_text(count: nat) -> Seq<char> {
    if count == 1 {
        decimal(count) + " item left"@
    } else {
        decimal(count) + " items left"@
    }
}

/// The text of the count label for `count` items.
pub fn count_label(count: usize) -> (text: String)
    ensures
        text@ == count_text(count as nat),
{
    let mut text = decimal_string(count);
    if count != 1 {
        text.append(" items left");
    } else {
        text.append(" item left");
    }
    text
}

/// The updates for the labels that do not show `count` yet, in their order.
pub open spec fn count_updates(labels: Seq<CountLabelNode>, count: usize) -> Seq<
    (NodeId, Seq<char>),
>
    decreases labels.len(),
{
    if labels.len() == 0 {
        Seq::empty()
    } else if labels.last().label.0 != Some(count) {
        count_updates(labels.drop_last(), count).push(
            (labels.last().entity, count_text(count as nat)),
        )
    } else {
        count_updates(labels.drop_last(), count)
    }
}

/// Labels that show the count already get no update.
pub proof fn lemma_count_label_is_stable(labels: Seq<CountLabelNode>, count: usize)
    requires
        forall|i: int| 0 <= i < labels.len() ==> (#[trigger] labels[i]).label.0 == Some(count),
    ensures
        count_updates(labels, count) == Seq::<(NodeId, Seq<char>)>::empty(),
    decreases labels.len(),
{
    if labels.len() > 0 {
        let front = labels.drop_last();
        assert forall|i: int| 0 <= i < front.len() implies (#[trigger] front[i]).label.0 == Some(
            count,
        ) by {
            assert(front[i] == labels[i]);
        }
        lemma_count_label_is_stable(front, count);
        assert(labels[labels.len() - 1].label.0 == Some(count));
    }
}

/// Brings the count labels up to date. A label gets a new text only where
/// the count differs from the one it showed last; afterwards every label
/// remembers `count`.
pub fn count_label_system(count: usize, labels: &mut Vec<CountLabelNode>) -> (updates: Vec<
    TextUpdate,
>)
    ensures
        final(labels)@.len() == old(labels)@.len(),
        forall|i: int|
            0 <= i < old(labels)@.len() ==> #[trigger] final(labels)@[i] == (CountLabelNode {
                entity: old(labels)@[i].entity,
                label: CountLabel(Some(count)),
            }),
        text_views(updates@) == count_updates(old(labels)@, count),
{
    let mut updates: Vec<TextUpdate> = Vec::new();
    let mut i: usize = 0;
    while i < labels.len()
        invariant
            i <= labels@.len(),
            labels@.len() == old(labels)@.len(),
            forall|k: int|
                0 <= k < i ==> #[trigger] labels@[k] == (CountLabelNode {
                    entity: old(labels)@[k].entity,
                    label: CountLabel(Some(count)),
                }),
            forall|k: int| i <= k < labels@.len() ==> #[trigger] labels@[k] == old(labels)@[k],
            text_views(updates@) == count_updates(old(labels)@.take(i as int), count),
        decreases labels@.len() - i,
    {
        proof {
            assert(old(labels)@.take(i + 1).drop_last() == old(labels)@.take(i as int));
        }
        let should_update = match labels[i].label.0 {
            Some(prior_count) => prior_count != count,
            None => true,
        };
        if should_update {
            let ghost shown = text_views(updates@);
            updates.push(TextUpdate { node: labels[i].entity, value: count_label(count) });
            labels[i].label = CountLabel(Some(count));
            assert(text_views(updates@) =~= shown.push(
                (old(labels)@[i as int].entity, count_text(count as nat)),
            ));
        }
        i = i + 1;
    }
    proof {
        assert(old(labels)@.take(i as int) == old(labels)@);
    }
    updates
}

/// Some control of `changes` was clicked.
pub open spec fn any_clicked(changes: Seq<Interaction>) -> bool {
    exists|i: int| 0 <= i < changes.len() && #[trigger] changes[i] == Interaction::Clicked
}

/// Whether some control of `changes` was clicked.
pub fn was_any_clicked(changes: &Vec<Interaction>) -> (clicked: bool)
    ensures
        clicked == any_clicked(changes@),
{
    let mut i: usize = 0;
    while i < changes.len()
        invariant
            i <= changes@.len(),
            forall|k: int| 0 <= k < i ==> #[trigger] changes@[k] != Interaction::Clicked,
        decreases changes@.len() - i,
    {
        if changes[i] == Interaction::Clicked {
            return true;
        }
        i = i + 1;
    }
    false
}

/// Removes the completed items when the control that clears them was
/// clicked; `changes` holds the new state of each such control that changed
/// in this frame. Returns how many items were removed.
pub fn on_clear_completed_click(changes: &Vec<Interaction>, store: &mut TodoStore) -> (removed:
    usize)
    requires
        old(store).wf(),
    ensures
        final(store).wf(),
        final(store).next_id() == old(store).next_id(),
        final(store).filter_value() == old(store).filter_value(),
        any_clicked(changes@) ==> final(store)@ == old(store)@.filter(
            |item: TodoItem| !item.todo.completed,
        ),
        !any_clicked(changes@) ==> final(store)@ == old(store)@,
        removed == old(store)@.len() - final(store)@.len(),
{
    if was_any_clicked(changes) {
        store.delete_all_completed()
    } else {
        0
    }
}

/// The filter after the tab clicks of a frame: that of the tab clicked
/// last, and `current` where none was clicked.
pub open spec fn filter_after(changes: Seq<FilterTabChange>, current: Filter) -> Filter
    decreases changes.len(),
{
    if changes.len() == 0 {
        current
    } else if changes.last().interaction == Interaction::Clicked {
        changes.last().tab.0
    } else {
        filter_after(changes.drop_last(), current)
    }
}

/// Sets the filter of the store to that of the tab that was clicked last
/// in this frame, if one was clicked.
pub fn on_filter_tab_button_click(changes: &Vec<FilterTabChange>, store: &mut TodoStore)
    ensures
        final(store).filter_value() == filter_after(changes@, old(store).filter_value()),
        final(store)@ == old(store)@,
        final(store).next_id() == old(store).next_id(),
{
    let mut i: usize = 0;
    while i < changes.len()
        invariant
            i <= changes@.len(),
            store.filter_value() == filter_after(
                changes@.take(i as int),
                old(store).filter_value(),
            ),
            store@ == old(store)@,
            store.next_id() == old(store).next_id(),
        decreases changes@.len() - i,
    {
        proof {
            assert(changes@.take(i + 1).drop_last() == changes@.take(i as int));
        }
        if changes[i].interaction == Interaction::Clicked {
            store.set_filter(changes[i].tab.0);
        }
        i = i + 1;
    }
    proof {
        assert(changes@.take(i as int) == changes@);
    }
}

/// The tab with its button active exactly if it is the tab of `filter`.
pub open spec fn tab_under(tab: FilterTabNode, filter: Filter) -> FilterTabNode {
    FilterTabNode {
        tab: tab.tab,
        behavior: ButtonBehavior {
            normal: tab.behavior.normal,
            pressed: tab.behavior.pressed,
            hover: tab.behavior.hover,
            active: tab.behavior.active,
            is_active: tab.tab.0 == filter,
        },
    }
}

/// Marks the button of the tab of `filter` as active and every other tab
/// button as inactive.
pub fn set_filter_tab_active_system(filter: Filter, tabs: &mut Vec<FilterTabNode>)
    ensures
        final(tabs)@.len() == old(tabs)@.len(),
        forall|i: int|
            0 <= i < old(tabs)@.len() ==> #[trigger] final(tabs)@[i] == tab_under(
                old(tabs)@[i],
                filter,
            ),
{
    let mut i: usize = 0;
    while i < tabs.len()
        invariant
            i <= tabs@.len(),
            tabs@.len() == old(tabs)@.len(),
            forall|k: int| 0 <= k < i ==> #[trigger] tabs@[k] == tab_under(old(tabs)@[k], filter),
            forall|k: int| i <= k < tabs@.len() ==> #[trigger] tabs@[k] == old(tabs)@[k],
        decreases tabs@.len() - i,
    {
        tabs[i].behavior.is_active = tabs[i].tab.0 == filter;
        i = i + 1;
    }
}

} // verus!
