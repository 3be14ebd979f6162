//! The input node: it shows a placeholder until it takes the focus, and the
//! control that adds a todo while it holds it.

use vstd::prelude::*;
use crate::commands::{Command, NodeContext};
use crate::domain::{Todo, TodoItem, MAX_TODOS, UNASSIGNED};
use crate::messages::is_message;
use crate::store::TodoStore;
use crate::focus::{BlurEvent, FocusEvent};
use crate::ids::{NodeId, TodoId};
use crate::interaction::Interaction;

verus! {

/// Marks the input node.
#[derive(Debug, Clone, Copy, PartialEq, Eq, Structural)]
pub struct TodoInputNode {}

/// Marks the control that adds a todo.
#[derive(Debug, Clone, Copy, PartialEq, Eq, Structural)]
pub struct AddTodoButton;

/// What a child of an input node is.
#[derive(Debug, Clone, Copy, PartialEq, Eq, Structural)]
pub enum InputChildKind {
    /// A text node: the placeholder label.
    Text,
    /// The control that adds a todo.
    AddTodoButton,
    /// Anything else.
    Other,
}

/// A child of an input node.
#[derive(Debug, Clone, Copy, PartialEq, Eq, Structural)]
pub struct InputChild {
    pub parent: NodeId,
    pub entity: NodeId,
    pub kind: InputChildKind,
}

/// The destruction of each child of `parent` of the kind `kind`, in the
/// order of the children.
pub open spec fn child_commands(children: Seq<InputChild>, parent: NodeId, kind: InputChildKind) -> Seq<
    Command,
>
    decreases children.len(),
{
    if children.len() == 0 {
        Seq::empty()
    } else if children.last().parent == parent && children.last().kind == kind {
        child_commands(children.drop_last(), parent, kind).push(
            Command::DespawnRecursive { node: children.last().entity },
        )
    } else {
        child_commands(children.drop_last(), parent, kind)
    }
}

/// What the input node `node` asks for when it takes the focus: the end of
/// its placeholder, and the control that adds a todo. A node that is no
/// input node asks for nothing.
pub open spec fn focus_commands(node: NodeId, inputs: Seq<NodeId>, children: Seq<InputChild>) -> Seq<
    Command,
> {
    if inputs.contains(node) {
        child_commands(children, node, InputChildKind::Text).push(
            Command::SpawnAddButton { input: node },
        )
    } else {
        Seq::empty()
    }
}

/// What the input node `node` asks for when it gives the focus up: the end
/// of the control that adds a todo, and a placeholder.
pub open spec fn blur_commands(node: NodeId, inputs: Seq<NodeId>, children: Seq<InputChild>) -> Seq<
    Command,
> {
    if inputs.contains(node) {
        child_commands(children, node, InputChildKind::AddTodoButton).push(
            Command::SpawnPlaceholder { input: node },
        )
    } else {
        Seq::empty()
    }
}

/// The requests for the focus events of a frame. An event that is
/// delivered again for the same node asks for nothing more.
pub open spec fn all_focus_commands(
    events: Seq<FocusEvent>,
    inputs: Seq<NodeId>,
    children: Seq<InputChild>,
) -> Seq<Command>
    decreases events.len(),
{
    if events.len() == 0 {
        Seq::empty()
    } else if events.drop_last().contains(events.last()) {
        all_focus_commands(events.drop_last(), inputs, children)
    } else {
        all_focus_commands(events.drop_last(), inputs, children) + focus_commands(
            events.last().focused,
            inputs,
            children,
        )
    }
}

/// The requests for the blur events of a frame. An event that is delivered
/// again for the same node asks for nothing more.
pub open spec fn all_blur_commands(
    events: Seq<BlurEvent>,
    inputs: Seq<NodeId>,
    children: Seq<InputChild>,
) -> Seq<Command>
    decreases events.len(),
{
    if events.len() == 0 {
        Seq::empty()
    } else if events.drop_last().contains(events.last()) {
        all_blur_commands(events.drop_last(), inputs, children)
    } else {
        all_blur_commands(events.drop_last(), inputs, children) + blur_commands(
            events.last().blurred,
            inputs,
            children,
        )
    }
}

/// Whether `node` is among `nodes`.
fn holds_node(nodes: &Vec<NodeId>, node: NodeId) -> (found: bool)
    ensures
        found == nodes@.contains(node),
{
    let mut i: usize = 0;
    while i < nodes.len()
        invariant
            i <= nodes@.len(),
            forall|k: int| 0 <= k < i ==> nodes@[k] != node,
        decreases nodes@.len() - i,
    {
        if nodes[i] == node {
            return true;
        }
        i = i + 1;
    }
    false
}

/// Queues the destruction of each child of `parent` of the kind `kind`.
fn despawn_children(
    ctx: &mut NodeContext,
    children: &Vec<InputChild>,
    parent: NodeId,
    kind: InputChildKind,
)
    ensures
        final(ctx)@ == old(ctx)@ + child_commands(children@, parent, kind),
        final(ctx).next_node() == old(ctx).next_node(),
{
    let mut k: usize = 0;
    proof {
        assert(old(ctx)@ + child_commands(children@.take(0), parent, kind) =~= old(ctx)@);
    }
    while k < children.len()
        invariant
            k <= children@.len(),
            ctx@ == old(ctx)@ + child_commands(children@.take(k as int), parent, kind),
            ctx.next_node() == old(ctx).next_node(),
        decreases children@.len() - k,
    {
        proof {
            assert(children@.take(k + 1).drop_last() == children@.take(k as int));
        }
        if children[k].parent == parent && children[k].kind == kind {
            ctx.push(Command::DespawnRecursive { node: children[k].entity });
            assert(ctx@ =~= old(ctx)@ + child_commands(children@.take(k + 1), parent, kind));
        }
        k = k + 1;
    }
    proof {
        assert(children@.take(k as int) == children@);
    }
}

/// Whether `event` is among the first `end` of `events`.
fn focus_seen(events: &Vec<FocusEvent>, end: usize, event: FocusEvent) -> (found: bool)
    requires
        end <= events@.len(),
    ensures
        found == events@.take(end as int).contains(event),
{
    let mut i: usize = 0;
    while i < end
        invariant
            i <= end <= events@.len(),
            forall|k: int| 0 <= k < i ==> events@[k] != event,
        decreases end - i,
    {
        if events[i].focused == event.focused {
            assert(events@.take(end as int)[i as int] == event);
            return true;
        }
        i = i + 1;
    }
    false
}

/// Whether `event` is among the first `end` of `events`.
fn blur_seen(events: &Vec<BlurEvent>, end: usize, event: BlurEvent) -> (found: bool)
    requires
        end <= events@.len(),
    ensures
        found == events@.take(end as int).contains(event),
{
    let mut i: usize = 0;
    while i < end
        invariant
            i <= end <= events@.len(),
            forall|k: int| 0 <= k < i ==> events@[k] != event,
        decreases end - i,
    {
        if events[i].blurred == event.blurred {
            assert(events@.take(end as int)[i as int] == event);
            return true;
        }
        i = i + 1;
    }
    false
}

/// Swaps the placeholder of an input node and the control that adds a todo
/// as the node takes and gives up the focus.
///
/// `inputs` holds the input nodes and `children` their children. For each
/// input node that took the focus, the text nodes under it are destroyed
/// and the control is created; for each that gave the focus up, the controls
/// under it are destroyed and a placeholder is created. The focus events are
/// handled first. An event that is delivered twice is handled once.
pub fn on_todo_input_focus(
    ctx: &mut NodeContext,
    focus_events: &Vec<FocusEvent>,
    blur_events: &Vec<BlurEvent>,
    inputs: &Vec<NodeId>,
    children: &Vec<InputChild>,
)
    ensures
        final(ctx)@ == old(ctx)@ + all_focus_commands(focus_events@, inputs@, children@)
            + all_blur_commands(blur_events@, inputs@, children@),
        final(ctx).next_node() == old(ctx).next_node(),
{
    let mut i: usize = 0;
    proof {
        assert(old(ctx)@ + all_focus_commands(focus_events@.take(0), inputs@, children@)
            =~= old(ctx)@);
    }
    while i < focus_events.len()
        invariant
            i <= focus_events@.len(),
            ctx@ == old(ctx)@ + all_focus_commands(
                focus_events@.take(i as int),
                inputs@,
                children@,
            ),
            ctx.next_node() == old(ctx).next_node(),
        decreases focus_events@.len() - i,
    {
        let ghost queued = ctx@;
        let event = focus_events[i];
        proof {
            assert(focus_events@.take(i + 1).drop_last() == focus_events@.take(i as int));
        }
        if !focus_seen(focus_events, i, event) && holds_node(inputs, event.focused) {
            despawn_children(ctx, children, event.focused, InputChildKind::Text);
            ctx.push(Command::SpawnAddButton { input: event.focused });
            assert(ctx@ =~= queued + focus_commands(event.focused, inputs@, children@));
        }
        proof {
            assert(ctx@ =~= old(ctx)@ + all_focus_commands(
                focus_events@.take(i + 1),
                inputs@,
                children@,
            ));
        }
        i = i + 1;
    }
    proof {
        assert(focus_events@.take(i as int) == focus_events@);
    }
    let ghost focused = ctx@;
    let mut i: usize = 0;
    proof {
        assert(focused + all_blur_commands(blur_events@.take(0), inputs@, children@) =~= focused);
    }
    while i < blur_events.len()
        invariant
            i <= blur_events@.len(),
            ctx@ == focused + all_blur_commands(blur_events@.take(i as int), inputs@, children@),
            ctx.next_node() == old(ctx).next_node(),
        decreases blur_events@.len() - i,
    {
        let ghost queued = ctx@;
        let event = blur_events[i];
        proof {
            assert(blur_events@.take(i + 1).drop_last() == blur_events@.take(i as int));
        }
        if !blur_seen(blur_events, i, event) && holds_node(inputs, event.blurred) {
            despawn_children(ctx, children, event.blurred, InputChildKind::AddTodoButton);
            ctx.push(Command::SpawnPlaceholder { input: event.blurred });
            assert(ctx@ =~= queued + blur_commands(event.blurred, inputs@, children@));
        }
        proof {
            assert(ctx@ =~= focused + all_blur_commands(
                blur_events@.take(i + 1),
                inputs@,
                children@,
            ));
        }
        i = i + 1;
    }
    proof {
        assert(blur_events@.take(i as int) == blur_events@);
    }
}

/// How many controls of `changes` were clicked.
pub open spec fn click_count(changes: Seq<Interaction>) -> nat
    decreases changes.len(),
{
    if changes.len() == 0 {
        0
    } else if changes.last() == Interaction::Clicked {
        click_count(changes.drop_last()) + 1
    } else {
        click_count(changes.drop_last())
    }
}

/// The first changes hold no more clicks than all of them.
proof fn lemma_click_count_prefix(changes: Seq<Interaction>, end: int)
    requires
        0 <= end <= changes.len(),
    ensures
        click_count(changes.take(end)) <= click_count(changes),
    decreases changes.len() - end,
{
    if end < changes.len() {
        assert(changes.take(end + 1).drop_last() == changes.take(end));
        lemma_click_count_prefix(changes, end + 1);
    } else {
        assert(changes.take(end) == changes);
    }
}

/// How many controls of `changes` were clicked.
pub fn count_clicks(changes: &Vec<Interaction>) -> (count: usize)
    ensures
        count == click_count(changes@),
{
    let mut count: usize = 0;
    let mut i: usize = 0;
    while i < changes.len()
        invariant
            i <= changes@.len(),
            count == click_count(changes@.take(i as int)),
            count <= i,
        decreases changes@.len() - i,
    {
        proof {
            assert(changes@.take(i + 1).drop_last() == changes@.take(i as int));
        }
        if changes[i] == Interaction::Clicked {
            count = count + 1;
        }
        i = i + 1;
    }
    proof {
        assert(changes@.take(i as int) == changes@);
    }
    count
}

/// `item` is what a click on the control adds: an open item without a place
/// in the list, marked as changed, with one of the messages as its label.
pub open spec fn is_added_todo(item: TodoItem, id: TodoId) -> bool {
    &&& item.id == id
    &&& is_message(item.todo.label@)
    &&& !item.todo.completed
    &&& item.todo.ordinal == UNASSIGNED
    &&& item.changed
}

/// Adds a todo item with a message picked at random for each click on the
/// control that adds a todo. `changes` holds the new state of each such
/// control that changed in this frame. Returns the handles of the new items.
pub fn on_add_button_clicked(changes: &Vec<Interaction>, store: &mut TodoStore) -> (added: Vec<TodoId>)
    requires
        old(store).wf(),
        click_count(changes@) <= old(store).free(),
    ensures
        final(store).wf(),
        final(store).filter_value() == old(store).filter_value(),
        added@.len() == click_count(changes@),
        final(store).next_id() == old(store).next_id() + added@.len(),
        final(store)@.len() == old(store)@.len() + added@.len(),
        final(store)@.take(old(store)@.len() as int) == old(store)@,
        forall|k: int|
            0 <= k < added@.len() ==> (#[trigger] added@[k]) == TodoId(
                (old(store).next_id() + k) as u32,
            ) && is_added_todo(final(store)@[old(store)@.len() + k], added@[k]),
{
    let mut added: Vec<TodoId> = Vec::new();
    let ghost before = store@;
    let mut i: usize = 0;
    while i < changes.len()
        invariant
            i <= changes@.len(),
            before == old(store)@,
            store.wf(),
            store.filter_value() == old(store).filter_value(),
            before.len() + click_count(changes@) <= MAX_TODOS,
            old(store).next_id() + click_count(changes@) <= u32::MAX,
            added@.len() == click_count(changes@.take(i as int)),
            added@.len() <= i,
            store.next_id() == old(store).next_id() + added@.len(),
            store@.len() == before.len() + added@.len(),
            store@.take(before.len() as int) == before,
            forall|k: int|
                0 <= k < added@.len() ==> (#[trigger] added@[k]) == TodoId(
                    (old(store).next_id() + k) as u32,
                ) && is_added_todo(store@[before.len() + k], added@[k]),
        decreases changes@.len() - i,
    {
        proof {
            assert(changes@.take(i + 1).drop_last() == changes@.take(i as int));
        }
        if changes[i] == Interaction::Clicked {
            proof {
                lemma_click_count_prefix(changes@, i + 1);
            }
            let label = Todo::random_message();
            let ghost held = store@;
            let id = store.add_item(label);
            added.push(id);
            proof {
                assert(store@.take(before.len() as int) =~= held.take(before.len() as int));
                assert forall|k: int| 0 <= k < added@.len() implies (#[trigger] added@[k])
                    == TodoId((old(store).next_id() + k) as u32) && is_added_todo(
                    store@[before.len() + k],
                    added@[k],
                ) by {
                    if k < added@.len() - 1 {
                        assert(store@[before.len() + k] == held[before.len() + k]);
                    }
                }
            }
        }
        i = i + 1;
    }
    proof {
        assert(changes@.take(i as int) == changes@);
    }
    added
}

} // verus!
