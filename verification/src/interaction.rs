//! The click normalizer: raw pointer input in, one click per node out.

use vstd::prelude::*;
use crate::ids::NodeId;

verus! {

/// What the pointer does to a node.
#[derive(Debug, Clone, Copy, PartialEq, Eq, Structural)]
pub enum Interaction {
    Clicked,
    Hovered,
    /// The pointer is elsewhere.
    Idle,
}

impl Default for Interaction {
    fn default() -> (r: Interaction)
        ensures
            r == Interaction::Idle,
    {
        Interaction::Idle
    }
}

/// A node whose interaction state changed in this frame, with its new
/// state.
#[derive(Debug, Clone, Copy, PartialEq, Eq, Structural)]
pub struct InteractionChange {
    pub node: NodeId,
    pub interaction: Interaction,
}

/// A node was clicked in this frame.
#[derive(Debug, Clone, Copy, PartialEq, Eq, Structural)]
pub struct NodeClickEvent {
    pub clicked: NodeId,
}

/// A button of the pointer device.
#[derive(Debug, Clone, Copy, PartialEq, Eq, Structural)]
pub enum MouseButton {
    Left,
    Right,
    Middle,
    Other(u8),
}

/// Whether a button went down or up.
#[derive(Debug, Clone, Copy, PartialEq, Eq, Structural)]
pub enum ElementState {
    Pressed,
    Released,
}

/// A raw button event of the pointer device.
#[derive(Debug, Clone, Copy, PartialEq, Eq, Structural)]
pub struct MouseButtonInput {
    pub button: MouseButton,
    pub state: ElementState,
}

/// Some change of `changes` turned `node` into the clicked state.
pub open spec fn was_clicked(changes: Seq<InteractionChange>, node: NodeId) -> bool {
    exists|i: int|
        0 <= i < changes.len() && (#[trigger] changes[i]).node == node && changes[i].interaction
            == Interaction::Clicked
}

/// The nodes that `changes` turned into the clicked state, each once, in the
/// order in which they were first clicked.
pub open spec fn clicked_nodes(changes: Seq<InteractionChange>) -> Seq<NodeClickEvent>
    decreases changes.len(),
{
    if changes.len() == 0 {
        Seq::empty()
    } else {
        let earlier = clicked_nodes(changes.drop_last());
        let event = NodeClickEvent { clicked: changes.last().node };
        if changes.last().interaction == Interaction::Clicked && !earlier.contains(event) {
            earlier.push(event)
        } else {
            earlier
        }
    }
}

/// The left button went down in some event of `events`.
pub open spec fn left_pressed(events: Seq<MouseButtonInput>) -> bool {
    exists|i: int|
        0 <= i < events.len() && (#[trigger] events[i]).button == MouseButton::Left
            && events[i].state == ElementState::Pressed
}

/// The click events hold each clicked node, once, and nothing else.
pub proof fn lemma_clicked_nodes(changes: Seq<InteractionChange>)
    ensures
        clicked_nodes(changes).no_duplicates(),
        clicked_nodes(changes).len() <= changes.len(),
        forall|node: NodeId|
            clicked_nodes(changes).contains(NodeClickEvent { clicked: node }) <==> #[trigger] was_clicked(
                changes,
                node,
            ),
    decreases changes.len(),
{
    if changes.len() > 0 {
        let front = changes.drop_last();
        let earlier = clicked_nodes(front);
        let last = changes.last();
        let event = NodeClickEvent { clicked: last.node };
        lemma_clicked_nodes(front);
        assert forall|node: NodeId|
            clicked_nodes(changes).contains(NodeClickEvent { clicked: node }) <==> #[trigger] was_clicked(
                changes,
                node,
            ) by {
            let e = NodeClickEvent { clicked: node };
            if was_clicked(changes, node) {
                let i = choose|i: int|
                    0 <= i < changes.len() && (#[trigger] changes[i]).node == node
                        && changes[i].interaction == Interaction::Clicked;
                if i < front.len() {
                    assert(front[i] == changes[i]);
                    assert(was_clicked(front, node));
                    let k = choose|k: int| 0 <= k < earlier.len() && earlier[k] == e;
                    assert(clicked_nodes(changes)[k] == e);
                } else {
                    if earlier.contains(e) {
                        let k = choose|k: int| 0 <= k < earlier.len() && earlier[k] == e;
                        assert(clicked_nodes(changes)[k] == e);
                    } else {
                        assert(clicked_nodes(changes)[earlier.len() as int] == e);
                    }
                }
            }
            if clicked_nodes(changes).contains(e) {
                let k = choose|k: int|
                    0 <= k < clicked_nodes(changes).len() && clicked_nodes(changes)[k] == e;
                if k < earlier.len() {
                    assert(earlier[k] == e);
                    assert(was_clicked(front, node));
                    let i = choose|i: int|
                        0 <= i < front.len() && (#[trigger] front[i]).node == node
                            && front[i].interaction == Interaction::Clicked;
                    assert(changes[i] == front[i]);
                } else {
                    assert(changes[changes.len() - 1].node == node);
                }
            }
        }
    } else {
        assert forall|node: NodeId| !#[trigger] was_clicked(changes, node) by {}
    }
}

/// Turns the interaction changes of a frame into click events: one for each
/// node that changed into the clicked state, however often it is reported,
/// in the order in which the nodes were first clicked. A node that is still
/// held down from an earlier frame has no change and gets no event.
pub fn node_click_event_source(changes: &Vec<InteractionChange>) -> (events: Vec<NodeClickEvent>)
    ensures
        events@ == clicked_nodes(changes@),
        events@.no_duplicates(),
        forall|node: NodeId|
            events@.contains(NodeClickEvent { clicked: node }) <==> #[trigger] was_clicked(
                changes@,
                node,
            ),
{
    let mut events: Vec<NodeClickEvent> = Vec::new();
    let mut i: usize = 0;
    while i < changes.len()
        invariant
            i <= changes@.len(),
            events@ == clicked_nodes(changes@.take(i as int)),
        decreases changes@.len() - i,
    {
        let change = changes[i];
        proof {
            assert(changes@.take(i + 1).drop_last() == changes@.take(i as int));
        }
        match change.interaction {
            Interaction::Clicked => {
                let event = NodeClickEvent { clicked: change.node };
                if !holds_click(&events, event) {
                    events.push(event);
                }
            },
            _ => {},
        }
        i = i + 1;
    }
    proof {
        assert(changes@.take(i as int) == changes@);
        lemma_clicked_nodes(changes@);
    }
    events
}

/// Whether `event` is among `events`.
fn holds_click(events: &Vec<NodeClickEvent>, event: NodeClickEvent) -> (found: bool)
    ensures
        found == events@.contains(event),
{
    let mut i: usize = 0;
    while i < events.len()
        invariant
            i <= events@.len(),
            forall|k: int| 0 <= k < i ==> events@[k] != event,
        decreases events@.len() - i,
    {
        if events[i].clicked == event.clicked {
            return true;
        }
        i = i + 1;
    }
    false
}

/// Whether the left button went down in this frame.
pub fn left_button_pressed(events: &Vec<MouseButtonInput>) -> (pressed: bool)
    ensures
        pressed == left_pressed(events@),
{
    let mut i: usize = 0;
    while i < events.len()
        invariant
            i <= events@.len(),
            forall|k: int|
                0 <= k < i ==> !((#[trigger] events@[k]).button == MouseButton::Left
                    && events@[k].state == ElementState::Pressed),
        decreases events@.len() - i,
    {
        let e = events[i];
        if e.button == MouseButton::Left && e.state == ElementState::Pressed {
            return true;
        }
        i = i + 1;
    }
    false
}

} // verus!
