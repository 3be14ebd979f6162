//! The focus state machine: at most one node holds the focus, and every
//! change of it is announced once.

use vstd::prelude::*;
use crate::ids::NodeId;
use crate::interaction::{left_button_pressed, left_pressed, MouseButtonInput, NodeClickEvent};

verus! {

/// A node took the focus.
#[derive(Debug, Clone, Copy, PartialEq, Eq, Structural)]
pub struct FocusEvent {
    pub focused: NodeId,
}

/// A node gave the focus up.
#[derive(Debug, Clone, Copy, PartialEq, Eq, Structural)]
pub struct BlurEvent {
    pub blurred: NodeId,
}

/// The focus flag of a node that can hold the focus.
#[derive(Debug, Clone, Copy, PartialEq, Eq, Structural)]
pub struct Focusable {
    pub has_focus: bool,
}

impl Focusable {
    /// Whether the node holds the focus.
    pub fn has_focus(&self) -> (r: bool)
        ensures
            r == self.has_focus,
    {
        self.has_focus
    }
}

impl Default for Focusable {
    fn default() -> (r: Focusable)
        ensures
            !r.has_focus,
    {
        Focusable { has_focus: false }
    }
}

/// A node that can hold the focus, with its flag.
#[derive(Debug, Clone, Copy, PartialEq, Eq, Structural)]
pub struct FocusableNode {
    pub entity: NodeId,
    pub focusable: Focusable,
}

/// What a frame's input does to the focus.
#[derive(Debug, Clone, Copy, PartialEq, Eq, Structural)]
pub enum FocusChange {
    /// Nothing: no focusable node was clicked and no button went down.
    Keep,
    /// The pointer was pressed away from every focusable node: whoever holds
    /// the focus loses it.
    Clear,
    /// A focusable node was clicked and holds the focus from now on.
    Move(NodeId),
}

/// `entity` is one of the nodes.
pub open spec fn is_focusable(nodes: Seq<FocusableNode>, entity: NodeId) -> bool {
    exists|i: int| 0 <= i < nodes.len() && (#[trigger] nodes[i]).entity == entity
}

/// No node stands in the table twice.
pub open spec fn entities_distinct(nodes: Seq<FocusableNode>) -> bool {
    forall|i: int, j: int|
        #![trigger nodes[i], nodes[j]]
        0 <= i < j < nodes.len() ==> nodes[i].entity != nodes[j].entity
}

/// No two nodes hold the focus.
pub open spec fn single_focus(nodes: Seq<FocusableNode>) -> bool {
    forall|i: int, j: int|
        #![trigger nodes[i], nodes[j]]
        0 <= i < j < nodes.len() ==> !(nodes[i].focusable.has_focus
            && nodes[j].focusable.has_focus)
}

/// How many nodes hold the focus.
pub open spec fn focused_count(nodes: Seq<FocusableNode>) -> nat
    decreases nodes.len(),
{
    if nodes.len() == 0 {
        0
    } else if nodes.last().focusable.has_focus {
        focused_count(nodes.drop_last()) + 1
    } else {
        focused_count(nodes.drop_last())
    }
}

/// Some node holds the focus.
pub open spec fn any_focused(nodes: Seq<FocusableNode>) -> bool {
    exists|i: int| 0 <= i < nodes.len() && (#[trigger] nodes[i]).focusable.has_focus
}

/// The node that holds the focus, if one does.
pub open spec fn focused_node(nodes: Seq<FocusableNode>) -> Option<NodeId> {
    if any_focused(nodes) {
        Some(
            nodes[choose|i: int|
                0 <= i < nodes.len() && (#[trigger] nodes[i]).focusable.has_focus].entity,
        )
    } else {
        None
    }
}

/// The focusable node that was clicked last, if any was clicked.
pub open spec fn focus_target(clicks: Seq<NodeClickEvent>, nodes: Seq<FocusableNode>) -> Option<
    NodeId,
>
    decreases clicks.len(),
{
    if clicks.len() == 0 {
        None
    } else if is_focusable(nodes, clicks.last().clicked) {
        Some(clicks.last().clicked)
    } else {
        focus_target(clicks.drop_last(), nodes)
    }
}

/// What the clicks and button events of a frame do to the focus.
pub open spec fn focus_change(
    clicks: Seq<NodeClickEvent>,
    mouse: Seq<MouseButtonInput>,
    nodes: Seq<FocusableNode>,
) -> FocusChange {
    match focus_target(clicks, nodes) {
        Some(node) => FocusChange::Move(node),
        None => if left_pressed(mouse) {
            FocusChange::Clear
        } else {
            FocusChange::Keep
        },
    }
}

/// The nodes with the focus on `to` and on nobody else.
pub open spec fn focus_moved(nodes: Seq<FocusableNode>, to: Option<NodeId>) -> Seq<FocusableNode> {
    Seq::new(
        nodes.len(),
        |i: int|
            FocusableNode {
                entity: nodes[i].entity,
                focusable: Focusable { has_focus: to == Some(nodes[i].entity) },
            },
    )
}

/// The node that a change gives the focus to.
pub open spec fn focus_goal(change: FocusChange) -> Option<NodeId> {
    match change {
        FocusChange::Move(node) => Some(node),
        _ => None,
    }
}

/// The nodes after a change of focus.
pub open spec fn focus_applied(nodes: Seq<FocusableNode>, change: FocusChange) -> Seq<
    FocusableNode,
> {
    match change {
        FocusChange::Keep => nodes,
        _ => focus_moved(nodes, focus_goal(change)),
    }
}

/// The focus events of a change: one for the node that takes the focus,
/// unless it holds it already.
pub open spec fn focus_emitted(nodes: Seq<FocusableNode>, change: FocusChange) -> Seq<FocusEvent> {
    match change {
        FocusChange::Move(node) => if is_focusable(nodes, node) && focused_node(nodes) != Some(
            node,
        ) {
            seq![FocusEvent { focused: node }]
        } else {
            Seq::empty()
        },
        _ => Seq::empty(),
    }
}

/// The blur events of a change: one for the node that held the focus, unless
/// it keeps it.
pub open spec fn blur_emitted(nodes: Seq<FocusableNode>, change: FocusChange) -> Seq<BlurEvent> {
    match (change, focused_node(nodes)) {
        (FocusChange::Keep, _) => Seq::empty(),
        (_, None) => Seq::empty(),
        (_, Some(holder)) => if focus_goal(change) != Some(holder) {
            seq![BlurEvent { blurred: holder }]
        } else {
            Seq::empty()
        },
    }
}

/// In a table without double entries and with a single focus, a focused
/// node is the node that holds the focus.
pub proof fn lemma_focused_node(nodes: Seq<FocusableNode>, i: int)
    requires
        single_focus(nodes),
        0 <= i < nodes.len(),
        nodes[i].focusable.has_focus,
    ensures
        focused_node(nodes) == Some(nodes[i].entity),
{
    let c = choose|c: int| 0 <= c < nodes.len() && (#[trigger] nodes[c]).focusable.has_focus;
    if c < i {
        assert(!(nodes[c].focusable.has_focus && nodes[i].focusable.has_focus));
    } else if i < c {
        assert(!(nodes[i].focusable.has_focus && nodes[c].focusable.has_focus));
    }
}

/// With a single focus the number of focused nodes is zero or one.
pub proof fn lemma_single_focus_count(nodes: Seq<FocusableNode>)
    requires
        single_focus(nodes),
    ensures
        focused_count(nodes) <= 1,
        focused_count(nodes) == 1 <==> any_focused(nodes),
    decreases nodes.len(),
{
    if nodes.len() > 0 {
        let front = nodes.drop_last();
        assert forall|i: int, j: int|
            #![trigger front[i], front[j]]
            0 <= i < j < front.len() implies !(front[i].focusable.has_focus
            && front[j].focusable.has_focus) by {
            assert(!(nodes[i].focusable.has_focus && nodes[j].focusable.has_focus));
        }
        lemma_single_focus_count(front);
        if nodes.last().focusable.has_focus {
            if any_focused(front) {
                let i = choose|i: int| 0 <= i < front.len() && (#[trigger] front[i]).focusable.has_focus;
                assert(!(nodes[i].focusable.has_focus && nodes[nodes.len() - 1].focusable.has_focus));
            }
            assert(nodes[nodes.len() - 1].focusable.has_focus);
        } else {
            if any_focused(front) {
                let i = choose|i: int| 0 <= i < front.len() && (#[trigger] front[i]).focusable.has_focus;
                assert(nodes[i].focusable.has_focus);
            }
            if any_focused(nodes) {
                let i = choose|i: int| 0 <= i < nodes.len() && (#[trigger] nodes[i]).focusable.has_focus;
                assert(front[i].focusable.has_focus);
            }
        }
    }
}

/// Single focus: whatever the input of a frame does, afterwards at most one
/// node holds the focus.
pub proof fn lemma_focus_stays_single(nodes: Seq<FocusableNode>, change: FocusChange)
    requires
        entities_distinct(nodes),
        single_focus(nodes),
    ensures
        entities_distinct(focus_applied(nodes, change)),
        single_focus(focus_applied(nodes, change)),
        focused_count(focus_applied(nodes, change)) <= 1,
{
    let after = focus_applied(nodes, change);
    assert forall|i: int, j: int|
        #![trigger after[i], after[j]]
        0 <= i < j < after.len() implies after[i].entity != after[j].entity && !(
    after[i].focusable.has_focus && after[j].focusable.has_focus) by {
        assert(nodes[i].entity != nodes[j].entity);
        assert(!(nodes[i].focusable.has_focus && nodes[j].focusable.has_focus));
    }
    lemma_single_focus_count(after);
}

/// Edge triggering: a click on the node that holds the focus changes
/// nothing and announces nothing. So of two clicks in a row on one node the
/// second is silent.
pub proof fn lemma_click_on_focused_is_silent(nodes: Seq<FocusableNode>, node: NodeId)
    requires
        entities_distinct(nodes),
        single_focus(nodes),
        focused_node(nodes) == Some(node),
    ensures
        focus_applied(nodes, FocusChange::Move(node)) == nodes,
        focus_emitted(nodes, FocusChange::Move(node)) == Seq::<FocusEvent>::empty(),
        blur_emitted(nodes, FocusChange::Move(node)) == Seq::<BlurEvent>::empty(),
{
    let after = focus_applied(nodes, FocusChange::Move(node));
    let c = choose|c: int| 0 <= c < nodes.len() && (#[trigger] nodes[c]).focusable.has_focus;
    assert forall|i: int| 0 <= i < nodes.len() implies after[i] == nodes[i] by {
        if nodes[i].focusable.has_focus {
            lemma_focused_node(nodes, i);
        } else if nodes[i].entity == node {
            if i < c {
                assert(nodes[i].entity != nodes[c].entity);
            } else if c < i {
                assert(nodes[c].entity != nodes[i].entity);
            }
        }
    }
    assert(after =~= nodes);
}

/// After a click on a focusable node that node holds the focus, so that a
/// second click on it is silent.
pub proof fn lemma_clicked_node_holds_focus(nodes: Seq<FocusableNode>, node: NodeId)
    requires
        entities_distinct(nodes),
        is_focusable(nodes, node),
    ensures
        focused_node(focus_applied(nodes, FocusChange::Move(node))) == Some(node),
        entities_distinct(focus_applied(nodes, FocusChange::Move(node))),
        single_focus(focus_applied(nodes, FocusChange::Move(node))),
{
    let after = focus_applied(nodes, FocusChange::Move(node));
    let k = choose|k: int| 0 <= k < nodes.len() && (#[trigger] nodes[k]).entity == node;
    assert(after[k].focusable.has_focus);
    assert forall|i: int, j: int|
        #![trigger after[i], after[j]]
        0 <= i < j < after.len() implies after[i].entity != after[j].entity && !(
    after[i].focusable.has_focus && after[j].focusable.has_focus) by {
        assert(nodes[i].entity != nodes[j].entity);
    }
    lemma_focused_node(after, k);
}

/// Of two clicks in a row on one focusable node, the second changes
/// nothing and announces nothing.
pub proof fn lemma_second_click_is_silent(nodes: Seq<FocusableNode>, node: NodeId)
    requires
        entities_distinct(nodes),
        is_focusable(nodes, node),
    ensures
        ({
            let once = focus_applied(nodes, FocusChange::Move(node));
            &&& focus_applied(once, FocusChange::Move(node)) == once
            &&& focus_emitted(once, FocusChange::Move(node)) == Seq::<FocusEvent>::empty()
            &&& blur_emitted(once, FocusChange::Move(node)) == Seq::<BlurEvent>::empty()
        }),
{
    lemma_clicked_node_holds_focus(nodes, node);
    lemma_click_on_focused_is_silent(focus_applied(nodes, FocusChange::Move(node)), node);
}

/// The nodes that can hold the focus, each once, with their flags.
pub struct FocusTable {
    nodes: Vec<FocusableNode>,
}

impl View for FocusTable {
    type V = Seq<FocusableNode>;

    closed spec fn view(&self) -> Seq<FocusableNode> {
        self.nodes@
    }
}

impl FocusTable {
    /// No node stands in the table twice, and at most one holds the focus.
    pub open spec fn wf(&self) -> bool {
        entities_distinct(self@) && single_focus(self@)
    }

    /// A table without nodes.
    pub fn new() -> (table: FocusTable)
        ensures
            table.wf(),
            table@.len() == 0,
    {
        FocusTable { nodes: Vec::new() }
    }

    /// The number of nodes.
    pub fn len(&self) -> (n: usize)
        ensures
            n == self@.len(),
    {
        self.nodes.len()
    }

    /// Where `entity` stands in the table, if it does.
    fn find(&self, entity: NodeId) -> (found: Option<usize>)
        ensures
            found is Some <==> is_focusable(self@, entity),
            found matches Some(i) ==> i < self@.len() && self@[i as int].entity == entity,
    {
        let mut i: usize = 0;
        while i < self.nodes.len()
            invariant
                i <= self.nodes@.len(),
                forall|k: int| 0 <= k < i ==> (#[trigger] self.nodes@[k]).entity != entity,
            decreases self.nodes@.len() - i,
        {
            if self.nodes[i].entity == entity {
                return Some(i);
            }
            i = i + 1;
        }
        None
    }

    /// The nodes of the table, in their order.
    pub fn entities(&self) -> (nodes: Vec<NodeId>)
        ensures
            nodes@ == Seq::new(self@.len(), |i: int| self@[i].entity),
    {
        let mut nodes: Vec<NodeId> = Vec::new();
        let mut i: usize = 0;
        while i < self.nodes.len()
            invariant
                i <= self.nodes@.len(),
                nodes@ == Seq::new(i as nat, |k: int| self@[k].entity),
            decreases self.nodes@.len() - i,
        {
            nodes.push(self.nodes[i].entity);
            assert(nodes@ =~= Seq::new((i + 1) as nat, |k: int| self@[k].entity));
            i = i + 1;
        }
        nodes
    }

    /// Whether `entity` can hold the focus.
    pub fn contains(&self, entity: NodeId) -> (found: bool)
        ensures
            found == is_focusable(self@, entity),
    {
        self.find(entity).is_some()
    }

    /// Takes `entity` in, without the focus, unless the table holds it
    /// already. Returns whether it was added.
    pub fn insert(&mut self, entity: NodeId) -> (added: bool)
        requires
            old(self).wf(),
        ensures
            final(self).wf(),
            added == !is_focusable(old(self)@, entity),
            added ==> final(self)@ == old(self)@.push(
                FocusableNode { entity: entity, focusable: Focusable { has_focus: false } },
            ),
            !added ==> final(self)@ == old(self)@,
    {
        if self.contains(entity) {
            false
        } else {
            self.nodes.push(FocusableNode { entity: entity, focusable: Focusable::default() });
            true
        }
    }

    /// Takes `entity` out, with the focus if it held it. Returns whether the
    /// table held it.
    pub fn remove(&mut self, entity: NodeId) -> (removed: bool)
        requires
            old(self).wf(),
        ensures
            final(self).wf(),
            removed == is_focusable(old(self)@, entity),
            !is_focusable(final(self)@, entity),
            final(self)@ == old(self)@.filter(|n: FocusableNode| n.entity != entity),
    {
        let ghost keep = |n: FocusableNode| n.entity != entity;
        match self.find(entity) {
            Some(i) => {
                self.nodes.remove(i);
                proof {
                    assert forall|j: int| 0 <= j < self.nodes@.len() implies (
                    #[trigger] self.nodes@[j]).entity != entity by {
                        if j < i {
                            assert(old(self)@[j].entity != old(self)@[i as int].entity);
                        } else {
                            assert(old(self)@[i as int].entity != old(self)@[j + 1].entity);
                        }
                    }
                    let before = old(self)@;
                    let head = before.take(i as int);
                    let rest = before.skip(i + 1);
                    assert(before =~= head.push(before[i as int]) + rest);
                    Seq::filter_distributes_over_add(head.push(before[i as int]), rest, keep);
                    head.lemma_filter_push(before[i as int], keep);
                    lemma_filter_all(head, keep);
                    lemma_filter_all(rest, keep);
                    assert(self.nodes@ =~= head + rest);
                }
                true
            },
            None => {
                proof {
                    lemma_filter_all(self@, keep);
                }
                false
            },
        }
    }

    /// Whether `entity` holds the focus.
    pub fn has_focus(&self, entity: NodeId) -> (r: bool)
        requires
            self.wf(),
        ensures
            r == (focused_node(self@) == Some(entity)),
    {
        match self.focused() {
            Some(holder) => holder == entity,
            None => false,
        }
    }

    /// The node that holds the focus, if one does.
    pub fn focused(&self) -> (holder: Option<NodeId>)
        requires
            self.wf(),
        ensures
            holder == focused_node(self@),
    {
        let mut i: usize = 0;
        while i < self.nodes.len()
            invariant
                i <= self.nodes@.len(),
                self.wf(),
                forall|k: int| 0 <= k < i ==> !(#[trigger] self.nodes@[k]).focusable.has_focus,
            decreases self.nodes@.len() - i,
        {
            if self.nodes[i].focusable.has_focus() {
                proof {
                    lemma_focused_node(self@, i as int);
                }
                return Some(self.nodes[i].entity);
            }
            i = i + 1;
        }
        None
    }

    /// Gives the focus to `to` and takes it from every other node,
    /// announcing each node whose flag changes.
    fn move_focus(
        &mut self,
        change: FocusChange,
        focus_events: &mut Vec<FocusEvent>,
        blur_events: &mut Vec<BlurEvent>,
    )
        requires
            old(self).wf(),
            change != FocusChange::Keep,
        ensures
            final(self).wf(),
            final(self)@ == focus_applied(old(self)@, change),
            final(focus_events)@ == old(focus_events)@ + focus_emitted(old(self)@, change),
            final(blur_events)@ == old(blur_events)@ + blur_emitted(old(self)@, change),
    {
        let ghost before = self@;
        let ghost to = focus_goal(change);
        let mut i: usize = 0;
        while i < self.nodes.len()
            invariant
                before == old(self)@,
                entities_distinct(before),
                single_focus(before),
                change != FocusChange::Keep,
                to == focus_goal(change),
                i <= self.nodes@.len(),
                self.nodes@.len() == before.len(),
                forall|k: int| 0 <= k < i ==> #[trigger] self.nodes@[k] == focus_moved(before, to)[k],
                forall|k: int| i <= k < before.len() ==> #[trigger] self.nodes@[k] == before[k],
                focus_events@ == old(focus_events)@ + (if exists|k: int|
                    0 <= k < i && to == Some((#[trigger] before[k]).entity)
                        && !before[k].focusable.has_focus {
                    seq![FocusEvent { focused: to.unwrap() }]
                } else {
                    Seq::empty()
                }),
                blur_events@ == old(blur_events)@ + (if exists|k: int|
                    0 <= k < i && to != Some((#[trigger] before[k]).entity)
                        && before[k].focusable.has_focus {
                    seq![BlurEvent { blurred: focused_node(before).unwrap() }]
                } else {
                    Seq::empty()
                }),
            decreases self.nodes@.len() - i,
        {
            let entity = self.nodes[i].entity;
            let is_focused = match change {
                FocusChange::Move(node) => entity == node,
                _ => false,
            };
            proof {
                if before[i as int].focusable.has_focus {
                    lemma_focused_node(before, i as int);
                }
                assert forall|k: int| 0 <= k < i implies !(to == Some((#[trigger] before[k]).entity)
                    && is_focused) by {
                    assert(before[k].entity != before[i as int].entity);
                }
                assert forall|k: int| 0 <= k < i implies !((#[trigger] before[k]).focusable.has_focus
                    && before[i as int].focusable.has_focus) by {
                    assert(!(before[k].focusable.has_focus && before[i as int].focusable.has_focus));
                }
            }
            let ghost fe = focus_events@;
            let ghost be = blur_events@;
            set_focus(entity, &mut self.nodes[i].focusable, is_focused, focus_events, blur_events);
            proof {
                if is_focused && !before[i as int].focusable.has_focus {
                    assert(to == Some(before[i as int].entity));
                    assert(focus_events@ =~= old(focus_events)@ + seq![
                        FocusEvent { focused: to.unwrap() },
                    ]);
                } else {
                    assert(focus_events@ == fe);
                }
                if !is_focused && before[i as int].focusable.has_focus {
                    assert(to != Some(before[i as int].entity));
                    assert(blur_events@ =~= old(blur_events)@ + seq![
                        BlurEvent { blurred: focused_node(before).unwrap() },
                    ]);
                } else {
                    assert(blur_events@ == be);
                }
            }
            i = i + 1;
        }
        proof {
            assert(self.nodes@ =~= focus_moved(before, to));
            lemma_focus_stays_single(before, change);
            // The node that takes the focus.
            if exists|k: int|
                0 <= k < before.len() && to == Some((#[trigger] before[k]).entity)
                    && !before[k].focusable.has_focus {
                let k = choose|k: int|
                    0 <= k < before.len() && to == Some((#[trigger] before[k]).entity)
                        && !before[k].focusable.has_focus;
                if any_focused(before) {
                    let c = choose|c: int|
                        0 <= c < before.len() && (#[trigger] before[c]).focusable.has_focus;
                    if c < k {
                        assert(before[c].entity != before[k].entity);
                    } else {
                        assert(before[k].entity != before[c].entity);
                    }
                }
            } else {
                if let FocusChange::Move(node) = change {
                    if is_focusable(before, node) {
                        let k = choose|k: int|
                            0 <= k < before.len() && (#[trigger] before[k]).entity == node;
                        assert(before[k].focusable.has_focus);
                        lemma_focused_node(before, k);
                    }
                }
            }
            // The node that gives it up.
            if exists|k: int|
                0 <= k < before.len() && to != Some((#[trigger] before[k]).entity)
                    && before[k].focusable.has_focus {
                let k = choose|k: int|
                    0 <= k < before.len() && to != Some((#[trigger] before[k]).entity)
                        && before[k].focusable.has_focus;
                lemma_focused_node(before, k);
            } else {
                if any_focused(before) {
                    let c = choose|c: int|
                        0 <= c < before.len() && (#[trigger] before[c]).focusable.has_focus;
                    assert(to == Some(before[c].entity));
                }
            }
        }
    }
}

/// A filter that every element passes keeps the sequence.
proof fn lemma_filter_all(nodes: Seq<FocusableNode>, keep: spec_fn(FocusableNode) -> bool)
    requires
        forall|i: int| 0 <= i < nodes.len() ==> keep(#[trigger] nodes[i]),
    ensures
        nodes.filter(keep) == nodes,
    decreases nodes.len(),
{
    reveal(Seq::filter);
    if nodes.len() > 0 {
        lemma_filter_all(nodes.drop_last(), keep);
        assert(nodes.drop_last().push(nodes.last()) =~= nodes);
    }
}

/// Sets the focus flag of one node and announces the change: a focus event
/// where the node takes the focus, a blur event where it gives it up, and
/// nothing where the flag stays as it is.
pub fn set_focus(
    entity: NodeId,
    focusable: &mut Focusable,
    is_focused: bool,
    focus_events: &mut Vec<FocusEvent>,
    blur_events: &mut Vec<BlurEvent>,
)
    ensures
        final(focusable).has_focus == is_focused,
        final(focus_events)@ == if is_focused && !old(focusable).has_focus {
            old(focus_events)@.push(FocusEvent { focused: entity })
        } else {
            old(focus_events)@
        },
        final(blur_events)@ == if !is_focused && old(focusable).has_focus {
            old(blur_events)@.push(BlurEvent { blurred: entity })
        } else {
            old(blur_events)@
        },
{
    let had_focus = focusable.has_focus();
    if is_focused != had_focus && is_focused {
        focus_events.push(FocusEvent { focused: entity });
    }
    if is_focused != had_focus && !is_focused {
        blur_events.push(BlurEvent { blurred: entity });
    }
    focusable.has_focus = is_focused;
}

/// What the input of a frame does to the focus: it moves to the focusable
/// node that was clicked last; without such a click a press of the left
/// button clears it; otherwise it stays.
pub fn decide_focus(
    node_clicks: &Vec<NodeClickEvent>,
    mouse_clicks: &Vec<MouseButtonInput>,
    focusables: &FocusTable,
) -> (change: FocusChange)
    ensures
        change == focus_change(node_clicks@, mouse_clicks@, focusables@),
        change matches FocusChange::Move(node) ==> is_focusable(focusables@, node),
{
    let mouse_clicked = left_button_pressed(mouse_clicks);
    let mut target: Option<NodeId> = None;
    let mut i: usize = 0;
    while i < node_clicks.len()
        invariant
            i <= node_clicks@.len(),
            target == focus_target(node_clicks@.take(i as int), focusables@),
            target matches Some(node) ==> is_focusable(focusables@, node),
        decreases node_clicks@.len() - i,
    {
        let clicked = node_clicks[i].clicked;
        proof {
            assert(node_clicks@.take(i + 1).drop_last() == node_clicks@.take(i as int));
        }
        if focusables.contains(clicked) {
            target = Some(clicked);
        }
        i = i + 1;
    }
    proof {
        assert(node_clicks@.take(i as int) == node_clicks@);
    }
    match target {
        Some(node) => FocusChange::Move(node),
        None => if mouse_clicked {
            FocusChange::Clear
        } else {
            FocusChange::Keep
        },
    }
}

/// Runs the focus state machine for one frame.
///
/// A click on a focusable node gives that node the focus and takes it from
/// the node that held it. A press of the left button with no click on a
/// focusable node takes the focus from whoever holds it. Anything else, a
/// release outside for one, leaves the focus alone. Every node whose flag
/// changes is announced once, in `focus_events` or in `blur_events`.
pub fn focusable_click_system(
    node_clicks: &Vec<NodeClickEvent>,
    mouse_clicks: &Vec<MouseButtonInput>,
    focusables: &mut FocusTable,
    focus_events: &mut Vec<FocusEvent>,
    blur_events: &mut Vec<BlurEvent>,
)
    requires
        old(focusables).wf(),
    ensures
        final(focusables).wf(),
        final(focusables)@ == focus_applied(
            old(focusables)@,
            focus_change(node_clicks@, mouse_clicks@, old(focusables)@),
        ),
        final(focus_events)@ == old(focus_events)@ + focus_emitted(
            old(focusables)@,
            focus_change(node_clicks@, mouse_clicks@, old(focusables)@),
        ),
        final(blur_events)@ == old(blur_events)@ + blur_emitted(
            old(focusables)@,
            focus_change(node_clicks@, mouse_clicks@, old(focusables)@),
        ),
{
    let change = decide_focus(node_clicks, mouse_clicks, focusables);
    match change {
        FocusChange::Keep => {
            assert(focus_events@ =~= old(focus_events)@ + Seq::<FocusEvent>::empty());
            assert(blur_events@ =~= old(blur_events)@ + Seq::<BlurEvent>::empty());
        },
        _ => {
            focusables.move_focus(change, focus_events, blur_events);
        },
    }
}

} // verus!
