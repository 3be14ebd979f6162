//! What the core asks of the scene graph. Requests are queued and the host
//! applies them after the pass that made them, so that no pass sees a node
//! vanish under it.

use vstd::prelude::*;
use crate::ids::{NodeId, TodoId};

verus! {

/// A request to the host. The host knows how each kind of node looks; the
/// core only says which node it wants, where, and for what.
#[derive(Debug, Clone, Copy, PartialEq, Eq, Structural)]
pub enum Command {
    /// Create the body of the todo list as the node `body` under
    /// `container`, with the container of the rows in it as the node `list`.
    SpawnBody { body: NodeId, list: NodeId, container: NodeId },
    /// Create a row for the item `todo` as the node `row` under `list`.
    SpawnRow { row: NodeId, list: NodeId, todo: TodoId },
    /// Create a delete button under the row `row`.
    SpawnClearButton { row: NodeId },
    /// Create the control that adds a todo under the input node `input`.
    SpawnAddButton { input: NodeId },
    /// Create the placeholder label under the input node `input`.
    SpawnPlaceholder { input: NodeId },
    /// Destroy `node` and everything under it.
    DespawnRecursive { node: NodeId },
}

/// The queue of requests of a pass, and the source of handles for the nodes
/// that the core creates.
pub struct NodeContext {
    cmds: Vec<Command>,
    next_node: u32,
}

impl View for NodeContext {
    type V = Seq<Command>;

    closed spec fn view(&self) -> Seq<Command> {
        self.cmds@
    }
}

impl NodeContext {
    /// The number of the handle that the next new node gets.
    pub closed spec fn next_node(&self) -> u32 {
        self.next_node
    }

    /// Handles for `count` more nodes are left.
    pub open spec fn has_room(&self, count: nat) -> bool {
        self.next_node() + count <= u32::MAX
    }

    /// An empty queue whose first new node gets the handle `first_node`.
    pub fn new(first_node: u32) -> (ctx: NodeContext)
        ensures
            ctx@ == Seq::<Command>::empty(),
            ctx.next_node() == first_node,
    {
        NodeContext { cmds: Vec::new(), next_node: first_node }
    }

    /// How many more nodes can get a handle.
    pub fn room(&self) -> (count: u32)
        ensures
            count == u32::MAX - self.next_node(),
    {
        u32::MAX - self.next_node
    }

    /// Hands out the handle of a new node. No handle is handed out twice.
    pub fn spawn_node(&mut self) -> (node: NodeId)
        requires
            old(self).has_room(1),
        ensures
            node == NodeId(old(self).next_node()),
            final(self).next_node() == old(self).next_node() + 1,
            final(self)@ == old(self)@,
    {
        let node = NodeId(self.next_node);
        self.next_node = self.next_node + 1;
        node
    }

    /// Queues a request.
    pub fn push(&mut self, command: Command)
        ensures
            final(self)@ == old(self)@.push(command),
            final(self).next_node() == old(self).next_node(),
    {
        self.cmds.push(command);
    }

    /// The queued requests, oldest first.
    pub fn commands(&self) -> (cmds: &Vec<Command>)
        ensures
            cmds@ == self@,
    {
        &self.cmds
    }

    /// Hands the queued requests over and leaves the queue empty.
    pub fn take_commands(&mut self) -> (cmds: Vec<Command>)
        ensures
            cmds@ == old(self)@,
            final(self)@ == Seq::<Command>::empty(),
            final(self).next_node() == old(self).next_node(),
    {
        let mut cmds: Vec<Command> = Vec::new();
        std::mem::swap(&mut self.cmds, &mut cmds);
        cmds
    }
}

} // verus!
