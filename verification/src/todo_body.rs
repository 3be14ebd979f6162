//! The body of the list, which exists while there are todo items.

use vstd::prelude::*;
use crate::commands::{Command, NodeContext};
use crate::ids::NodeId;

verus! {

/// The nodes of the body of the list.
#[derive(Debug, Clone, Copy, PartialEq, Eq, Structural)]
pub struct TodoBody {
    pub body: NodeId,
    /// The container of the rows.
    pub list: NodeId,
}

/// Whether there were todo items when the body was last looked after: the
/// body of the list, while it exists.
#[derive(Debug, Clone, Copy, PartialEq, Eq, Structural)]
pub struct PriorTodos(pub Option<TodoBody>);

impl PriorTodos {
    /// The container of the rows, while the body exists.
    pub open spec fn list_node(self) -> Option<NodeId> {
        match self.0 {
            Some(body) => Some(body.list),
            None => None,
        }
    }

    /// The container of the rows, while the body exists.
    pub fn list(&self) -> (list: Option<NodeId>)
        ensures
            list == self.list_node(),
    {
        match self.0 {
            Some(body) => Some(body.list),
            None => None,
        }
    }
}

/// The first item has arrived and there is a place for the body.
pub open spec fn body_appears(prior: PriorTodos, live: usize, container: Option<NodeId>) -> bool {
    prior.0 is None && live > 0 && container is Some
}

/// The last item has gone.
pub open spec fn body_vanishes(prior: PriorTodos, live: usize) -> bool {
    prior.0 is Some && live == 0
}

/// The body after a pass; a new body gets the handles from `first_new` on.
pub open spec fn body_after(
    prior: PriorTodos,
    live: usize,
    container: Option<NodeId>,
    first_new: u32,
) -> PriorTodos {
    if body_appears(prior, live, container) {
        PriorTodos(
            Some(TodoBody { body: NodeId(first_new), list: NodeId((first_new + 1) as u32) }),
        )
    } else if body_vanishes(prior, live) {
        PriorTodos(None)
    } else {
        prior
    }
}

/// The requests of a pass.
pub open spec fn body_commands(
    prior: PriorTodos,
    live: usize,
    container: Option<NodeId>,
    first_new: u32,
) -> Seq<Command> {
    if body_appears(prior, live, container) {
        seq![
            Command::SpawnBody {
                body: NodeId(first_new),
                list: NodeId((first_new + 1) as u32),
                container: container.unwrap(),
            },
        ]
    } else if body_vanishes(prior, live) {
        seq![Command::DespawnRecursive { node: prior.0.unwrap().body }]
    } else {
        Seq::empty()
    }
}

/// Creates the body of the list when the first todo item arrives and
/// removes it when the last one has gone.
///
/// `live` is the number of todo items, `container` the node that holds the
/// body, if the scene has one. Without a container nothing is created, and
/// the next pass tries again.
pub fn on_todo_added(
    ctx: &mut NodeContext,
    prior: &mut PriorTodos,
    live: usize,
    container: Option<NodeId>,
)
    requires
        body_appears(*old(prior), live, container) ==> old(ctx).has_room(2),
    ensures
        *final(prior) == body_after(*old(prior), live, container, old(ctx).next_node()),
        final(ctx)@ == old(ctx)@ + body_commands(
            *old(prior),
            live,
            container,
            old(ctx).next_node(),
        ),
        final(ctx).next_node() == old(ctx).next_node() + (if body_appears(
            *old(prior),
            live,
            container,
        ) {
            2int
        } else {
            0int
        }),
{
    match prior.0 {
        None => {
            if live > 0 {
                match container {
                    Some(parent) => {
                        let body = ctx.spawn_node();
                        let list = ctx.spawn_node();
                        ctx.push(Command::SpawnBody { body: body, list: list, container: parent });
                        *prior = PriorTodos(Some(TodoBody { body: body, list: list }));
                    },
                    None => {},
                }
            }
        },
        Some(body) => {
            if live == 0 {
                ctx.push(Command::DespawnRecursive { node: body.body });
                *prior = PriorTodos(None);
            }
        },
    }
    proof {
        assert(ctx@ =~= old(ctx)@ + body_commands(
            *old(prior),
            live,
            container,
            old(ctx).next_node(),
        ));
    }
}

} // verus!
