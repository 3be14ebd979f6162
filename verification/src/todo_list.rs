//! The row reconciler: it keeps one row node for each visible todo item.
//!
//! Rows are reused by position. The row at position `i` shows the `i`-th
//! visible item, whatever it showed before; rows are created at the end where
//! the pool is too short and destroyed at the end where it is too long. No
//! row is matched to an item by the item's handle, so a removal in the middle
//! rebinds the rows behind it and destroys the last one.

use vstd::prelude::*;
use crate::commands::{Command, NodeContext};
use crate::ids::{NodeId, TodoId};
use crate::todo_body::{body_after, body_appears, body_commands, on_todo_added, PriorTodos};
use crate::todo_row::{RowNode, TodoRow};

verus! {

/// The items that the rows are bound to, in pool order.
pub open spec fn bound_todos(rows: Seq<RowNode>) -> Seq<TodoId> {
    Seq::new(rows.len(), |i: int| rows[i].binding.0)
}

/// How many rows a pass creates: as many as the pool is short of, if there
/// is a list container to put them in.
pub open spec fn spawned_rows(rows: nat, visible: nat, list: Option<NodeId>) -> nat {
    if list is Some && visible > rows {
        (visible - rows) as nat
    } else {
        0
    }
}

/// The pool after a pass. A kept row stays the same node and is marked for
/// a new text if the pass gave it another item; the new rows get the
/// handles from `first_new` on.
pub open spec fn reconciled_rows(
    rows: Seq<RowNode>,
    visible: Seq<TodoId>,
    list: Option<NodeId>,
    first_new: int,
) -> Seq<RowNode> {
    Seq::new(
        if list is Some || visible.len() <= rows.len() {
            visible.len()
        } else {
            rows.len()
        },
        |i: int|
            if i < rows.len() {
                RowNode {
                    row: rows[i].row,
                    binding: TodoRow(visible[i]),
                    dirty: rows[i].dirty || rows[i].binding.0 != visible[i],
                }
            } else {
                RowNode {
                    row: NodeId((first_new + (i - rows.len())) as u32),
                    binding: TodoRow(visible[i]),
                    dirty: true,
                }
            },
    )
}

/// The requests of a pass: one creation for each missing row, or one
/// destruction for each row too many, in pool order.
pub open spec fn reconcile_commands(
    rows: Seq<RowNode>,
    visible: Seq<TodoId>,
    list: Option<NodeId>,
    first_new: int,
) -> Seq<Command> {
    if visible.len() >= rows.len() {
        match list {
            Some(parent) => Seq::new(
                (visible.len() - rows.len()) as nat,
                |j: int|
                    Command::SpawnRow {
                        row: NodeId((first_new + j) as u32),
                        list: parent,
                        todo: visible[rows.len() + j],
                    },
            ),
            None => Seq::empty(),
        }
    } else {
        Seq::new(
            (rows.len() - visible.len()) as nat,
            |j: int| Command::DespawnRecursive { node: rows[visible.len() + j].row },
        )
    }
}

/// Convergence: with a list container to hold new rows, or with rows
/// enough, one pass leaves exactly one row for each visible item, bound to
/// the items in their order, and no two rows to one item.
pub proof fn lemma_reconciler_converges(
    rows: Seq<RowNode>,
    visible: Seq<TodoId>,
    list: Option<NodeId>,
    first_new: int,
)
    requires
        visible.no_duplicates(),
        list is Some || visible.len() <= rows.len(),
    ensures
        reconciled_rows(rows, visible, list, first_new).len() == visible.len(),
        bound_todos(reconciled_rows(rows, visible, list, first_new)) == visible,
        bound_todos(reconciled_rows(rows, visible, list, first_new)).no_duplicates(),
{
    assert(bound_todos(reconciled_rows(rows, visible, list, first_new)) =~= visible);
}

/// A pass over a pool that shows the visible items already creates and
/// destroys nothing and marks no row.
pub proof fn lemma_reconciler_settles(rows: Seq<RowNode>, list: Option<NodeId>, first_new: int)
    ensures
        reconciled_rows(rows, bound_todos(rows), list, first_new) == rows,
        reconcile_commands(rows, bound_todos(rows), list, first_new) == Seq::<Command>::empty(),
{
    assert(reconciled_rows(rows, bound_todos(rows), list, first_new) =~= rows);
    assert(reconcile_commands(rows, bound_todos(rows), list, first_new) =~= Seq::<Command>::empty());
}

/// Brings the pool of rows in line with the visible items.
///
/// `visible` holds the handles of the items to show, in list order; `list`
/// is the container of the rows, if the scene has one. Rows are reused by
/// position: row `i` is bound to item `i`. Missing rows are requested under
/// `list` and enter the pool at once; without a list container none is
/// requested. Rows beyond the last item leave the pool, and their
/// destruction is requested.
pub fn sync_todo_system(
    ctx: &mut NodeContext,
    visible: &Vec<TodoId>,
    list: Option<NodeId>,
    rows: &mut Vec<RowNode>,
)
    requires
        old(ctx).has_room(spawned_rows(old(rows)@.len(), visible@.len(), list)),
    ensures
        final(rows)@ == reconciled_rows(
            old(rows)@,
            visible@,
            list,
            old(ctx).next_node() as int,
        ),
        final(ctx)@ == old(ctx)@ + reconcile_commands(
            old(rows)@,
            visible@,
            list,
            old(ctx).next_node() as int,
        ),
        final(ctx).next_node() == old(ctx).next_node() + spawned_rows(
            old(rows)@.len(),
            visible@.len(),
            list,
        ),
{
    let ghost before = rows@;
    let ghost first_new = ctx.next_node() as int;
    let ghost after = reconciled_rows(before, visible@, list, first_new);
    let ghost requests = reconcile_commands(before, visible@, list, first_new);
    let kept = rows.len();
    let wanted = visible.len();

    let mut i: usize = 0;
    while i < wanted && i < kept
        invariant
            kept == before.len(),
            wanted == visible@.len(),
            rows@.len() == kept,
            i <= wanted,
            i <= kept,
            forall|k: int| 0 <= k < i ==> #[trigger] rows@[k] == after[k],
            forall|k: int| i <= k < kept ==> #[trigger] rows@[k] == before[k],
            after == reconciled_rows(before, visible@, list, first_new),
        decreases wanted - i,
    {
        let todo = visible[i];
        if rows[i].binding.0 != todo {
            rows[i].binding = TodoRow(todo);
            rows[i].dirty = true;
        }
        i = i + 1;
    }

    if wanted > kept {
        match list {
            Some(parent) => {
                let mut i: usize = kept;
                while i < wanted
                    invariant
                        kept == before.len(),
                        wanted == visible@.len(),
                        kept <= i <= wanted,
                        list == Some(parent),
                        first_new == old(ctx).next_node(),
                        first_new + (wanted - kept) <= u32::MAX,
                        ctx.next_node() == first_new + (i - kept),
                        rows@.len() == i,
                        forall|k: int| 0 <= k < i ==> #[trigger] rows@[k] == after[k],
                        after == reconciled_rows(before, visible@, list, first_new),
                        requests == reconcile_commands(before, visible@, list, first_new),
                        ctx@ == old(ctx)@ + requests.take(i - kept),
                    decreases wanted - i,
                {
                    let todo = visible[i];
                    let row = ctx.spawn_node();
                    ctx.push(Command::SpawnRow { row: row, list: parent, todo: todo });
                    rows.push(RowNode { row: row, binding: TodoRow(todo), dirty: true });
                    proof {
                        assert(requests.take(i + 1 - kept) =~= requests.take(i - kept).push(
                            requests[i - kept],
                        ));
                        assert(ctx@ =~= old(ctx)@ + requests.take(i + 1 - kept));
                    }
                    i = i + 1;
                }
                proof {
                    assert(requests.take(wanted - kept) =~= requests);
                }
            },
            None => {
                proof {
                    assert(ctx@ =~= old(ctx)@ + requests);
                }
            },
        }
    } else {
        let mut i: usize = wanted;
        while i < kept
            invariant
                kept == before.len(),
                wanted == visible@.len(),
                wanted <= i <= kept,
                rows@.len() == kept,
                ctx.next_node() == first_new,
                forall|k: int| 0 <= k < wanted ==> #[trigger] rows@[k] == after[k],
                forall|k: int| wanted <= k < kept ==> #[trigger] rows@[k] == before[k],
                requests == reconcile_commands(before, visible@, list, first_new),
                ctx@ == old(ctx)@ + requests.take(i - wanted),
            decreases kept - i,
        {
            ctx.push(Command::DespawnRecursive { node: rows[i].row });
            proof {
                assert(requests.take(i + 1 - wanted) =~= requests.take(i - wanted).push(
                    requests[i - wanted],
                ));
                assert(ctx@ =~= old(ctx)@ + requests.take(i + 1 - wanted));
            }
            i = i + 1;
        }
        rows.truncate(wanted);
        proof {
            assert(requests.take(kept - wanted) =~= requests);
        }
    }
    proof {
        assert(rows@ =~= after);
    }
}

/// The container that a pass puts new rows in: that of the body as the pass
/// finds it or creates it.
pub open spec fn list_of_pass(
    prior: PriorTodos,
    live: usize,
    container: Option<NodeId>,
    first_new: u32,
) -> Option<NodeId> {
    if live > 0 {
        body_after(prior, live, container, first_new).list_node()
    } else {
        prior.list_node()
    }
}

/// The handle of the first row that a pass creates: a new body takes two
/// handles before it.
pub open spec fn first_row_of_pass(
    prior: PriorTodos,
    live: usize,
    container: Option<NodeId>,
    first_new: u32,
) -> int {
    if body_appears(prior, live, container) {
        first_new + 2
    } else {
        first_new as int
    }
}

/// Looks after the body of the list and its rows in one pass, in an order
/// that never asks for a node under a node that is gone or not there yet.
///
/// While there are items the body comes first, so that new rows find their
/// container. When the last item has gone the rows go first and the body
/// after them.
pub fn sync_list_system(
    ctx: &mut NodeContext,
    prior: &mut PriorTodos,
    live: usize,
    visible: &Vec<TodoId>,
    container: Option<NodeId>,
    rows: &mut Vec<RowNode>,
)
    requires
        first_row_of_pass(*old(prior), live, container, old(ctx).next_node()) + spawned_rows(
            old(rows)@.len(),
            visible@.len(),
            list_of_pass(*old(prior), live, container, old(ctx).next_node()),
        ) <= u32::MAX,
    ensures
        *final(prior) == body_after(*old(prior), live, container, old(ctx).next_node()),
        final(rows)@ == reconciled_rows(
            old(rows)@,
            visible@,
            list_of_pass(*old(prior), live, container, old(ctx).next_node()),
            first_row_of_pass(*old(prior), live, container, old(ctx).next_node()),
        ),
        final(ctx).next_node() == first_row_of_pass(
            *old(prior),
            live,
            container,
            old(ctx).next_node(),
        ) + spawned_rows(
            old(rows)@.len(),
            visible@.len(),
            list_of_pass(*old(prior), live, container, old(ctx).next_node()),
        ),
        live > 0 ==> final(ctx)@ == old(ctx)@ + body_commands(
            *old(prior),
            live,
            container,
            old(ctx).next_node(),
        ) + reconcile_commands(
            old(rows)@,
            visible@,
            list_of_pass(*old(prior), live, container, old(ctx).next_node()),
            first_row_of_pass(*old(prior), live, container, old(ctx).next_node()),
        ),
        live == 0 ==> final(ctx)@ == old(ctx)@ + reconcile_commands(
            old(rows)@,
            visible@,
            list_of_pass(*old(prior), live, container, old(ctx).next_node()),
            first_row_of_pass(*old(prior), live, container, old(ctx).next_node()),
        ) + body_commands(*old(prior), live, container, old(ctx).next_node()),
{
    if live > 0 {
        on_todo_added(ctx, prior, live, container);
        sync_todo_system(ctx, visible, prior.list(), rows);
    } else {
        sync_todo_system(ctx, visible, prior.list(), rows);
        on_todo_added(ctx, prior, live, container);
    }
}

} // verus!
