//! The rows of the list: what a row shows, and what the controls of a row do
//! to the item behind it.
//!
//! A row knows its item only through its binding. A binding whose item is
//! gone is skipped: the next pass of the reconciler rebinds or destroys the
//! row.

use vstd::prelude::*;
use vstd::string::*;
use crate::commands::{Command, NodeContext};
use crate::domain::{has_id, position_of, toggled, Todo, TodoItem};
use crate::store::TodoStore;
use crate::ids::{NodeId, TodoId};
use crate::interaction::Interaction;

verus! {

/// The binding of a row: the todo item that the row stands for.
#[derive(Debug, Clone, Copy, PartialEq, Eq, Structural)]
pub struct TodoRow(pub TodoId);

/// A row node of the pool.
#[derive(Debug, Clone, Copy, PartialEq, Eq, Structural)]
pub struct RowNode {
    pub row: NodeId,
    pub binding: TodoRow,
    /// Set while the texts of the row do not show the item it is bound to.
    pub dirty: bool,
}

/// A node whose interaction state changed in this frame: a row, or a button
/// of the row `row`.
#[derive(Debug, Clone, Copy, PartialEq, Eq, Structural)]
pub struct RowChange {
    pub row: NodeId,
    pub interaction: Interaction,
}

/// A delete button as the host holds it.
#[derive(Debug, Clone, Copy, PartialEq, Eq, Structural)]
pub struct ClearButtonNode {
    pub entity: NodeId,
    /// The row that the button belongs to.
    pub parent: NodeId,
    pub interaction: Interaction,
}

/// The new texts of a row: for its label and for its toggle button.
#[derive(Debug)]
pub struct RowText {
    pub row: NodeId,
    pub label: String,
    pub check: String,
}

impl View for RowText {
    type V = (NodeId, Seq<char>, Seq<char>);

    open spec fn view(&self) -> (NodeId, Seq<char>, Seq<char>) {
        (self.row, self.label@, self.check@)
    }
}

/// The row and the texts of each update.
pub open spec fn row_text_views(updates: Seq<RowText>) -> Seq<(NodeId, Seq<char>, Seq<char>)> {
    Seq::new(updates.len(), |i: int| updates[i]@)
}

/// What the toggle button of a row says.
pub open spec fn check_text(completed: bool) -> Seq<char> {
    if completed {
        " X "@
    } else {
        "   "@
    }
}

/// The texts of the row `row` for the item `todo`: the label of the item,
/// and the mark of its toggle button.
pub fn sync_row(row: NodeId, todo: &Todo) -> (text: RowText)
    ensures
        text@ == (row, todo.label@, check_text(todo.completed)),
{
    let check = if todo.completed {
        String::from_str(" X ")
    } else {
        String::from_str("   ")
    };
    RowText { row: row, label: todo.label.clone(), check: check }
}

/// The row has an item, and its texts are out of date: the row was bound
/// anew, or the item was written since the markers were cleared.
pub open spec fn needs_sync(row: RowNode, items: Seq<TodoItem>) -> bool {
    has_id(items, row.binding.0) && (row.dirty || items[position_of(
        items,
        row.binding.0,
    )].changed)
}

/// The row once its texts are up to date.
pub open spec fn synced(row: RowNode, items: Seq<TodoItem>) -> RowNode {
    if needs_sync(row, items) {
        RowNode { row: row.row, binding: row.binding, dirty: false }
    } else {
        row
    }
}

/// The new texts for the rows that need them, in pool order.
pub open spec fn row_updates(rows: Seq<RowNode>, items: Seq<TodoItem>) -> Seq<
    (NodeId, Seq<char>, Seq<char>),
>
    decreases rows.len(),
{
    if rows.len() == 0 {
        Seq::empty()
    } else if needs_sync(rows.last(), items) {
        let item = items[position_of(items, rows.last().binding.0)];
        row_updates(rows.drop_last(), items).push(
            (rows.last().row, item.todo.label@, check_text(item.todo.completed)),
        )
    } else {
        row_updates(rows.drop_last(), items)
    }
}

/// Rows that are up to date, over items that were not written, get no new
/// text.
pub proof fn lemma_row_sync_is_stable(rows: Seq<RowNode>, items: Seq<TodoItem>)
    requires
        forall|i: int| 0 <= i < rows.len() ==> !(#[trigger] rows[i]).dirty,
        forall|i: int| 0 <= i < items.len() ==> !(#[trigger] items[i]).changed,
    ensures
        row_updates(rows, items) == Seq::<(NodeId, Seq<char>, Seq<char>)>::empty(),
    decreases rows.len(),
{
    if rows.len() > 0 {
        let front = rows.drop_last();
        assert forall|i: int| 0 <= i < front.len() implies !(#[trigger] front[i]).dirty by {
            assert(front[i] == rows[i]);
        }
        lemma_row_sync_is_stable(front, items);
        assert(!rows[rows.len() - 1].dirty);
    }
}

/// Brings the texts of the rows up to date. A row gets new texts where it
/// was bound anew or its item was written since the markers were cleared;
/// a row whose item is gone is left alone.
pub fn sync_row_system(rows: &mut Vec<RowNode>, store: &TodoStore) -> (updates: Vec<RowText>)
    requires
        store.wf(),
    ensures
        final(rows)@.len() == old(rows)@.len(),
        forall|i: int|
            0 <= i < old(rows)@.len() ==> #[trigger] final(rows)@[i] == synced(
                old(rows)@[i],
                store@,
            ),
        row_text_views(updates@) == row_updates(old(rows)@, store@),
{
    let mut updates: Vec<RowText> = Vec::new();
    let mut i: usize = 0;
    while i < rows.len()
        invariant
            store.wf(),
            i <= rows@.len(),
            rows@.len() == old(rows)@.len(),
            forall|k: int| 0 <= k < i ==> #[trigger] rows@[k] == synced(old(rows)@[k], store@),
            forall|k: int| i <= k < rows@.len() ==> #[trigger] rows@[k] == old(rows)@[k],
            row_text_views(updates@) == row_updates(old(rows)@.take(i as int), store@),
        decreases rows@.len() - i,
    {
        proof {
            assert(old(rows)@.take(i + 1).drop_last() == old(rows)@.take(i as int));
        }
        let row = rows[i];
        match store.get(row.binding.0) {
            Some(item) => {
                if row.dirty || item.changed {
                    let ghost shown = row_text_views(updates@);
                    updates.push(sync_row(row.row, &item.todo));
                    rows[i].dirty = false;
                    assert(row_text_views(updates@) =~= shown.push(
                        (row.row, item.todo.label@, check_text(item.todo.completed)),
                    ));
                }
            },
            None => {},
        }
        i = i + 1;
    }
    proof {
        assert(old(rows)@.take(i as int) == old(rows)@);
    }
    updates
}

/// The item that the row node `node` is bound to, if `node` is a row of
/// the pool.
pub open spec fn row_binding(rows: Seq<RowNode>, node: NodeId) -> Option<TodoId>
    decreases rows.len(),
{
    if rows.len() == 0 {
        None
    } else if rows.last().row == node {
        Some(rows.last().binding.0)
    } else {
        row_binding(rows.drop_last(), node)
    }
}

/// The item that the row node `node` is bound to, if `node` is a row of
/// the pool.
pub fn bound_todo(rows: &Vec<RowNode>, node: NodeId) -> (todo: Option<TodoId>)
    ensures
        todo == row_binding(rows@, node),
{
    let mut todo: Option<TodoId> = None;
    let mut i: usize = 0;
    while i < rows.len()
        invariant
            i <= rows@.len(),
            todo == row_binding(rows@.take(i as int), node),
        decreases rows@.len() - i,
    {
        proof {
            assert(rows@.take(i + 1).drop_last() == rows@.take(i as int));
        }
        if rows[i].row == node {
            todo = Some(rows[i].binding.0);
        }
        i = i + 1;
    }
    proof {
        assert(rows@.take(i as int) == rows@);
    }
    todo
}

/// The item that a click on a control of a row is meant for: the item of
/// the row, if the control was clicked and its row is in the pool.
pub open spec fn clicked_todo(change: RowChange, rows: Seq<RowNode>) -> Option<TodoId> {
    if change.interaction == Interaction::Clicked {
        row_binding(rows, change.row)
    } else {
        None
    }
}

/// The items with the completion flag of the item `id` flipped, if there is
/// such an item.
pub open spec fn toggle_in(items: Seq<TodoItem>, id: TodoId) -> Seq<TodoItem> {
    if has_id(items, id) {
        items.update(position_of(items, id), toggled(items[position_of(items, id)]))
    } else {
        items
    }
}

/// The items without the item `id`.
pub open spec fn delete_in(items: Seq<TodoItem>, id: TodoId) -> Seq<TodoItem> {
    if has_id(items, id) {
        items.remove(position_of(items, id))
    } else {
        items
    }
}

/// The items after the clicks on toggle buttons of a frame, one flip for
/// each click.
pub open spec fn after_complete_clicks(
    items: Seq<TodoItem>,
    changes: Seq<RowChange>,
    rows: Seq<RowNode>,
) -> Seq<TodoItem>
    decreases changes.len(),
{
    if changes.len() == 0 {
        items
    } else {
        let before = after_complete_clicks(items, changes.drop_last(), rows);
        match clicked_todo(changes.last(), rows) {
            Some(id) => toggle_in(before, id),
            None => before,
        }
    }
}

/// The items after the clicks on delete buttons of a frame.
pub open spec fn after_clear_clicks(
    items: Seq<TodoItem>,
    changes: Seq<RowChange>,
    rows: Seq<RowNode>,
) -> Seq<TodoItem>
    decreases changes.len(),
{
    if changes.len() == 0 {
        items
    } else {
        let before = after_clear_clicks(items, changes.drop_last(), rows);
        match clicked_todo(changes.last(), rows) {
            Some(id) => delete_in(before, id),
            None => before,
        }
    }
}

/// Flips the completion flag of the item of each row whose toggle button
/// was clicked. `changes` holds, for each toggle button whose state changed
/// in this frame, the row of the button and the new state. A click on a
/// button whose row is not in the pool, or whose item is gone, does nothing.
pub fn on_complete_todo_click(changes: &Vec<RowChange>, rows: &Vec<RowNode>, store: &mut TodoStore)
    requires
        old(store).wf(),
    ensures
        final(store).wf(),
        final(store).next_id() == old(store).next_id(),
        final(store).filter_value() == old(store).filter_value(),
        final(store)@ == after_complete_clicks(old(store)@, changes@, rows@),
{
    let mut i: usize = 0;
    while i < changes.len()
        invariant
            i <= changes@.len(),
            store.wf(),
            store.next_id() == old(store).next_id(),
            store.filter_value() == old(store).filter_value(),
            store@ == after_complete_clicks(old(store)@, changes@.take(i as int), rows@),
        decreases changes@.len() - i,
    {
        proof {
            assert(changes@.take(i + 1).drop_last() == changes@.take(i as int));
        }
        if changes[i].interaction == Interaction::Clicked {
            match bound_todo(rows, changes[i].row) {
                Some(id) => {
                    store.toggle_completed(id);
                },
                None => {},
            }
        }
        i = i + 1;
    }
    proof {
        assert(changes@.take(i as int) == changes@);
    }
}

/// Removes the item of each row whose delete button was clicked. `changes`
/// holds, for each delete button whose state changed in this frame, the row
/// of the button and the new state. A click on a button whose row is not in
/// the pool, or whose item is gone, does nothing.
pub fn on_clear_btn_clicked(changes: &Vec<RowChange>, rows: &Vec<RowNode>, store: &mut TodoStore)
    requires
        old(store).wf(),
    ensures
        final(store).wf(),
        final(store).next_id() == old(store).next_id(),
        final(store).filter_value() == old(store).filter_value(),
        final(store)@ == after_clear_clicks(old(store)@, changes@, rows@),
{
    let mut i: usize = 0;
    while i < changes.len()
        invariant
            i <= changes@.len(),
            store.wf(),
            store.next_id() == old(store).next_id(),
            store.filter_value() == old(store).filter_value(),
            store@ == after_clear_clicks(old(store)@, changes@.take(i as int), rows@),
        decreases changes@.len() - i,
    {
        proof {
            assert(changes@.take(i + 1).drop_last() == changes@.take(i as int));
        }
        if changes[i].interaction == Interaction::Clicked {
            match bound_todo(rows, changes[i].row) {
                Some(id) => {
                    store.delete_item(id);
                },
                None => {},
            }
        }
        i = i + 1;
    }
    proof {
        assert(changes@.take(i as int) == changes@);
    }
}

/// The row `row` has a delete button.
pub open spec fn has_clear_button(buttons: Seq<ClearButtonNode>, row: NodeId) -> bool {
    exists|i: int| 0 <= i < buttons.len() && (#[trigger] buttons[i]).parent == row
}

/// The destruction of each delete button of `row` that the pointer is not
/// over, in the order of the buttons.
pub open spec fn idle_button_commands(buttons: Seq<ClearButtonNode>, row: NodeId) -> Seq<Command>
    decreases buttons.len(),
{
    if buttons.len() == 0 {
        Seq::empty()
    } else if buttons.last().parent == row && buttons.last().interaction != Interaction::Hovered {
        idle_button_commands(buttons.drop_last(), row).push(
            Command::DespawnRecursive { node: buttons.last().entity },
        )
    } else {
        idle_button_commands(buttons.drop_last(), row)
    }
}

/// What a change of a row's state asks for: a delete button when the
/// pointer comes over a row that has none; when the pointer has left, the
/// end of the row's delete buttons, but for one that the pointer is over.
pub open spec fn hover_commands(change: RowChange, buttons: Seq<ClearButtonNode>) -> Seq<Command> {
    match change.interaction {
        Interaction::Hovered => if has_clear_button(buttons, change.row) {
            Seq::empty()
        } else {
            seq![Command::SpawnClearButton { row: change.row }]
        },
        Interaction::Idle => idle_button_commands(buttons, change.row),
        Interaction::Clicked => Seq::empty(),
    }
}

/// The requests for all the row changes of a frame, in their order.
pub open spec fn all_hover_commands(changes: Seq<RowChange>, buttons: Seq<ClearButtonNode>) -> Seq<
    Command,
>
    decreases changes.len(),
{
    if changes.len() == 0 {
        Seq::empty()
    } else {
        all_hover_commands(changes.drop_last(), buttons) + hover_commands(changes.last(), buttons)
    }
}

/// Whether the row `row` has a delete button.
fn clear_button_exists(buttons: &Vec<ClearButtonNode>, row: NodeId) -> (found: bool)
    ensures
        found == has_clear_button(buttons@, row),
{
    let mut i: usize = 0;
    while i < buttons.len()
        invariant
            i <= buttons@.len(),
            forall|k: int| 0 <= k < i ==> (#[trigger] buttons@[k]).parent != row,
        decreases buttons@.len() - i,
    {
        if buttons[i].parent == row {
            return true;
        }
        i = i + 1;
    }
    false
}

/// Shows the delete button of a row while the pointer is over the row.
///
/// `changes` holds the rows whose interaction state changed in this frame,
/// `buttons` the delete buttons that exist. A row that the pointer came over
/// gets a delete button unless it has one. A row that the pointer left loses
/// its delete buttons, but not one that the pointer is over. The requests
/// are queued in `ctx`.
pub fn on_todo_row_hover(
    ctx: &mut NodeContext,
    changes: &Vec<RowChange>,
    buttons: &Vec<ClearButtonNode>,
)
    ensures
        final(ctx)@ == old(ctx)@ + all_hover_commands(changes@, buttons@),
        final(ctx).next_node() == old(ctx).next_node(),
{
    let mut i: usize = 0;
    proof {
        assert(old(ctx)@ + all_hover_commands(changes@.take(0), buttons@) =~= old(ctx)@);
    }
    while i < changes.len()
        invariant
            i <= changes@.len(),
            ctx@ == old(ctx)@ + all_hover_commands(changes@.take(i as int), buttons@),
            ctx.next_node() == old(ctx).next_node(),
        decreases changes@.len() - i,
    {
        let ghost queued = ctx@;
        let row = changes[i].row;
        proof {
            assert(changes@.take(i + 1).drop_last() == changes@.take(i as int));
        }
        match changes[i].interaction {
            Interaction::Hovered => {
                if !clear_button_exists(buttons, row) {
                    ctx.push(Command::SpawnClearButton { row: row });
                }
            },
            Interaction::Idle => {
                let mut k: usize = 0;
                proof {
                    assert(queued + idle_button_commands(buttons@.take(0), row) =~= queued);
                }
                while k < buttons.len()
                    invariant
                        k <= buttons@.len(),
                        ctx@ == queued + idle_button_commands(buttons@.take(k as int), row),
                        ctx.next_node() == old(ctx).next_node(),
                    decreases buttons@.len() - k,
                {
                    proof {
                        assert(buttons@.take(k + 1).drop_last() == buttons@.take(k as int));
                    }
                    if buttons[k].parent == row && buttons[k].interaction != Interaction::Hovered {
                        ctx.push(Command::DespawnRecursive { node: buttons[k].entity });
                        assert(ctx@ =~= queued + idle_button_commands(
                            buttons@.take(k + 1),
                            row,
                        ));
                    }
                    k = k + 1;
                }
                proof {
                    assert(buttons@.take(k as int) == buttons@);
                }
            },
            Interaction::Clicked => {},
        }
        proof {
            assert(ctx@ =~= queued + hover_commands(changes@[i as int], buttons@));
            assert(ctx@ =~= old(ctx)@ + all_hover_commands(changes@.take(i + 1), buttons@));
        }
        i = i + 1;
    }
    proof {
        assert(changes@.take(i as int) == changes@);
    }
}

} // verus!
