//! The todo items and the list filter.

use vstd::prelude::*;
use crate::ids::TodoId;
use crate::messages::{is_message, pick_message};

verus! {

/// The ordinal of an item that has no place in the list yet. It sorts after
/// every assigned ordinal, so the next compaction appends the item.
pub const UNASSIGNED: u16 = 0xffff;

/// The most items a store holds: every live item needs an ordinal below
/// `UNASSIGNED`.
pub const MAX_TODOS: usize = 0xffff;

/// Which todo items the list shows.
#[derive(Debug, PartialEq, Eq, Structural, Copy, Clone)]
pub enum Filter {
    All,
    Active,
    Completed,
}

impl Filter {
    /// Whether an item with the given completion flag is shown under this
    /// filter.
    pub open spec fn accepts(self, completed: bool) -> bool {
        match self {
            Filter::All => true,
            Filter::Active => !completed,
            Filter::Completed => completed,
        }
    }

    /// Whether an item with the given completion flag is shown under this
    /// filter.
    pub fn shows(self, completed: bool) -> (r: bool)
        ensures
            r == self.accepts(completed),
    {
        match self {
            Filter::All => true,
            Filter::Active => !completed,
            Filter::Completed => completed,
        }
    }
}

impl Default for Filter {
    fn default() -> (r: Filter)
        ensures
            r == Filter::All,
    {
        Filter::All
    }
}

/// One todo item as the user sees it.
#[derive(Debug)]
pub struct Todo {
    pub label: String,
    pub completed: bool,
    /// Sort key of the item within the list.
    pub ordinal: u16,
}

impl Todo {
    /// A fresh, open item that the next compaction moves to the end of the
    /// list.
    pub fn new(label: String) -> (todo: Todo)
        ensures
            todo.label == label,
            !todo.completed,
            todo.ordinal == UNASSIGNED,
    {
        Todo { label: label, completed: false, ordinal: UNASSIGNED }
    }

    /// The label for a todo that the user did not name: one of the
    /// messages, picked at random.
    pub fn random_message() -> (message: String)
        ensures
            is_message(message@),
    {
        pick_message()
    }
}

/// A todo item as the store holds it.
#[derive(Debug)]
pub struct TodoItem {
    pub id: TodoId,
    pub todo: Todo,
    /// Set when the item was added or written since the markers were last
    /// cleared.
    pub changed: bool,
}

/// Some item of `items` has the handle `id`.
pub open spec fn has_id(items: Seq<TodoItem>, id: TodoId) -> bool {
    exists|i: int| 0 <= i < items.len() && (#[trigger] items[i]).id == id
}

/// Where the item with the handle `id` stands in `items`.
pub open spec fn position_of(items: Seq<TodoItem>, id: TodoId) -> int {
    choose|i: int| 0 <= i < items.len() && (#[trigger] items[i]).id == id
}

/// No two items share a handle.
pub open spec fn ids_distinct(items: Seq<TodoItem>) -> bool {
    forall|i: int, j: int|
        #![trigger items[i], items[j]]
        0 <= i < j < items.len() ==> items[i].id != items[j].id
}

/// The item with its completion flag flipped and its change marker set.
pub open spec fn toggled(item: TodoItem) -> TodoItem {
    TodoItem {
        id: item.id,
        todo: Todo {
            label: item.todo.label,
            completed: !item.todo.completed,
            ordinal: item.todo.ordinal,
        },
        changed: true,
    }
}

/// The item with its change marker cleared.
pub open spec fn settled(item: TodoItem) -> TodoItem {
    TodoItem { id: item.id, todo: item.todo, changed: false }
}

/// Among distinct handles, the handle of the item at `i` is found at `i`.
pub proof fn lemma_position_of(items: Seq<TodoItem>, i: int)
    requires
        ids_distinct(items),
        0 <= i < items.len(),
    ensures
        has_id(items, items[i].id),
        position_of(items, items[i].id) == i,
{
    let p = position_of(items, items[i].id);
    if p < i {
        assert(items[p].id != items[i].id);
    } else if i < p {
        assert(items[i].id != items[p].id);
    }
}

} // verus!
