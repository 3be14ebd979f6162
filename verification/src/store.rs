//! The domain store: the todo items in the order in which they arrived, and
//! the filter of the list.

use vstd::prelude::*;
use crate::domain::{
    has_id, ids_distinct, lemma_position_of, position_of, settled, toggled, Filter, Todo,
    TodoItem, MAX_TODOS, UNASSIGNED,
};
use crate::ids::TodoId;
use crate::ordinals::{
    compact_ordinals, compaction_writes, is_dense, is_listing, is_ranking, list_in_order,
    ordinals_of, same_todos,
};

verus! {

/// The todo items, in the order in which they arrived, and the filter of
/// the list.
pub struct TodoStore {
    items: Vec<TodoItem>,
    filter: Filter,
    next_id: u32,
}

impl View for TodoStore {
    type V = Seq<TodoItem>;

    closed spec fn view(&self) -> Seq<TodoItem> {
        self.items@
    }
}

impl TodoStore {
    /// The filter that the list is shown under.
    pub closed spec fn filter_value(&self) -> Filter {
        self.filter
    }

    /// The number of the handle that the next new item gets.
    pub closed spec fn next_id(&self) -> u32 {
        self.next_id
    }

    /// The handles are distinct and were all handed out by this store, and
    /// every item can be given an ordinal.
    pub open spec fn wf(&self) -> bool {
        &&& self@.len() <= MAX_TODOS
        &&& ids_distinct(self@)
        &&& forall|i: int| 0 <= i < self@.len() ==> (#[trigger] self@[i]).id.0 < self.next_id()
    }

    /// How many more items fit: every item needs an ordinal and a handle
    /// of its own.
    pub open spec fn free(&self) -> nat {
        if MAX_TODOS - self@.len() <= u32::MAX - self.next_id() {
            (MAX_TODOS - self@.len()) as nat
        } else {
            (u32::MAX - self.next_id()) as nat
        }
    }

    /// One more item fits.
    pub open spec fn has_room(&self) -> bool {
        self@.len() < MAX_TODOS && self.next_id() < u32::MAX
    }

    /// An empty store that shows every item.
    pub fn new() -> (store: TodoStore)
        ensures
            store.wf(),
            store@.len() == 0,
            store.filter_value() == Filter::All,
            store.next_id() == 0,
    {
        TodoStore { items: Vec::new(), filter: Filter::All, next_id: 0 }
    }

    /// The number of items.
    pub fn len(&self) -> (n: usize)
        ensures
            n == self@.len(),
    {
        self.items.len()
    }

    /// Whether one more item fits.
    pub fn can_add(&self) -> (r: bool)
        ensures
            r == self.has_room(),
    {
        self.items.len() < MAX_TODOS && self.next_id < u32::MAX
    }

    /// How many more items fit.
    pub fn room(&self) -> (count: usize)
        requires
            self.wf(),
        ensures
            count == self.free(),
            count > 0 <==> self.has_room(),
    {
        let slots = MAX_TODOS - self.items.len();
        let handles = (u32::MAX - self.next_id) as usize;
        if slots <= handles {
            slots
        } else {
            handles
        }
    }

    /// Takes `todo` in as the last item, under a handle that no item of this
    /// store ever had, and marks it as changed.
    pub fn insert(&mut self, todo: Todo) -> (id: TodoId)
        requires
            old(self).wf(),
            old(self).has_room(),
        ensures
            final(self).wf(),
            id == TodoId(old(self).next_id()),
            !has_id(old(self)@, id),
            final(self).next_id() == old(self).next_id() + 1,
            final(self).filter_value() == old(self).filter_value(),
            final(self)@ == old(self)@.push(TodoItem { id: id, todo: todo, changed: true }),
    {
        let id = TodoId(self.next_id);
        self.items.push(TodoItem { id: id, todo: todo, changed: true });
        self.next_id = self.next_id + 1;
        id
    }

    /// Adds an open item with the given label at the end of the list.
    pub fn add_item(&mut self, label: String) -> (id: TodoId)
        requires
            old(self).wf(),
            old(self).has_room(),
        ensures
            final(self).wf(),
            id == TodoId(old(self).next_id()),
            !has_id(old(self)@, id),
            final(self).next_id() == old(self).next_id() + 1,
            final(self).filter_value() == old(self).filter_value(),
            final(self)@ == old(self)@.push(
                TodoItem {
                    id: id,
                    todo: Todo { label: label, completed: false, ordinal: UNASSIGNED },
                    changed: true,
                },
            ),
    {
        self.insert(Todo::new(label))
    }

    /// Where the item with the handle `id` stands, if there is one.
    pub fn find(&self, id: TodoId) -> (found: Option<usize>)
        requires
            self.wf(),
        ensures
            found is Some <==> has_id(self@, id),
            found matches Some(i) ==> i == position_of(self@, id) && i < self@.len() && self@[i as int].id
                == id,
    {
        let mut i: usize = 0;
        while i < self.items.len()
            invariant
                i <= self.items@.len(),
                self.wf(),
                forall|j: int| 0 <= j < i ==> (#[trigger] self.items@[j]).id != id,
            decreases self.items@.len() - i,
        {
            if self.items[i].id == id {
                proof {
                    lemma_position_of(self@, i as int);
                }
                return Some(i);
            }
            i = i + 1;
        }
        None
    }

    /// The item with the handle `id`, if there is one.
    pub fn get(&self, id: TodoId) -> (found: Option<&TodoItem>)
        requires
            self.wf(),
        ensures
            found is Some <==> has_id(self@, id),
            found matches Some(item) ==> *item == self@[position_of(self@, id)],
    {
        match self.find(id) {
            Some(i) => Some(&self.items[i]),
            None => None,
        }
    }

    /// Flips the completion flag of the item with the handle `id` and marks
    /// it as changed. Returns whether there is such an item; without one the
    /// store stays as it is.
    pub fn toggle_completed(&mut self, id: TodoId) -> (found: bool)
        requires
            old(self).wf(),
        ensures
            final(self).wf(),
            final(self).next_id() == old(self).next_id(),
            final(self).filter_value() == old(self).filter_value(),
            found == has_id(old(self)@, id),
            found ==> final(self)@ == old(self)@.update(
                position_of(old(self)@, id),
                toggled(old(self)@[position_of(old(self)@, id)]),
            ),
            !found ==> final(self)@ == old(self)@,
    {
        match self.find(id) {
            Some(i) => {
                let completed = self.items[i].todo.completed;
                self.items[i].todo.completed = !completed;
                self.items[i].changed = true;
                assert(self.items@ =~= old(self)@.update(i as int, toggled(old(self)@[i as int])));
                true
            },
            None => false,
        }
    }

    /// Removes the item with the handle `id`. Returns whether there was such
    /// an item; without one the store stays as it is.
    pub fn delete_item(&mut self, id: TodoId) -> (found: bool)
        requires
            old(self).wf(),
        ensures
            final(self).wf(),
            final(self).next_id() == old(self).next_id(),
            final(self).filter_value() == old(self).filter_value(),
            found == has_id(old(self)@, id),
            found ==> final(self)@ == old(self)@.remove(position_of(old(self)@, id)),
            !found ==> final(self)@ == old(self)@,
            !has_id(final(self)@, id),
    {
        match self.find(id) {
            Some(i) => {
                self.items.remove(i);
                assert forall|j: int| 0 <= j < self.items@.len() implies (#[trigger] self.items@[j]).id
                    != id by {
                    if j < i {
                        assert(old(self)@[j].id != old(self)@[i as int].id);
                    } else {
                        assert(old(self)@[i as int].id != old(self)@[j + 1].id);
                    }
                }
                true
            },
            None => false,
        }
    }

    /// Shows the list under `value` from now on.
    pub fn set_filter(&mut self, value: Filter)
        ensures
            final(self).filter_value() == value,
            final(self)@ == old(self)@,
            final(self).next_id() == old(self).next_id(),
    {
        self.filter = value;
    }

    /// The filter that the list is shown under.
    pub fn current_filter(&self) -> (value: Filter)
        ensures
            value == self.filter_value(),
    {
        self.filter
    }

    /// Removes every completed item and returns how many there were. The
    /// open items keep their order.
    pub fn delete_all_completed(&mut self) -> (removed: usize)
        requires
            old(self).wf(),
        ensures
            final(self).wf(),
            final(self).next_id() == old(self).next_id(),
            final(self).filter_value() == old(self).filter_value(),
            final(self)@ == old(self)@.filter(|item: TodoItem| !item.todo.completed),
            removed == old(self)@.len() - final(self)@.len(),
    {
        let ghost before = self@;
        let ghost keep = |item: TodoItem| !item.todo.completed;
        let mut removed: usize = 0;
        let mut i: usize = 0;
        while i < self.items.len()
            invariant
                self.wf(),
                self.next_id() == old(self).next_id(),
                self.filter_value() == old(self).filter_value(),
                before == old(self)@,
                before.len() <= MAX_TODOS,
                keep == |item: TodoItem| !item.todo.completed,
                i <= self.items@.len(),
                self.items@.len() + removed == before.len(),
                self.items@.take(i as int) == before.take(i + removed).filter(keep),
                forall|k: int| i <= k < self.items@.len() ==> self.items@[k] == before[k + removed],
            decreases self.items@.len() - i,
        {
            let ghost now = self.items@;
            proof {
                assert(before.take(i + removed + 1) == before.take(i + removed).push(
                    before[i + removed],
                ));
                before.take(i + removed).lemma_filter_push(before[i + removed], keep);
            }
            if self.items[i].todo.completed {
                self.items.remove(i);
                removed = removed + 1;
                assert(self.items@.take(i as int) == now.take(i as int));
            } else {
                i = i + 1;
                assert(self.items@.take(i as int) == now.take(i - 1).push(now[i - 1]));
            }
        }
        proof {
            assert(self.items@.take(i as int) == self.items@);
            assert(before.take(i + removed) == before);
        }
        removed
    }

    /// Clears the change marker of every item.
    pub fn clear_changed(&mut self)
        requires
            old(self).wf(),
        ensures
            final(self).wf(),
            final(self).next_id() == old(self).next_id(),
            final(self).filter_value() == old(self).filter_value(),
            final(self)@.len() == old(self)@.len(),
            forall|i: int|
                0 <= i < old(self)@.len() ==> #[trigger] final(self)@[i] == settled(old(self)@[i]),
    {
        let mut i: usize = 0;
        while i < self.items.len()
            invariant
                i <= self.items@.len(),
                self.items@.len() == old(self)@.len(),
                self.next_id() == old(self).next_id(),
                self.filter_value() == old(self).filter_value(),
                forall|k: int| 0 <= k < i ==> #[trigger] self.items@[k] == settled(old(self)@[k]),
                forall|k: int| i <= k < self.items@.len() ==> #[trigger] self.items@[k] == old(self)@[k],
            decreases self.items@.len() - i,
        {
            self.items[i].changed = false;
            i = i + 1;
        }
        proof {
            assert forall|a: int, b: int|
                #![trigger self@[a], self@[b]]
                0 <= a < b < self@.len() implies self@[a].id != self@[b].id by {
                assert(old(self)@[a].id != old(self)@[b].id);
            }
        }
    }

    /// The handles of the items that the filter shows, in list order.
    pub fn visible(&self) -> (ids: Vec<TodoId>)
        requires
            self.wf(),
        ensures
            is_listing(self@, self.filter_value(), ids@),
            ids@.no_duplicates(),
            ids@.len() <= self@.len(),
    {
        list_in_order(&self.items, self.filter)
    }
}

/// Makes the ordinals of the store dense: every item gets its rank in list
/// order as its ordinal, and a store that is dense already is not written
/// to. Returns the number of ordinals written.
pub fn todo_ordering_system(store: &mut TodoStore) -> (writes: usize)
    requires
        old(store).wf(),
    ensures
        final(store).wf(),
        final(store).next_id() == old(store).next_id(),
        final(store).filter_value() == old(store).filter_value(),
        same_todos(old(store)@, final(store)@),
        is_ranking(ordinals_of(old(store)@), ordinals_of(final(store)@)),
        forall|r: Seq<u16>| #[trigger]
            is_ranking(ordinals_of(old(store)@), r) ==> r == ordinals_of(final(store)@),
        is_dense(ordinals_of(final(store)@)),
        writes == compaction_writes(ordinals_of(old(store)@)),
        writes == 0 ==> final(store)@ == old(store)@,
        writes != 0 ==> forall|i: int|
            0 <= i < final(store)@.len() ==> (#[trigger] final(store)@[i]).changed,
{
    let writes = compact_ordinals(&mut store.items);
    proof {
        assert forall|a: int, b: int|
            #![trigger store@[a], store@[b]]
            0 <= a < b < store@.len() implies store@[a].id != store@[b].id by {
            assert(old(store)@[a].id != old(store)@[b].id);
        }
    }
    writes
}

} // verus!
