//! The ordinal compactor: it keeps the sort keys of the todo items dense.
//!
//! Items are ranked by ordinal, ties by their position in the store, and each
//! item gets its rank as its new ordinal. A store whose ordinals are dense
//! already is left untouched.

use vstd::prelude::*;
use vstd::relations::total_ordering;
use vstd::seq_lib::{group_to_multiset_ensures, to_multiset_len};
use crate::domain::{has_id, ids_distinct, lemma_position_of, position_of, Filter, TodoItem, MAX_TODOS};
use crate::ids::TodoId;

verus! {

/// The ordinals of the items, in store order.
pub open spec fn ordinals_of(items: Seq<TodoItem>) -> Seq<u16> {
    Seq::new(items.len(), |i: int| items[i].todo.ordinal)
}

/// The item at position `i` comes before the one at position `j` in the
/// list: by ordinal, and among equal ordinals by position.
pub open spec fn precedes(ords: Seq<u16>, i: int, j: int) -> bool {
    ords[i] < ords[j] || (ords[i] == ords[j] && i < j)
}

/// The ordinals are the numbers below their count, each used once.
pub open spec fn is_dense(ords: Seq<u16>) -> bool {
    &&& forall|i: int| 0 <= i < ords.len() ==> (#[trigger] ords[i]) < ords.len()
    &&& forall|i: int, j: int|
        #![trigger ords[i], ords[j]]
        0 <= i < j < ords.len() ==> ords[i] != ords[j]
}

/// `ranks` numbers the positions of `ords` from zero in list order.
pub open spec fn is_ranking(ords: Seq<u16>, ranks: Seq<u16>) -> bool {
    &&& ranks.len() == ords.len()
    &&& forall|i: int| 0 <= i < ranks.len() ==> (#[trigger] ranks[i]) < ranks.len()
    &&& forall|i: int, j: int|
        #![trigger ranks[i], ranks[j]]
        0 <= i < ords.len() && 0 <= j < ords.len() && precedes(ords, i, j) ==> ranks[i]
            < ranks[j]
}

/// How many ordinals a compaction writes: none where they are dense, else
/// all of them.
pub open spec fn compaction_writes(ords: Seq<u16>) -> nat {
    if is_dense(ords) {
        0
    } else {
        ords.len()
    }
}

/// `b` holds the items of `a` with nothing but ordinals and change markers
/// touched.
pub open spec fn same_todos(a: Seq<TodoItem>, b: Seq<TodoItem>) -> bool {
    &&& a.len() == b.len()
    &&& forall|i: int|
        0 <= i < a.len() ==> (#[trigger] b[i]).id == a[i].id && b[i].todo.label
            == a[i].todo.label && b[i].todo.completed == a[i].todo.completed
}

/// `order` lists the first `order.len()` positions of `ords` in list order,
/// and `pos` is its inverse.
spec fn is_stable_order(ords: Seq<u16>, order: Seq<usize>, pos: Seq<int>) -> bool {
    &&& order.len() == pos.len()
    &&& order.len() <= ords.len()
    &&& forall|k: int|
        0 <= k < order.len() ==> 0 <= (#[trigger] order[k]) < order.len() && pos[order[k] as int]
            == k
    &&& forall|x: int| 0 <= x < pos.len() ==> 0 <= (#[trigger] pos[x]) < pos.len() && order[pos[x]] == x
    &&& forall|a: int, b: int|
        #![trigger order[a], order[b]]
        0 <= a < b < order.len() ==> precedes(ords, order[a] as int, order[b] as int)
}

proof fn lemma_increasing_from_below(t: Seq<int>, k: int)
    requires
        0 <= k < t.len(),
        forall|i: int| 0 <= i < t.len() ==> 0 <= #[trigger] t[i],
        forall|a: int| 0 <= a < t.len() - 1 ==> #[trigger] t[a] < t[a + 1],
    ensures
        k <= t[k],
    decreases k,
{
    if k > 0 {
        lemma_increasing_from_below(t, k - 1);
    }
}

proof fn lemma_increasing_from_above(t: Seq<int>, k: int)
    requires
        0 <= k < t.len(),
        forall|i: int| 0 <= i < t.len() ==> #[trigger] t[i] < t.len(),
        forall|a: int| 0 <= a < t.len() - 1 ==> #[trigger] t[a] < t[a + 1],
    ensures
        t[k] <= k,
    decreases t.len() - k,
{
    if k < t.len() - 1 {
        lemma_increasing_from_above(t, k + 1);
    }
}

/// A strictly increasing sequence of `n` numbers below `n` counts from zero.
proof fn lemma_increasing_is_identity(t: Seq<int>)
    requires
        forall|i: int| 0 <= i < t.len() ==> 0 <= #[trigger] t[i] < t.len(),
        forall|a: int| 0 <= a < t.len() - 1 ==> #[trigger] t[a] < t[a + 1],
    ensures
        forall|k: int| 0 <= k < t.len() ==> #[trigger] t[k] == k,
{
    assert forall|k: int| 0 <= k < t.len() implies #[trigger] t[k] == k by {
        lemma_increasing_from_below(t, k);
        lemma_increasing_from_above(t, k);
    }
}

/// Every ranking of `ords` gives the position `order[k]` the rank `k`.
proof fn lemma_ranking_follows_order(
    ords: Seq<u16>,
    order: Seq<usize>,
    pos: Seq<int>,
    ranks: Seq<u16>,
)
    requires
        is_stable_order(ords, order, pos),
        order.len() == ords.len(),
        is_ranking(ords, ranks),
    ensures
        forall|x: int| 0 <= x < ords.len() ==> #[trigger] ranks[x] == pos[x],
{
    let t = Seq::new(ords.len(), |k: int| ranks[order[k] as int] as int);
    assert forall|a: int| 0 <= a < t.len() - 1 implies #[trigger] t[a] < t[a + 1] by {
        assert(precedes(ords, order[a] as int, order[a + 1] as int));
    }
    lemma_increasing_is_identity(t);
    assert forall|x: int| 0 <= x < ords.len() implies #[trigger] ranks[x] == pos[x] by {
        assert(t[pos[x]] == pos[x]);
    }
}

/// Dense ordinals are their own ranking.
proof fn lemma_dense_follows_order(ords: Seq<u16>, order: Seq<usize>, pos: Seq<int>)
    requires
        is_stable_order(ords, order, pos),
        order.len() == ords.len(),
        is_dense(ords),
    ensures
        forall|x: int| 0 <= x < ords.len() ==> #[trigger] ords[x] == pos[x],
{
    let t = Seq::new(ords.len(), |k: int| ords[order[k] as int] as int);
    assert forall|a: int| 0 <= a < t.len() - 1 implies #[trigger] t[a] < t[a + 1] by {
        let x = order[a] as int;
        let y = order[a + 1] as int;
        assert(precedes(ords, x, y));
        assert(pos[x] == a && pos[y] == a + 1);
        if x < y {
            assert(ords[x] != ords[y]);
        } else {
            assert(ords[y] != ords[x]);
        }
    }
    lemma_increasing_is_identity(t);
    assert forall|x: int| 0 <= x < ords.len() implies #[trigger] ords[x] == pos[x] by {
        assert(t[pos[x]] == pos[x]);
    }
}

/// The inverse of a stable order is a ranking.
proof fn lemma_order_gives_ranking(ords: Seq<u16>, order: Seq<usize>, pos: Seq<int>, ranks: Seq<u16>)
    requires
        is_stable_order(ords, order, pos),
        order.len() == ords.len(),
        ranks.len() == ords.len(),
        forall|x: int| 0 <= x < ords.len() ==> #[trigger] ranks[x] == pos[x],
    ensures
        is_ranking(ords, ranks),
{
    assert forall|i: int, j: int|
        #![trigger ranks[i], ranks[j]]
        0 <= i < ords.len() && 0 <= j < ords.len() && precedes(ords, i, j) implies ranks[i]
        < ranks[j] by {
        let a = pos[i];
        let b = pos[j];
        assert(order[a] == i && order[b] == j);
        if b < a {
            assert(precedes(ords, order[b] as int, order[a] as int));
        }
    }
}

/// The ordinals in rising order.
pub open spec fn sorted_ordinals(ords: Seq<u16>) -> Seq<u16> {
    ords.sort_by(|a: u16, b: u16| a <= b)
}

/// Density: sorted, dense ordinals count up from zero without a gap.
pub proof fn lemma_dense_sorted(ords: Seq<u16>)
    requires
        is_dense(ords),
    ensures
        sorted_ordinals(ords).len() == ords.len(),
        forall|k: int| 0 <= k < ords.len() ==> (#[trigger] sorted_ordinals(ords)[k]) == k,
{
    broadcast use group_to_multiset_ensures;

    let le = |a: u16, b: u16| a <= b;
    let sorted = ords.sort_by(le);
    assert(total_ordering(le));
    ords.lemma_sort_by_ensures(le);
    assert(sorted.len() == ords.len()) by {
        to_multiset_len(ords);
        to_multiset_len(sorted);
    }
    assert(ords.no_duplicates()) by {
        assert forall|i: int, j: int|
            0 <= i < ords.len() && 0 <= j < ords.len() && i != j implies ords[i] != ords[j] by {
            if i < j {
                assert(ords[i] != ords[j]);
            } else {
                assert(ords[j] != ords[i]);
            }
        }
    }
    ords.lemma_multiset_has_no_duplicates();
    sorted.lemma_multiset_has_no_duplicates_conv();
    let t = Seq::new(sorted.len(), |k: int| sorted[k] as int);
    assert forall|k: int| 0 <= k < t.len() implies 0 <= #[trigger] t[k] < t.len() by {
        assert(sorted.contains(sorted[k]));
        assert(ords.contains(sorted[k]));
        let i = choose|i: int| 0 <= i < ords.len() && ords[i] == sorted[k];
        assert(ords[i] < ords.len());
    }
    assert forall|a: int| 0 <= a < t.len() - 1 implies #[trigger] t[a] < t[a + 1] by {
        assert(le(sorted[a], sorted[a + 1]));
        assert(sorted[a] != sorted[a + 1]);
    }
    lemma_increasing_is_identity(t);
    assert forall|k: int| 0 <= k < ords.len() implies (#[trigger] sorted[k]) == k by {
        assert(t[k] == k);
    }
}

/// After a compaction the ordinals are dense: whatever the ordinals were,
/// their ranking uses every number below the item count exactly once.
pub proof fn lemma_ranking_is_dense(ords: Seq<u16>, ranks: Seq<u16>)
    requires
        is_ranking(ords, ranks),
    ensures
        is_dense(ranks),
{
    assert forall|i: int, j: int|
        #![trigger ranks[i], ranks[j]]
        0 <= i < j < ranks.len() implies ranks[i] != ranks[j] by {
        if precedes(ords, i, j) {
        } else {
            assert(precedes(ords, j, i));
        }
    }
}

/// A second compaction with no change in between writes nothing: the
/// ordinals that a compaction leaves are their own ranking.
pub proof fn lemma_compaction_is_stable(ords: Seq<u16>, ranks: Seq<u16>)
    requires
        is_ranking(ords, ranks),
    ensures
        compaction_writes(ranks) == 0,
        is_ranking(ranks, ranks),
{
    lemma_ranking_is_dense(ords, ranks);
    assert forall|i: int, j: int|
        #![trigger ranks[i], ranks[j]]
        0 <= i < ranks.len() && 0 <= j < ranks.len() && precedes(ranks, i, j) implies ranks[i]
        < ranks[j] by {
        if i < j {
            assert(ranks[i] != ranks[j]);
        }
    }
}

/// The positions of `items` in list order, with the rank of each position.
fn stable_order(items: &Vec<TodoItem>) -> (r: (Vec<usize>, Ghost<Seq<int>>))
    ensures
        r.0@.len() == items@.len(),
        is_stable_order(ordinals_of(items@), r.0@, r.1@),
{
    let n = items.len();
    let ghost ords = ordinals_of(items@);
    let mut order: Vec<usize> = Vec::new();
    let ghost mut pos: Seq<int> = Seq::empty();
    let mut i: usize = 0;
    while i < n
        invariant
            n == items@.len(),
            ords == ordinals_of(items@),
            i <= n,
            order@.len() == i,
            is_stable_order(ords, order@, pos),
        decreases n - i,
    {
        let key: u16 = items[i].todo.ordinal;
        order.push(i);
        proof {
            pos = pos.push(i as int);
        }
        let mut k: usize = i;
        while k > 0 && items[order[k - 1]].todo.ordinal > key
            invariant
                n == items@.len(),
                ords == ordinals_of(items@),
                i < n,
                key == ords[i as int],
                order@.len() == i + 1,
                pos.len() == i + 1,
                k <= i,
                order@[k as int] == i,
                forall|a: int|
                    0 <= a <= i ==> 0 <= (#[trigger] order@[a]) <= i && pos[order@[a] as int] == a,
                forall|x: int| 0 <= x <= i ==> 0 <= (#[trigger] pos[x]) <= i && order@[pos[x]] == x,
                forall|a: int, b: int|
                    #![trigger order@[a], order@[b]]
                    0 <= a < b <= i && a != k && b != k ==> precedes(
                        ords,
                        order@[a] as int,
                        order@[b] as int,
                    ),
                forall|b: int| k < b <= i ==> key < ords[(#[trigger] order@[b]) as int],
            decreases k,
        {
            let prev = order[k - 1];
            order.set(k, prev);
            order.set(k - 1, i);
            proof {
                pos = pos.update(prev as int, k as int).update(i as int, k - 1);
            }
            k = k - 1;
        }
        proof {
            assert forall|a: int, b: int|
                #![trigger order@[a], order@[b]]
                0 <= a < b < order@.len() implies precedes(
                ords,
                order@[a] as int,
                order@[b] as int,
            ) by {
                if b == k {
                    assert(order@[a] != i) by {
                        assert(pos[order@[a] as int] == a);
                    }
                    if a < k - 1 {
                        assert(precedes(ords, order@[a] as int, order@[k - 1] as int));
                    }
                } else if a == k {
                } else {
                }
            }
        }
        i = i + 1;
    }
    (order, Ghost(pos))
}

/// Gives every item its rank in list order as its ordinal, unless the
/// ordinals are dense already; returns how many ordinals it wrote.
///
/// Each written item is marked as changed. Labels, completion flags, ids and
/// the order of the items in the store stay as they are.
pub fn compact_ordinals(items: &mut Vec<TodoItem>) -> (writes: usize)
    requires
        old(items)@.len() <= MAX_TODOS,
    ensures
        same_todos(old(items)@, final(items)@),
        is_ranking(ordinals_of(old(items)@), ordinals_of(final(items)@)),
        forall|r: Seq<u16>| #[trigger]
            is_ranking(ordinals_of(old(items)@), r) ==> r == ordinals_of(final(items)@),
        is_dense(ordinals_of(final(items)@)),
        writes == compaction_writes(ordinals_of(old(items)@)),
        writes == 0 ==> final(items)@ == old(items)@,
        writes != 0 ==> forall|i: int| 0 <= i < final(items)@.len() ==> (#[trigger] final(items)@[i]).changed,
{
    let n = items.len();
    let ghost before = items@;
    let ghost ords = ordinals_of(items@);
    let (order, Ghost(pos)) = stable_order(items);

    let mut needs_compact = false;
    let mut next: u16 = 0;
    let mut k: usize = 0;
    while k < n
        invariant
            n == items@.len(),
            n <= MAX_TODOS,
            items@ == before,
            ords == ordinals_of(before),
            order@.len() == n,
            is_stable_order(ords, order@, pos),
            k <= n,
            next == k,
            needs_compact <==> exists|j: int| 0 <= j < k && ords[(#[trigger] order@[j]) as int] != j,
        decreases n - k,
    {
        if items[order[k]].todo.ordinal != next {
            needs_compact = true;
        }
        next = next + 1;
        k = k + 1;
    }

    // The scan found a mismatch exactly if the ordinals are not dense.
    assert(needs_compact == !is_dense(ords)) by {
        if needs_compact {
            if is_dense(ords) {
                lemma_dense_follows_order(ords, order@, pos);
                let j = choose|j: int| 0 <= j < n && ords[(#[trigger] order@[j]) as int] != j;
                assert(pos[order@[j] as int] == j);
            }
        } else {
            assert forall|x: int| 0 <= x < n implies #[trigger] ords[x] == pos[x] by {
                assert(order@[pos[x]] == x);
            }
            assert forall|i: int, j: int|
                #![trigger ords[i], ords[j]]
                0 <= i < j < ords.len() implies ords[i] != ords[j] by {
                assert(order@[pos[i]] == i && order@[pos[j]] == j);
            }
        }
    }

    if needs_compact {
        let mut next: u16 = 0;
        let mut k: usize = 0;
        while k < n
            invariant
                n == items@.len(),
                n == before.len(),
                n <= MAX_TODOS,
                ords == ordinals_of(before),
                order@.len() == n,
                is_stable_order(ords, order@, pos),
                k <= n,
                next == k,
                same_todos(before, items@),
                forall|x: int|
                    0 <= x < n && pos[x] < k ==> (#[trigger] items@[x]).todo.ordinal == pos[x]
                        && items@[x].changed,
                forall|x: int| 0 <= x < n && pos[x] >= k ==> #[trigger] items@[x] == before[x],
            decreases n - k,
        {
            let at = order[k];
            items[at].todo.ordinal = next;
            items[at].changed = true;
            next = next + 1;
            k = k + 1;
        }
    } else {
        proof {
            lemma_dense_follows_order(ords, order@, pos);
        }
    }

    proof {
        let ranks = ordinals_of(items@);
        assert forall|x: int| 0 <= x < ords.len() implies #[trigger] ranks[x] == pos[x] by {}
        lemma_order_gives_ranking(ords, order@, pos, ranks);
        assert forall|r: Seq<u16>| #[trigger] is_ranking(ords, r) implies r == ranks by {
            lemma_ranking_follows_order(ords, order@, pos, r);
            assert(r =~= ranks);
        }
        assert(is_dense(ranks)) by {
            assert forall|i: int, j: int|
                #![trigger ranks[i], ranks[j]]
                0 <= i < j < ranks.len() implies ranks[i] != ranks[j] by {
                assert(order@[pos[i]] == i && order@[pos[j]] == j);
            }
        }
        if !needs_compact {
            assert(items@ =~= before);
        }
    }
    if needs_compact {
        n
    } else {
        0
    }
}

/// `ids` lists the handles of the items that `filter` shows, in list order.
pub open spec fn is_listing(items: Seq<TodoItem>, filter: Filter, ids: Seq<TodoId>) -> bool {
    &&& forall|a: int|
        0 <= a < ids.len() ==> has_id(items, #[trigger] ids[a]) && filter.accepts(
            items[position_of(items, ids[a])].todo.completed,
        )
    &&& forall|a: int, b: int|
        #![trigger ids[a], ids[b]]
        0 <= a < b < ids.len() ==> precedes(
            ordinals_of(items),
            position_of(items, ids[a]),
            position_of(items, ids[b]),
        )
    &&& forall|x: int|
        0 <= x < items.len() && filter.accepts((#[trigger] items[x]).todo.completed)
            ==> ids.contains(items[x].id)
}

/// The handles of the items that `filter` shows, in list order: by ordinal,
/// and among equal ordinals by position in the store.
pub fn list_in_order(items: &Vec<TodoItem>, filter: Filter) -> (ids: Vec<TodoId>)
    requires
        ids_distinct(items@),
    ensures
        is_listing(items@, filter, ids@),
        ids@.no_duplicates(),
        ids@.len() <= items@.len(),
{
    let n = items.len();
    let ghost ords = ordinals_of(items@);
    let (order, Ghost(pos)) = stable_order(items);
    let mut ids: Vec<TodoId> = Vec::new();
    let ghost mut src: Seq<int> = Seq::empty();
    let mut k: usize = 0;
    while k < n
        invariant
            n == items@.len(),
            ords == ordinals_of(items@),
            order@.len() == n,
            is_stable_order(ords, order@, pos),
            k <= n,
            ids@.len() == src.len(),
            src.len() <= k,
            forall|a: int|
                0 <= a < src.len() ==> 0 <= (#[trigger] src[a]) < n && pos[src[a]] < k && ids@[a]
                    == items@[src[a]].id && filter.accepts(items@[src[a]].todo.completed),
            forall|a: int, b: int|
                #![trigger src[a], src[b]]
                0 <= a < b < src.len() ==> pos[src[a]] < pos[src[b]],
            forall|j: int|
                0 <= j < k && filter.accepts(items@[(#[trigger] order@[j]) as int].todo.completed)
                    ==> exists|a: int| 0 <= a < src.len() && #[trigger] src[a] == order@[j],
        decreases n - k,
    {
        let at = order[k];
        let ghost before = src;
        if filter.shows(items[at].todo.completed) {
            ids.push(items[at].id);
            proof {
                src = src.push(at as int);
                assert(src[src.len() - 1] == order@[k as int]);
            }
        }
        proof {
            assert forall|j: int|
                0 <= j < k + 1 && filter.accepts(
                    items@[(#[trigger] order@[j]) as int].todo.completed,
                ) implies exists|a: int| 0 <= a < src.len() && #[trigger] src[a] == order@[j] by {
                if j < k {
                    let a = choose|a: int| 0 <= a < before.len() && #[trigger] before[a] == order@[j];
                    assert(src[a] == order@[j]);
                }
            }
        }
        k = k + 1;
    }
    proof {
        assert forall|a: int| 0 <= a < ids@.len() implies has_id(items@, #[trigger] ids@[a])
            && position_of(items@, ids@[a]) == src[a] by {
            lemma_position_of(items@, src[a]);
        }
        assert forall|a: int, b: int|
            #![trigger ids@[a], ids@[b]]
            0 <= a < b < ids@.len() implies precedes(ords, src[a], src[b]) && ids@[a] != ids@[b] by {
            assert(pos[src[a]] < pos[src[b]]);
            assert(order@[pos[src[a]]] == src[a] && order@[pos[src[b]]] == src[b]);
            assert(precedes(ords, order@[pos[src[a]]] as int, order@[pos[src[b]]] as int));
            if src[a] < src[b] {
                assert(items@[src[a]].id != items@[src[b]].id);
            } else {
                assert(items@[src[b]].id != items@[src[a]].id);
            }
        }
        assert forall|x: int|
            0 <= x < items@.len() && filter.accepts(
                (#[trigger] items@[x]).todo.completed,
            ) implies ids@.contains(items@[x].id) by {
            assert(order@[pos[x]] == x);
            let a = choose|a: int| 0 <= a < src.len() && #[trigger] src[a] == order@[pos[x]];
            assert(ids@[a] == items@[x].id);
        }
    }
    ids
}

} // verus!
