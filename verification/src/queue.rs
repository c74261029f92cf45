//! The queue of pending tasks, ordered by priority tier.
//!
//! The queue keeps its tasks in the order in which they arrived. The task
//! that leaves next is the most urgent one; among equally urgent tasks it is
//! the one that arrived first.

use crate::task::Task;
use crate::task::TaskView;
use crate::task::task_views;
use vstd::prelude::*;

verus! {

/// Whether the task at position `i` of `pending` is the one that leaves next:
/// no pending task is more urgent, and every task that arrived before it is
/// less urgent.
pub open spec fn is_next(pending: Seq<TaskView>, i: int) -> bool {
    &&& 0 <= i < pending.len()
    &&& forall|j: int|
        0 <= j < pending.len() ==> pending[i].priority.rank() <= (#[trigger] pending[j]).priority.rank()
    &&& forall|j: int| 0 <= j < i ==> pending[i].priority.rank() < (#[trigger] pending[j]).priority.rank()
}

/// The position of the task that leaves `pending` next.
pub open spec fn next_index(pending: Seq<TaskView>) -> int {
    choose|i: int| is_next(pending, i)
}

/// The order in which the tasks of `pending` leave when nothing arrives in
/// between.
pub open spec fn dispatch_order(pending: Seq<TaskView>) -> Seq<TaskView>
    decreases pending.len(),
    via dispatch_order_decreases
{
    if pending.len() == 0 {
        Seq::empty()
    } else {
        seq![pending[next_index(pending)]] + dispatch_order(pending.remove(next_index(pending)))
    }
}

#[via_fn]
proof fn dispatch_order_decreases(pending: Seq<TaskView>) {
    if pending.len() > 0 {
        lemma_next_index(pending);
    }
}

/// A queue that is not empty has a task that leaves next.
pub proof fn lemma_next_index(pending: Seq<TaskView>)
    requires
        pending.len() > 0,
    ensures
        is_next(pending, next_index(pending)),
    decreases pending.len(),
{
    if pending.len() == 1 {
        assert(is_next(pending, 0));
    } else {
        let earlier = pending.drop_last();
        lemma_next_index(earlier);
        let k = next_index(earlier);
        let last = pending.len() - 1;
        assert(forall|j: int| 0 <= j < earlier.len() ==> earlier[j] == pending[j]);
        if pending[last].priority.rank() < pending[k].priority.rank() {
            assert forall|j: int| 0 <= j < last implies pending[last].priority.rank() < (
            #[trigger] pending[j]).priority.rank() by {
                assert(earlier[k].priority.rank() <= earlier[j].priority.rank());
            }
            assert(is_next(pending, last));
        } else {
            assert forall|j: int| 0 <= j < pending.len() implies pending[k].priority.rank() <= (
            #[trigger] pending[j]).priority.rank() by {
                if j < last {
                    assert(earlier[k].priority.rank() <= earlier[j].priority.rank());
                }
            }
            assert forall|j: int| 0 <= j < k implies pending[k].priority.rank() < (
            #[trigger] pending[j]).priority.rank() by {
                assert(earlier[k].priority.rank() < earlier[j].priority.rank());
            }
            assert(is_next(pending, k));
        }
    }
}

/// Only one task can be the one that leaves next.
pub proof fn lemma_next_index_unique(pending: Seq<TaskView>, i: int)
    requires
        is_next(pending, i),
    ensures
        next_index(pending) == i,
{
    let k = next_index(pending);
    assert(is_next(pending, k));
    if k < i {
        assert(pending[i].priority.rank() < pending[k].priority.rank());
        assert(pending[k].priority.rank() <= pending[i].priority.rank());
    } else if i < k {
        assert(pending[k].priority.rank() < pending[i].priority.rank());
        assert(pending[i].priority.rank() <= pending[k].priority.rank());
    }
}

/// Of two pending tasks, the less urgent one never leaves while the more
/// urgent one is still waiting.
pub proof fn lemma_more_urgent_leaves_first(pending: Seq<TaskView>, a: int, b: int)
    requires
        0 <= a < pending.len(),
        0 <= b < pending.len(),
        pending[a].more_urgent_than(pending[b]),
    ensures
        next_index(pending) != b,
{
    lemma_next_index(pending);
    assert(pending[next_index(pending)].priority.rank() <= pending[a].priority.rank());
}

/// Of two equally urgent pending tasks, the one that arrived later never
/// leaves while the earlier one is still waiting.
pub proof fn lemma_first_come_first_served(pending: Seq<TaskView>, a: int, b: int)
    requires
        0 <= a < b < pending.len(),
        pending[a].priority == pending[b].priority,
    ensures
        next_index(pending) != b,
{
    lemma_next_index(pending);
    if next_index(pending) == b {
        assert(pending[b].priority.rank() < pending[a].priority.rank());
    }
}

/// Dispatching rearranges the pending tasks: none is lost and none is added.
pub proof fn lemma_dispatch_order_rearranges(pending: Seq<TaskView>)
    ensures
        dispatch_order(pending).len() == pending.len(),
        dispatch_order(pending).to_multiset() == pending.to_multiset(),
    decreases pending.len(),
{
    if pending.len() == 0 {
        assert(dispatch_order(pending) =~= pending);
    } else {
        lemma_next_index(pending);
        let k = next_index(pending);
        let rest = pending.remove(k);
        let tail = dispatch_order(rest);
        lemma_dispatch_order_rearranges(rest);
        assert(dispatch_order(pending) =~= tail.insert(0, pending[k]));
        vstd::seq_lib::to_multiset_insert(tail, 0, pending[k]);
        vstd::seq_lib::to_multiset_remove(pending, k);
        vstd::seq_lib::to_multiset_contains(pending, pending[k]);
        assert(pending.contains(pending[k]));
        assert(pending.to_multiset().remove(pending[k]).insert(pending[k]) =~= pending.to_multiset());
    }
}

/// Tasks leave in the order of their urgency: a task never leaves before a
/// more urgent one that was pending with it.
pub proof fn lemma_dispatch_order_sorted(pending: Seq<TaskView>)
    ensures
        forall|i: int, j: int|
            0 <= i <= j < dispatch_order(pending).len() ==> (#[trigger] dispatch_order(
                pending,
            )[i]).priority.rank() <= (#[trigger] dispatch_order(pending)[j]).priority.rank(),
    decreases pending.len(),
{
    if pending.len() > 0 {
        lemma_next_index(pending);
        let k = next_index(pending);
        let rest = pending.remove(k);
        let tail = dispatch_order(rest);
        let order = dispatch_order(pending);
        lemma_dispatch_order_sorted(rest);
        lemma_dispatch_order_rearranges(rest);
        assert forall|i: int, j: int| 0 <= i <= j < order.len() implies (#[trigger] order[i]).priority.rank()
            <= (#[trigger] order[j]).priority.rank() by {
            if i == 0 {
                if j > 0 {
                    let later = tail[j - 1];
                    assert(order[j] == later);
                    assert(tail.contains(later));
                    vstd::seq_lib::to_multiset_contains(tail, later);
                    vstd::seq_lib::to_multiset_contains(rest, later);
                    let from = choose|m: int| 0 <= m < rest.len() && rest[m] == later;
                    pending.remove_ensures(k);
                    assert(pending[k].priority.rank() <= rest[from].priority.rank());
                }
            } else {
                assert(order[i] == tail[i - 1]);
                assert(order[j] == tail[j - 1]);
            }
        }
    }
}

/// The pending tasks.
pub struct PriorityQueue {
    tasks: Vec<Task>,
}

impl View for PriorityQueue {
    type V = Seq<TaskView>;

    /// The pending tasks in the order of their arrival.
    closed spec fn view(&self) -> Seq<TaskView> {
        task_views(self.tasks@)
    }
}

impl PriorityQueue {
    /// An empty queue.
    pub fn new() -> (queue: PriorityQueue)
        ensures
            queue@ == Seq::<TaskView>::empty(),
    {
        PriorityQueue { tasks: Vec::new() }
    }

    /// The number of pending tasks.
    pub fn len(&self) -> (n: usize)
        ensures
            n == self@.len(),
    {
        self.tasks.len()
    }

    /// Whether no task is pending.
    pub fn is_empty(&self) -> (b: bool)
        ensures
            b == (self@.len() == 0),
    {
        self.tasks.len() == 0
    }

    /// Adds a task behind those that are already pending.
    pub fn push(&mut self, task: Task)
        ensures
            final(self)@ == old(self)@.push(task@),
    {
        self.tasks.push(task);
        assert(task_views(self.tasks@) =~= task_views(old(self).tasks@).push(task@));
    }

    /// Removes and returns the task that leaves next, if any task is pending.
    pub fn pop(&mut self) -> (popped: Option<Task>)
        ensures
            match popped {
                Some(task) => {
                    &&& is_next(old(self)@, next_index(old(self)@))
                    &&& task@ == old(self)@[next_index(old(self)@)]
                    &&& final(self)@ == old(self)@.remove(next_index(old(self)@))
                },
                None => old(self)@.len() == 0 && final(self)@ == old(self)@,
            },
    {
        let n = self.tasks.len();
        if n == 0 {
            return None;
        }
        let mut best: usize = 0;
        let mut i: usize = 1;
        while i < n
            invariant
                n == self.tasks.len(),
                1 <= i <= n,
                is_next(task_views(self.tasks@).take(i as int), best as int),
            decreases n - i,
        {
            let ghost seen = task_views(self.tasks@).take(i as int);
            let ghost grown = task_views(self.tasks@).take(i + 1);
            assert(forall|j: int| 0 <= j < i ==> seen[j] == grown[j]);
            if self.tasks[i].priority.level() < self.tasks[best].priority.level() {
                assert forall|j: int| 0 <= j < i implies grown[i as int].priority.rank() < (
                #[trigger] grown[j]).priority.rank() by {
                    assert(seen[best as int].priority.rank() <= seen[j].priority.rank());
                }
                best = i;
            } else {
                assert forall|j: int| 0 <= j < i + 1 implies grown[best as int].priority.rank() <= (
                #[trigger] grown[j]).priority.rank() by {
                    if j < i {
                        assert(seen[best as int].priority.rank() <= seen[j].priority.rank());
                    }
                }
                assert forall|j: int| 0 <= j < best implies grown[best as int].priority.rank() < (
                #[trigger] grown[j]).priority.rank() by {
                    assert(seen[best as int].priority.rank() < seen[j].priority.rank());
                }
            }
            i = i + 1;
        }
        proof {
            assert(task_views(self.tasks@).take(n as int) =~= task_views(self.tasks@));
            lemma_next_index_unique(self@, best as int);
        }
        let task = self.tasks.remove(best);
        assert(task_views(self.tasks@) =~= task_views(old(self).tasks@).remove(best as int));
        Some(task)
    }

    /// The pending tasks in ascending order: the task that leaves next comes
    /// last, the one that leaves after all others comes first.
    pub fn into_sorted_vec(self) -> (sorted: Vec<Task>)
        ensures
            task_views(sorted@) == dispatch_order(self@).reverse(),
    {
        let ghost all = self@;
        let mut rest = self;
        let mut sorted: Vec<Task> = Vec::new();
        loop
            invariant
                dispatch_order(all) == task_views(sorted@).reverse() + dispatch_order(rest@),
            ensures
                dispatch_order(all) == task_views(sorted@).reverse(),
            decreases rest@.len(),
        {
            let ghost before = rest@;
            let ghost done = task_views(sorted@);
            match rest.pop() {
                Some(task) => {
                    sorted.insert(0, task);
                    proof {
                        let k = next_index(before);
                        assert(task_views(sorted@) =~= seq![before[k]] + done);
                        assert(task_views(sorted@).reverse() =~= done.reverse().push(before[k]));
                        assert(dispatch_order(before) == seq![before[k]] + dispatch_order(rest@));
                        assert(done.reverse().push(before[k]) + dispatch_order(rest@) =~= done.reverse()
                            + (seq![before[k]] + dispatch_order(rest@)));
                    }
                },
                None => {
                    assert(dispatch_order(before) =~= Seq::<TaskView>::empty());
                    assert(task_views(sorted@).reverse() + Seq::<TaskView>::empty() =~= task_views(
                        sorted@,
                    ).reverse());
                    break ;
                },
            }
        }
        proof {
            lemma_reverse_twice(task_views(sorted@));
        }
        sorted
    }
}

/// Reversing a sequence twice gives it back.
proof fn lemma_reverse_twice(s: Seq<TaskView>)
    ensures
        s.reverse().reverse() == s,
{
    assert(s.reverse().reverse() =~= s);
}

impl Clone for PriorityQueue {
    fn clone(&self) -> (copy: Self)
        ensures
            copy@ == self@,
    {
        let mut tasks: Vec<Task> = Vec::new();
        let mut i: usize = 0;
        while i < self.tasks.len()
            invariant
                i <= self.tasks.len(),
                task_views(tasks@) == task_views(self.tasks@).take(i as int),
            decreases self.tasks.len() - i,
        {
            let ghost done = task_views(tasks@);
            let task = self.tasks[i].clone();
            tasks.push(task);
            assert(task_views(tasks@) =~= done.push(task@));
            assert(done.push(task@) =~= task_views(self.tasks@).take(i + 1));
            i = i + 1;
        }
        assert(task_views(self.tasks@).take(i as int) =~= task_views(self.tasks@));
        PriorityQueue { tasks }
    }
}

} // verus!
