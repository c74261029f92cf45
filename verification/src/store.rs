//! The status store: the current snapshot of every tracked task, found by
//! its identifier.

use crate::task::Task;
use crate::task::TaskStatus;
use crate::task::TaskStatusView;
use crate::task::TaskView;
use crate::task::task_views;
use vstd::prelude::*;

verus! {

/// No two tasks of `tasks` share an identifier.
pub open spec fn distinct_ids(tasks: Seq<TaskView>) -> bool {
    forall|i: int, j: int|
        0 <= i < j < tasks.len() ==> (#[trigger] tasks[i]).id != (#[trigger] tasks[j]).id
}

/// Whether the task at position `i` of `tasks` has the identifier `id`.
pub open spec fn has_id_at(tasks: Seq<TaskView>, id: Seq<char>, i: int) -> bool {
    0 <= i < tasks.len() && tasks[i].id == id
}

/// The mapping from identifier to task that a sequence of tasks stands for.
pub open spec fn tasks_by_id(tasks: Seq<TaskView>) -> Map<Seq<char>, TaskView> {
    Map::new(
        |id: Seq<char>| exists|i: int| has_id_at(tasks, id, i),
        |id: Seq<char>| tasks[choose|i: int| has_id_at(tasks, id, i)],
    )
}

/// Whether what `tasks` holds under the identifier of `task` is kept when
/// `task` comes in: a task that has reached a terminal status is never
/// replaced by one that has not.
pub open spec fn keeps_entry(tasks: Map<Seq<char>, TaskView>, task: TaskView) -> bool {
    &&& tasks.contains_key(task.id)
    &&& tasks[task.id].status.is_terminal()
    &&& !task.status.is_terminal()
}

/// The entries after `task` came in: the task is held under its identifier,
/// in place of what was held there before, unless that is kept.
pub open spec fn record(tasks: Map<Seq<char>, TaskView>, task: TaskView) -> Map<Seq<char>, TaskView> {
    if keeps_entry(tasks, task) {
        tasks
    } else {
        tasks.insert(task.id, task)
    }
}

/// The entries after the task `id` was given the status `status`. A task
/// that has reached a terminal status is never given one that is not
/// terminal, and a task that is not held is not added.
pub open spec fn with_status_of(
    tasks: Map<Seq<char>, TaskView>,
    id: Seq<char>,
    status: TaskStatusView,
) -> Map<Seq<char>, TaskView> {
    if tasks.contains_key(id) && !(tasks[id].status.is_terminal() && !status.is_terminal()) {
        tasks.insert(id, tasks[id].with_status(status))
    } else {
        tasks
    }
}

/// A task that has reached a terminal status keeps a terminal status
/// whatever comes in under its identifier or any other.
pub proof fn lemma_record_keeps_terminal(tasks: Map<Seq<char>, TaskView>, task: TaskView, id: Seq<char>)
    requires
        tasks.contains_key(id),
        tasks[id].status.is_terminal(),
    ensures
        record(tasks, task).contains_key(id),
        record(tasks, task)[id].status.is_terminal(),
{
}

/// Whether `listing` names every entry of `tasks` exactly once.
pub open spec fn is_listing_of(listing: Seq<TaskView>, tasks: Map<Seq<char>, TaskView>) -> bool {
    &&& distinct_ids(listing)
    &&& forall|i: int|
        0 <= i < listing.len() ==> tasks.contains_key((#[trigger] listing[i]).id) && tasks[listing[i].id]
            == listing[i]
    &&& forall|id: Seq<char>| #[trigger]
        tasks.contains_key(id) ==> exists|i: int| has_id_at(listing, id, i)
}

/// The entry of a task is the task itself when identifiers are distinct.
proof fn lemma_entry(tasks: Seq<TaskView>, i: int)
    requires
        distinct_ids(tasks),
        0 <= i < tasks.len(),
    ensures
        tasks_by_id(tasks).contains_key(tasks[i].id),
        tasks_by_id(tasks)[tasks[i].id] == tasks[i],
{
    let id = tasks[i].id;
    assert(has_id_at(tasks, id, i));
    let k = choose|k: int| has_id_at(tasks, id, k);
    if k < i {
        assert(tasks[k].id != tasks[i].id);
    } else if i < k {
        assert(tasks[i].id != tasks[k].id);
    }
}

/// A sequence of tasks with distinct identifiers lists its own mapping.
proof fn lemma_lists_itself(tasks: Seq<TaskView>)
    requires
        distinct_ids(tasks),
    ensures
        is_listing_of(tasks, tasks_by_id(tasks)),
{
    assert forall|i: int| 0 <= i < tasks.len() implies tasks_by_id(tasks).contains_key(
        (#[trigger] tasks[i]).id,
    ) && tasks_by_id(tasks)[tasks[i].id] == tasks[i] by {
        lemma_entry(tasks, i);
    }
}

/// Replacing the task at position `i` by one with the same identifier
/// replaces its entry.
proof fn lemma_update(tasks: Seq<TaskView>, i: int, task: TaskView)
    requires
        distinct_ids(tasks),
        0 <= i < tasks.len(),
        tasks[i].id == task.id,
    ensures
        distinct_ids(tasks.update(i, task)),
        tasks_by_id(tasks.update(i, task)) == tasks_by_id(tasks).insert(task.id, task),
{
    let updated = tasks.update(i, task);
    assert forall|a: int, b: int| 0 <= a < b < updated.len() implies (#[trigger] updated[a]).id != (
    #[trigger] updated[b]).id by {
        assert(tasks[a].id != tasks[b].id);
    }
    assert forall|id: Seq<char>| #[trigger]
        tasks_by_id(updated).contains_key(id) <==> tasks_by_id(tasks).insert(
            task.id,
            task,
        ).contains_key(id) by {
        if tasks_by_id(updated).contains_key(id) {
            let k = choose|k: int| has_id_at(updated, id, k);
            assert(has_id_at(tasks, id, k));
        }
        if tasks_by_id(tasks).contains_key(id) {
            let k = choose|k: int| has_id_at(tasks, id, k);
            assert(has_id_at(updated, id, k));
        }
        assert(has_id_at(updated, task.id, i));
    }
    assert forall|id: Seq<char>| #[trigger]
        tasks_by_id(updated).contains_key(id) implies tasks_by_id(updated)[id] == tasks_by_id(
        tasks,
    ).insert(task.id, task)[id] by {
        let k = choose|k: int| has_id_at(updated, id, k);
        lemma_entry(updated, k);
        if k != i {
            lemma_entry(tasks, k);
        }
    }
    assert(tasks_by_id(updated) =~= tasks_by_id(tasks).insert(task.id, task));
}

/// Adding a task whose identifier is new adds its entry.
proof fn lemma_push(tasks: Seq<TaskView>, task: TaskView)
    requires
        distinct_ids(tasks),
        !tasks_by_id(tasks).contains_key(task.id),
    ensures
        distinct_ids(tasks.push(task)),
        tasks_by_id(tasks.push(task)) == tasks_by_id(tasks).insert(task.id, task),
{
    let grown = tasks.push(task);
    let n = tasks.len() as int;
    assert forall|a: int, b: int| 0 <= a < b < grown.len() implies (#[trigger] grown[a]).id != (
    #[trigger] grown[b]).id by {
        if b == n {
            assert(!has_id_at(tasks, task.id, a));
        } else {
            assert(tasks[a].id != tasks[b].id);
        }
    }
    assert forall|id: Seq<char>| #[trigger]
        tasks_by_id(grown).contains_key(id) <==> tasks_by_id(tasks).insert(
            task.id,
            task,
        ).contains_key(id) by {
        if tasks_by_id(grown).contains_key(id) {
            let k = choose|k: int| has_id_at(grown, id, k);
            if k < n {
                assert(has_id_at(tasks, id, k));
            }
        }
        if tasks_by_id(tasks).contains_key(id) {
            let k = choose|k: int| has_id_at(tasks, id, k);
            assert(has_id_at(grown, id, k));
        }
        assert(has_id_at(grown, task.id, n));
    }
    assert forall|id: Seq<char>| #[trigger]
        tasks_by_id(grown).contains_key(id) implies tasks_by_id(grown)[id] == tasks_by_id(
        tasks,
    ).insert(task.id, task)[id] by {
        let k = choose|k: int| has_id_at(grown, id, k);
        lemma_entry(grown, k);
        if k < n {
            lemma_entry(tasks, k);
        }
    }
    assert(tasks_by_id(grown) =~= tasks_by_id(tasks).insert(task.id, task));
}

/// Taking out the task at position `i` takes out its entry.
proof fn lemma_remove(tasks: Seq<TaskView>, i: int)
    requires
        distinct_ids(tasks),
        0 <= i < tasks.len(),
    ensures
        distinct_ids(tasks.remove(i)),
        tasks_by_id(tasks.remove(i)) == tasks_by_id(tasks).remove(tasks[i].id),
{
    let fewer = tasks.remove(i);
    let gone = tasks[i].id;
    tasks.remove_ensures(i);
    assert forall|a: int, b: int| 0 <= a < b < fewer.len() implies (#[trigger] fewer[a]).id != (
    #[trigger] fewer[b]).id by {
        let from_a = if a < i { a } else { a + 1 };
        let from_b = if b < i { b } else { b + 1 };
        assert(tasks[from_a].id != tasks[from_b].id);
    }
    assert forall|id: Seq<char>| #[trigger]
        tasks_by_id(fewer).contains_key(id) <==> tasks_by_id(tasks).remove(gone).contains_key(
            id,
        ) by {
        if tasks_by_id(fewer).contains_key(id) {
            let k = choose|k: int| has_id_at(fewer, id, k);
            let from = if k < i { k } else { k + 1 };
            assert(has_id_at(tasks, id, from));
            if from < i {
                assert(tasks[from].id != tasks[i].id);
            } else {
                assert(tasks[i].id != tasks[from].id);
            }
        }
        if tasks_by_id(tasks).remove(gone).contains_key(id) {
            let k = choose|k: int| has_id_at(tasks, id, k);
            let to = if k < i { k } else { k - 1 };
            assert(has_id_at(fewer, id, to));
        }
    }
    assert forall|id: Seq<char>| #[trigger]
        tasks_by_id(fewer).contains_key(id) implies tasks_by_id(fewer)[id] == tasks_by_id(
        tasks,
    ).remove(gone)[id] by {
        let k = choose|k: int| has_id_at(fewer, id, k);
        let from = if k < i { k } else { k + 1 };
        lemma_entry(fewer, k);
        lemma_entry(tasks, from);
    }
    assert(tasks_by_id(fewer) =~= tasks_by_id(tasks).remove(gone));
}

/// The snapshots of the tracked tasks.
pub struct StatusStore {
    tasks: Vec<Task>,
}

impl View for StatusStore {
    type V = Map<Seq<char>, TaskView>;

    /// The tracked tasks by identifier.
    closed spec fn view(&self) -> Map<Seq<char>, TaskView> {
        tasks_by_id(task_views(self.tasks@))
    }
}

impl StatusStore {
    #[verifier::type_invariant]
    spec fn ids_are_distinct(&self) -> bool {
        distinct_ids(task_views(self.tasks@))
    }

    /// A store that tracks no task.
    pub fn new() -> (store: StatusStore)
        ensures
            store@ == Map::<Seq<char>, TaskView>::empty(),
    {
        let store = StatusStore { tasks: Vec::new() };
        assert(store@ =~= Map::<Seq<char>, TaskView>::empty()) by {
            assert(forall|id: Seq<char>, i: int| !has_id_at(task_views(store.tasks@), id, i));
        }
        store
    }

    /// Where the task with the identifier `id` is kept, if it is tracked.
    fn position(&self, id: &str) -> (found: Option<usize>)
        ensures
            match found {
                Some(i) => has_id_at(task_views(self.tasks@), id@, i as int),
                None => !self@.contains_key(id@),
            },
    {
        let key = id.to_owned();
        let mut i: usize = 0;
        while i < self.tasks.len()
            invariant
                i <= self.tasks.len(),
                key@ == id@,
                forall|k: int| 0 <= k < i ==> !has_id_at(task_views(self.tasks@), id@, k),
            decreases self.tasks.len() - i,
        {
            if self.tasks[i].id == key {
                return Some(i);
            }
            i = i + 1;
        }
        None
    }

    /// The number of tracked tasks.
    pub fn len(&self) -> (n: usize)
        ensures
            n == self@.len(),
    {
        proof {
            use_type_invariant(self);
            lemma_size(task_views(self.tasks@));
        }
        self.tasks.len()
    }

    /// A copy of the task with the identifier `id`, if it is tracked.
    pub fn get(&self, id: &str) -> (found: Option<Task>)
        ensures
            match found {
                Some(task) => self@.contains_key(id@) && task@ == self@[id@],
                None => !self@.contains_key(id@),
            },
    {
        match self.position(id) {
            Some(i) => {
                proof {
                    use_type_invariant(self);
                    lemma_entry(task_views(self.tasks@), i as int);
                }
                Some(self.tasks[i].clone())
            },
            None => None,
        }
    }

    /// Tracks `task` under its identifier, in place of the task that was
    /// tracked under that identifier before. A tracked task that has reached
    /// a terminal status stays as it is when `task` has not.
    pub fn insert(&mut self, task: Task)
        ensures
            final(self)@ == record(old(self)@, task@),
    {
        proof {
            use_type_invariant(&*self);
        }
        let ghost before = task_views(self.tasks@);
        match self.position(task.id.as_str()) {
            Some(i) => {
                proof {
                    lemma_entry(before, i as int);
                }
                if self.tasks[i].status.is_terminal() && !task.status.is_terminal() {
                    return ;
                }
                let mut tasks: Vec<Task> = Vec::new();
                core::mem::swap(&mut tasks, &mut self.tasks);
                tasks.set(i, task);
                proof {
                    assert(task_views(tasks@) =~= before.update(i as int, task@));
                    lemma_update(before, i as int, task@);
                }
                self.tasks = tasks;
            },
            None => {
                let mut tasks: Vec<Task> = Vec::new();
                core::mem::swap(&mut tasks, &mut self.tasks);
                tasks.push(task);
                proof {
                    assert(task_views(tasks@) =~= before.push(task@));
                    lemma_push(before, task@);
                }
                self.tasks = tasks;
            },
        }
    }

    /// Stops tracking the task with the identifier `id` and returns it. A
    /// store that does not track it stays as it is.
    pub fn remove(&mut self, id: &str) -> (removed: Option<Task>)
        ensures
            final(self)@ == old(self)@.remove(id@),
            match removed {
                Some(task) => old(self)@.contains_key(id@) && task@ == old(self)@[id@],
                None => !old(self)@.contains_key(id@),
            },
    {
        proof {
            use_type_invariant(&*self);
        }
        let ghost before = task_views(self.tasks@);
        match self.position(id) {
            Some(i) => {
                let mut tasks: Vec<Task> = Vec::new();
                core::mem::swap(&mut tasks, &mut self.tasks);
                let task = tasks.remove(i);
                proof {
                    assert(task_views(tasks@) =~= before.remove(i as int));
                    lemma_remove(before, i as int);
                    lemma_entry(before, i as int);
                }
                self.tasks = tasks;
                Some(task)
            },
            None => {
                assert(self@.remove(id@) =~= self@);
                None
            },
        }
    }

    /// Gives the task with the identifier `id` the status `status` and
    /// returns a copy of the task as it then is. A task that has reached a
    /// terminal status is never given one that is not terminal: it stays as
    /// it is. A store that does not track the task stays as it is.
    pub fn set_status(&mut self, id: &str, status: TaskStatus) -> (updated: Option<Task>)
        ensures
            final(self)@ == with_status_of(old(self)@, id@, status@),
            match updated {
                Some(task) => {
                    &&& old(self)@.contains_key(id@)
                    &&& task@ == final(self)@[id@]
                    &&& task@ == if old(self)@[id@].status.is_terminal() && !status@.is_terminal() {
                        old(self)@[id@]
                    } else {
                        old(self)@[id@].with_status(status@)
                    }
                },
                None => !old(self)@.contains_key(id@),
            },
    {
        match self.get(id) {
            Some(current) => {
                if current.status.is_terminal() && !status.is_terminal() {
                    Some(current)
                } else {
                    let mut task = current;
                    task.status = status;
                    self.insert(task.clone());
                    Some(task)
                }
            },
            None => None,
        }
    }

    /// Copies of all tracked tasks, each once.
    pub fn values(&self) -> (all: Vec<Task>)
        ensures
            is_listing_of(task_views(all@), self@),
    {
        let mut all: Vec<Task> = Vec::new();
        let mut i: usize = 0;
        while i < self.tasks.len()
            invariant
                i <= self.tasks.len(),
                task_views(all@) == task_views(self.tasks@).take(i as int),
            decreases self.tasks.len() - i,
        {
            let ghost done = task_views(all@);
            let task = self.tasks[i].clone();
            all.push(task);
            assert(task_views(all@) =~= done.push(task@));
            assert(done.push(task@) =~= task_views(self.tasks@).take(i + 1));
            i = i + 1;
        }
        proof {
            use_type_invariant(self);
            assert(task_views(self.tasks@).take(i as int) =~= task_views(self.tasks@));
            lemma_lists_itself(task_views(self.tasks@));
        }
        all
    }
}

/// A mapping has as many entries as a listing of it has tasks.
proof fn lemma_size(tasks: Seq<TaskView>)
    requires
        distinct_ids(tasks),
    ensures
        tasks_by_id(tasks).dom().finite(),
        tasks_by_id(tasks).len() == tasks.len(),
    decreases tasks.len(),
{
    if tasks.len() == 0 {
        assert(forall|id: Seq<char>, i: int| !has_id_at(tasks, id, i));
        assert(tasks_by_id(tasks) =~= Map::<Seq<char>, TaskView>::empty());
    } else {
        let last = tasks.len() - 1;
        let fewer = tasks.remove(last);
        lemma_remove(tasks, last);
        lemma_size(fewer);
        lemma_entry(tasks, last);
        assert(tasks_by_id(tasks) =~= tasks_by_id(fewer).insert(tasks[last].id, tasks[last]));
    }
}

impl Default for StatusStore {
    fn default() -> (store: StatusStore)
        ensures
            store@ == Map::<Seq<char>, TaskView>::empty(),
    {
        StatusStore::new()
    }
}

} // verus!
