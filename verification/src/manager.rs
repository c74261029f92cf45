//! The task manager: a task queue together with the status store that
//! tracks every task from the moment it is taken in until its handler is
//! done with it.

use crate::dispatch::CHANNEL_CAPACITY;
use crate::dispatch::Dispatch;
use crate::dispatch::DispatchView;
use crate::dispatch::QueueState;
use crate::dispatch::TaskQueue;
use crate::dispatch::lemma_queue_holds_only_pending;
use crate::error::Error;
use crate::queue::is_next;
use crate::queue::next_index;
use crate::registry::HandlerRegistry;
use crate::store::StatusStore;
use crate::store::is_listing_of;
use crate::store::record;
use crate::store::with_status_of;
use crate::task::MAX_PROGRESS;
use crate::task::Task;
use crate::task::TaskStatus;
use crate::task::TaskStatusView;
use crate::task::TaskView;
use crate::task::task_views;
use vstd::prelude::*;

verus! {

/// The tracked tasks after every task of `incoming` was tracked in turn. A
/// tracked task that has reached a terminal status is never replaced by one
/// that has not.
pub open spec fn track_all(tasks: Map<Seq<char>, TaskView>, incoming: Seq<TaskView>) -> Map<
    Seq<char>,
    TaskView,
>
    decreases incoming.len(),
{
    if incoming.len() == 0 {
        tasks
    } else {
        track_all(record(tasks, incoming.first()), incoming.drop_first())
    }
}

/// The mathematical value of a [`TaskManager`].
#[verifier::ext_equal]
pub struct ManagerState<H> {
    /// The submitted and the pending tasks, and the handlers.
    pub queue: QueueState<H>,
    /// The tracked tasks by identifier.
    pub tasks: Map<Seq<char>, TaskView>,
}

impl<H> ManagerState<H> {
    /// A manager without tasks and without handlers.
    pub open spec fn initial(capacity: nat) -> ManagerState<H> {
        ManagerState { queue: QueueState::initial(capacity), tasks: Map::empty() }
    }

    /// The same manager with the handlers `handlers`.
    pub open spec fn with_handlers(self, handlers: Map<Seq<char>, H>) -> ManagerState<H> {
        ManagerState { queue: QueueState { handlers, ..self.queue }, ..self }
    }

    /// The manager after `task` was submitted. The task is not tracked yet.
    pub open spec fn submit(self, task: TaskView) -> ManagerState<H> {
        ManagerState { queue: self.queue.submit(task), ..self }
    }

    /// The manager after the oldest submitted task was taken in: the task is
    /// pending and tracked. Where a task with the same identifier is tracked
    /// and has reached a terminal status that the new task has not, what is
    /// tracked stays as it is.
    pub open spec fn ingest(self) -> ManagerState<H> {
        if self.queue.channel.len() > 0 {
            ManagerState {
                queue: self.queue.ingest(),
                tasks: record(self.tasks, self.queue.channel.first()),
            }
        } else {
            self
        }
    }

    /// The manager after every submitted task was taken in.
    pub open spec fn ingest_all(self) -> ManagerState<H> {
        ManagerState {
            queue: self.queue.ingest_all(),
            tasks: track_all(self.tasks, self.queue.channel),
        }
    }

    /// What the dispatcher finds: what it finds in the queue.
    pub open spec fn outcome(self) -> DispatchView<H> {
        self.queue.outcome()
    }

    /// The manager after the dispatcher looked for the next task to run. A
    /// task that is to run is tracked as running, unless it is tracked with
    /// a terminal status, which it keeps. A task without a handler leaves
    /// the queue and what is tracked stays as it is.
    pub open spec fn dispatch(self) -> ManagerState<H> {
        ManagerState {
            queue: self.queue.dispatch(),
            tasks: match self.outcome() {
                DispatchView::Run { task, handler } => record(self.tasks, task),
                _ => self.tasks,
            },
        }
    }

    /// The manager after the handler of the task `id` came to its end: the
    /// task is no longer tracked.
    pub open spec fn retire(self, id: Seq<char>) -> ManagerState<H> {
        ManagerState { tasks: self.tasks.remove(id), ..self }
    }

    /// The manager after the task `id` was given the status `status`. A
    /// task that has reached a terminal status is never given one that is
    /// not terminal: it stays as it is. A manager that does not track the
    /// task stays as it is.
    pub open spec fn update_status(self, id: Seq<char>, status: TaskStatusView) -> ManagerState<H> {
        ManagerState { tasks: with_status_of(self.tasks, id, status), ..self }
    }

    /// The manager after `handler` was registered for the tasks of type
    /// `task_type`.
    pub open spec fn register(self, task_type: Seq<char>, handler: H) -> ManagerState<H> {
        ManagerState { queue: self.queue.register(task_type, handler), ..self }
    }
}

/// One operation on a manager.
pub enum Step<H> {
    /// A task is submitted.
    Submit(TaskView),
    /// The oldest submitted task is taken in.
    Ingest,
    /// The dispatcher looks for the next task to run.
    Dispatch,
    /// The handler of the task with this identifier came to its end.
    Retire(Seq<char>),
    /// The task with this identifier is given this status.
    UpdateStatus(Seq<char>, TaskStatusView),
    /// A handler is registered for the tasks of one type.
    Register(Seq<char>, H),
}

impl<H> ManagerState<H> {
    /// The manager after `step`.
    pub open spec fn step(self, step: Step<H>) -> ManagerState<H> {
        match step {
            Step::Submit(task) => self.submit(task),
            Step::Ingest => self.ingest(),
            Step::Dispatch => self.dispatch(),
            Step::Retire(id) => self.retire(id),
            Step::UpdateStatus(id, status) => self.update_status(id, status),
            Step::Register(task_type, handler) => self.register(task_type, handler),
        }
    }

    /// The manager after the steps of `steps`, one after the other.
    pub open spec fn run(self, steps: Seq<Step<H>>) -> ManagerState<H>
        decreases steps.len(),
    {
        if steps.len() == 0 {
            self
        } else {
            self.run(steps.drop_last()).step(steps.last())
        }
    }

    /// The progress of every task that the manager holds, submitted, pending
    /// or tracked, is a percentage.
    pub open spec fn progress_in_range(self) -> bool {
        &&& forall|i: int|
            0 <= i < self.queue.channel.len() ==> (#[trigger] self.queue.channel[i]).progress_in_range()
        &&& forall|i: int|
            0 <= i < self.queue.pending.len() ==> (#[trigger] self.queue.pending[i]).progress_in_range()
        &&& forall|id: Seq<char>| #[trigger]
            self.tasks.contains_key(id) ==> self.tasks[id].progress_in_range()
    }
}

/// A new manager holds no task, so the progress of every task it holds is a
/// percentage.
pub proof fn lemma_initial_progress_in_range<H>(capacity: nat)
    ensures
        ManagerState::<H>::initial(capacity).progress_in_range(),
{
}

/// No operation of the manager takes the progress of a task out of its
/// range: as long as every submitted task comes with a percentage, every
/// task that can be looked up has one.
pub proof fn lemma_progress_stays_in_range<H>(state: ManagerState<H>, step: Step<H>)
    requires
        state.progress_in_range(),
        step matches Step::Submit(task) ==> task.progress_in_range(),
    ensures
        state.step(step).progress_in_range(),
{
    let after = state.step(step);
    match step {
        Step::Submit(task) => {},
        Step::Ingest => {
            if state.queue.channel.len() > 0 {
                assert(state.queue.channel[0].progress_in_range());
                assert forall|i: int| 0 <= i < after.queue.channel.len() implies (
                #[trigger] after.queue.channel[i]).progress_in_range() by {
                    assert(state.queue.channel[i + 1].progress_in_range());
                }
            }
        },
        Step::Dispatch => {
            if state.queue.pending.len() > 0 {
                crate::queue::lemma_next_index(state.queue.pending);
                let k = next_index(state.queue.pending);
                assert(state.queue.pending[k].progress_in_range());
                state.queue.pending.remove_ensures(k);
                assert forall|i: int| 0 <= i < after.queue.pending.len() implies (
                #[trigger] after.queue.pending[i]).progress_in_range() by {
                    if i < k {
                        assert(state.queue.pending[i].progress_in_range());
                    } else {
                        assert(state.queue.pending[i + 1].progress_in_range());
                    }
                }
            }
        },
        Step::Retire(id) => {},
        Step::UpdateStatus(id, status) => {},
        Step::Register(task_type, handler) => {},
    }
}

/// Whatever is done with a manager, the progress of every task that can be
/// looked up in it is a percentage, as long as every task came with one
/// when it was submitted.
pub proof fn lemma_progress_always_in_range<H>(capacity: nat, steps: Seq<Step<H>>, id: Seq<char>)
    requires
        forall|i: int|
            0 <= i < steps.len() ==> (#[trigger] steps[i] matches Step::Submit(task)
                ==> task.progress_in_range()),
    ensures
        ManagerState::<H>::initial(capacity).run(steps).progress_in_range(),
        ManagerState::<H>::initial(capacity).run(steps).tasks.contains_key(id)
            ==> ManagerState::<H>::initial(capacity).run(steps).tasks[id].progress <= MAX_PROGRESS,
    decreases steps.len(),
{
    if steps.len() > 0 {
        let earlier = steps.drop_last();
        assert forall|i: int| 0 <= i < earlier.len() implies (#[trigger] earlier[i] matches Step::Submit(
            task,
        ) ==> task.progress_in_range()) by {
            assert(earlier[i] == steps[i]);
        }
        lemma_progress_always_in_range(capacity, earlier, id);
        lemma_progress_stays_in_range(ManagerState::<H>::initial(capacity).run(earlier), steps.last());
    }
}

/// A tracked task that has reached a terminal status keeps a terminal
/// status for as long as it is tracked, whatever is done with the manager.
pub proof fn lemma_terminal_status_stays<H>(state: ManagerState<H>, step: Step<H>, id: Seq<char>)
    requires
        state.tasks.contains_key(id),
        state.tasks[id].status.is_terminal(),
    ensures
        state.step(step).tasks.contains_key(id) ==> state.step(step).tasks[id].status.is_terminal(),
        !(step matches Step::Retire(gone) && gone == id) ==> state.step(step).tasks.contains_key(id),
{
}

/// The status of a tracked task never goes back from a terminal one: after
/// any steps that do not retire the task, it is still tracked with a
/// terminal status.
pub proof fn lemma_terminal_status_is_kept<H>(state: ManagerState<H>, steps: Seq<Step<H>>, id: Seq<char>)
    requires
        state.tasks.contains_key(id),
        state.tasks[id].status.is_terminal(),
        forall|i: int|
            0 <= i < steps.len() ==> !(#[trigger] steps[i] matches Step::Retire(gone) && gone == id),
    ensures
        state.run(steps).tasks.contains_key(id),
        state.run(steps).tasks[id].status.is_terminal(),
    decreases steps.len(),
{
    if steps.len() > 0 {
        let earlier = steps.drop_last();
        assert forall|i: int| 0 <= i < earlier.len() implies !(#[trigger] earlier[i] matches Step::Retire(
            gone,
        ) && gone == id) by {
            assert(earlier[i] == steps[i]);
        }
        lemma_terminal_status_is_kept(state, earlier, id);
        assert(steps.last() == steps[steps.len() - 1]);
        lemma_terminal_status_stays(state.run(earlier), steps.last(), id);
    }
}

/// The queue of a manager holds only pending tasks, as long as every task
/// is pending when it is submitted.
pub proof fn lemma_queue_stays_pending<H>(state: ManagerState<H>, step: Step<H>)
    requires
        state.queue.only_pending(),
        step matches Step::Submit(task) ==> task.status is Pending,
    ensures
        state.step(step).queue.only_pending(),
{
    lemma_queue_holds_only_pending(state.queue);
}

/// Whatever is done with a manager, every task that waits in its channel or
/// is pending in its queue has the status pending, as long as every task
/// had it when it was submitted.
pub proof fn lemma_queue_always_pending<H>(capacity: nat, steps: Seq<Step<H>>)
    requires
        forall|i: int|
            0 <= i < steps.len() ==> (#[trigger] steps[i] matches Step::Submit(task) ==> task.status
                is Pending),
    ensures
        ManagerState::<H>::initial(capacity).run(steps).queue.only_pending(),
    decreases steps.len(),
{
    if steps.len() > 0 {
        let earlier = steps.drop_last();
        assert forall|i: int| 0 <= i < earlier.len() implies (#[trigger] earlier[i] matches Step::Submit(
            task,
        ) ==> task.status is Pending) by {
            assert(earlier[i] == steps[i]);
        }
        lemma_queue_always_pending(capacity, earlier);
        lemma_queue_stays_pending(ManagerState::<H>::initial(capacity).run(earlier), steps.last());
    }
}

/// A task that is dropped for want of a handler is never marked as
/// running: what is tracked stays as it is.
pub proof fn lemma_dropped_task_is_not_started<H>(state: ManagerState<H>)
    requires
        state.outcome() is HandlerMissing,
    ensures
        state.outcome() matches DispatchView::HandlerMissing { task } && task
            == state.queue.pending[next_index(state.queue.pending)],
        state.dispatch().tasks == state.tasks,
{
}

/// A task queue with a status store.
#[verifier::reject_recursive_types(H)]
pub struct TaskManager<H> {
    tasks: StatusStore,
    queue: TaskQueue<H>,
}

impl<H> View for TaskManager<H> {
    type V = ManagerState<H>;

    closed spec fn view(&self) -> ManagerState<H> {
        ManagerState { queue: self.queue@, tasks: self.tasks@ }
    }
}

impl<H> TaskManager<H> {
    /// A manager without tasks and without handlers, whose channel holds up
    /// to [`CHANNEL_CAPACITY`] submitted tasks.
    pub fn new() -> (manager: TaskManager<H>)
        ensures
            manager@ == ManagerState::<H>::initial(CHANNEL_CAPACITY as nat),
    {
        TaskManager { tasks: StatusStore::new(), queue: TaskQueue::new() }
    }

    /// A manager without tasks whose handlers are those of `handlers`.
    pub fn with_handlers(handlers: HandlerRegistry<H>) -> (manager: TaskManager<H>)
        ensures
            manager@ == ManagerState::<H>::initial(CHANNEL_CAPACITY as nat).with_handlers(handlers@),
    {
        TaskManager { tasks: StatusStore::new(), queue: TaskQueue::with_handlers(handlers) }
    }

    /// Submits `task` without waiting. The call succeeds whether the task
    /// was accepted or dropped: a task that arrives while the channel is
    /// full is never taken in, and nothing tells the caller.
    pub fn add_task(&mut self, task: Task) -> (done: Result<(), Error>)
        ensures
            done is Ok,
            final(self)@ == old(self)@.submit(task@),
    {
        let _ = self.queue.submit(task);
        Ok(())
    }

    /// A copy of the tracked task with the identifier `id`, if there is one.
    pub fn get_task(&self, id: &str) -> (found: Option<Task>)
        ensures
            match found {
                Some(task) => self@.tasks.contains_key(id@) && task@ == self@.tasks[id@],
                None => !self@.tasks.contains_key(id@),
            },
    {
        self.tasks.get(id)
    }

    /// Copies of all tracked tasks, each once, whatever their status.
    pub fn get_all_tasks(&self) -> (all: Vec<Task>)
        ensures
            is_listing_of(task_views(all@), self@.tasks),
    {
        self.tasks.values()
    }

    /// Gives the tracked task `id` the status `status` and returns the
    /// snapshot of the task that is to be pushed to the event sink. A task
    /// that has reached a terminal status is never given one that is not
    /// terminal: it stays as it is and its snapshot is returned. Fails, and
    /// changes nothing, when no task with that identifier is tracked.
    pub fn update_task_status(&mut self, id: &str, status: TaskStatus) -> (updated: Result<Task, Error>)
        ensures
            final(self)@ == old(self)@.update_status(id@, status@),
            match updated {
                Ok(snapshot) => {
                    &&& old(self)@.tasks.contains_key(id@)
                    &&& snapshot@ == if old(self)@.tasks[id@].status.is_terminal()
                        && !status@.is_terminal() {
                        old(self)@.tasks[id@]
                    } else {
                        old(self)@.tasks[id@].with_status(status@)
                    }
                    &&& snapshot@ == final(self)@.tasks[id@]
                },
                Err(error) => error == Error::TaskNotFound && !old(self)@.tasks.contains_key(id@),
            },
    {
        match self.tasks.set_status(id, status) {
            Some(snapshot) => Ok(snapshot),
            None => Err(Error::TaskNotFound),
        }
    }

    /// Registers `handler` for the tasks of type `task_type`, in place of
    /// the handler that was registered for that type before, if any.
    pub fn register_handler(&mut self, task_type: &str, handler: H)
        ensures
            final(self)@ == old(self)@.register(task_type@, handler),
    {
        self.queue.register_handler(task_type, handler);
    }

    /// Takes the oldest submitted task in, if there is one: the task is
    /// tracked and pending from now on. Says whether a task was taken in.
    pub fn ingest_next(&mut self) -> (ingested: bool)
        ensures
            ingested == (old(self)@.queue.channel.len() > 0),
            final(self)@ == old(self)@.ingest(),
    {
        match self.queue.ingest_next() {
            Some(task) => {
                self.tasks.insert(task);
                true
            },
            None => false,
        }
    }

    /// Takes every submitted task in, oldest first.
    pub fn ingest_all(&mut self)
        ensures
            final(self)@ == old(self)@.ingest_all(),
    {
        loop
            invariant
                self@.ingest_all() == old(self)@.ingest_all(),
            ensures
                self@ == old(self)@.ingest_all(),
            decreases self@.queue.channel.len(),
        {
            let ghost before = self@;
            if !self.ingest_next() {
                assert(self@.queue.channel =~= Seq::<TaskView>::empty());
                assert(self@.queue.pending + self@.queue.channel =~= self@.queue.pending);
                assert(self@.ingest_all() =~= self@);
                break ;
            }
            assert(self@.queue.pending + self@.queue.channel =~= before.queue.pending
                + before.queue.channel);
        }
    }

    /// Looks for the next task to run. The pending task that leaves next is
    /// taken out of the queue. If a handler is registered for its type at
    /// this moment, the task is marked as running and returned with that
    /// handler, and it is tracked as running unless it is tracked with a
    /// terminal status, which it keeps; if none is, the task is dropped.
    pub fn dispatch_next(&mut self) -> (found: Dispatch<'_, H>)
        ensures
            final(self)@ == old(self)@.dispatch(),
            found@ == old(self)@.outcome(),
            old(self)@.queue.pending.len() > 0 ==> is_next(
                old(self)@.queue.pending,
                next_index(old(self)@.queue.pending),
            ),
    {
        match self.queue.dispatch_next() {
            Dispatch::Idle => Dispatch::Idle,
            Dispatch::Run { task, handler } => {
                self.tasks.insert(task.clone());
                Dispatch::Run { task, handler }
            },
            Dispatch::HandlerMissing { task } => Dispatch::HandlerMissing { task },
        }
    }

    /// Stops tracking the task `id`, whose handler came to its end, and
    /// returns the task as it was last tracked.
    pub fn retire(&mut self, id: &str) -> (retired: Option<Task>)
        ensures
            final(self)@ == old(self)@.retire(id@),
            match retired {
                Some(task) => old(self)@.tasks.contains_key(id@) && task@ == old(self)@.tasks[id@],
                None => !old(self)@.tasks.contains_key(id@),
            },
    {
        self.tasks.remove(id)
    }
}

} // verus!
