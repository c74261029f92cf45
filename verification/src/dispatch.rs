//! The task queue: submitted tasks pass through the ingestion channel into
//! the queue of pending tasks, and leave it in the order of their urgency
//! together with the handler registered for their type.

use crate::channel::IngestionChannel;
use crate::queue::PriorityQueue;
use crate::queue::dispatch_order;
use crate::queue::is_next;
use crate::queue::next_index;
use crate::registry::HandlerRegistry;
use crate::task::Task;
use crate::task::TaskOrigin;
use crate::task::TaskPriority;
use crate::task::TaskStatus;
use crate::task::TaskStatusView;
use crate::task::TaskView;
use crate::task::is_random_id;
use crate::task::task_views;
use vstd::prelude::*;
use vstd::string::StringExecFns;

verus! {

/// The number of submitted tasks that can wait to be taken in.
pub const CHANNEL_CAPACITY: usize = 100;

/// What the dispatcher found when it looked for the next task to run.
pub enum Dispatch<'a, H> {
    /// No task is pending.
    Idle,
    /// `task` left the queue, is marked as running, and `handler` is to run
    /// it.
    Run { task: Task, handler: &'a H },
    /// `task` left the queue, and no handler is registered for its type: the
    /// task is dropped.
    HandlerMissing { task: Task },
}

/// The mathematical value of a [`Dispatch`].
pub enum DispatchView<H> {
    Idle,
    Run { task: TaskView, handler: H },
    HandlerMissing { task: TaskView },
}

impl<'a, H> View for Dispatch<'a, H> {
    type V = DispatchView<H>;

    open spec fn view(&self) -> DispatchView<H> {
        match *self {
            Dispatch::Idle => DispatchView::Idle,
            Dispatch::Run { task, handler } => DispatchView::Run { task: task@, handler: *handler },
            Dispatch::HandlerMissing { task } => DispatchView::HandlerMissing { task: task@ },
        }
    }
}

impl<H> DispatchView<H> {
    /// What is reported of a task that was dropped for want of a handler.
    pub open spec fn diagnostic(self) -> Option<Seq<char>> {
        match self {
            DispatchView::HandlerMissing { task } => Some(
                "No handler registered for task "@ + task.task_type,
            ),
            _ => None,
        }
    }
}

impl<'a, H> Dispatch<'a, H> {
    /// The diagnostic that goes with a task that was dropped for want of a
    /// handler. Every other outcome goes without one.
    pub fn diagnostic(&self) -> (text: Option<String>)
        ensures
            match text {
                Some(words) => self@.diagnostic() == Some(words@),
                None => self@.diagnostic() is None,
            },
    {
        match self {
            Dispatch::HandlerMissing { task } => {
                let mut words = "No handler registered for task ".to_owned();
                words.append(task.task_type.as_str());
                Some(words)
            },
            _ => None,
        }
    }
}

/// The mathematical value of a [`TaskQueue`].
#[verifier::ext_equal]
pub struct QueueState<H> {
    /// The submitted tasks that have not been taken in yet, oldest first.
    pub channel: Seq<TaskView>,
    /// The number of tasks that `channel` can hold.
    pub capacity: nat,
    /// The pending tasks in the order of their arrival.
    pub pending: Seq<TaskView>,
    /// The registered handlers by task type.
    pub handlers: Map<Seq<char>, H>,
}

impl<H> QueueState<H> {
    /// A queue without tasks and without handlers.
    pub open spec fn initial(capacity: nat) -> QueueState<H> {
        QueueState { channel: Seq::empty(), capacity, pending: Seq::empty(), handlers: Map::empty() }
    }

    /// Whether a task that is submitted now is accepted.
    pub open spec fn has_room(self) -> bool {
        self.channel.len() < self.capacity
    }

    /// The queue after `task` was submitted: the task waits behind the other
    /// submitted tasks, or is dropped because as many tasks wait as the
    /// channel can hold.
    pub open spec fn submit(self, task: TaskView) -> QueueState<H> {
        if self.has_room() {
            QueueState { channel: self.channel.push(task), ..self }
        } else {
            self
        }
    }

    /// The queue after the tasks of `tasks` were submitted one after the
    /// other.
    pub open spec fn submit_all(self, tasks: Seq<TaskView>) -> QueueState<H>
        decreases tasks.len(),
    {
        if tasks.len() == 0 {
            self
        } else {
            self.submit_all(tasks.drop_last()).submit(tasks.last())
        }
    }

    /// The number of tasks that can be submitted before one is dropped.
    pub open spec fn room(self) -> nat {
        if self.channel.len() < self.capacity {
            (self.capacity - self.channel.len()) as nat
        } else {
            0
        }
    }

    /// The queue after the oldest submitted task was taken in.
    pub open spec fn ingest(self) -> QueueState<H> {
        if self.channel.len() > 0 {
            QueueState {
                channel: self.channel.drop_first(),
                pending: self.pending.push(self.channel.first()),
                ..self
            }
        } else {
            self
        }
    }

    /// The queue after every submitted task was taken in.
    pub open spec fn ingest_all(self) -> QueueState<H> {
        QueueState { channel: Seq::empty(), pending: self.pending + self.channel, ..self }
    }

    /// What the dispatcher finds in this queue. A task that is to run is
    /// marked as running; a task without a handler is left as it was.
    pub open spec fn outcome(self) -> DispatchView<H> {
        if self.pending.len() == 0 {
            DispatchView::Idle
        } else {
            let task = self.pending[next_index(self.pending)];
            if self.handlers.contains_key(task.task_type) {
                DispatchView::Run {
                    task: task.with_status(TaskStatusView::Running),
                    handler: self.handlers[task.task_type],
                }
            } else {
                DispatchView::HandlerMissing { task }
            }
        }
    }

    /// Every task that waits in the channel or is pending has the status
    /// pending.
    pub open spec fn only_pending(self) -> bool {
        &&& forall|i: int| 0 <= i < self.channel.len() ==> (#[trigger] self.channel[i]).status is Pending
        &&& forall|i: int| 0 <= i < self.pending.len() ==> (#[trigger] self.pending[i]).status is Pending
    }

    /// The queue after the dispatcher looked for the next task to run: the
    /// task that leaves next is gone, whether it has a handler or not.
    pub open spec fn dispatch(self) -> QueueState<H> {
        if self.pending.len() == 0 {
            self
        } else {
            QueueState { pending: self.pending.remove(next_index(self.pending)), ..self }
        }
    }

    /// The queue after `handler` was registered for the tasks of type
    /// `task_type`.
    pub open spec fn register(self, task_type: Seq<char>, handler: H) -> QueueState<H> {
        QueueState { handlers: self.handlers.insert(task_type, handler), ..self }
    }
}

/// Of two handlers registered for one task type, only the one registered
/// last is kept.
pub proof fn lemma_last_registration_wins<H>(
    queue: QueueState<H>,
    task_type: Seq<char>,
    first: H,
    second: H,
)
    ensures
        queue.register(task_type, first).register(task_type, second) == queue.register(
            task_type,
            second,
        ),
        queue.register(task_type, first).register(task_type, second).handlers[task_type] == second,
{
    assert(queue.handlers.insert(task_type, first).insert(task_type, second) =~= queue.handlers.insert(
        task_type,
        second,
    ));
}

/// A task runs with the handler that is registered for its type when it is
/// dispatched, whichever handler was registered when it was submitted.
pub proof fn lemma_dispatch_uses_current_handler<H>(queue: QueueState<H>, handler: H)
    requires
        queue.pending.len() > 0,
    ensures
        queue.register(queue.pending[next_index(queue.pending)].task_type, handler).outcome() == (
        DispatchView::Run {
            task: queue.pending[next_index(queue.pending)].with_status(TaskStatusView::Running),
            handler,
        }),
{
}

/// A task that is handed out to run is the pending task that leaves next,
/// marked as running and otherwise as it was submitted.
pub proof fn lemma_dispatched_task_is_running<H>(queue: QueueState<H>)
    requires
        queue.outcome() is Run,
    ensures
        queue.pending.len() > 0,
        queue.outcome() matches DispatchView::Run { task, handler } && task == (TaskView {
            status: TaskStatusView::Running,
            ..queue.pending[next_index(queue.pending)]
        }),
{
}

/// The queue holds only pending tasks, as long as every task is pending
/// when it is submitted: no operation of the queue changes the status of a
/// task that waits.
pub proof fn lemma_queue_holds_only_pending<H>(queue: QueueState<H>)
    requires
        queue.only_pending(),
    ensures
        QueueState::<H>::initial(queue.capacity).only_pending(),
        forall|task: TaskView| task.status is Pending ==> (#[trigger] queue.submit(task)).only_pending(),
        queue.ingest().only_pending(),
        queue.ingest_all().only_pending(),
        queue.dispatch().only_pending(),
        forall|task_type: Seq<char>, handler: H| (#[trigger] queue.register(task_type, handler)).only_pending(),
{
    if queue.channel.len() > 0 {
        let after = queue.ingest();
        assert(queue.channel[0].status is Pending);
        assert forall|i: int| 0 <= i < after.channel.len() implies (#[trigger] after.channel[i]).status
            is Pending by {
            assert(queue.channel[i + 1].status is Pending);
        }
    }
    if queue.pending.len() > 0 {
        crate::queue::lemma_next_index(queue.pending);
        let k = next_index(queue.pending);
        let after = queue.dispatch();
        queue.pending.remove_ensures(k);
        assert forall|i: int| 0 <= i < after.pending.len() implies (#[trigger] after.pending[i]).status
            is Pending by {
            if i < k {
                assert(queue.pending[i].status is Pending);
            } else {
                assert(queue.pending[i + 1].status is Pending);
            }
        }
    }
    let all = queue.ingest_all();
    assert forall|i: int| 0 <= i < all.pending.len() implies (#[trigger] all.pending[i]).status
        is Pending by {
        if i < queue.pending.len() {
            assert(queue.pending[i].status is Pending);
        } else {
            assert(queue.channel[i - queue.pending.len()].status is Pending);
        }
    }
}

/// A task without a registered handler is never handed out to run: it
/// leaves the queue and is dropped.
pub proof fn lemma_no_handler_no_run<H>(queue: QueueState<H>)
    requires
        queue.pending.len() > 0,
        !queue.handlers.contains_key(queue.pending[next_index(queue.pending)].task_type),
    ensures
        queue.outcome() == (DispatchView::<H>::HandlerMissing {
            task: queue.pending[next_index(queue.pending)],
        }),
        queue.dispatch().pending == queue.pending.remove(next_index(queue.pending)),
{
}

/// The channel never holds more tasks than it was made for: a task
/// submitted to a full channel is dropped and leaves no trace.
pub proof fn lemma_channel_stays_within_capacity<H>(queue: QueueState<H>, task: TaskView)
    requires
        queue.channel.len() <= queue.capacity,
    ensures
        queue.submit(task).channel.len() <= queue.capacity,
        queue.channel.len() == queue.capacity ==> queue.submit(task) == queue,
{
}

/// Of the tasks that are submitted in a row, those for which the channel has
/// room wait in it in their order, and all that come after them are dropped.
pub proof fn lemma_overflow_is_dropped<H>(queue: QueueState<H>, tasks: Seq<TaskView>)
    ensures
        queue.submit_all(tasks) == (QueueState {
            channel: queue.channel + if tasks.len() <= queue.room() {
                tasks
            } else {
                tasks.take(queue.room() as int)
            },
            ..queue
        }),
    decreases tasks.len(),
{
    let room = queue.room() as int;
    if tasks.len() == 0 {
        assert(queue.channel + tasks =~= queue.channel);
    } else {
        let earlier = tasks.drop_last();
        lemma_overflow_is_dropped(queue, earlier);
        let before = queue.submit_all(earlier);
        if tasks.len() <= room {
            assert(before.channel.push(tasks.last()) =~= queue.channel + tasks);
        } else if earlier.len() == room {
            assert(tasks.take(room) =~= earlier);
        } else {
            assert(tasks.take(room) =~= earlier.take(room));
        }
    }
}

/// A queue of tasks with its ingestion channel and its handlers.
#[verifier::reject_recursive_types(H)]
pub struct TaskQueue<H> {
    channel: IngestionChannel,
    tasks: PriorityQueue,
    handlers: HandlerRegistry<H>,
}

impl<H> View for TaskQueue<H> {
    type V = QueueState<H>;

    closed spec fn view(&self) -> QueueState<H> {
        QueueState {
            channel: self.channel@,
            capacity: self.channel.capacity(),
            pending: self.tasks@,
            handlers: self.handlers@,
        }
    }
}

impl<H> TaskQueue<H> {
    /// A queue without tasks and without handlers, whose channel holds up to
    /// [`CHANNEL_CAPACITY`] submitted tasks.
    pub fn new() -> (queue: TaskQueue<H>)
        ensures
            queue@ == QueueState::<H>::initial(CHANNEL_CAPACITY as nat),
    {
        TaskQueue {
            channel: IngestionChannel::open(CHANNEL_CAPACITY),
            tasks: PriorityQueue::new(),
            handlers: HandlerRegistry::new(),
        }
    }

    /// A queue without tasks whose handlers are those of `handlers`.
    pub fn with_handlers(handlers: HandlerRegistry<H>) -> (queue: TaskQueue<H>)
        ensures
            queue@ == (QueueState { handlers: handlers@, ..QueueState::<H>::initial(CHANNEL_CAPACITY as nat) }),
    {
        TaskQueue {
            channel: IngestionChannel::open(CHANNEL_CAPACITY),
            tasks: PriorityQueue::new(),
            handlers,
        }
    }

    /// Submits `task` without waiting and says whether it was accepted. A
    /// task that arrives while the channel is full is dropped.
    pub fn submit(&mut self, task: Task) -> (accepted: bool)
        ensures
            accepted == old(self)@.has_room(),
            final(self)@ == old(self)@.submit(task@),
    {
        self.channel.try_send(task)
    }

    /// Creates a pending task and submits it. The task is returned whether
    /// it was accepted or dropped.
    pub fn enqueue(
        &mut self,
        task_type: &str,
        origin: TaskOrigin,
        params: serde_json::Value,
        priority: TaskPriority,
    ) -> (task: Task)
        ensures
            is_random_id(task@.id),
            task@ == (TaskView {
                id: task@.id,
                task_type: task_type@,
                origin,
                status: TaskStatusView::Pending,
                progress: 0,
                params,
                priority,
            }),
            final(self)@ == old(self)@.submit(task@),
    {
        let task = Task::new(task_type, origin, params, priority);
        let _ = self.channel.try_send(task.clone());
        task
    }

    /// Registers `handler` for the tasks of type `task_type`, in place of
    /// the handler that was registered for that type before, if any.
    pub fn register_handler(&mut self, task_type: &str, handler: H)
        ensures
            final(self)@ == old(self)@.register(task_type@, handler),
    {
        self.handlers.register(task_type, handler);
    }

    /// Copies of the pending tasks in ascending order: the task that leaves
    /// next comes last.
    pub fn list(&self) -> (listed: Vec<Task>)
        ensures
            task_views(listed@) == dispatch_order(self@.pending).reverse(),
    {
        self.tasks.clone().into_sorted_vec()
    }

    /// Takes the oldest submitted task in, if there is one, and returns a
    /// copy of it: the task is pending from now on.
    pub fn ingest_next(&mut self) -> (ingested: Option<Task>)
        ensures
            final(self)@ == old(self)@.ingest(),
            match ingested {
                Some(task) => old(self)@.channel.len() > 0 && task@ == old(self)@.channel.first(),
                None => old(self)@.channel.len() == 0,
            },
    {
        match self.channel.try_recv() {
            Some(task) => {
                self.tasks.push(task.clone());
                Some(task)
            },
            None => None,
        }
    }

    /// Takes every submitted task in, oldest first.
    pub fn ingest_all(&mut self)
        ensures
            final(self)@ == old(self)@.ingest_all(),
    {
        loop
            invariant
                self@.ingest_all() == old(self)@.ingest_all(),
            ensures
                self@ == old(self)@.ingest_all(),
            decreases self@.channel.len(),
        {
            let ghost before = self@;
            match self.channel.try_recv() {
                Some(task) => {
                    self.tasks.push(task);
                    assert(self@.pending + self@.channel =~= before.pending + before.channel);
                },
                None => {
                    assert(self@.channel =~= Seq::<TaskView>::empty());
                    assert(self@.pending + self@.channel =~= self@.pending);
                    break ;
                },
            }
        }
    }

    /// Looks for the next task to run: the pending task that leaves next is
    /// taken out of the queue. If a handler is registered for its type at
    /// this moment, the task is marked as running and returned with that
    /// handler; if none is, the task is dropped as it is.
    pub fn dispatch_next(&mut self) -> (found: Dispatch<'_, H>)
        ensures
            final(self)@ == old(self)@.dispatch(),
            found@ == old(self)@.outcome(),
            old(self)@.pending.len() > 0 ==> is_next(old(self)@.pending, next_index(old(self)@.pending)),
    {
        match self.tasks.pop() {
            None => Dispatch::Idle,
            Some(task) => match self.handlers.lookup(task.task_type.as_str()) {
                Some(handler) => {
                    let mut task = task;
                    task.status = TaskStatus::Running;
                    Dispatch::Run { task, handler }
                },
                None => Dispatch::HandlerMissing { task },
            },
        }
    }

    /// One cycle of the dispatcher: every submitted task is taken in, and
    /// then the next task to run is looked for among all tasks that are
    /// pending by then. A task that was submitted before the cycle is never
    /// overtaken by a less urgent one.
    pub fn cycle(&mut self) -> (found: Dispatch<'_, H>)
        ensures
            final(self)@ == old(self)@.ingest_all().dispatch(),
            found@ == old(self)@.ingest_all().outcome(),
            old(self)@.ingest_all().pending == old(self)@.pending + old(self)@.channel,
            old(self)@.pending.len() + old(self)@.channel.len() > 0 ==> is_next(
                old(self)@.pending + old(self)@.channel,
                next_index(old(self)@.pending + old(self)@.channel),
            ),
    {
        self.ingest_all();
        self.dispatch_next()
    }
}

} // verus!
