//! The task value object: identity, type, origin, status, progress,
//! parameters and priority.

use core::cmp::Ordering;
use vstd::prelude::*;
use vstd::std_specs::cmp::PartialEqSpecImpl;
use vstd::std_specs::cmp::PartialOrdSpecImpl;

verus! {

/// Where a task was submitted from. Provenance only: the queue treats both
/// origins alike.
#[derive(Clone, Copy, Debug, PartialEq, Eq, Structural)]
pub enum TaskOrigin {
    Frontend,
    Backend,
}

/// The priority tier of a task. `High` is dispatched before `Medium`, which
/// is dispatched before `Low`.
#[derive(Clone, Copy, Debug, PartialEq, Eq, Structural, PartialOrd, Ord)]
pub enum TaskPriority {
    High,
    Medium,
    Low,
}

impl TaskPriority {
    /// The tier as a number: the smaller, the more urgent.
    pub open spec fn rank(self) -> nat {
        match self {
            TaskPriority::High => 0,
            TaskPriority::Medium => 1,
            TaskPriority::Low => 2,
        }
    }

    /// The tier as a number: 0 for `High`, 1 for `Medium`, 2 for `Low`.
    pub fn level(self) -> (n: u8)
        ensures
            n == self.rank(),
    {
        match self {
            TaskPriority::High => 0,
            TaskPriority::Medium => 1,
            TaskPriority::Low => 2,
        }
    }
}

/// The state of a task in its life cycle.
#[derive(Debug)]
pub enum TaskStatus {
    /// Waiting to be dispatched.
    Pending,
    /// Handed to its handler.
    Running,
    /// Finished successfully.
    Completed,
    /// Finished with an error; the string says why.
    Failed(String),
    /// Withdrawn. No operation of the queue produces this status.
    Canceled,
}

/// The mathematical value of a [`TaskStatus`].
pub enum TaskStatusView {
    Pending,
    Running,
    Completed,
    Failed(Seq<char>),
    Canceled,
}

impl TaskStatusView {
    /// Completed, failed and canceled tasks have reached the end of their
    /// life cycle.
    pub open spec fn is_terminal(self) -> bool {
        self is Completed || self is Failed || self is Canceled
    }
}

impl View for TaskStatus {
    type V = TaskStatusView;

    open spec fn view(&self) -> TaskStatusView {
        match *self {
            TaskStatus::Pending => TaskStatusView::Pending,
            TaskStatus::Running => TaskStatusView::Running,
            TaskStatus::Completed => TaskStatusView::Completed,
            TaskStatus::Failed(reason) => TaskStatusView::Failed(reason@),
            TaskStatus::Canceled => TaskStatusView::Canceled,
        }
    }
}

impl TaskStatus {
    /// Whether the status is one that a task never leaves.
    pub fn is_terminal(&self) -> (b: bool)
        ensures
            b == self@.is_terminal(),
    {
        match self {
            TaskStatus::Pending => false,
            TaskStatus::Running => false,
            TaskStatus::Completed => true,
            TaskStatus::Failed(_) => true,
            TaskStatus::Canceled => true,
        }
    }
}

impl Clone for TaskStatus {
    fn clone(&self) -> (copy: Self)
        ensures
            copy@ == self@,
    {
        match self {
            TaskStatus::Pending => TaskStatus::Pending,
            TaskStatus::Running => TaskStatus::Running,
            TaskStatus::Completed => TaskStatus::Completed,
            TaskStatus::Failed(reason) => TaskStatus::Failed(reason.clone()),
            TaskStatus::Canceled => TaskStatus::Canceled,
        }
    }
}

impl PartialEq for TaskStatus {
    fn eq(&self, other: &Self) -> (same: bool) {
        match (self, other) {
            (TaskStatus::Pending, TaskStatus::Pending) => true,
            (TaskStatus::Running, TaskStatus::Running) => true,
            (TaskStatus::Completed, TaskStatus::Completed) => true,
            (TaskStatus::Failed(mine), TaskStatus::Failed(theirs)) => *mine == *theirs,
            (TaskStatus::Canceled, TaskStatus::Canceled) => true,
            _ => false,
        }
    }
}

impl PartialEqSpecImpl for TaskStatus {
    open spec fn obeys_eq_spec() -> bool {
        true
    }

    open spec fn eq_spec(&self, other: &Self) -> bool {
        self@ == other@
    }
}

impl Eq for TaskStatus {

}

/// A JSON document of `serde_json`. Nothing is known of what it holds.
#[verifier::external_type_specification]
#[verifier::external_body]
pub struct ExJsonValue(serde_json::Value);

/// Copies a parameter document with `serde_json::Value::clone`. The copy is
/// the same document as the one it was made from.
#[verifier::external_body]
pub(crate) fn clone_params(params: &serde_json::Value) -> (copy: serde_json::Value)
    ensures
        copy == *params,
{
    params.clone()
}

/// What the text of a random identifier looks like: 36 characters, four
/// hyphens that split them into groups of 8, 4, 4, 4 and 12 lower-case
/// hexadecimal digits, the third group starting with the version digit 4.
pub open spec fn is_random_id(text: Seq<char>) -> bool {
    &&& text.len() == 36
    &&& forall|i: int|
        0 <= i < 36 ==> if i == 8 || i == 13 || i == 18 || i == 23 {
            text[i] == '-'
        } else {
            ('0' <= #[trigger] text[i] <= '9') || ('a' <= text[i] <= 'f')
        }
    &&& text[14] == '4'
}

/// Draws a random identifier with `uuid::Uuid::new_v4` and writes it out with
/// the `to_string` that `uuid` gives it: the hyphenated lower-case form. Only
/// the shape of the text is promised; which identifier comes back is up to
/// the operating system's random number generator.
#[verifier::external_body]
pub(crate) fn fresh_id() -> (id: String)
    ensures
        is_random_id(id@),
{
    uuid::Uuid::new_v4().to_string()
}

/// One unit of work.
#[derive(Debug)]
pub struct Task {
    /// Unique identifier, drawn at creation.
    pub id: String,
    /// The key by which a handler is found.
    pub task_type: String,
    /// Who submitted the task.
    pub origin: TaskOrigin,
    /// Where the task is in its life cycle.
    pub status: TaskStatus,
    /// Percentage done, from 0 to 100. The queue stores it as it is given.
    pub progress: u8,
    /// Parameters for the handler. The queue never looks inside.
    pub params: serde_json::Value,
    /// The tier that decides the order of dispatch.
    pub priority: TaskPriority,
}

/// The mathematical value of a [`Task`].
pub struct TaskView {
    pub id: Seq<char>,
    pub task_type: Seq<char>,
    pub origin: TaskOrigin,
    pub status: TaskStatusView,
    pub progress: u8,
    pub params: serde_json::Value,
    pub priority: TaskPriority,
}

/// The largest meaningful value of `progress`.
pub const MAX_PROGRESS: u8 = 100;

impl TaskView {
    /// The same task with another status.
    pub open spec fn with_status(self, status: TaskStatusView) -> TaskView {
        TaskView { status, ..self }
    }

    /// The progress is a percentage.
    pub open spec fn progress_in_range(self) -> bool {
        self.progress <= MAX_PROGRESS
    }

    /// Whether `self` is dispatched before `other` when both are pending.
    pub open spec fn more_urgent_than(self, other: TaskView) -> bool {
        self.priority.rank() < other.priority.rank()
    }
}

impl View for Task {
    type V = TaskView;

    open spec fn view(&self) -> TaskView {
        TaskView {
            id: self.id@,
            task_type: self.task_type@,
            origin: self.origin,
            status: self.status@,
            progress: self.progress,
            params: self.params,
            priority: self.priority,
        }
    }
}

/// The mathematical values of a sequence of tasks, in the same order.
pub open spec fn task_views(tasks: Seq<Task>) -> Seq<TaskView> {
    tasks.map_values(|task: Task| task@)
}

impl Task {
    /// Creates a pending task with a fresh identifier and no progress.
    pub fn new(
        task_type: &str,
        origin: TaskOrigin,
        params: serde_json::Value,
        priority: TaskPriority,
    ) -> (task: Task)
        ensures
            is_random_id(task@.id),
            task@ == (TaskView {
                id: task@.id,
                task_type: task_type@,
                origin,
                status: TaskStatusView::Pending,
                progress: 0,
                params,
                priority,
            }),
    {
        Task {
            id: fresh_id(),
            task_type: task_type.to_owned(),
            origin,
            status: TaskStatus::Pending,
            progress: 0,
            params,
            priority,
        }
    }

    /// Orders two tasks for the queue: the greater task is the more urgent
    /// one. Only the priority tier counts.
    pub fn cmp(&self, other: &Task) -> (o: Ordering)
        ensures
            o == urgency_order(self@, other@),
    {
        let mine = self.priority.level();
        let theirs = other.priority.level();
        if mine < theirs {
            Ordering::Greater
        } else if mine == theirs {
            Ordering::Equal
        } else {
            Ordering::Less
        }
    }
}

/// The order that the queue puts on tasks: by priority tier alone, the more
/// urgent task being the greater one.
pub open spec fn urgency_order(a: TaskView, b: TaskView) -> Ordering {
    if a.priority.rank() < b.priority.rank() {
        Ordering::Greater
    } else if a.priority.rank() == b.priority.rank() {
        Ordering::Equal
    } else {
        Ordering::Less
    }
}

impl Clone for Task {
    fn clone(&self) -> (copy: Self)
        ensures
            copy@ == self@,
    {
        Task {
            id: self.id.clone(),
            task_type: self.task_type.clone(),
            origin: self.origin,
            status: self.status.clone(),
            progress: self.progress,
            params: clone_params(&self.params),
            priority: self.priority,
        }
    }
}

/// Two tasks are the same task when their identifiers are equal, whatever
/// their other fields hold.
impl PartialEq for Task {
    fn eq(&self, other: &Self) -> (same: bool) {
        self.id == other.id
    }
}

impl PartialEqSpecImpl for Task {
    open spec fn obeys_eq_spec() -> bool {
        true
    }

    open spec fn eq_spec(&self, other: &Self) -> bool {
        self@.id == other@.id
    }
}

impl Eq for Task {

}

impl PartialOrd for Task {
    fn partial_cmp(&self, other: &Self) -> (o: Option<Ordering>) {
        Some(self.cmp(other))
    }
}

impl PartialOrdSpecImpl for Task {
    open spec fn obeys_partial_cmp_spec() -> bool {
        true
    }

    open spec fn partial_cmp_spec(&self, other: &Self) -> Option<Ordering> {
        Some(urgency_order(self@, other@))
    }
}

} // verus!
