//! The commands that a host offers to its user interface.

use crate::manager::TaskManager;
use crate::store::is_listing_of;
use crate::task::Task;
use crate::task::TaskOrigin;
use crate::task::TaskPriority;
use crate::task::TaskStatusView;
use crate::task::TaskView;
use crate::task::is_random_id;
use crate::task::task_views;
use vstd::prelude::*;

verus! {

/// The priority that a user interface asks for with a number: 0 stands for
/// high, 2 for low, and every other number, or none, for medium.
pub open spec fn requested_priority(level: Option<u8>) -> TaskPriority {
    match level {
        Some(0) => TaskPriority::High,
        Some(2) => TaskPriority::Low,
        _ => TaskPriority::Medium,
    }
}

/// The priority that a user interface asks for with `level`.
pub fn priority_from_level(level: Option<u8>) -> (priority: TaskPriority)
    ensures
        priority == requested_priority(level),
{
    match level {
        Some(0) => TaskPriority::High,
        Some(2) => TaskPriority::Low,
        _ => TaskPriority::Medium,
    }
}

/// Creates a pending task of the backend and submits it to `manager`.
/// Returns the identifier of the task, whether the task was accepted or
/// dropped.
pub fn add_task<H>(
    manager: &mut TaskManager<H>,
    task_type: String,
    params: serde_json::Value,
    priority: Option<u8>,
) -> (added: Result<String, String>)
    ensures
        added matches Ok(id) && is_random_id(id@) && final(manager)@ == old(manager)@.submit(
            TaskView {
                id: id@,
                task_type: task_type@,
                origin: TaskOrigin::Backend,
                status: TaskStatusView::Pending,
                progress: 0,
                params,
                priority: requested_priority(priority),
            },
        ),
{
    let task = Task::new(
        task_type.as_str(),
        TaskOrigin::Backend,
        params,
        priority_from_level(priority),
    );
    let task_id = task.id.clone();
    match manager.add_task(task) {
        Ok(()) => Ok(task_id),
        Err(error) => Err(error.message()),
    }
}

/// Copies of all tasks that `manager` tracks, each once.
pub fn get_all_tasks<H>(manager: &TaskManager<H>) -> (listed: Result<Vec<Task>, String>)
    ensures
        listed matches Ok(all) && is_listing_of(task_views(all@), manager@.tasks),
{
    Ok(manager.get_all_tasks())
}

} // verus!
