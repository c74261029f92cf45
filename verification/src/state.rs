//! The state that a host keeps for the queue.

use crate::store::StatusStore;
use crate::task::TaskView;
use vstd::prelude::*;

verus! {

/// The tasks that a host tracks, by identifier.
pub struct TaskQueueState {
    pub tasks: StatusStore,
}

impl Default for TaskQueueState {
    fn default() -> (state: TaskQueueState)
        ensures
            state.tasks@ == Map::<Seq<char>, TaskView>::empty(),
    {
        TaskQueueState { tasks: StatusStore::new() }
    }
}

} // verus!
