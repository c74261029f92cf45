//! The builder: collects the handlers of a host and makes the task manager
//! that dispatches to them.

use crate::dispatch::CHANNEL_CAPACITY;
use crate::manager::ManagerState;
use crate::manager::TaskManager;
use crate::registry::HandlerRegistry;
use vstd::prelude::*;

verus! {

/// Handlers that wait for their manager.
#[verifier::reject_recursive_types(H)]
pub struct Builder<H> {
    handlers: HandlerRegistry<H>,
}

impl<H> View for Builder<H> {
    type V = Map<Seq<char>, H>;

    /// The collected handlers by task type.
    closed spec fn view(&self) -> Map<Seq<char>, H> {
        self.handlers@
    }
}

impl<H> Builder<H> {
    /// A builder without handlers.
    pub fn new() -> (builder: Builder<H>)
        ensures
            builder@ == Map::<Seq<char>, H>::empty(),
    {
        Builder { handlers: HandlerRegistry::new() }
    }

    /// Adds `handler` for the tasks of type `task_type`, in place of the
    /// handler that was added for that type before, if any.
    pub fn add_handler(self, task_type: &str, handler: H) -> (builder: Builder<H>)
        ensures
            builder@ == self@.insert(task_type@, handler),
    {
        let mut handlers = self.handlers;
        handlers.register(task_type, handler);
        Builder { handlers }
    }

    /// Makes a manager without tasks and registers every collected handler
    /// with it.
    pub fn build(self) -> (manager: TaskManager<H>)
        ensures
            manager@ == ManagerState::<H>::initial(CHANNEL_CAPACITY as nat).with_handlers(self@),
    {
        let mut handlers = HandlerRegistry::new();
        handlers.register_all(self.handlers);
        assert(handlers@ =~= self@);
        TaskManager::with_handlers(handlers)
    }
}

/// A builder without handlers.
pub fn init<H>() -> (builder: Builder<H>)
    ensures
        builder@ == Map::<Seq<char>, H>::empty(),
{
    Builder::new()
}

} // verus!
