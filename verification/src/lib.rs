//! A priority-ordered task dispatch queue.
//!
//! Callers submit tasks tagged with a type, an origin, a priority and opaque
//! parameters. The queue stores them, selects the most urgent pending task,
//! resolves the handler registered for its type and hands both to the host,
//! which runs the handler. The library never blocks and never performs I/O:
//! every operation is a step from one state to the next.

pub mod builder;
pub mod channel;
pub mod commands;
pub mod dispatch;
pub mod error;
pub mod manager;
pub mod progress;
pub mod queue;
pub mod registry;
pub mod state;
pub mod store;
pub mod task;

pub use crate::builder::init;
pub use crate::builder::Builder;
pub use crate::dispatch::Dispatch;
pub use crate::dispatch::TaskQueue;
pub use crate::error::Error;
pub use crate::manager::TaskManager;
pub use crate::state::TaskQueueState;
pub use crate::task::Task;
pub use crate::task::TaskOrigin;
pub use crate::task::TaskPriority;
pub use crate::task::TaskStatus;
