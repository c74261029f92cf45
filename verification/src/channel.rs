//! The ingestion channel: a bounded first-in, first-out hand-off between the
//! callers that submit tasks and the loop that takes them in.
//!
//! The channel is a bounded channel of `tokio::sync::mpsc`. Both of its
//! halves are kept in one value that cannot be copied, so that every send and
//! every receive goes through that value and the tasks that wait in the
//! channel are known from the calls that were made on it.

use crate::task::Task;
use crate::task::TaskView;
use tokio::sync::mpsc::Receiver;
use tokio::sync::mpsc::Sender;
use vstd::prelude::*;

verus! {

/// The sending half of a channel of `tokio::sync::mpsc`.
#[verifier::external_type_specification]
#[verifier::external_body]
#[verifier::reject_recursive_types(T)]
pub struct ExSender<T>(Sender<T>);

/// The receiving half of a channel of `tokio::sync::mpsc`.
#[verifier::external_type_specification]
#[verifier::external_body]
#[verifier::reject_recursive_types(T)]
pub struct ExReceiver<T>(Receiver<T>);

/// Both halves of one bounded channel.
pub struct IngestionChannel {
    sender: Sender<Task>,
    receiver: Receiver<Task>,
}

/// The tasks that wait in a channel, oldest first.
pub uninterp spec fn channel_contents(channel: IngestionChannel) -> Seq<TaskView>;

/// The number of tasks that a channel was made to hold.
pub uninterp spec fn channel_capacity(channel: IngestionChannel) -> nat;

/// The largest capacity that a channel can be made with on every platform.
pub const MAX_CHANNEL_CAPACITY: usize = 0x1FFF_FFFF;

impl View for IngestionChannel {
    type V = Seq<TaskView>;

    /// The tasks that wait in the channel, oldest first.
    open spec fn view(&self) -> Seq<TaskView> {
        channel_contents(*self)
    }
}

impl IngestionChannel {
    /// The number of tasks that the channel can hold.
    pub open spec fn capacity(&self) -> nat {
        channel_capacity(*self)
    }

    /// Makes a channel with `tokio::sync::mpsc::channel`, which panics on a
    /// capacity of zero or one above its limit. The new channel holds no task
    /// and has the capacity asked for.
    #[verifier::external_body]
    pub(crate) fn open(capacity: usize) -> (channel: IngestionChannel)
        requires
            0 < capacity <= MAX_CHANNEL_CAPACITY,
        ensures
            channel_contents(channel) == Seq::<TaskView>::empty(),
            channel_capacity(channel) == capacity,
    {
        let (sender, receiver) = tokio::sync::mpsc::channel(capacity);
        IngestionChannel { sender, receiver }
    }

    /// Offers a task to the channel with `Sender::try_send`, which never
    /// waits. The task is accepted, and then waits behind the others, exactly
    /// when fewer tasks wait than the channel can hold; a full channel drops
    /// it. The receiving half lives as long as the sending half, so the
    /// channel is never closed.
    #[verifier::external_body]
    pub(crate) fn try_send(&mut self, task: Task) -> (accepted: bool)
        ensures
            accepted == (channel_contents(*old(self)).len() < channel_capacity(*old(self))),
            channel_contents(*final(self)) == if accepted {
                channel_contents(*old(self)).push(task@)
            } else {
                channel_contents(*old(self))
            },
            channel_capacity(*final(self)) == channel_capacity(*old(self)),
    {
        self.sender.try_send(task).is_ok()
    }

    /// Takes the oldest waiting task out of the channel with
    /// `Receiver::try_recv`, which never waits. An empty channel gives
    /// nothing and stays as it is.
    #[verifier::external_body]
    pub(crate) fn try_recv(&mut self) -> (received: Option<Task>)
        ensures
            match received {
                Some(task) => {
                    &&& channel_contents(*old(self)).len() > 0
                    &&& task@ == channel_contents(*old(self)).first()
                    &&& channel_contents(*final(self)) == channel_contents(*old(self)).drop_first()
                },
                None => {
                    &&& channel_contents(*old(self)).len() == 0
                    &&& channel_contents(*final(self)) == channel_contents(*old(self))
                },
            },
            channel_capacity(*final(self)) == channel_capacity(*old(self)),
    {
        self.receiver.try_recv().ok()
    }
}

} // verus!
