//! An in-process actor runtime: bounded mailboxes, a bitmask model of
//! disjoint borrows over actor state, a single-actor runner, a sharded
//! router with lock/unlock buffering and migration, and proxy handles.
use vstd::prelude::*;

use crate::concurrency::{Mailbox, SendError};
use crate::runner::RunnerMessage;

pub mod borrow;
pub mod casing;
pub mod concurrency;
pub mod contract;
pub mod disjoint;
pub mod proxy;
pub mod runner;
pub mod service;
pub mod traits;

verus! {

/// A failed dispatch. It is reported and never stops a runner.
#[derive(Debug, Clone, Copy, PartialEq, Eq)]
pub struct DispatchError;

/// One operation on an actor's state, as a code generator produces it for
/// each declared operation.
pub trait Dispatch: Sized {
    /// The actor's state.
    type State;

    /// The state after this operation ran on `state`.
    spec fn apply(&self, state: Self::State) -> Self::State;

    /// Whether operations of this type suspend.
    spec fn spec_asynchronous() -> bool;

    /// Whether the operation suspends, so that it can only run on a
    /// cooperative runner.
    fn is_asynchronous() -> (r: bool)
        ensures
            r == Self::spec_asynchronous(),
    ;

    /// Runs the operation against the state. A failure is reported in the
    /// result; the state is then what `apply` gives all the same.
    fn run_mut(self, state: &mut Self::State) -> (r: Result<(), DispatchError>)
        ensures
            *final(state) == self.apply(*old(state)),
    ;
}

/// A handle on one actor: its id in the runner that registered it. Copies
/// address the same actor.
#[derive(Debug, Clone, Copy, PartialEq, Eq, Structural)]
pub struct ActorRef {
    actor: usize,
}

impl ActorRef {
    pub closed spec fn spec_id(&self) -> usize {
        self.actor
    }

    pub fn new(actor: usize) -> (r: Self)
        ensures
            r.spec_id() == actor,
    {
        ActorRef { actor }
    }

    pub fn id(&self) -> (r: usize)
        ensures
            r == self.spec_id(),
    {
        self.actor
    }

    /// Enqueues `message` for this actor on a runner's mailbox without
    /// waiting; refused with the message as `Closed` once the mailbox is
    /// closed, else as `Full` when it is at capacity.
    pub fn try_send<D: Dispatch>(
        &self,
        mailbox: &mut Mailbox<RunnerMessage<D>>,
        priority: usize,
        message: D,
    ) -> (r: Result<(), SendError<RunnerMessage<D>>>)
        requires
            old(mailbox).wf(),
        ensures
            final(mailbox).wf(),
            final(mailbox).spec_capacity() == old(mailbox).spec_capacity(),
            final(mailbox).spec_closed() == old(mailbox).spec_closed(),
            r is Ok <==> !old(mailbox).spec_closed() && old(mailbox)@.len() < old(
                mailbox,
            ).spec_capacity(),
            r is Ok ==> final(mailbox)@ == old(mailbox)@.push(
                RunnerMessage::Message { priority, actor: self.spec_id(), message },
            ),
            old(mailbox).spec_closed() ==> r == Err::<(), SendError<RunnerMessage<D>>>(
                SendError::Closed(RunnerMessage::Message { priority: priority, actor: self.spec_id(), message }),
            ),
            !old(mailbox).spec_closed() && old(mailbox)@.len() >= old(mailbox).spec_capacity()
                ==> r == Err::<(), SendError<RunnerMessage<D>>>(
                SendError::Full(RunnerMessage::Message { priority: priority, actor: self.spec_id(), message }),
            ),
            r is Err ==> final(mailbox)@ == old(mailbox)@,
    {
        mailbox.try_send(RunnerMessage::Message { priority, actor: self.actor, message })
    }
}

} // verus!
