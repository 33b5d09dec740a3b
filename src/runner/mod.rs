//! Runners: what executes messages against actor state.
use vstd::prelude::*;

use crate::concurrency::{Mailbox, SendError};
use crate::Dispatch;

use self::isolated::{ends_runner, own, IsolatedRunner};
use self::sharded::{replied, routed, Reply, ShardedRunner};

pub mod entry;
pub mod isolated;
pub mod lock;
pub mod sharded;

verus! {

/// A payload message with its advisory priority.
pub struct Envelope<D> {
    pub priority: usize,
    pub message: D,
}

/// What a runner's channel carries.
pub enum RunnerMessage<D: Dispatch> {
    /// Terminate an actor, handing back its state where it is local.
    Kill { actor: usize },
    /// Suspend an actor, handing back its state.
    Pause { actor: usize },
    /// Reinstate an actor with the given state.
    Resume { actor: usize, state: D::State },
    /// An ordinary operation for an actor.
    Message { priority: usize, actor: usize, message: D },
    /// Freeze an actor: its messages are buffered until `Unlock`.
    Lock { actor: usize },
    /// Release a lock, replaying what was buffered.
    Unlock { actor: usize },
    /// Register a new actor with the given state.
    Spawn { affinity: usize, state: D::State },
}

/// How a runner treats messages that arrive faster than it can place them.
#[derive(Debug, Clone, Copy, PartialEq, Eq)]
pub enum MessageDropping {
    /// Never drop: the sender waits instead.
    Forbidden,
    /// Drop any message that finds its queue full.
    Always,
    /// Drop only messages of the lowest priority, once a queue's occupancy
    /// reaches a threshold.
    Optimized,
}

/// The lowest priority: the one that `Optimized` dropping sheds.
pub const LOWEST_PRIORITY: usize = 0;

impl MessageDropping {
    /// Whether a message of `priority` that arrives at a queue holding
    /// `occupancy` of `capacity` messages is dropped, where `threshold` is
    /// the occupancy from which `Optimized` sheds the lowest priority.
    pub fn drops(&self, occupancy: usize, capacity: usize, threshold: usize, priority: usize) -> (r:
        bool)
        ensures
            r == match *self {
                MessageDropping::Forbidden => false,
                MessageDropping::Always => occupancy >= capacity,
                MessageDropping::Optimized => occupancy >= threshold && priority
                    == LOWEST_PRIORITY,
            },
    {
        match self {
            MessageDropping::Forbidden => false,
            MessageDropping::Always => occupancy >= capacity,
            MessageDropping::Optimized => occupancy >= threshold && priority == LOWEST_PRIORITY,
        }
    }
}

/// The two ways a runner executes dispatches.
pub enum Execution<S, A> {
    /// On a blocking thread.
    Sync(S),
    /// On a cooperative task.
    Async(A),
}

/// A dispatch type that never suspends, as its implementor proves: it may
/// run on a blocking runner.
pub trait RunSync: Dispatch {
    proof fn lemma_never_suspends()
        ensures
            !Self::spec_asynchronous(),
    ;
}

/// A dispatch type that suspends, as its implementor proves: it runs on a
/// cooperative runner.
pub trait RunAsync: Dispatch {
    proof fn lemma_suspends()
        ensures
            Self::spec_asynchronous(),
    ;
}

/// Something that executes runner messages.
pub trait Runner<D: Dispatch>: Sized {
    /// The runner still takes messages.
    spec fn accepting(&self) -> bool;

    /// Handling `msg` takes the runner from `self` to `next` with reply `r`.
    spec fn steps(&self, msg: RunnerMessage<D>, r: Reply<D>, next: Self) -> bool;

    /// Handles one message.
    fn handle(&mut self, msg: RunnerMessage<D>) -> (r: Reply<D>)
        requires
            old(self).accepting(),
        ensures
            old(self).steps(msg, r, *final(self)),
    ;
}

impl<D: Dispatch> Runner<D> for ShardedRunner<D> {
    open spec fn accepting(&self) -> bool {
        true
    }

    /// The registry is routed and the reply is the router's.
    open spec fn steps(&self, msg: RunnerMessage<D>, r: Reply<D>, next: Self) -> bool {
        &&& next.registry() == routed(self.registry(), msg)
        &&& replied(self.registry(), self.spec_opts().message_dropping, msg, r)
        &&& next.spec_opts() == self.spec_opts()
        &&& next.spec_root() == self.spec_root()
        &&& next.shard_count() == self.shard_count()
    }

    fn handle(&mut self, msg: RunnerMessage<D>) -> (r: Reply<D>) {
        ShardedRunner::handle(self, msg)
    }
}

impl<D: Dispatch> Runner<D> for IsolatedRunner<D> {
    open spec fn accepting(&self) -> bool {
        !self.spec_stopped() && self.wf()
    }

    /// The message goes to the one actor; a `Kill` stops the runner.
    open spec fn steps(&self, msg: RunnerMessage<D>, r: Reply<D>, next: Self) -> bool {
        &&& next.spec_registry() == routed(self.spec_registry(), own(msg))
        &&& replied(self.spec_registry(), MessageDropping::Forbidden, own(msg), r)
        &&& next.spec_stopped() == ends_runner(msg)
        &&& next.wf()
        &&& next.spec_chunk_size() == self.spec_chunk_size()
    }

    fn handle(&mut self, msg: RunnerMessage<D>) -> (r: Reply<D>) {
        IsolatedRunner::handle(self, msg)
    }
}

/// The sending end of a runner's mailbox, as a router holds it for each
/// shard.
pub struct TaskRunnerHandle<D: Dispatch> {
    pub sender: Mailbox<RunnerMessage<D>>,
}

impl<D: Dispatch> TaskRunnerHandle<D> {
    /// Sends `msgs` in order. A failure stops the sending and is reported
    /// with the failed message, how many were sent before it, and those
    /// after it; nothing is retried.
    pub fn forward_all(&mut self, msgs: Vec<RunnerMessage<D>>) -> (r: Result<
        (),
        (SendError<RunnerMessage<D>>, usize, Vec<RunnerMessage<D>>),
    >)
        requires
            old(self).sender.wf(),
        ensures
            final(self).sender.wf(),
            final(self).sender.spec_closed() == old(self).sender.spec_closed(),
            final(self).sender.spec_capacity() == old(self).sender.spec_capacity(),
            r is Ok ==> final(self).sender@ == old(self).sender@ + msgs@,
            match r {
                Err((e, sent, rest)) => sent < msgs@.len() && final(self).sender@ == old(
                    self,
                ).sender@ + msgs@.take(sent as int) && rest@ == msgs@.skip(sent + 1) && (e
                    == SendError::Closed(msgs@[sent as int]) && final(self).sender.spec_closed()
                    || e == SendError::Full(msgs@[sent as int]) && !final(self).sender.spec_closed()
                    && final(self).sender@.len() >= final(self).sender.spec_capacity()),
                Ok(()) => true,
            },
    {
        let ghost m0 = msgs@;
        let mut rest = msgs;
        let n = rest.len();
        let mut i: usize = 0;
        while i < n
            invariant
                m0 == msgs@,
                n == m0.len(),
                i <= n,
                rest@ == m0.skip(i as int),
                self.sender.wf(),
                self.sender.spec_closed() == old(self).sender.spec_closed(),
                self.sender.spec_capacity() == old(self).sender.spec_capacity(),
                self.sender@ == old(self).sender@ + m0.take(i as int),
            decreases n - i,
        {
            let m = rest.remove(0);
            proof {
                assert(m == m0[i as int]);
                assert(rest@ =~= m0.skip(i + 1));
            }
            match self.sender.try_send(m) {
                Ok(()) => {
                    proof {
                        assert(m0.take(i + 1) =~= m0.take(i as int).push(m));
                    }
                },
                Err(e) => {
                    return Err((e, i, rest));
                },
            }
            i += 1;
        }
        proof {
            assert(m0.take(n as int) =~= m0);
        }
        Ok(())
    }
}

} // verus!
