//! The single-actor runner: one actor's state, applied to message by
//! message.
use vstd::prelude::*;

use super::entry::Residence;
use super::sharded::{
    entry_of, replied, routed, routed_all, Reply, ShardedRunner, ShardedRunnerOpts,
};
use super::{MessageDropping, RunSync, RunnerMessage};
use crate::concurrency::Mailbox;
use crate::Dispatch;

verus! {

/// How a single-actor runner starts.
pub struct IsolatedRunnerOpts<D: Dispatch> {
    /// How many messages one tick takes from the mailbox.
    pub chunk_size: usize,
    /// The actor's initial state.
    pub state: D::State,
}

/// A runner configuration that cannot work.
#[derive(Debug, Clone, Copy, PartialEq, Eq)]
pub enum RunnerError {
    /// A suspending dispatch type was given to a blocking runner.
    AsyncInSyncRunner,
    /// The chunk size is zero.
    EmptyChunk,
}

/// A `Kill`, which ends the runner whatever actor it names.
pub open spec fn ends_runner<D: Dispatch>(msg: RunnerMessage<D>) -> bool {
    msg is Kill
}

/// `msg` addressed to the runner's one actor, registered as actor 0: a
/// single-actor runner treats every message as meant for it.
pub open spec fn own<D: Dispatch>(msg: RunnerMessage<D>) -> RunnerMessage<D> {
    match msg {
        RunnerMessage::Kill { .. } => RunnerMessage::Kill { actor: 0 },
        RunnerMessage::Pause { .. } => RunnerMessage::Pause { actor: 0 },
        RunnerMessage::Resume { state, .. } => RunnerMessage::Resume { actor: 0, state },
        RunnerMessage::Message { priority, message, .. } => RunnerMessage::Message {
            priority,
            actor: 0,
            message,
        },
        RunnerMessage::Lock { .. } => RunnerMessage::Lock { actor: 0 },
        RunnerMessage::Unlock { .. } => RunnerMessage::Unlock { actor: 0 },
        RunnerMessage::Spawn { affinity, state } => RunnerMessage::Spawn { affinity, state },
    }
}

/// Each message of `msgs` addressed to the runner's one actor.
pub open spec fn own_all<D: Dispatch>(msgs: Seq<RunnerMessage<D>>) -> Seq<RunnerMessage<D>> {
    msgs.map_values(|m: RunnerMessage<D>| own(m))
}

fn readdress<D: Dispatch>(msg: RunnerMessage<D>) -> (r: RunnerMessage<D>)
    ensures
        r == own(msg),
{
    match msg {
        RunnerMessage::Kill { .. } => RunnerMessage::Kill { actor: 0 },
        RunnerMessage::Pause { .. } => RunnerMessage::Pause { actor: 0 },
        RunnerMessage::Resume { state, .. } => RunnerMessage::Resume { actor: 0, state },
        RunnerMessage::Message { priority, message, .. } => RunnerMessage::Message {
            priority,
            actor: 0,
            message,
        },
        RunnerMessage::Lock { .. } => RunnerMessage::Lock { actor: 0 },
        RunnerMessage::Unlock { .. } => RunnerMessage::Unlock { actor: 0 },
        RunnerMessage::Spawn { affinity, state } => RunnerMessage::Spawn { affinity, state },
    }
}

/// The messages of `msgs` that a runner handles before it stops: all of
/// them up to and including the first that ends it.
pub open spec fn handled_prefix<D: Dispatch>(msgs: Seq<RunnerMessage<D>>) -> Seq<RunnerMessage<D>>
    decreases msgs.len(),
{
    if msgs.len() == 0 {
        msgs
    } else if ends_runner(msgs[0]) {
        seq![msgs[0]]
    } else {
        seq![msgs[0]] + handled_prefix(msgs.skip(1))
    }
}

/// A runner for one actor, registered as actor 0. Every message is meant
/// for that actor, whatever id it names; control messages apply at once,
/// and a `Kill` ends the runner.
pub struct IsolatedRunner<D: Dispatch> {
    registry: ShardedRunner<D>,
    stopped: bool,
}

impl<D: Dispatch> IsolatedRunner<D> {
    /// The registry that holds the actor.
    pub closed spec fn spec_registry(&self) -> Seq<Option<Residence<D>>> {
        self.registry.registry()
    }

    pub closed spec fn spec_stopped(&self) -> bool {
        self.stopped
    }

    /// The registry never drops: overflow is replayed on a `Kill`.
    pub closed spec fn wf(&self) -> bool {
        self.registry.spec_opts().message_dropping == MessageDropping::Forbidden
    }

    pub closed spec fn spec_chunk_size(&self) -> nat {
        self.registry.spec_opts().chunk_size as nat
    }

    /// A runner on a cooperative task: any dispatch type may run on it.
    pub fn spawn(opts: IsolatedRunnerOpts<D>) -> (r: Result<Self, RunnerError>)
        ensures
            r is Ok <==> opts.chunk_size > 0,
            r is Err ==> r == Err::<Self, RunnerError>(RunnerError::EmptyChunk),
            match r {
                Ok(run) => run.spec_registry() == seq![Some(Residence::<D>::Local(opts.state))]
                    && !run.spec_stopped() && run.spec_chunk_size() == opts.chunk_size && run.wf(),
                Err(_) => true,
            },
    {
        if opts.chunk_size == 0 {
            return Err(RunnerError::EmptyChunk);
        }
        let ropts = ShardedRunnerOpts {
            chunk_size: opts.chunk_size,
            max_shards: 0,
            message_dropping: MessageDropping::Forbidden,
        };
        let mut registry = ShardedRunner::new(ropts, false);
        let _ = registry.spawn(0, opts.state);
        proof {
            assert(registry.registry() =~= seq![Some(Residence::<D>::Local(opts.state))]);
        }
        Ok(IsolatedRunner { registry, stopped: false })
    }

    /// A runner on a blocking thread: refused at once for a dispatch type
    /// that suspends.
    pub fn spawn_sync(opts: IsolatedRunnerOpts<D>) -> (r: Result<Self, RunnerError>)
        ensures
            r is Ok <==> !D::spec_asynchronous() && opts.chunk_size > 0,
            D::spec_asynchronous() ==> r == Err::<Self, RunnerError>(RunnerError::AsyncInSyncRunner),
            !D::spec_asynchronous() && opts.chunk_size == 0 ==> r == Err::<Self, RunnerError>(
                RunnerError::EmptyChunk,
            ),
            match r {
                Ok(run) => run.spec_registry() == seq![Some(Residence::<D>::Local(opts.state))]
                    && !run.spec_stopped() && run.spec_chunk_size() == opts.chunk_size && run.wf(),
                Err(_) => true,
            },
    {
        if D::is_asynchronous() {
            return Err(RunnerError::AsyncInSyncRunner);
        }
        Self::spawn(opts)
    }

    /// A runner on a blocking thread for a dispatch type known not to
    /// suspend: only a zero chunk size is refused.
    pub fn spawn_blocking(opts: IsolatedRunnerOpts<D>) -> (r: Result<Self, RunnerError>)
        where
            D: RunSync,
        ensures
            r is Ok <==> opts.chunk_size > 0,
            r is Err ==> r == Err::<Self, RunnerError>(RunnerError::EmptyChunk),
            match r {
                Ok(run) => run.spec_registry() == seq![Some(Residence::<D>::Local(opts.state))]
                    && !run.spec_stopped() && run.spec_chunk_size() == opts.chunk_size && run.wf(),
                Err(_) => true,
            },
    {
        proof {
            D::lemma_never_suspends();
        }
        Self::spawn_sync(opts)
    }

    pub fn is_stopped(&self) -> (r: bool)
        ensures
            r == self.spec_stopped(),
    {
        self.stopped
    }

    /// The actor's state, while it is resident.
    pub fn state(&self) -> (r: Option<&D::State>)
        ensures
            match entry_of(self.spec_registry(), 0) {
                Some(Residence::Local(s)) => r == Some(&s),
                Some(Residence::LocalLocked(s, _)) => r == Some(&s),
                _ => r is None,
            },
    {
        self.registry.local_state(0)
    }

    /// Handles one message for the runner's actor; a `Kill` stops the
    /// runner.
    pub fn handle(&mut self, msg: RunnerMessage<D>) -> (r: Reply<D>)
        requires
            !old(self).spec_stopped(),
            old(self).wf(),
        ensures
            final(self).wf(),
            final(self).spec_registry() == routed(old(self).spec_registry(), own(msg)),
            replied(old(self).spec_registry(), MessageDropping::Forbidden, own(msg), r),
            final(self).spec_stopped() == ends_runner(msg),
            final(self).spec_chunk_size() == old(self).spec_chunk_size(),
    {
        let ends = match &msg {
            RunnerMessage::Kill { .. } => true,
            _ => false,
        };
        let r = self.registry.handle(readdress(msg));
        self.stopped = ends;
        r
    }

    /// One tick: takes up to a chunk of messages from the mailbox, oldest
    /// first, and handles them in order until one ends the runner. What
    /// follows that one in the chunk is dropped.
    pub fn tick(&mut self, mailbox: &mut Mailbox<RunnerMessage<D>>) -> (r: Vec<Reply<D>>)
        requires
            !old(self).spec_stopped(),
            old(self).wf(),
            old(mailbox).wf(),
            old(self).spec_chunk_size() > 0,
        ensures
            final(self).wf(),
            final(mailbox).wf(),
            final(self).spec_chunk_size() == old(self).spec_chunk_size(),
            ({
                let n = if old(mailbox)@.len() < old(self).spec_chunk_size() {
                    old(mailbox)@.len()
                } else {
                    old(self).spec_chunk_size()
                };
                let taken = old(mailbox)@.take(n as int);
                &&& final(mailbox)@ == old(mailbox)@.skip(n as int)
                &&& final(self).spec_registry() == routed_all(
                    old(self).spec_registry(),
                    own_all(handled_prefix(taken)),
                )
                &&& r@.len() == handled_prefix(taken).len()
                &&& forall|j: int|
                    0 <= j < r@.len() ==> replied(
                        routed_all(old(self).spec_registry(), own_all(taken.take(j))),
                        MessageDropping::Forbidden,
                        own(taken[j]),
                        #[trigger] r@[j],
                    )
                &&& final(self).spec_stopped() == (handled_prefix(taken).len() > 0
                    && ends_runner(handled_prefix(taken).last()))
            }),
    {
        let batch = mailbox.recv_many(self.registry.opts().chunk_size);
        let ghost b0 = batch@;
        let mut rest = batch;
        let mut replies: Vec<Reply<D>> = Vec::new();
        let n = rest.len();
        let mut i: usize = 0;
        proof {
            assert(b0.skip(0) =~= b0);
            assert(b0.take(0) + handled_prefix(b0) =~= handled_prefix(b0));
        }
        while i < n && !self.stopped
            invariant
                n == b0.len(),
                i <= n,
                rest@ == b0.skip(i as int),
                replies@.len() == i,
                self.spec_chunk_size() == old(self).spec_chunk_size(),
                self.wf(),
                forall|j: int|
                    0 <= j < i ==> replied(
                        routed_all(old(self).spec_registry(), own_all(b0.take(j))),
                        MessageDropping::Forbidden,
                        own(b0[j]),
                        #[trigger] replies@[j],
                    ),
                !self.stopped ==> handled_prefix(b0) == b0.take(i as int) + handled_prefix(
                    b0.skip(i as int),
                ),
                self.stopped ==> handled_prefix(b0) == b0.take(i as int),
                self.spec_registry() == routed_all(old(self).spec_registry(), own_all(b0.take(i as int))),
                self.stopped == (i > 0 && ends_runner(b0[i - 1])),
                forall|j: int| 0 <= j < i - 1 ==> !ends_runner(#[trigger] b0[j]),
            decreases n - i,
        {
            let m = rest.remove(0);
            proof {
                assert(m == b0[i as int]);
                assert(rest@ =~= b0.skip(i + 1));
                assert(own_all(b0.take(i + 1)).drop_last() =~= own_all(b0.take(i as int)));
                assert(own_all(b0.take(i + 1)).last() == own(b0[i as int]));
                lemma_prefix_step(b0, i as int);
                if ends_runner(b0[i as int]) {
                    assert(b0.take(i as int) + seq![b0[i as int]] =~= b0.take(i + 1));
                } else {
                    assert(b0.take(i as int) + (seq![b0[i as int]] + handled_prefix(b0.skip(i + 1)))
                        =~= b0.take(i + 1) + handled_prefix(b0.skip(i + 1)));
                }
            }
            let ghost reg_before = self.spec_registry();
            let reply = self.handle(m);
            replies.push(reply);
            proof {
                assert(replies@[i as int] == reply);
                assert forall|j: int| 0 <= j < i + 1 implies replied(
                    routed_all(old(self).spec_registry(), own_all(b0.take(j))),
                    MessageDropping::Forbidden,
                    own(b0[j]),
                    #[trigger] replies@[j],
                ) by {
                    if j == i as int {
                        assert(reg_before == routed_all(
                            old(self).spec_registry(),
                            own_all(b0.take(j)),
                        ));
                    }
                }
            }
            i += 1;
        }
        proof {
            if !self.stopped {
                assert(i == n);
                assert(b0.skip(n as int) =~= Seq::<RunnerMessage<D>>::empty());
                assert(b0.take(n as int) =~= b0);
                assert(handled_prefix(Seq::<RunnerMessage<D>>::empty()) =~= Seq::<
                    RunnerMessage<D>,
                >::empty());
                assert(handled_prefix(b0) =~= b0);
                if n > 0 {
                    assert(handled_prefix(b0).last() == b0[n - 1]);
                }
            } else {
                assert(handled_prefix(b0).last() == b0[i - 1]);
            }
            assert(b0.take(i as int).len() == i);
            assert(handled_prefix(b0) == b0.take(i as int));
            assert forall|j: int| 0 <= j < replies@.len() implies replied(
                routed_all(old(self).spec_registry(), own_all(b0.take(j))),
                MessageDropping::Forbidden,
                own(b0[j]),
                #[trigger] replies@[j],
            ) by {}
        }
        replies
    }
}

proof fn lemma_prefix_step<D: Dispatch>(b: Seq<RunnerMessage<D>>, i: int)
    requires
        0 <= i < b.len(),
    ensures
        ends_runner(b[i]) ==> handled_prefix(b.skip(i)) == seq![b[i]],
        !ends_runner(b[i]) ==> handled_prefix(b.skip(i)) == seq![b[i]] + handled_prefix(
            b.skip(i + 1),
        ),
{
    assert(b.skip(i)[0] == b[i]);
    assert(b.skip(i).skip(1) =~= b.skip(i + 1));
}

} // verus!
