//! The sharded router: a registry of actors, each resident here, delegated
//! to a shard, or locked with its messages buffered.
use vstd::prelude::*;

use super::entry::{
    apply_all, buffered, delivered, delivered_all, is_locked,
    lemma_local_fifo, lemma_lock_unlock_replays, lemma_locked_buffers, locked, unlocked, ActorState, Delivery, Residence, Unlocked,
};
use super::{Envelope, MessageDropping, RunnerMessage};
use crate::concurrency::Mailbox;
use crate::{ActorRef, Dispatch, DispatchError};

verus! {

/// How a sharded runner is configured.
#[derive(Debug, Clone, Copy, PartialEq, Eq)]
pub struct ShardedRunnerOpts {
    /// How many messages one tick takes from the mailbox.
    pub chunk_size: usize,
    /// How many shards this runner may create at most.
    pub max_shards: usize,
    /// How overflow is treated, here also when an actor is killed.
    pub message_dropping: MessageDropping,
}

/// A control or routing request that the registry cannot carry out.
#[derive(Debug, Clone, Copy, PartialEq, Eq)]
pub enum RouterError {
    /// No actor is registered under the id.
    UnknownActor,
    /// No shard has the id.
    UnknownShard,
    /// The actor is locked already.
    AlreadyLocked,
    /// The actor is not locked.
    NotLocked,
    /// The actor's state is not resident and unlocked here.
    NotLocal,
    /// An actor is registered under the id already.
    Occupied,
    /// No more shards may be created.
    ShardLimit,
}

/// What the router did with one message, and what is left for the caller
/// to carry out.
pub enum Reply<D: Dispatch> {
    /// The message ran against the local state.
    Applied(Result<(), DispatchError>),
    /// The message waits in a locked actor's overflow queue.
    Buffered,
    /// The message is to be sent on to the shard.
    Forward(usize, RunnerMessage<D>),
    /// An unlock ran the buffered messages, with their results in order.
    Replayed(Vec<Result<(), DispatchError>>),
    /// The messages are to be sent on to the shard, in order.
    ForwardAll(usize, Vec<RunnerMessage<D>>),
    /// A new actor was registered.
    Spawned(ActorRef),
    /// The actor is gone, with its state where it was local.
    Killed(Option<D::State>),
    /// The actor is suspended; its state is handed back.
    Paused(D::State),
    Resumed,
    Locked,
    /// Nothing changed.
    Refused(RouterError),
}

/// The model of one registry slot.
pub open spec fn slot_view<D: Dispatch>(o: Option<ActorState<D>>) -> Option<Residence<D>> {
    match o {
        Some(a) => Some(a.view()),
        None => None,
    }
}

/// The entry for actor `a`, if one is registered.
pub open spec fn entry_of<D: Dispatch>(reg: Seq<Option<Residence<D>>>, a: int) -> Option<
    Residence<D>,
> {
    if 0 <= a < reg.len() {
        reg[a]
    } else {
        None
    }
}

/// The registry with the slot of actor `a` set to `e`, grown with empty
/// slots where `a` lies beyond it.
pub open spec fn with_entry<D: Dispatch>(
    reg: Seq<Option<Residence<D>>>,
    a: int,
    e: Option<Residence<D>>,
) -> Seq<Option<Residence<D>>> {
    if a < reg.len() {
        reg.update(a, e)
    } else {
        reg + Seq::new((a - reg.len()) as nat, |i: int| None::<Residence<D>>) + seq![e]
    }
}

/// The registry after the router handled `msg`.
pub open spec fn routed<D: Dispatch>(reg: Seq<Option<Residence<D>>>, msg: RunnerMessage<D>) -> Seq<
    Option<Residence<D>>,
> {
    match msg {
        RunnerMessage::Message { priority, actor, message } => match entry_of(reg, actor as int) {
            Some(e) => with_entry(
                reg,
                actor as int,
                Some(delivered(e, Envelope { priority, message })),
            ),
            None => reg,
        },
        RunnerMessage::Lock { actor } => match entry_of(reg, actor as int) {
            Some(e) => with_entry(reg, actor as int, Some(locked(e))),
            None => reg,
        },
        RunnerMessage::Unlock { actor } => match entry_of(reg, actor as int) {
            Some(e) => with_entry(reg, actor as int, Some(unlocked(e))),
            None => reg,
        },
        RunnerMessage::Kill { actor } => match entry_of(reg, actor as int) {
            Some(_) => with_entry(reg, actor as int, None),
            None => reg,
        },
        RunnerMessage::Pause { actor } => match entry_of(reg, actor as int) {
            Some(Residence::Local(_)) => with_entry(reg, actor as int, None),
            _ => reg,
        },
        RunnerMessage::Resume { actor, state } => if entry_of(reg, actor as int) is None && actor
            < usize::MAX {
            with_entry(reg, actor as int, Some(Residence::Local(state)))
        } else {
            reg
        },
        RunnerMessage::Spawn { affinity, state } => reg.push(Some(Residence::Local(state))),
    }
}

/// `r` is the router's reply to `msg` on registry `reg` under the drop
/// policy `dropping`.
pub open spec fn replied<D: Dispatch>(
    reg: Seq<Option<Residence<D>>>,
    dropping: MessageDropping,
    msg: RunnerMessage<D>,
    r: Reply<D>,
) -> bool {
    match msg {
        RunnerMessage::Message { priority, actor, message } => match entry_of(reg, actor as int) {
            None => r == Reply::<D>::Refused(RouterError::UnknownActor),
            Some(Residence::Local(_)) => r is Applied,
            Some(Residence::Shard(k)) => r == Reply::<D>::Forward(k as usize, msg),
            Some(_) => r is Buffered,
        },
        RunnerMessage::Lock { actor } => match entry_of(reg, actor as int) {
            None => r == Reply::<D>::Refused(RouterError::UnknownActor),
            Some(e) => if is_locked(e) {
                r == Reply::<D>::Refused(RouterError::AlreadyLocked)
            } else {
                r == Reply::<D>::Locked
            },
        },
        RunnerMessage::Unlock { actor } => match entry_of(reg, actor as int) {
            None => r == Reply::<D>::Refused(RouterError::UnknownActor),
            Some(Residence::LocalLocked(_, q)) => match r {
                Reply::Replayed(res) => res@.len() == q.len(),
                _ => false,
            },
            Some(Residence::ShardLocked(k, q)) => match r {
                Reply::ForwardAll(k2, v) => k2 == k && v@ == as_messages(actor, q),
                _ => false,
            },
            Some(_) => r == Reply::<D>::Refused(RouterError::NotLocked),
        },
        RunnerMessage::Kill { actor } => match entry_of(reg, actor as int) {
            None => r == Reply::<D>::Refused(RouterError::UnknownActor),
            Some(Residence::Local(s)) => r == Reply::<D>::Killed(Some(s)),
            Some(Residence::LocalLocked(s, q)) => r == Reply::<D>::Killed(
                Some(
                    if dropping == MessageDropping::Forbidden {
                        apply_all(s, q)
                    } else {
                        s
                    },
                ),
            ),
            Some(Residence::Shard(k)) => r == Reply::<D>::Forward(
                k as usize,
                RunnerMessage::Kill { actor },
            ),
            Some(Residence::ShardLocked(k, q)) => match r {
                Reply::ForwardAll(k2, v) => k2 == k && v@ == (if dropping
                    == MessageDropping::Forbidden {
                    as_messages(actor, q)
                } else {
                    Seq::empty()
                }).push(RunnerMessage::Kill { actor }),
                _ => false,
            },
        },
        RunnerMessage::Pause { actor } => match entry_of(reg, actor as int) {
            None => r == Reply::<D>::Refused(RouterError::UnknownActor),
            Some(Residence::Local(s)) => r == Reply::<D>::Paused(s),
            Some(_) => r == Reply::<D>::Refused(RouterError::NotLocal),
        },
        RunnerMessage::Resume { actor, state } => r == if entry_of(reg, actor as int) is Some {
            Reply::<D>::Refused(RouterError::Occupied)
        } else if actor == usize::MAX {
            Reply::<D>::Refused(RouterError::UnknownActor)
        } else {
            Reply::<D>::Resumed
        },
        RunnerMessage::Spawn { .. } => match r {
            Reply::Spawned(h) => h.spec_id() == reg.len(),
            _ => false,
        },
    }
}

/// The registry after the router handled the messages of `msgs`, first to
/// last.
pub open spec fn routed_all<D: Dispatch>(
    reg: Seq<Option<Residence<D>>>,
    msgs: Seq<RunnerMessage<D>>,
) -> Seq<Option<Residence<D>>>
    decreases msgs.len(),
{
    if msgs.len() == 0 {
        reg
    } else {
        routed(routed_all(reg, msgs.drop_last()), msgs.last())
    }
}

/// An entry once migration to shard `k` began: a local state is handed
/// over, and the entry waits locked for the shard, buffering what arrives.
pub open spec fn migrated<D: Dispatch>(e: Residence<D>, k: nat) -> Residence<D> {
    match e {
        Residence::Local(_) => Residence::ShardLocked(k, Seq::empty()),
        _ => e,
    }
}

/// The payload messages for actor `a` among `msgs`, in order.
pub open spec fn letters_for<D: Dispatch>(msgs: Seq<RunnerMessage<D>>, a: usize) -> Seq<Envelope<D>>
    decreases msgs.len(),
{
    if msgs.len() == 0 {
        Seq::empty()
    } else {
        let rest = letters_for(msgs.drop_last(), a);
        match msgs.last() {
            RunnerMessage::Message { priority, actor, message } => if actor == a {
                rest.push(Envelope { priority, message })
            } else {
                rest
            },
            _ => rest,
        }
    }
}

/// Payload messages for actor `a` held as messages addressed to it.
pub open spec fn as_messages<D: Dispatch>(a: usize, q: Seq<Envelope<D>>) -> Seq<RunnerMessage<D>> {
    q.map_values(
        |e: Envelope<D>| RunnerMessage::Message { priority: e.priority, actor: a, message: e.message },
    )
}

fn to_messages<D: Dispatch>(actor: usize, q: Vec<Envelope<D>>) -> (r: Vec<RunnerMessage<D>>)
    ensures
        r@ == as_messages(actor, q@),
{
    let ghost q0 = q@;
    let mut rest = q;
    let mut out: Vec<RunnerMessage<D>> = Vec::new();
    let n = rest.len();
    let mut i: usize = 0;
    while i < n
        invariant
            n == q0.len(),
            i <= n,
            rest@ == q0.skip(i as int),
            out@ == as_messages(actor, q0.take(i as int)),
        decreases n - i,
    {
        let e = rest.remove(0);
        proof {
            assert(e == q0[i as int]);
            assert(rest@ =~= q0.skip(i + 1));
            assert(q0.take(i + 1) =~= q0.take(i as int).push(e));
        }
        out.push(RunnerMessage::Message { priority: e.priority, actor, message: e.message });
        proof {
            assert(out@ =~= as_messages(actor, q0.take(i + 1)));
        }
        i += 1;
    }
    proof {
        assert(q0.take(n as int) =~= q0);
    }
    out
}

/// A runner that owns a registry of actors and routes their messages: it
/// runs those resident here, forwards those on shards, and buffers those
/// that are locked.
pub struct ShardedRunner<D: Dispatch> {
    actors: Vec<Option<ActorState<D>>>,
    root: bool,
    shards: usize,
    opts: ShardedRunnerOpts,
}

impl<D: Dispatch> ShardedRunner<D> {
    /// The registry: slot `a` models actor `a`'s entry, if any.
    pub closed spec fn registry(&self) -> Seq<Option<Residence<D>>> {
        self.actors@.map_values(|o: Option<ActorState<D>>| slot_view(o))
    }

    pub closed spec fn spec_opts(&self) -> ShardedRunnerOpts {
        self.opts
    }

    pub closed spec fn spec_root(&self) -> bool {
        self.root
    }

    pub closed spec fn shard_count(&self) -> nat {
        self.shards as nat
    }

    /// A runner with no actors and no shards; `root` tells whether it is
    /// the top-level router, the one that may create shards. The chunk size
    /// must be positive.
    pub fn new(opts: ShardedRunnerOpts, root: bool) -> (r: Self)
        requires
            opts.chunk_size > 0,
        ensures
            r.registry() == Seq::<Option<Residence<D>>>::empty(),
            r.spec_opts() == opts,
            r.spec_root() == root,
            r.shard_count() == 0,
    {
        let r = ShardedRunner { actors: Vec::new(), root, shards: 0, opts };
        proof {
            assert(r.registry() =~= Seq::<Option<Residence<D>>>::empty());
        }
        r
    }

    pub fn opts(&self) -> (r: ShardedRunnerOpts)
        ensures
            r == self.spec_opts(),
    {
        self.opts
    }

    pub fn is_root(&self) -> (r: bool)
        ensures
            r == self.spec_root(),
    {
        self.root
    }

    pub fn shards(&self) -> (r: usize)
        ensures
            r == self.shard_count(),
    {
        self.shards
    }

    /// How many ids the registry has handed out or taken in.
    pub fn len(&self) -> (r: usize)
        ensures
            r == self.registry().len(),
    {
        self.actors.len()
    }

    /// The state of `actor`, where it is resident here, locked or not.
    pub fn local_state(&self, actor: usize) -> (r: Option<&D::State>)
        ensures
            match entry_of(self.registry(), actor as int) {
                Some(Residence::Local(s)) => r == Some(&s),
                Some(Residence::LocalLocked(s, _)) => r == Some(&s),
                _ => r is None,
            },
    {
        if actor >= self.actors.len() {
            return None;
        }
        match &self.actors[actor] {
            Some(ActorState::Local(s)) => Some(s),
            Some(ActorState::LocalLocked(s, _)) => Some(s),
            _ => None,
        }
    }

    /// The shard that holds `actor`, where it is delegated.
    pub fn shard_of(&self, actor: usize) -> (r: Option<usize>)
        ensures
            match entry_of(self.registry(), actor as int) {
                Some(Residence::Shard(k)) => r == Some(k as usize),
                Some(Residence::ShardLocked(k, _)) => r == Some(k as usize),
                _ => r is None,
            },
    {
        if actor >= self.actors.len() {
            return None;
        }
        match &self.actors[actor] {
            Some(ActorState::Shard(k)) => Some(*k),
            Some(ActorState::ShardLocked(k, _)) => Some(*k),
            _ => None,
        }
    }

    /// Whether `actor` is registered and locked.
    pub fn is_actor_locked(&self, actor: usize) -> (r: bool)
        ensures
            r == match entry_of(self.registry(), actor as int) {
                Some(e) => is_locked(e),
                None => false,
            },
    {
        if actor >= self.actors.len() {
            return false;
        }
        match &self.actors[actor] {
            Some(ActorState::LocalLocked(_, _)) => true,
            Some(ActorState::ShardLocked(_, _)) => true,
            _ => false,
        }
    }

    /// Takes the slot of actor `a` out, leaving it empty.
    fn take_slot(&mut self, a: usize) -> (r: Option<ActorState<D>>)
        requires
            a < old(self).actors@.len(),
        ensures
            r == old(self).actors@[a as int],
            final(self).actors@ == old(self).actors@.update(a as int, None),
            final(self).root == old(self).root,
            final(self).shards == old(self).shards,
            final(self).opts == old(self).opts,
    {
        let mut slot: Option<ActorState<D>> = None;
        std::mem::swap(&mut self.actors[a], &mut slot);
        slot
    }

    /// Puts `v` into the slot of actor `a`.
    fn put_slot(&mut self, a: usize, v: Option<ActorState<D>>)
        requires
            a < old(self).actors@.len(),
        ensures
            final(self).actors@ == old(self).actors@.update(a as int, v),
            final(self).registry() == old(self).registry().update(a as int, slot_view(v)),
            final(self).root == old(self).root,
            final(self).shards == old(self).shards,
            final(self).opts == old(self).opts,
    {
        self.actors.set(a, v);
        proof {
            assert(self.registry() =~= old(self).registry().update(a as int, slot_view(v)));
        }
    }

    /// Routes a payload message for `actor`: runs it against a local state,
    /// buffers it for a locked actor, or hands it back for the shard that
    /// holds the actor.
    pub fn route_message(&mut self, priority: usize, actor: usize, message: D) -> (r: Reply<D>)
        ensures
            final(self).registry() == routed(
                old(self).registry(),
                RunnerMessage::Message { priority, actor, message },
            ),
            final(self).spec_opts() == old(self).spec_opts(),
            final(self).spec_root() == old(self).spec_root(),
            final(self).shard_count() == old(self).shard_count(),
            replied(
                old(self).registry(),
                old(self).spec_opts().message_dropping,
                RunnerMessage::Message { priority, actor, message },
                r,
            ),
    {
        if actor >= self.actors.len() {
            return Reply::Refused(RouterError::UnknownActor);
        }
        let ghost reg0 = self.registry();
        let slot = self.take_slot(actor);
        match slot {
            None => {
                self.put_slot(actor, None);
                proof {
                    assert(self.registry() =~= reg0);
                }
                Reply::Refused(RouterError::UnknownActor)
            },
            Some(st) => {
                let mut st = st;
                let d = st.deliver(Envelope { priority, message });
                self.put_slot(actor, Some(st));
                proof {
                    assert(self.registry() =~= reg0.update(actor as int, Some(st.view())));
                }
                match d {
                    Delivery::Applied(res) => Reply::Applied(res),
                    Delivery::Buffered => Reply::Buffered,
                    Delivery::Forward(k, e) => Reply::Forward(
                        k,
                        RunnerMessage::Message { priority: e.priority, actor, message: e.message },
                    ),
                }
            },
        }
    }

    /// Locks `actor`: from now on its messages are buffered.
    pub fn lock_actor(&mut self, actor: usize) -> (r: Reply<D>)
        ensures
            final(self).registry() == routed(old(self).registry(), RunnerMessage::Lock { actor }),
            final(self).spec_opts() == old(self).spec_opts(),
            final(self).spec_root() == old(self).spec_root(),
            final(self).shard_count() == old(self).shard_count(),
            replied(
                old(self).registry(),
                old(self).spec_opts().message_dropping,
                RunnerMessage::Lock { actor },
                r,
            ),
    {
        if actor >= self.actors.len() {
            return Reply::Refused(RouterError::UnknownActor);
        }
        let ghost reg0 = self.registry();
        let slot = self.take_slot(actor);
        match slot {
            None => {
                self.put_slot(actor, None);
                proof {
                    assert(self.registry() =~= reg0);
                }
                Reply::Refused(RouterError::UnknownActor)
            },
            Some(st) => {
                let mut st = st;
                let res = st.lock();
                self.put_slot(actor, Some(st));
                proof {
                    assert(self.registry() =~= reg0.update(actor as int, Some(st.view())));
                }
                match res {
                    Ok(()) => Reply::Locked,
                    Err(_) => Reply::Refused(RouterError::AlreadyLocked),
                }
            },
        }
    }

    /// Unlocks `actor`. A local state has the buffered messages applied in
    /// arrival order; for an actor on a shard they are handed back, in
    /// arrival order, to be forwarded there.
    pub fn unlock_actor(&mut self, actor: usize) -> (r: Reply<D>)
        ensures
            final(self).registry() == routed(old(self).registry(), RunnerMessage::Unlock { actor }),
            final(self).spec_opts() == old(self).spec_opts(),
            final(self).spec_root() == old(self).spec_root(),
            final(self).shard_count() == old(self).shard_count(),
            replied(
                old(self).registry(),
                old(self).spec_opts().message_dropping,
                RunnerMessage::Unlock { actor },
                r,
            ),
    {
        if actor >= self.actors.len() {
            return Reply::Refused(RouterError::UnknownActor);
        }
        let ghost reg0 = self.registry();
        let slot = self.take_slot(actor);
        match slot {
            None => {
                self.put_slot(actor, None);
                proof {
                    assert(self.registry() =~= reg0);
                }
                Reply::Refused(RouterError::UnknownActor)
            },
            Some(st) => {
                let mut st = st;
                let res = st.unlock();
                self.put_slot(actor, Some(st));
                proof {
                    assert(self.registry() =~= reg0.update(actor as int, Some(st.view())));
                }
                match res {
                    Ok(Unlocked::Replayed(results)) => Reply::Replayed(results),
                    Ok(Unlocked::Forward(k, q)) => Reply::ForwardAll(k, to_messages(actor, q)),
                    Err(_) => Reply::Refused(RouterError::NotLocked),
                }
            },
        }
    }

    /// Removes `actor` from the registry. Its overflow is drained when the
    /// drop policy is `Forbidden` (replayed on a local state, forwarded
    /// before the kill for a shard) and discarded otherwise.
    pub fn kill(&mut self, actor: usize) -> (r: Reply<D>)
        ensures
            final(self).registry() == routed(old(self).registry(), RunnerMessage::Kill { actor }),
            final(self).spec_opts() == old(self).spec_opts(),
            final(self).spec_root() == old(self).spec_root(),
            final(self).shard_count() == old(self).shard_count(),
            replied(
                old(self).registry(),
                old(self).spec_opts().message_dropping,
                RunnerMessage::Kill { actor },
                r,
            ),
    {
        if actor >= self.actors.len() {
            return Reply::Refused(RouterError::UnknownActor);
        }
        let ghost reg0 = self.registry();
        let slot = self.take_slot(actor);
        proof {
            assert(self.registry() =~= reg0.update(actor as int, None));
        }
        let drain = match self.opts.message_dropping {
            MessageDropping::Forbidden => true,
            _ => false,
        };
        match slot {
            None => Reply::Refused(RouterError::UnknownActor),
            Some(ActorState::Local(s)) => Reply::Killed(Some(s)),
            Some(ActorState::LocalLocked(s, q)) => {
                let mut s = s;
                if drain {
                    let _ = super::entry::replay(&mut s, q);
                }
                Reply::Killed(Some(s))
            },
            Some(ActorState::Shard(k)) => Reply::Forward(k, RunnerMessage::Kill { actor }),
            Some(ActorState::ShardLocked(k, q)) => {
                let mut out = if drain {
                    to_messages(actor, q)
                } else {
                    Vec::new()
                };
                out.push(RunnerMessage::Kill { actor });
                Reply::ForwardAll(k, out)
            },
        }
    }

    /// Suspends a local, unlocked `actor`: its entry is removed and its
    /// state handed back, to be reinstated with `Resume`.
    pub fn pause(&mut self, actor: usize) -> (r: Reply<D>)
        ensures
            final(self).registry() == routed(old(self).registry(), RunnerMessage::Pause { actor }),
            final(self).spec_opts() == old(self).spec_opts(),
            final(self).spec_root() == old(self).spec_root(),
            final(self).shard_count() == old(self).shard_count(),
            replied(
                old(self).registry(),
                old(self).spec_opts().message_dropping,
                RunnerMessage::Pause { actor },
                r,
            ),
    {
        if actor >= self.actors.len() {
            return Reply::Refused(RouterError::UnknownActor);
        }
        let ghost reg0 = self.registry();
        let slot = self.take_slot(actor);
        match slot {
            Some(ActorState::Local(s)) => {
                proof {
                    assert(self.registry() =~= reg0.update(actor as int, None));
                }
                Reply::Paused(s)
            },
            None => {
                self.put_slot(actor, None);
                proof {
                    assert(self.registry() =~= reg0);
                }
                Reply::Refused(RouterError::UnknownActor)
            },
            Some(other) => {
                self.put_slot(actor, Some(other));
                proof {
                    assert(self.registry() =~= reg0);
                }
                Reply::Refused(RouterError::NotLocal)
            },
        }
    }

    /// Reinstates `actor` with `state` under its own id, which must be free;
    /// the registry grows to reach it, up to the largest id below
    /// `usize::MAX`. A shard takes a migrating actor this way.
    pub fn resume(&mut self, actor: usize, state: D::State) -> (r: Reply<D>)
        ensures
            final(self).registry() == routed(
                old(self).registry(),
                RunnerMessage::Resume { actor, state },
            ),
            final(self).spec_opts() == old(self).spec_opts(),
            final(self).spec_root() == old(self).spec_root(),
            final(self).shard_count() == old(self).shard_count(),
            replied(
                old(self).registry(),
                old(self).spec_opts().message_dropping,
                RunnerMessage::Resume { actor, state },
                r,
            ),
    {
        let ghost reg0 = self.registry();
        if actor < self.actors.len() {
            let slot = self.take_slot(actor);
            match slot {
                None => {
                    self.put_slot(actor, Some(ActorState::Local(state)));
                    proof {
                        assert(self.registry() =~= reg0.update(
                            actor as int,
                            Some(Residence::Local(state)),
                        ));
                    }
                    Reply::Resumed
                },
                Some(other) => {
                    self.put_slot(actor, Some(other));
                    proof {
                        assert(self.registry() =~= reg0);
                    }
                    Reply::Refused(RouterError::Occupied)
                },
            }
        } else if actor == usize::MAX {
            Reply::Refused(RouterError::UnknownActor)
        } else {
            let n0 = self.actors.len();
            while self.actors.len() < actor
                invariant
                    n0 == reg0.len(),
                    n0 <= self.actors@.len() <= actor,
                    self.registry() == reg0 + Seq::new(
                        (self.actors@.len() - n0) as nat,
                        |i: int| None::<Residence<D>>,
                    ),
                    self.root == old(self).root,
                    self.shards == old(self).shards,
                    self.opts == old(self).opts,
                decreases actor - self.actors@.len(),
            {
                let ghost before = self.registry();
                self.actors.push(None);
                proof {
                    assert(self.registry() =~= before.push(None));
                    assert(self.registry() =~= reg0 + Seq::new(
                        (self.actors@.len() - n0) as nat,
                        |i: int| None::<Residence<D>>,
                    ));
                }
            }
            let ghost before = self.registry();
            self.actors.push(Some(ActorState::Local(state)));
            proof {
                assert(self.registry() =~= before.push(Some(Residence::Local(state))));
                assert(self.registry() =~= with_entry(
                    reg0,
                    actor as int,
                    Some(Residence::Local(state)),
                ));
            }
            Reply::Resumed
        }
    }

    /// Registers a new actor with `state`. Its id is the next free slot,
    /// never one used before. `affinity` is a placement hint that does not
    /// change the id.
    pub fn spawn(&mut self, affinity: usize, state: D::State) -> (r: Reply<D>)
        ensures
            final(self).registry() == routed(
                old(self).registry(),
                RunnerMessage::Spawn { affinity, state },
            ),
            final(self).spec_opts() == old(self).spec_opts(),
            final(self).spec_root() == old(self).spec_root(),
            final(self).shard_count() == old(self).shard_count(),
            replied(
                old(self).registry(),
                old(self).spec_opts().message_dropping,
                RunnerMessage::Spawn { affinity, state },
                r,
            ),
    {
        let id = self.actors.len();
        let ghost before = self.registry();
        self.actors.push(Some(ActorState::Local(state)));
        proof {
            assert(self.registry() =~= before.push(Some(Residence::Local(state))));
        }
        Reply::Spawned(ActorRef::new(id))
    }

    /// Begins migrating a local, unlocked `actor` to shard `shard`: the
    /// entry becomes a locked shard entry, and the returned `Resume` carries
    /// the state to the shard. An `Unlock` once the shard has it completes
    /// the migration and forwards what was buffered meanwhile.
    pub fn begin_migration(&mut self, actor: usize, shard: usize) -> (r: Result<
        RunnerMessage<D>,
        RouterError,
    >)
        ensures
            final(self).spec_opts() == old(self).spec_opts(),
            final(self).spec_root() == old(self).spec_root(),
            final(self).shard_count() == old(self).shard_count(),
            shard >= old(self).shard_count() ==> r == Err::<RunnerMessage<D>, RouterError>(
                RouterError::UnknownShard,
            ),
            shard < old(self).shard_count() ==> match entry_of(old(self).registry(), actor as int) {
                None => r == Err::<RunnerMessage<D>, RouterError>(RouterError::UnknownActor),
                Some(Residence::Local(s)) => r == Ok::<RunnerMessage<D>, RouterError>(
                    RunnerMessage::Resume { actor, state: s },
                ),
                Some(_) => r == Err::<RunnerMessage<D>, RouterError>(RouterError::NotLocal),
            },
            r is Ok ==> final(self).registry() == with_entry(
                old(self).registry(),
                actor as int,
                Some(migrated(entry_of(old(self).registry(), actor as int).unwrap(), shard as nat)),
            ),
            r is Err ==> final(self).registry() == old(self).registry(),
    {
        if shard >= self.shards {
            return Err(RouterError::UnknownShard);
        }
        if actor >= self.actors.len() {
            return Err(RouterError::UnknownActor);
        }
        let ghost reg0 = self.registry();
        let slot = self.take_slot(actor);
        match slot {
            Some(ActorState::Local(s)) => {
                self.put_slot(actor, Some(ActorState::ShardLocked(shard, Vec::new())));
                proof {
                    assert(self.registry() =~= reg0.update(
                        actor as int,
                        Some(Residence::ShardLocked(shard as nat, Seq::empty())),
                    ));
                }
                Ok(RunnerMessage::Resume { actor, state: s })
            },
            None => {
                self.put_slot(actor, None);
                proof {
                    assert(self.registry() =~= reg0);
                }
                Err(RouterError::UnknownActor)
            },
            Some(other) => {
                self.put_slot(actor, Some(other));
                proof {
                    assert(self.registry() =~= reg0);
                }
                Err(RouterError::NotLocal)
            },
        }
    }

    /// Registers a new shard and returns its id. Only the root runner
    /// creates shards, and at most `max_shards` of them.
    pub fn spawn_shard(&mut self) -> (r: Result<usize, RouterError>)
        ensures
            final(self).registry() == old(self).registry(),
            final(self).spec_opts() == old(self).spec_opts(),
            final(self).spec_root() == old(self).spec_root(),
            r is Ok <==> old(self).spec_root() && old(self).shard_count()
                < old(self).spec_opts().max_shards,
            r is Ok ==> r == Ok::<usize, RouterError>(old(self).shard_count() as usize)
                && final(self).shard_count() == old(self).shard_count() + 1,
            r is Err ==> r == Err::<usize, RouterError>(RouterError::ShardLimit)
                && final(self).shard_count() == old(self).shard_count(),
    {
        if !self.root || self.shards >= self.opts.max_shards {
            return Err(RouterError::ShardLimit);
        }
        let id = self.shards;
        self.shards = self.shards + 1;
        Ok(id)
    }

    /// Whether a tick that received `received` messages shows over-arrival:
    /// at least a whole chunk came in.
    pub fn overloaded(&self, received: usize) -> (r: bool)
        ensures
            r == (received >= self.spec_opts().chunk_size),
    {
        received >= self.opts.chunk_size
    }

    /// Whether over-arrival in this tick calls for a new shard: the runner
    /// is the root, is overloaded, and may still create one.
    pub fn wants_shard(&self, received: usize) -> (r: bool)
        ensures
            r == (self.spec_root() && received >= self.spec_opts().chunk_size
                && self.shard_count() < self.spec_opts().max_shards),
    {
        self.root && self.overloaded(received) && self.shards < self.opts.max_shards
    }

    /// Handles one message from the runner's mailbox.
    pub fn handle(&mut self, msg: RunnerMessage<D>) -> (r: Reply<D>)
        ensures
            final(self).registry() == routed(old(self).registry(), msg),
            final(self).spec_opts() == old(self).spec_opts(),
            final(self).spec_root() == old(self).spec_root(),
            final(self).shard_count() == old(self).shard_count(),
            replied(old(self).registry(), old(self).spec_opts().message_dropping, msg, r),
    {
        match msg {
            RunnerMessage::Message { priority, actor, message } => self.route_message(
                priority,
                actor,
                message,
            ),
            RunnerMessage::Lock { actor } => self.lock_actor(actor),
            RunnerMessage::Unlock { actor } => self.unlock_actor(actor),
            RunnerMessage::Kill { actor } => self.kill(actor),
            RunnerMessage::Pause { actor } => self.pause(actor),
            RunnerMessage::Resume { actor, state } => self.resume(actor, state),
            RunnerMessage::Spawn { affinity, state } => self.spawn(affinity, state),
        }
    }

    /// Handles the messages of `batch` in order, with one reply each.
    pub fn run_batch(&mut self, batch: Vec<RunnerMessage<D>>) -> (r: Vec<Reply<D>>)
        ensures
            final(self).registry() == routed_all(old(self).registry(), batch@),
            final(self).spec_opts() == old(self).spec_opts(),
            final(self).spec_root() == old(self).spec_root(),
            final(self).shard_count() == old(self).shard_count(),
            r@.len() == batch@.len(),
            forall|i: int|
                0 <= i < r@.len() ==> replied(
                    routed_all(old(self).registry(), batch@.take(i)),
                    old(self).spec_opts().message_dropping,
                    batch@[i],
                    #[trigger] r@[i],
                ),
    {
        let ghost b0 = batch@;
        let mut rest = batch;
        let mut replies: Vec<Reply<D>> = Vec::new();
        let n = rest.len();
        let mut i: usize = 0;
        while i < n
            invariant
                n == b0.len(),
                i <= n,
                rest@ == b0.skip(i as int),
                replies@.len() == i,
                self.registry() == routed_all(old(self).registry(), b0.take(i as int)),
                self.spec_opts() == old(self).spec_opts(),
                self.spec_root() == old(self).spec_root(),
                self.shard_count() == old(self).shard_count(),
                forall|j: int|
                    0 <= j < i ==> replied(
                        routed_all(old(self).registry(), b0.take(j)),
                        old(self).spec_opts().message_dropping,
                        b0[j],
                        #[trigger] replies@[j],
                    ),
            decreases n - i,
        {
            let m = rest.remove(0);
            proof {
                assert(m == b0[i as int]);
                assert(rest@ =~= b0.skip(i + 1));
                assert(b0.take(i + 1).drop_last() =~= b0.take(i as int));
            }
            let reply = self.handle(m);
            replies.push(reply);
            proof {
                assert forall|j: int| 0 <= j < i + 1 implies replied(
                    routed_all(old(self).registry(), b0.take(j)),
                    old(self).spec_opts().message_dropping,
                    b0[j],
                    #[trigger] replies@[j],
                ) by {
                    if j == i as int {
                        assert(replies@[j] == reply);
                    }
                }
            }
            i += 1;
        }
        proof {
            assert(b0.take(n as int) =~= b0);
        }
        replies
    }

    /// One tick: takes up to `chunk_size` messages from the mailbox, oldest
    /// first, and handles them in that order.
    pub fn tick(&mut self, mailbox: &mut Mailbox<RunnerMessage<D>>) -> (r: Vec<Reply<D>>)
        requires
            old(self).spec_opts().chunk_size > 0,
            old(mailbox).wf(),
        ensures
            final(mailbox).wf(),
            r@.len() == if old(mailbox)@.len() < old(self).spec_opts().chunk_size {
                old(mailbox)@.len()
            } else {
                old(self).spec_opts().chunk_size as nat
            },
            final(mailbox)@ == old(mailbox)@.skip(r@.len() as int),
            final(self).registry() == routed_all(
                old(self).registry(),
                old(mailbox)@.take(r@.len() as int),
            ),
            forall|i: int|
                0 <= i < r@.len() ==> replied(
                    routed_all(old(self).registry(), old(mailbox)@.take(i)),
                    old(self).spec_opts().message_dropping,
                    old(mailbox)@[i],
                    #[trigger] r@[i],
                ),
            final(self).spec_opts() == old(self).spec_opts(),
            final(self).spec_root() == old(self).spec_root(),
            final(self).shard_count() == old(self).shard_count(),
    {
        let ghost q0 = mailbox@;
        let batch = mailbox.recv_many(self.opts.chunk_size);
        let r = self.run_batch(batch);
        proof {
            assert forall|i: int| 0 <= i < r@.len() implies #[trigger] batch@.take(i) == q0.take(i)
                && batch@[i] == q0[i] by {
                assert(batch@.take(i) =~= q0.take(i));
            }
        }
        r
    }
}

proof fn lemma_entry_of_with_entry<D: Dispatch>(
    reg: Seq<Option<Residence<D>>>,
    b: int,
    e: Option<Residence<D>>,
    a: int,
)
    requires
        0 <= a,
        0 <= b,
    ensures
        entry_of(with_entry(reg, b, e), a) == if a == b {
            e
        } else {
            entry_of(reg, a)
        },
{
    if b >= reg.len() {
        let pad = Seq::new((b - reg.len()) as nat, |i: int| None::<Residence<D>>);
        let grown = reg + pad + seq![e];
        assert(grown.len() == b + 1);
        if a < reg.len() {
            assert(grown[a] == reg[a]);
        } else if a < b {
            assert(grown[a] == pad[a - reg.len()]);
        }
    }
}

/// Payload messages for one actor are applied to its state in the order in
/// which they were handled, whatever messages for other actors come between
/// them.
pub proof fn lemma_router_fifo<D: Dispatch>(
    reg: Seq<Option<Residence<D>>>,
    a: usize,
    s: D::State,
    msgs: Seq<RunnerMessage<D>>,
)
    requires
        entry_of(reg, a as int) == Some(Residence::<D>::Local(s)),
        forall|i: int| 0 <= i < msgs.len() ==> #[trigger] msgs[i] is Message,
    ensures
        entry_of(routed_all(reg, msgs), a as int) == Some(
            Residence::<D>::Local(apply_all(s, letters_for(msgs, a))),
        ),
    decreases msgs.len(),
{
    if msgs.len() > 0 {
        let init = msgs.drop_last();
        assert forall|i: int| 0 <= i < init.len() implies #[trigger] init[i] is Message by {
            assert(init[i] == msgs[i]);
        }
        lemma_router_fifo(reg, a, s, init);
        let r0 = routed_all(reg, init);
        let rest = letters_for(init, a);
        assert(msgs.last() == msgs[msgs.len() - 1]);
        match msgs.last() {
            RunnerMessage::Message { priority, actor, message } => {
                match entry_of(r0, actor as int) {
                    Some(e) => {
                        lemma_entry_of_with_entry(
                            r0,
                            actor as int,
                            Some(delivered(e, Envelope { priority, message })),
                            a as int,
                        );
                        if actor == a {
                            let env = Envelope { priority, message };
                            assert(rest.push(env).drop_last() =~= rest);
                        }
                    },
                    None => {},
                }
            },
            _ => {},
        }
    }
}

proof fn lemma_delivered_all_concat<D: Dispatch>(
    e: Residence<D>,
    a: Seq<Envelope<D>>,
    b: Seq<Envelope<D>>,
)
    ensures
        delivered_all(delivered_all(e, a), b) == delivered_all(e, a + b),
    decreases b.len(),
{
    if b.len() == 0 {
        assert(a + b =~= a);
    } else {
        lemma_delivered_all_concat(e, a, b.drop_last());
        assert((a + b).drop_last() =~= a + b.drop_last());
        assert((a + b).last() == b.last());
    }
}

proof fn lemma_shard_forwards<D: Dispatch>(k: nat, ms: Seq<Envelope<D>>)
    ensures
        delivered_all(Residence::<D>::Shard(k), ms) == Residence::<D>::Shard(k),
    decreases ms.len(),
{
    if ms.len() > 0 {
        lemma_shard_forwards(k, ms.drop_last());
    }
}

/// Migrating a local actor to shard `k` preserves it. On the router, what
/// arrives during the migration waits in order and is forwarded in that
/// order by the unlock that completes it; what arrives after is forwarded
/// as it comes. The shard starts from the state handed over and applies
/// both in order, so it ends where the router would have ended without the
/// migration.
pub proof fn lemma_migration_preserves<D: Dispatch>(
    s: D::State,
    k: nat,
    during: Seq<Envelope<D>>,
    after: Seq<Envelope<D>>,
)
    ensures
        is_locked(delivered_all(migrated(Residence::<D>::Local(s), k), during)),
        buffered(delivered_all(migrated(Residence::<D>::Local(s), k), during)) == during,
        unlocked(delivered_all(migrated(Residence::<D>::Local(s), k), during)) == Residence::<
            D,
        >::Shard(k),
        delivered_all(
            unlocked(delivered_all(migrated(Residence::<D>::Local(s), k), during)),
            after,
        ) == Residence::<D>::Shard(k),
        delivered_all(Residence::<D>::Local(s), during + after) == Residence::<D>::Local(
            apply_all(s, during + after),
        ),
        delivered_all(delivered_all(Residence::<D>::Local(s), during), after) == delivered_all(
            Residence::<D>::Local(s),
            during + after,
        ),
{
    assert(migrated(Residence::<D>::Local(s), k) == locked(Residence::<D>::Shard(k)));
    lemma_locked_buffers(Residence::<D>::Shard(k), during);
    lemma_shard_forwards(k, after);
    lemma_local_fifo(s, during + after);
    lemma_delivered_all_concat(Residence::<D>::Local(s), during, after);
}

/// Every message of `msgs` is a payload message.
pub open spec fn all_payloads<D: Dispatch>(msgs: Seq<RunnerMessage<D>>) -> bool {
    forall|i: int| 0 <= i < msgs.len() ==> #[trigger] msgs[i] is Message
}

/// Every message of `msgs` is a payload message for actor `a`.
pub open spec fn all_payloads_for<D: Dispatch>(msgs: Seq<RunnerMessage<D>>, a: usize) -> bool {
    forall|i: int|
        0 <= i < msgs.len() ==> (#[trigger] msgs[i] is Message && msgs[i]->Message_actor == a)
}

proof fn lemma_routed_all_concat<D: Dispatch>(
    reg: Seq<Option<Residence<D>>>,
    x: Seq<RunnerMessage<D>>,
    y: Seq<RunnerMessage<D>>,
)
    ensures
        routed_all(reg, x + y) == routed_all(routed_all(reg, x), y),
    decreases y.len(),
{
    if y.len() == 0 {
        assert(x + y =~= x);
    } else {
        lemma_routed_all_concat(reg, x, y.drop_last());
        assert((x + y).drop_last() =~= x + y.drop_last());
        assert((x + y).last() == y.last());
    }
}

proof fn lemma_routed_all_one<D: Dispatch>(reg: Seq<Option<Residence<D>>>, m: RunnerMessage<D>)
    ensures
        routed_all(reg, seq![m]) == routed(reg, m),
{
    assert(seq![m].drop_last() =~= Seq::<RunnerMessage<D>>::empty());
    assert(routed_all(reg, Seq::<RunnerMessage<D>>::empty()) == reg);
    assert(seq![m].last() == m);
}

/// Payload messages reach an entry in the order they were handled: the
/// entry of actor `a` ends as if its own messages arrived one by one.
pub proof fn lemma_router_delivers<D: Dispatch>(
    reg: Seq<Option<Residence<D>>>,
    a: usize,
    e: Residence<D>,
    msgs: Seq<RunnerMessage<D>>,
)
    requires
        entry_of(reg, a as int) == Some(e),
        all_payloads(msgs),
    ensures
        entry_of(routed_all(reg, msgs), a as int) == Some(delivered_all(e, letters_for(msgs, a))),
    decreases msgs.len(),
{
    if msgs.len() == 0 {
        assert(letters_for(msgs, a) =~= Seq::<Envelope<D>>::empty());
    } else {
        let init = msgs.drop_last();
        assert forall|i: int| 0 <= i < init.len() implies #[trigger] init[i] is Message by {
            assert(init[i] == msgs[i]);
        }
        lemma_router_delivers(reg, a, e, init);
        let r0 = routed_all(reg, init);
        let rest = letters_for(init, a);
        assert(msgs.last() == msgs[msgs.len() - 1]);
        match msgs.last() {
            RunnerMessage::Message { priority, actor, message } => {
                match entry_of(r0, actor as int) {
                    Some(e2) => {
                        lemma_entry_of_with_entry(
                            r0,
                            actor as int,
                            Some(delivered(e2, Envelope { priority, message })),
                            a as int,
                        );
                        if actor == a {
                            let env = Envelope { priority, message };
                            assert(rest.push(env).drop_last() =~= rest);
                        }
                    },
                    None => {},
                }
            },
            _ => {},
        }
    }
}

/// Through the router: locking a local actor, handling payload messages,
/// unlocking it, then handling more payload messages leaves its state as
/// the messages meant for it give, applied in arrival order, those that
/// came while it was locked first.
pub proof fn lemma_router_lock_unlock<D: Dispatch>(
    reg: Seq<Option<Residence<D>>>,
    a: usize,
    s: D::State,
    during: Seq<RunnerMessage<D>>,
    after: Seq<RunnerMessage<D>>,
)
    requires
        entry_of(reg, a as int) == Some(Residence::<D>::Local(s)),
        all_payloads(during),
        all_payloads(after),
    ensures
        entry_of(
            routed_all(
                reg,
                seq![RunnerMessage::Lock { actor: a }] + during + seq![
                    RunnerMessage::Unlock { actor: a },
                ] + after,
            ),
            a as int,
        ) == Some(
            Residence::<D>::Local(apply_all(s, letters_for(during, a) + letters_for(after, a))),
        ),
{
    let lock = seq![RunnerMessage::<D>::Lock { actor: a }];
    let unlock = seq![RunnerMessage::<D>::Unlock { actor: a }];
    lemma_routed_all_concat(reg, lock + during + unlock, after);
    lemma_routed_all_concat(reg, lock + during, unlock);
    lemma_routed_all_concat(reg, lock, during);
    lemma_routed_all_one(reg, RunnerMessage::<D>::Lock { actor: a });
    let r1 = routed(reg, RunnerMessage::<D>::Lock { actor: a });
    lemma_entry_of_with_entry(reg, a as int, Some(locked(Residence::<D>::Local(s))), a as int);
    lemma_router_delivers(r1, a, locked(Residence::<D>::Local(s)), during);
    let r2 = routed_all(r1, during);
    let e2 = delivered_all(locked(Residence::<D>::Local(s)), letters_for(during, a));
    lemma_routed_all_one(r2, RunnerMessage::<D>::Unlock { actor: a });
    lemma_entry_of_with_entry(r2, a as int, Some(unlocked(e2)), a as int);
    let r3 = routed(r2, RunnerMessage::<D>::Unlock { actor: a });
    lemma_router_delivers(r3, a, unlocked(e2), after);
    lemma_lock_unlock_replays(s, letters_for(during, a), letters_for(after, a));
}

proof fn lemma_letters_of_messages<D: Dispatch>(a: usize, q: Seq<Envelope<D>>)
    ensures
        letters_for(as_messages(a, q), a) == q,
        all_payloads_for(as_messages(a, q), a),
    decreases q.len(),
{
    if q.len() > 0 {
        lemma_letters_of_messages(a, q.drop_last());
        assert(as_messages(a, q).drop_last() =~= as_messages(a, q.drop_last()));
        assert(q.drop_last().push(q.last()) =~= q);
    } else {
        assert(as_messages(a, q) =~= Seq::<RunnerMessage<D>>::empty());
    }
}

proof fn lemma_payloads_for_are_payloads<D: Dispatch>(msgs: Seq<RunnerMessage<D>>, a: usize)
    requires
        all_payloads_for(msgs, a),
    ensures
        all_payloads(msgs),
{
    assert forall|i: int| 0 <= i < msgs.len() implies #[trigger] msgs[i] is Message by {
        assert(msgs[i] is Message && msgs[i]->Message_actor == a);
    }
}

proof fn lemma_payloads_concat<D: Dispatch>(x: Seq<RunnerMessage<D>>, y: Seq<RunnerMessage<D>>)
    requires
        all_payloads(x),
        all_payloads(y),
    ensures
        all_payloads(x + y),
{
    assert forall|i: int| 0 <= i < (x + y).len() implies #[trigger] (x + y)[i] is Message by {
        if i < x.len() {
            assert((x + y)[i] == x[i]);
        } else {
            assert((x + y)[i] == y[i - x.len()]);
        }
    }
}

proof fn lemma_letters_concat<D: Dispatch>(
    x: Seq<RunnerMessage<D>>,
    y: Seq<RunnerMessage<D>>,
    a: usize,
)
    ensures
        letters_for(x + y, a) == letters_for(x, a) + letters_for(y, a),
    decreases y.len(),
{
    if y.len() == 0 {
        assert(x + y =~= x);
        assert(letters_for(x, a) + letters_for(y, a) =~= letters_for(x, a));
    } else {
        lemma_letters_concat(x, y.drop_last(), a);
        assert((x + y).drop_last() =~= x + y.drop_last());
        assert((x + y).last() == y.last());
        let lx = letters_for(x, a);
        let ly = letters_for(y.drop_last(), a);
        match y.last() {
            RunnerMessage::Message { priority, actor, message } => {
                if actor == a {
                    assert(lx + ly.push(Envelope { priority, message }) =~= (lx + ly).push(
                        Envelope { priority, message },
                    ));
                }
            },
            _ => {},
        }
    }
}

/// Through both routers: migrating a local actor of the root to shard `k`
/// loses and reorders nothing. While the migration is under way the root
/// buffers the actor's messages; the unlock that completes it forwards
/// them in order, and afterwards the root forwards as messages come. The
/// shard, given the state by `Resume` and then those messages, ends where
/// the root would have ended without the migration.
pub proof fn lemma_router_migration<D: Dispatch>(
    root: Seq<Option<Residence<D>>>,
    shard: Seq<Option<Residence<D>>>,
    a: usize,
    k: nat,
    s: D::State,
    during: Seq<RunnerMessage<D>>,
    after: Seq<RunnerMessage<D>>,
    dropping: MessageDropping,
    unlock_reply: Reply<D>,
)
    requires
        entry_of(root, a as int) == Some(Residence::<D>::Local(s)),
        entry_of(shard, a as int) is None,
        a < usize::MAX,
        all_payloads_for(during, a),
        all_payloads_for(after, a),
    ensures
        ({
            let migrating = routed_all(
                with_entry(root, a as int, Some(migrated(Residence::<D>::Local(s), k))),
                during,
            );
            &&& entry_of(migrating, a as int) == Some(
                Residence::<D>::ShardLocked(k, letters_for(during, a)),
            )
            &&& replied(migrating, dropping, RunnerMessage::Unlock { actor: a }, unlock_reply)
                ==> (unlock_reply matches Reply::ForwardAll(k2, v) && k2 == k && v@ == as_messages(
                a,
                letters_for(during, a),
            ))
            &&& entry_of(
                routed_all(routed(migrating, RunnerMessage::Unlock { actor: a }), after),
                a as int,
            ) == Some(Residence::<D>::Shard(k))
        }),
        entry_of(
            routed_all(
                routed(shard, RunnerMessage::Resume { actor: a, state: s }),
                as_messages(a, letters_for(during, a)) + after,
            ),
            a as int,
        ) == Some(Residence::<D>::Local(apply_all(s, letters_for(during + after, a)))),
        entry_of(routed_all(root, during + after), a as int) == Some(
            Residence::<D>::Local(apply_all(s, letters_for(during + after, a))),
        ),
{
    lemma_payloads_for_are_payloads(during, a);
    lemma_payloads_for_are_payloads(after, a);
    let e0 = migrated(Residence::<D>::Local(s), k);
    let r0 = with_entry(root, a as int, Some(e0));
    lemma_entry_of_with_entry(root, a as int, Some(e0), a as int);
    lemma_router_delivers(r0, a, e0, during);
    assert(e0 == locked(Residence::<D>::Shard(k)));
    lemma_locked_buffers(Residence::<D>::Shard(k), letters_for(during, a));
    let migrating = routed_all(r0, during);
    let e1 = Residence::<D>::ShardLocked(k, letters_for(during, a));
    lemma_entry_of_with_entry(migrating, a as int, Some(unlocked(e1)), a as int);
    let r2 = routed(migrating, RunnerMessage::<D>::Unlock { actor: a });
    lemma_router_delivers(r2, a, Residence::<D>::Shard(k), after);
    lemma_shard_forwards(k, letters_for(after, a));
    // the shard
    let sh1 = routed(shard, RunnerMessage::<D>::Resume { actor: a, state: s });
    lemma_entry_of_with_entry(shard, a as int, Some(Residence::<D>::Local(s)), a as int);
    lemma_letters_of_messages(a, letters_for(during, a));
    let fwd = as_messages(a, letters_for(during, a));
    lemma_payloads_for_are_payloads(fwd, a);
    lemma_payloads_concat(fwd, after);
    lemma_router_delivers(sh1, a, Residence::<D>::Local(s), fwd + after);
    lemma_letters_concat(fwd, after, a);
    lemma_letters_concat(during, after, a);
    lemma_local_fifo(s, letters_for(during + after, a));
    // the root without migration
    lemma_payloads_concat(during, after);
    lemma_router_delivers(root, a, Residence::<D>::Local(s), during + after);
}

} // verus!
