//! One actor's registry entry: where its state lives and whether it is
//! locked, with the messages buffered meanwhile.
use vstd::prelude::*;

use super::Envelope;
use crate::{Dispatch, DispatchError};

verus! {

/// The model of an entry: overflow queues as sequences, shard ids as
/// naturals.
pub enum Residence<D: Dispatch> {
    Local(D::State),
    LocalLocked(D::State, Seq<Envelope<D>>),
    Shard(nat),
    ShardLocked(nat, Seq<Envelope<D>>),
}

/// The state after applying the messages of `ms` to `s`, first to last.
pub open spec fn apply_all<D: Dispatch>(s: D::State, ms: Seq<Envelope<D>>) -> D::State
    decreases ms.len(),
{
    if ms.len() == 0 {
        s
    } else {
        ms.last().message.apply(apply_all(s, ms.drop_last()))
    }
}

/// An entry after one message for it arrived.
pub open spec fn delivered<D: Dispatch>(e: Residence<D>, m: Envelope<D>) -> Residence<D> {
    match e {
        Residence::Local(s) => Residence::Local(m.message.apply(s)),
        Residence::LocalLocked(s, q) => Residence::LocalLocked(s, q.push(m)),
        Residence::Shard(k) => Residence::Shard(k),
        Residence::ShardLocked(k, q) => Residence::ShardLocked(k, q.push(m)),
    }
}

/// An entry after the messages of `ms` arrived, first to last.
pub open spec fn delivered_all<D: Dispatch>(e: Residence<D>, ms: Seq<Envelope<D>>) -> Residence<D>
    decreases ms.len(),
{
    if ms.len() == 0 {
        e
    } else {
        delivered(delivered_all(e, ms.drop_last()), ms.last())
    }
}

/// The entry is locked.
pub open spec fn is_locked<D: Dispatch>(e: Residence<D>) -> bool {
    e is LocalLocked || e is ShardLocked
}

/// An entry after `Lock`; a locked entry stays as it is.
pub open spec fn locked<D: Dispatch>(e: Residence<D>) -> Residence<D> {
    match e {
        Residence::Local(s) => Residence::LocalLocked(s, Seq::empty()),
        Residence::Shard(k) => Residence::ShardLocked(k, Seq::empty()),
        _ => e,
    }
}

/// An entry after `Unlock`: a local state has its buffered messages applied
/// in order; a shard entry forwards them. An unlocked entry stays as it is.
pub open spec fn unlocked<D: Dispatch>(e: Residence<D>) -> Residence<D> {
    match e {
        Residence::LocalLocked(s, q) => Residence::Local(apply_all(s, q)),
        Residence::ShardLocked(k, q) => Residence::Shard(k),
        _ => e,
    }
}

/// The messages that a locked entry holds; none for an unlocked one.
pub open spec fn buffered<D: Dispatch>(e: Residence<D>) -> Seq<Envelope<D>> {
    match e {
        Residence::LocalLocked(_, q) => q,
        Residence::ShardLocked(_, q) => q,
        _ => Seq::empty(),
    }
}

/// What happened to one delivered message.
pub enum Delivery<D> {
    /// Run against the local state, with the dispatch's result.
    Applied(Result<(), DispatchError>),
    /// Held in the overflow queue of a locked entry.
    Buffered,
    /// To be sent on to the shard that holds the actor.
    Forward(usize, Envelope<D>),
}

/// What `Unlock` did.
pub enum Unlocked<D> {
    /// The buffered messages ran against the local state, with their results
    /// in order.
    Replayed(Vec<Result<(), DispatchError>>),
    /// The buffered messages are to be sent on to the shard, in order.
    Forward(usize, Vec<Envelope<D>>),
}

/// A lock request that does not fit the entry.
#[derive(Debug, Clone, Copy, PartialEq, Eq)]
pub enum LockError {
    AlreadyLocked,
    NotLocked,
}

/// Where one actor's state lives, as the runner holding the entry sees it.
pub enum ActorState<D: Dispatch> {
    /// The state is here and owned.
    Local(D::State),
    /// The state is here but frozen; arriving messages wait in order.
    LocalLocked(D::State, Vec<Envelope<D>>),
    /// The state lives on another shard; messages are forwarded there.
    Shard(usize),
    /// The shard entry is frozen; arriving messages wait in order.
    ShardLocked(usize, Vec<Envelope<D>>),
}

impl<D: Dispatch> ActorState<D> {
    pub open spec fn view(&self) -> Residence<D> {
        match self {
            ActorState::Local(s) => Residence::Local(*s),
            ActorState::LocalLocked(s, q) => Residence::LocalLocked(*s, q@),
            ActorState::Shard(k) => Residence::Shard(*k as nat),
            ActorState::ShardLocked(k, q) => Residence::ShardLocked(*k as nat, q@),
        }
    }

    /// Takes one message for this actor: runs it, buffers it, or hands it
    /// back to be forwarded.
    pub fn deliver(&mut self, m: Envelope<D>) -> (r: Delivery<D>)
        ensures
            final(self).view() == delivered(old(self).view(), m),
            *old(self) is Local <==> r is Applied,
            (*old(self) is LocalLocked || *old(self) is ShardLocked) <==> r is Buffered,
            match old(self).view() {
                Residence::Shard(k) => r == Delivery::Forward(k as usize, m),
                _ => true,
            },
    {
        match self {
            ActorState::Local(s) => {
                let res = m.message.run_mut(s);
                Delivery::Applied(res)
            },
            ActorState::LocalLocked(_, q) => {
                q.push(m);
                Delivery::Buffered
            },
            ActorState::Shard(k) => Delivery::Forward(*k, m),
            ActorState::ShardLocked(_, q) => {
                q.push(m);
                Delivery::Buffered
            },
        }
    }

    /// Freezes the entry: from now on its messages are buffered. Locking a
    /// locked entry changes nothing and is refused.
    pub fn lock(&mut self) -> (r: Result<(), LockError>)
        ensures
            final(self).view() == locked(old(self).view()),
            r is Ok <==> !is_locked(old(self).view()),
            r is Err ==> r == Err::<(), LockError>(LockError::AlreadyLocked),
    {
        let mut cur = ActorState::Shard(0);
        std::mem::swap(self, &mut cur);
        match cur {
            ActorState::Local(s) => {
                *self = ActorState::LocalLocked(s, Vec::new());
                Ok(())
            },
            ActorState::Shard(k) => {
                *self = ActorState::ShardLocked(k, Vec::new());
                Ok(())
            },
            other => {
                *self = other;
                Err(LockError::AlreadyLocked)
            },
        }
    }

    /// Releases the lock. A local state has the buffered messages applied
    /// in arrival order; a shard entry hands them back, in arrival order, to
    /// be forwarded. Unlocking an unlocked entry changes nothing and is
    /// refused.
    pub fn unlock(&mut self) -> (r: Result<Unlocked<D>, LockError>)
        ensures
            final(self).view() == unlocked(old(self).view()),
            r is Ok <==> is_locked(old(self).view()),
            r is Err ==> r == Err::<Unlocked<D>, LockError>(LockError::NotLocked),
            match old(self).view() {
                Residence::LocalLocked(_, q) => match r {
                    Ok(Unlocked::Replayed(res)) => res@.len() == q.len(),
                    _ => false,
                },
                Residence::ShardLocked(k, q) => match r {
                    Ok(Unlocked::Forward(k2, v)) => k2 == k && v@ == q,
                    _ => false,
                },
                _ => true,
            },
    {
        let mut cur = ActorState::Shard(0);
        std::mem::swap(self, &mut cur);
        match cur {
            ActorState::LocalLocked(s, q) => {
                let mut s = s;
                let res = replay(&mut s, q);
                *self = ActorState::Local(s);
                Ok(Unlocked::Replayed(res))
            },
            ActorState::ShardLocked(k, q) => {
                *self = ActorState::Shard(k);
                Ok(Unlocked::Forward(k, q))
            },
            other => {
                *self = other;
                Err(LockError::NotLocked)
            },
        }
    }
}

proof fn lemma_apply_all_step<D: Dispatch>(s: D::State, q: Seq<Envelope<D>>, i: int)
    requires
        0 <= i < q.len(),
    ensures
        apply_all(s, q.take(i + 1)) == q[i].message.apply(apply_all(s, q.take(i))),
{
    assert(q.take(i + 1).drop_last() =~= q.take(i));
}

/// Runs the messages of `q` against `s`, first to last, with their results
/// in the same order.
pub fn replay<D: Dispatch>(s: &mut D::State, q: Vec<Envelope<D>>) -> (r: Vec<
    Result<(), DispatchError>,
>)
    ensures
        *final(s) == apply_all(*old(s), q@),
        r@.len() == q@.len(),
{
    let ghost q0 = q@;
    let ghost s0 = *s;
    let mut rest = q;
    let mut results: Vec<Result<(), DispatchError>> = Vec::new();
    let mut i: usize = 0;
    let n = rest.len();
    while i < n
        invariant
            n == q0.len(),
            i <= n,
            rest@ == q0.skip(i as int),
            results@.len() == i,
            *s == apply_all(s0, q0.take(i as int)),
        decreases n - i,
    {
        let m = rest.remove(0);
        proof {
            assert(m == q0[i as int]);
            lemma_apply_all_step(s0, q0, i as int);
            assert(rest@ =~= q0.skip(i + 1));
        }
        let res = m.message.run_mut(s);
        results.push(res);
        i += 1;
    }
    proof {
        assert(q0.take(n as int) =~= q0);
    }
    results
}

/// Messages that arrive for a local actor are applied to its state in
/// arrival order.
pub proof fn lemma_local_fifo<D: Dispatch>(s: D::State, ms: Seq<Envelope<D>>)
    ensures
        delivered_all(Residence::Local(s), ms) == Residence::<D>::Local(apply_all(s, ms)),
    decreases ms.len(),
{
    if ms.len() > 0 {
        lemma_local_fifo(s, ms.drop_last());
    }
}

/// While an entry is locked, the messages that arrive wait in arrival order.
pub proof fn lemma_locked_buffers<D: Dispatch>(e: Residence<D>, ms: Seq<Envelope<D>>)
    requires
        !is_locked(e),
    ensures
        is_locked(delivered_all(locked(e), ms)),
        buffered(delivered_all(locked(e), ms)) == ms,
        match e {
            Residence::Local(s) => delivered_all(locked(e), ms) == Residence::<D>::LocalLocked(s, ms),
            Residence::Shard(k) => delivered_all(locked(e), ms) == Residence::<D>::ShardLocked(k, ms),
            _ => true,
        },
    decreases ms.len(),
{
    if ms.len() > 0 {
        lemma_locked_buffers(e, ms.drop_last());
        assert(ms.drop_last().push(ms.last()) =~= ms);
    } else {
        assert(ms =~= Seq::<Envelope<D>>::empty());
    }
}

/// Locking then unlocking a local actor replays the messages that arrived
/// meanwhile in arrival order, before any message that arrives after the
/// unlock: the state is the one that delivering all of them unlocked gives.
pub proof fn lemma_lock_unlock_replays<D: Dispatch>(
    s: D::State,
    during: Seq<Envelope<D>>,
    after: Seq<Envelope<D>>,
)
    ensures
        delivered_all(unlocked(delivered_all(locked(Residence::Local(s)), during)), after)
            == Residence::<D>::Local(apply_all(s, during + after)),
        delivered_all(unlocked(delivered_all(locked(Residence::Local(s)), during)), after)
            == delivered_all(Residence::<D>::Local(s), during + after),
{
    lemma_locked_buffers(Residence::<D>::Local(s), during);
    lemma_local_fifo(apply_all(s, during), after);
    lemma_apply_all_concat(s, during, after);
    lemma_local_fifo(s, during + after);
}

proof fn lemma_apply_all_concat<D: Dispatch>(s: D::State, a: Seq<Envelope<D>>, b: Seq<Envelope<D>>)
    ensures
        apply_all(apply_all(s, a), b) == apply_all(s, a + b),
    decreases b.len(),
{
    if b.len() == 0 {
        assert(a + b =~= a);
    } else {
        lemma_apply_all_concat(s, a, b.drop_last());
        assert((a + b).drop_last() =~= a + b.drop_last());
        assert((a + b).last() == b.last());
    }
}

} // verus!
