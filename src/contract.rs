//! Permits that one actor grants another, kept inline in the granting
//! actor's state.
use vstd::prelude::*;

use crate::{ActorRef, Dispatch};

verus! {

/// A kind of permit: what it holds, and the operations its holder sends.
pub trait Contract {
    type Dispatch: Dispatch;
}

/// A permit held for the actor behind `sink`.
pub struct ActorPermit<T> {
    pub state: T,
    pub sink: ActorRef,
}

/// The permits an actor has granted, oldest first.
pub struct Contracts<T> {
    permits: Vec<ActorPermit<T>>,
}

impl<T> Contracts<T> {
    pub closed spec fn permits(&self) -> Seq<ActorPermit<T>> {
        self.permits@
    }

    pub fn new() -> (r: Self)
        ensures
            r.permits() == Seq::<ActorPermit<T>>::empty(),
    {
        Contracts { permits: Vec::new() }
    }

    pub fn len(&self) -> (r: usize)
        ensures
            r == self.permits().len(),
    {
        self.permits.len()
    }

    /// Records a permit for the actor behind `sink`.
    pub fn grant(&mut self, state: T, sink: ActorRef)
        ensures
            final(self).permits() == old(self).permits().push(ActorPermit { state, sink }),
    {
        self.permits.push(ActorPermit { state, sink });
    }

    /// The position of the oldest permit held for `actor`.
    pub fn find(&self, actor: usize) -> (r: Option<usize>)
        ensures
            match r {
                Some(i) => i < self.permits().len() && self.permits()[i as int].sink.spec_id()
                    == actor && forall|j: int|
                    0 <= j < i ==> (#[trigger] self.permits()[j]).sink.spec_id() != actor,
                None => forall|j: int|
                    0 <= j < self.permits().len() ==> (#[trigger] self.permits()[j]).sink.spec_id()
                        != actor,
            },
    {
        let n = self.permits.len();
        let mut i: usize = 0;
        while i < n
            invariant
                n == self.permits@.len(),
                i <= n,
                forall|j: int| 0 <= j < i ==> (#[trigger] self.permits@[j]).sink.spec_id() != actor,
            decreases n - i,
        {
            if self.permits[i].sink.id() == actor {
                return Some(i);
            }
            i += 1;
        }
        None
    }

    /// Removes and returns the oldest permit held for `actor`.
    pub fn revoke(&mut self, actor: usize) -> (r: Option<ActorPermit<T>>)
        ensures
            match r {
                Some(p) => exists|i: int|
                    0 <= i < old(self).permits().len() && p == old(self).permits()[i]
                        && p.sink.spec_id() == actor && (forall|j: int|
                        0 <= j < i ==> (#[trigger] old(self).permits()[j]).sink.spec_id() != actor)
                        && final(self).permits() == old(self).permits().remove(i),
                None => final(self).permits() == old(self).permits() && forall|j: int|
                    0 <= j < old(self).permits().len()
                        ==> (#[trigger] old(self).permits()[j]).sink.spec_id() != actor,
            },
    {
        match self.find(actor) {
            Some(i) => Some(self.permits.remove(i)),
            None => None,
        }
    }
}

} // verus!
