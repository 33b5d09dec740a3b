//! The channel interface that runners and handles are written against.
use vstd::prelude::*;

use crate::concurrency::{Mailbox, ReceiveError, SendError};

verus! {

/// The sending side of a channel.
pub trait Sender<T>: Sized {
    /// The sender is in a usable state.
    spec fn sendable(&self) -> bool;

    /// The messages waiting in the channel, oldest first.
    spec fn outbox(&self) -> Seq<T>;

    /// The channel takes another message now.
    spec fn has_room(&self) -> bool;

    /// Enqueues `value` without waiting, or hands it back and changes
    /// nothing.
    fn try_send(&mut self, value: T) -> (r: Result<(), SendError<T>>)
        requires
            old(self).sendable(),
        ensures
            final(self).sendable(),
            r is Ok <==> old(self).has_room(),
            r is Ok ==> final(self).outbox() == old(self).outbox().push(value),
            r is Err ==> final(self).outbox() == old(self).outbox(),
    ;

    /// How many messages the channel holds at most.
    fn capacity(&self) -> usize;
}

/// The receiving side of a channel.
pub trait Receiver<T>: Sized {
    /// The receiver is in a usable state.
    spec fn receivable(&self) -> bool;

    /// The messages waiting in the channel, oldest first.
    spec fn inbox(&self) -> Seq<T>;

    /// Takes the oldest message without waiting; fails only when none is
    /// waiting.
    fn try_recv(&mut self) -> (r: Result<T, ReceiveError>)
        requires
            old(self).receivable(),
        ensures
            final(self).receivable(),
            old(self).inbox().len() > 0 ==> r == Ok::<T, ReceiveError>(old(self).inbox()[0])
                && final(self).inbox() == old(self).inbox().skip(1),
            old(self).inbox().len() == 0 ==> r is Err && final(self).inbox() == old(self).inbox(),
    ;
}

/// A channel that is both ends at once, made empty with a fixed capacity.
pub trait Channel<T>: Sender<T> + Receiver<T> {
    fn bounded(capacity: usize) -> (r: Self)
        requires
            capacity > 0,
        ensures
            r.sendable(),
            r.receivable(),
            r.outbox() == Seq::<T>::empty(),
            r.inbox() == Seq::<T>::empty(),
            r.has_room(),
    ;
}

impl<T> Sender<T> for Mailbox<T> {
    open spec fn sendable(&self) -> bool {
        self.wf()
    }

    open spec fn outbox(&self) -> Seq<T> {
        self@
    }

    open spec fn has_room(&self) -> bool {
        !self.spec_closed() && self@.len() < self.spec_capacity()
    }

    fn try_send(&mut self, value: T) -> (r: Result<(), SendError<T>>) {
        Mailbox::try_send(self, value)
    }

    fn capacity(&self) -> usize {
        Mailbox::capacity(self)
    }
}

impl<T> Receiver<T> for Mailbox<T> {
    open spec fn receivable(&self) -> bool {
        self.wf()
    }

    open spec fn inbox(&self) -> Seq<T> {
        self@
    }

    fn try_recv(&mut self) -> (r: Result<T, ReceiveError>) {
        Mailbox::try_recv(self)
    }
}

impl<T> Channel<T> for Mailbox<T> {
    fn bounded(capacity: usize) -> (r: Self) {
        Mailbox::bounded(capacity)
    }
}

} // verus!
