//! Bounded mailboxes: the channels that carry messages to runners.
use vstd::prelude::*;

use std::collections::VecDeque;

use crate::runner::RunnerMessage;
use crate::Dispatch;

verus! {

/// A send that did not enqueue; the message comes back.
pub enum SendError<T> {
    /// The mailbox holds as many messages as its capacity.
    Full(T),
    /// The mailbox was closed.
    Closed(T),
}

/// A receive that found nothing.
#[derive(Debug, Clone, Copy, PartialEq, Eq)]
pub enum ReceiveError {
    /// Nothing is buffered, and the mailbox is open.
    Empty,
    /// Nothing is buffered, and the mailbox was closed.
    Closed,
}

/// A first-in first-out channel with a fixed capacity, which can be closed
/// for good.
pub struct Mailbox<T> {
    queue: VecDeque<T>,
    capacity: usize,
    closed: bool,
}

impl<T> View for Mailbox<T> {
    type V = Seq<T>;

    /// The buffered messages, oldest first.
    closed spec fn view(&self) -> Seq<T> {
        self.queue@
    }
}

impl<T> Mailbox<T> {
    /// The capacity is positive and not exceeded.
    pub closed spec fn wf(&self) -> bool {
        self.capacity > 0 && self.queue@.len() <= self.capacity
    }

    pub closed spec fn spec_capacity(&self) -> nat {
        self.capacity as nat
    }

    pub closed spec fn spec_closed(&self) -> bool {
        self.closed
    }

    /// An open, empty mailbox that holds at most `capacity` messages.
    pub fn bounded(capacity: usize) -> (r: Self)
        requires
            capacity > 0,
        ensures
            r.wf(),
            r@ == Seq::<T>::empty(),
            r.spec_capacity() == capacity,
            !r.spec_closed(),
    {
        Mailbox { queue: VecDeque::new(), capacity, closed: false }
    }

    pub fn capacity(&self) -> (r: usize)
        ensures
            r == self.spec_capacity(),
    {
        self.capacity
    }

    pub fn len(&self) -> (r: usize)
        ensures
            r == self@.len(),
    {
        self.queue.len()
    }

    pub fn is_closed(&self) -> (r: bool)
        ensures
            r == self.spec_closed(),
    {
        self.closed
    }

    /// Enqueues `msg` without waiting: refused with `Closed` once the mailbox
    /// is closed, else with `Full` when it holds `capacity` messages.
    pub fn try_send(&mut self, msg: T) -> (r: Result<(), SendError<T>>)
        requires
            old(self).wf(),
        ensures
            final(self).wf(),
            final(self).spec_capacity() == old(self).spec_capacity(),
            final(self).spec_closed() == old(self).spec_closed(),
            old(self).spec_closed() ==> r == Err::<(), SendError<T>>(SendError::Closed(msg)),
            !old(self).spec_closed() && old(self)@.len() >= old(self).spec_capacity() ==> r == Err::<
                (),
                SendError<T>,
            >(SendError::Full(msg)),
            r is Ok <==> !old(self).spec_closed() && old(self)@.len() < old(self).spec_capacity(),
            r is Ok ==> final(self)@ == old(self)@.push(msg),
            r is Err ==> final(self)@ == old(self)@,
    {
        if self.closed {
            return Err(SendError::Closed(msg));
        }
        if self.queue.len() >= self.capacity {
            return Err(SendError::Full(msg));
        }
        self.queue.push_back(msg);
        Ok(())
    }

    /// Takes the oldest message.
    pub fn try_recv(&mut self) -> (r: Result<T, ReceiveError>)
        requires
            old(self).wf(),
        ensures
            final(self).wf(),
            final(self).spec_capacity() == old(self).spec_capacity(),
            final(self).spec_closed() == old(self).spec_closed(),
            old(self)@.len() > 0 ==> r == Ok::<T, ReceiveError>(old(self)@[0]) && final(self)@
                == old(self)@.skip(1),
            old(self)@.len() == 0 ==> final(self)@ == old(self)@ && r == Err::<T, ReceiveError>(
                if old(self).spec_closed() {
                    ReceiveError::Closed
                } else {
                    ReceiveError::Empty
                },
            ),
    {
        match self.queue.pop_front() {
            Some(m) => Ok(m),
            None => {
                if self.closed {
                    Err(ReceiveError::Closed)
                } else {
                    Err(ReceiveError::Empty)
                }
            },
        }
    }

    /// Takes up to `max` of the oldest messages, oldest first. An empty
    /// result means nothing was buffered.
    pub fn recv_many(&mut self, max: usize) -> (r: Vec<T>)
        requires
            old(self).wf(),
            max > 0,
        ensures
            final(self).wf(),
            final(self).spec_capacity() == old(self).spec_capacity(),
            final(self).spec_closed() == old(self).spec_closed(),
            r@.len() == if old(self)@.len() < max {
                old(self)@.len()
            } else {
                max as nat
            },
            r@ == old(self)@.take(r@.len() as int),
            final(self)@ == old(self)@.skip(r@.len() as int),
    {
        let ghost q0 = self.queue@;
        let mut out: Vec<T> = Vec::new();
        let mut i: usize = 0;
        while i < max && self.queue.len() > 0
            invariant
                self.capacity == old(self).capacity,
                self.closed == old(self).closed,
                q0 == old(self).queue@,
                q0.len() <= self.capacity,
                i <= max,
                i <= q0.len(),
                out@ == q0.take(i as int),
                self.queue@ == q0.skip(i as int),
            decreases max - i,
        {
            let m = self.queue.pop_front().unwrap();
            proof {
                assert(q0.take(i + 1) =~= q0.take(i as int).push(m));
                assert(q0.skip(i + 1) =~= q0.skip(i as int).skip(1));
            }
            out.push(m);
            i += 1;
        }
        out
    }

    /// Closes the mailbox for good: sends are refused from now on, and what
    /// is buffered can still be received.
    pub fn close(&mut self)
        requires
            old(self).wf(),
        ensures
            final(self).wf(),
            final(self)@ == old(self)@,
            final(self).spec_capacity() == old(self).spec_capacity(),
            final(self).spec_closed(),
    {
        self.closed = true;
    }
}

/// The sending side of a single-actor runner's mailbox.
#[derive(Debug, Clone, Copy, PartialEq, Eq)]
pub struct Maildrop {
    actor: usize,
}

impl Maildrop {
    pub closed spec fn spec_actor(&self) -> usize {
        self.actor
    }

    /// Enqueues `message` for the runner's actor, at priority 0; refused as
    /// `Mailbox::try_send` refuses, with the message handed back.
    pub fn send<D: Dispatch>(&self, mailbox: &mut Mailbox<RunnerMessage<D>>, message: D) -> (r:
        Result<(), SendError<RunnerMessage<D>>>)
        requires
            old(mailbox).wf(),
        ensures
            final(mailbox).wf(),
            final(mailbox).spec_capacity() == old(mailbox).spec_capacity(),
            final(mailbox).spec_closed() == old(mailbox).spec_closed(),
            r is Ok <==> !old(mailbox).spec_closed() && old(mailbox)@.len() < old(
                mailbox,
            ).spec_capacity(),
            r is Ok ==> final(mailbox)@ == old(mailbox)@.push(
                RunnerMessage::Message { priority: 0, actor: self.spec_actor(), message },
            ),
            old(mailbox).spec_closed() ==> r == Err::<(), SendError<RunnerMessage<D>>>(
                SendError::Closed(RunnerMessage::Message { priority: 0, actor: self.spec_actor(), message }),
            ),
            !old(mailbox).spec_closed() && old(mailbox)@.len() >= old(mailbox).spec_capacity()
                ==> r == Err::<(), SendError<RunnerMessage<D>>>(
                SendError::Full(RunnerMessage::Message { priority: 0, actor: self.spec_actor(), message }),
            ),
            r is Err ==> final(mailbox)@ == old(mailbox)@,
    {
        mailbox.try_send(RunnerMessage::Message { priority: 0, actor: self.actor, message })
    }
}

/// A mailbox for a single-actor runner with room for `capacity` messages,
/// and the maildrop that addresses the runner's actor.
pub fn mail<D: Dispatch>(capacity: usize) -> (r: (Maildrop, Mailbox<RunnerMessage<D>>))
    requires
        capacity > 0,
    ensures
        r.0.spec_actor() == 0,
        r.1.wf(),
        r.1@ == Seq::<RunnerMessage<D>>::empty(),
        r.1.spec_capacity() == capacity,
        !r.1.spec_closed(),
{
    (Maildrop { actor: 0 }, Mailbox::bounded(capacity))
}

/// A reply that cannot be delivered.
#[derive(Debug, Clone, Copy, PartialEq, Eq)]
pub enum ReplyError {
    /// The single-use slot was filled already.
    AlreadyReplied,
}

/// A single-use reply slot: it takes one value, once.
pub struct SingleReply<T> {
    value: Option<T>,
    used: bool,
}

impl<T> SingleReply<T> {
    /// The value waiting to be taken.
    pub closed spec fn pending(&self) -> Option<T> {
        self.value
    }

    /// Whether a value was ever sent.
    pub closed spec fn spec_used(&self) -> bool {
        self.used
    }

    pub fn new() -> (r: Self)
        ensures
            r.pending() is None,
            !r.spec_used(),
    {
        SingleReply { value: None, used: false }
    }

    /// Fills the slot; a second send is refused and changes nothing.
    pub fn send(&mut self, value: T) -> (r: Result<(), ReplyError>)
        ensures
            r is Ok <==> !old(self).spec_used(),
            r is Ok ==> final(self).pending() == Some(value),
            r is Err ==> r == Err::<(), ReplyError>(ReplyError::AlreadyReplied) && *final(self)
                == *old(self),
            final(self).spec_used(),
    {
        if self.used {
            return Err(ReplyError::AlreadyReplied);
        }
        self.value = Some(value);
        self.used = true;
        Ok(())
    }

    /// Takes the value, if one is waiting.
    pub fn take(&mut self) -> (r: Option<T>)
        ensures
            r == old(self).pending(),
            final(self).pending() is None,
            final(self).spec_used() == old(self).spec_used(),
    {
        let mut v = None;
        std::mem::swap(&mut self.value, &mut v);
        v
    }
}

/// A reply stream: values arrive and are taken in order.
pub struct MultiReply<T> {
    values: Vec<T>,
}

impl<T> MultiReply<T> {
    /// The values waiting to be taken, oldest first.
    pub closed spec fn pending(&self) -> Seq<T> {
        self.values@
    }

    pub fn new() -> (r: Self)
        ensures
            r.pending() == Seq::<T>::empty(),
    {
        MultiReply { values: Vec::new() }
    }

    pub fn send(&mut self, value: T)
        ensures
            final(self).pending() == old(self).pending().push(value),
    {
        self.values.push(value);
    }

    /// Takes every waiting value, oldest first.
    pub fn take_all(&mut self) -> (r: Vec<T>)
        ensures
            r@ == old(self).pending(),
            final(self).pending() == Seq::<T>::empty(),
    {
        let mut v = Vec::new();
        std::mem::swap(&mut self.values, &mut v);
        v
    }
}

/// A notification flag: raised by one side, consumed by the other.
#[derive(Debug, Clone, Copy, PartialEq, Eq)]
pub struct Notify {
    raised: bool,
}

impl Notify {
    pub closed spec fn spec_raised(&self) -> bool {
        self.raised
    }

    pub fn new() -> (r: Self)
        ensures
            !r.spec_raised(),
    {
        Notify { raised: false }
    }

    pub fn notify(&mut self)
        ensures
            final(self).spec_raised(),
    {
        self.raised = true;
    }

    /// Whether the flag was raised; it is lowered again.
    pub fn take(&mut self) -> (r: bool)
        ensures
            r == old(self).spec_raised(),
            !final(self).spec_raised(),
    {
        let r = self.raised;
        self.raised = false;
        r
    }
}

} // verus!
