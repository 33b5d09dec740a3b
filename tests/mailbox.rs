use pobox::concurrency::{mail, Mailbox, ReceiveError, SendError};
use pobox::runner::RunnerMessage;
use pobox::traits::{Channel, Receiver, Sender};
use pobox::{Dispatch, DispatchError};

struct Noop;

impl Dispatch for Noop {
    type State = ();
    fn apply(&self, state: ()) -> () {
        state
    }
    fn spec_asynchronous() -> bool {
        false
    }
    fn is_asynchronous() -> bool {
        false
    }
    fn run_mut(self, _state: &mut ()) -> Result<(), DispatchError> {
        Ok(())
    }
}

#[test]
fn capacity_one_refuses_until_drained() {
    let mut mb: Mailbox<u32> = Mailbox::bounded(1);
    assert!(mb.try_send(1).is_ok());
    match mb.try_send(2) {
        Err(SendError::Full(m)) => assert_eq!(m, 2),
        _ => panic!("expected Full"),
    }
    let got = mb.recv_many(1);
    assert_eq!(got, vec![1]);
    assert!(mb.try_send(2).is_ok());
    assert_eq!(mb.try_recv().ok(), Some(2));
    assert_eq!(mb.try_recv().err(), Some(ReceiveError::Empty));
}

#[test]
fn recv_many_keeps_order_and_stops_at_max() {
    let mut mb: Mailbox<u32> = Mailbox::bounded(8);
    for i in 0..5u32 {
        assert!(mb.try_send(i).is_ok());
    }
    assert_eq!(mb.recv_many(3), vec![0, 1, 2]);
    assert_eq!(mb.len(), 2);
    assert_eq!(mb.recv_many(10), vec![3, 4]);
    assert!(mb.recv_many(4).is_empty());
}

#[test]
fn closed_mailbox_refuses_sends_and_drains() {
    let mut mb: Mailbox<u32> = Mailbox::bounded(4);
    assert!(mb.try_send(7).is_ok());
    mb.close();
    assert!(mb.is_closed());
    match mb.try_send(8) {
        Err(SendError::Closed(m)) => assert_eq!(m, 8),
        _ => panic!("expected Closed"),
    }
    assert_eq!(mb.try_recv().ok(), Some(7));
    assert_eq!(mb.try_recv().err(), Some(ReceiveError::Closed));
    assert!(mb.recv_many(1).is_empty());
}

#[test]
fn closed_beats_full() {
    let mut mb: Mailbox<u32> = Mailbox::bounded(1);
    assert!(mb.try_send(1).is_ok());
    mb.close();
    assert!(matches!(mb.try_send(2), Err(SendError::Closed(2))));
}

#[test]
fn channel_traits_match_mailbox() {
    let mut ch: Mailbox<u8> = <Mailbox<u8> as Channel<u8>>::bounded(2);
    assert_eq!(Sender::capacity(&ch), 2);
    assert!(Sender::try_send(&mut ch, 5).is_ok());
    assert!(Sender::try_send(&mut ch, 6).is_ok());
    assert!(matches!(Sender::try_send(&mut ch, 7), Err(SendError::Full(7))));
    assert_eq!(Receiver::try_recv(&mut ch).ok(), Some(5));
}

#[test]
fn mail_gives_maildrop_for_actor_zero() {
    let (drop, mut mb) = mail::<Noop>(1);
    assert_eq!(mb.capacity(), 1);
    assert!(drop.send(&mut mb, Noop).is_ok());
    assert!(matches!(drop.send(&mut mb, Noop), Err(SendError::Full(_))));
    match mb.try_recv() {
        Ok(RunnerMessage::Message { priority, actor, .. }) => {
            assert_eq!(priority, 0);
            assert_eq!(actor, 0);
        }
        _ => panic!("expected a message"),
    }
}
