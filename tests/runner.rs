use pobox::concurrency::Mailbox;
use pobox::runner::entry::{ActorState, Delivery, LockError, Unlocked};
use pobox::runner::isolated::{IsolatedRunner, IsolatedRunnerOpts, RunnerError};
use pobox::runner::sharded::{Reply, RouterError, ShardedRunner, ShardedRunnerOpts};
use pobox::runner::{Envelope, MessageDropping, RunSync, RunnerMessage, TaskRunnerHandle};
use pobox::concurrency::SendError;
use pobox::{ActorRef, Dispatch, DispatchError};

/// Appends its value to a log, so that the order of application shows.
struct Push(u32);

impl Dispatch for Push {
    type State = Vec<u32>;
    fn apply(&self, state: Vec<u32>) -> Vec<u32> {
        let mut s = state;
        s.push(self.0);
        s
    }
    fn spec_asynchronous() -> bool {
        false
    }
    fn is_asynchronous() -> bool {
        false
    }
    fn run_mut(self, state: &mut Vec<u32>) -> Result<(), DispatchError> {
        if self.0 == 13 {
            state.push(self.0);
            return Err(DispatchError);
        }
        state.push(self.0);
        Ok(())
    }
}

impl RunSync for Push {
    fn lemma_never_suspends() {}
}

struct Suspends;

impl Dispatch for Suspends {
    type State = u8;
    fn apply(&self, state: u8) -> u8 {
        state
    }
    fn spec_asynchronous() -> bool {
        true
    }
    fn is_asynchronous() -> bool {
        true
    }
    fn run_mut(self, _state: &mut u8) -> Result<(), DispatchError> {
        Ok(())
    }
}

fn opts(chunk: usize, dropping: MessageDropping) -> ShardedRunnerOpts {
    ShardedRunnerOpts { chunk_size: chunk, max_shards: 2, message_dropping: dropping }
}

fn msg(actor: usize, v: u32) -> RunnerMessage<Push> {
    RunnerMessage::Message { priority: 0, actor, message: Push(v) }
}

fn spawn(r: &mut ShardedRunner<Push>, state: Vec<u32>) -> ActorRef {
    match r.spawn(0, state) {
        Reply::Spawned(h) => h,
        _ => panic!("spawn must succeed"),
    }
}

#[test]
fn messages_apply_in_send_order() {
    let mut root: ShardedRunner<Push> = ShardedRunner::new(opts(8, MessageDropping::Forbidden), true);
    let a = spawn(&mut root, vec![]);
    let b = spawn(&mut root, vec![]);
    assert_eq!(a.id(), 0);
    assert_eq!(b.id(), 1);
    let mut mb: Mailbox<RunnerMessage<Push>> = Mailbox::bounded(8);
    assert!(a.try_send(&mut mb, 0, Push(1)).is_ok());
    assert!(b.try_send(&mut mb, 5, Push(10)).is_ok());
    assert!(a.try_send(&mut mb, 9, Push(2)).is_ok());
    assert!(a.try_send(&mut mb, 0, Push(3)).is_ok());
    let replies = root.tick(&mut mb);
    assert_eq!(replies.len(), 4);
    assert_eq!(root.local_state(0), Some(&vec![1, 2, 3]));
    assert_eq!(root.local_state(1), Some(&vec![10]));
}

#[test]
fn tick_takes_one_chunk() {
    let mut root: ShardedRunner<Push> = ShardedRunner::new(opts(2, MessageDropping::Forbidden), true);
    spawn(&mut root, vec![]);
    let mut mb: Mailbox<RunnerMessage<Push>> = Mailbox::bounded(8);
    for v in 1..=3u32 {
        assert!(mb.try_send(msg(0, v)).is_ok());
    }
    assert_eq!(root.tick(&mut mb).len(), 2);
    assert!(root.overloaded(2));
    assert!(root.wants_shard(2));
    assert_eq!(root.local_state(0), Some(&vec![1, 2]));
    assert_eq!(root.tick(&mut mb).len(), 1);
    assert!(!root.overloaded(1));
    assert_eq!(root.local_state(0), Some(&vec![1, 2, 3]));
}

#[test]
fn lock_buffers_and_unlock_replays_before_new_mail() {
    let mut root: ShardedRunner<Push> = ShardedRunner::new(opts(8, MessageDropping::Forbidden), true);
    spawn(&mut root, vec![0]);
    assert!(matches!(root.handle(RunnerMessage::Lock { actor: 0 }), Reply::Locked));
    assert!(root.is_actor_locked(0));
    assert!(matches!(root.handle(msg(0, 1)), Reply::Buffered));
    assert!(matches!(root.handle(msg(0, 2)), Reply::Buffered));
    assert_eq!(root.local_state(0), Some(&vec![0]));
    match root.handle(RunnerMessage::Unlock { actor: 0 }) {
        Reply::Replayed(res) => assert_eq!(res.len(), 2),
        _ => panic!("expected a replay"),
    }
    assert!(matches!(root.handle(msg(0, 3)), Reply::Applied(Ok(()))));
    assert_eq!(root.local_state(0), Some(&vec![0, 1, 2, 3]));
}

#[test]
fn lock_errors_are_reported() {
    let mut root: ShardedRunner<Push> = ShardedRunner::new(opts(8, MessageDropping::Forbidden), true);
    spawn(&mut root, vec![]);
    assert!(matches!(root.handle(RunnerMessage::Unlock { actor: 0 }), Reply::Refused(RouterError::NotLocked)));
    assert!(matches!(root.handle(RunnerMessage::Lock { actor: 0 }), Reply::Locked));
    assert!(matches!(root.handle(RunnerMessage::Lock { actor: 0 }), Reply::Refused(RouterError::AlreadyLocked)));
    assert!(matches!(root.handle(RunnerMessage::Lock { actor: 4 }), Reply::Refused(RouterError::UnknownActor)));
    assert!(matches!(root.handle(msg(4, 1)), Reply::Refused(RouterError::UnknownActor)));
}

#[test]
fn failed_dispatch_does_not_stop_routing() {
    let mut root: ShardedRunner<Push> = ShardedRunner::new(opts(8, MessageDropping::Forbidden), true);
    spawn(&mut root, vec![]);
    assert!(matches!(root.handle(msg(0, 13)), Reply::Applied(Err(DispatchError))));
    assert!(matches!(root.handle(msg(0, 14)), Reply::Applied(Ok(()))));
    assert_eq!(root.local_state(0), Some(&vec![13, 14]));
}

#[test]
fn migration_to_shard_keeps_state_and_order() {
    let mut root: ShardedRunner<Push> = ShardedRunner::new(opts(8, MessageDropping::Forbidden), true);
    let mut shard: ShardedRunner<Push> = ShardedRunner::new(opts(8, MessageDropping::Forbidden), false);
    let mut shard_box = TaskRunnerHandle { sender: Mailbox::bounded(16) };
    spawn(&mut root, vec![]);
    root.handle(msg(0, 1));
    let before = root.local_state(0).cloned();
    assert_eq!(root.spawn_shard(), Ok(0));
    let resume = match root.begin_migration(0, 0) {
        Ok(m) => m,
        Err(_) => panic!("migration must begin"),
    };
    assert_eq!(root.shard_of(0), Some(0));
    assert!(root.is_actor_locked(0));
    assert!(matches!(shard.handle(resume), Reply::Resumed));
    assert_eq!(shard.local_state(0).cloned(), before);
    // arrives while the shard takes over
    assert!(matches!(root.handle(msg(0, 2)), Reply::Buffered));
    match root.handle(RunnerMessage::Unlock { actor: 0 }) {
        Reply::ForwardAll(k, v) => {
            assert_eq!(k, 0);
            assert!(shard_box.forward_all(v).is_ok());
        }
        _ => panic!("expected forwarding"),
    }
    // arrives after the migration
    match root.handle(msg(0, 3)) {
        Reply::Forward(k, m) => {
            assert_eq!(k, 0);
            assert!(shard_box.sender.try_send(m).is_ok());
        }
        _ => panic!("expected forwarding"),
    }
    assert_eq!(root.local_state(0), None);
    shard.tick(&mut shard_box.sender);
    assert_eq!(shard.local_state(0), Some(&vec![1, 2, 3]));
}

#[test]
fn migration_errors() {
    let mut root: ShardedRunner<Push> = ShardedRunner::new(opts(8, MessageDropping::Forbidden), true);
    spawn(&mut root, vec![]);
    assert!(matches!(root.begin_migration(0, 0), Err(RouterError::UnknownShard)));
    assert_eq!(root.spawn_shard(), Ok(0));
    assert!(matches!(root.begin_migration(3, 0), Err(RouterError::UnknownActor)));
    root.handle(RunnerMessage::Lock { actor: 0 });
    assert!(matches!(root.begin_migration(0, 0), Err(RouterError::NotLocal)));
    assert_eq!(root.spawn_shard(), Ok(1));
    assert_eq!(root.spawn_shard(), Err(RouterError::ShardLimit));
    let mut child: ShardedRunner<Push> = ShardedRunner::new(opts(8, MessageDropping::Forbidden), false);
    assert_eq!(child.spawn_shard(), Err(RouterError::ShardLimit));
}

#[test]
fn kill_pause_resume() {
    let mut root: ShardedRunner<Push> = ShardedRunner::new(opts(8, MessageDropping::Forbidden), true);
    spawn(&mut root, vec![4]);
    spawn(&mut root, vec![5]);
    match root.handle(RunnerMessage::Pause { actor: 1 }) {
        Reply::Paused(s) => assert_eq!(s, vec![5]),
        _ => panic!("expected paused state"),
    }
    assert_eq!(root.local_state(1), None);
    assert!(matches!(root.handle(RunnerMessage::Resume { actor: 1, state: vec![6] }), Reply::Resumed));
    assert_eq!(root.local_state(1), Some(&vec![6]));
    assert!(matches!(root.handle(RunnerMessage::Resume { actor: 1, state: vec![7] }), Reply::Refused(RouterError::Occupied)));
    match root.handle(RunnerMessage::Kill { actor: 0 }) {
        Reply::Killed(Some(s)) => assert_eq!(s, vec![4]),
        _ => panic!("expected killed state"),
    }
    assert!(matches!(root.handle(RunnerMessage::Kill { actor: 0 }), Reply::Refused(RouterError::UnknownActor)));
    // ids are never reused
    assert_eq!(spawn(&mut root, vec![]).id(), 2);
    // a shard takes an id beyond its registry
    assert!(matches!(root.resume(5, vec![9]), Reply::Resumed));
    assert_eq!(root.local_state(5), Some(&vec![9]));
    assert_eq!(root.local_state(4), None);
}

#[test]
fn kill_drains_or_discards_overflow() {
    let mut keep: ShardedRunner<Push> = ShardedRunner::new(opts(8, MessageDropping::Forbidden), true);
    spawn(&mut keep, vec![]);
    keep.handle(RunnerMessage::Lock { actor: 0 });
    keep.handle(msg(0, 1));
    match keep.handle(RunnerMessage::Kill { actor: 0 }) {
        Reply::Killed(Some(s)) => assert_eq!(s, vec![1]),
        _ => panic!("expected killed state"),
    }
    let mut drop: ShardedRunner<Push> = ShardedRunner::new(opts(8, MessageDropping::Always), true);
    spawn(&mut drop, vec![]);
    drop.handle(RunnerMessage::Lock { actor: 0 });
    drop.handle(msg(0, 1));
    match drop.handle(RunnerMessage::Kill { actor: 0 }) {
        Reply::Killed(Some(s)) => assert!(s.is_empty()),
        _ => panic!("expected killed state"),
    }
}

#[test]
fn forward_all_reports_first_failure() {
    let mut h: TaskRunnerHandle<Push> = TaskRunnerHandle { sender: Mailbox::bounded(2) };
    match h.forward_all(vec![msg(0, 1), msg(0, 2), msg(0, 3), msg(0, 4)]) {
        Err((SendError::Full(RunnerMessage::Message { message, .. }), sent, rest)) => {
            assert_eq!(message.0, 3);
            assert_eq!(sent, 2);
            assert_eq!(rest.len(), 1);
        }
        _ => panic!("expected Full"),
    }
    assert_eq!(h.sender.len(), 2);
}

#[test]
fn entry_state_machine() {
    let mut e: ActorState<Push> = ActorState::Shard(3);
    match e.deliver(Envelope { priority: 1, message: Push(1) }) {
        Delivery::Forward(k, env) => {
            assert_eq!(k, 3);
            assert_eq!(env.priority, 1);
        }
        _ => panic!("expected forward"),
    }
    assert_eq!(e.lock(), Ok(()));
    assert_eq!(e.lock(), Err(LockError::AlreadyLocked));
    assert!(matches!(e.deliver(Envelope { priority: 0, message: Push(2) }), Delivery::Buffered));
    match e.unlock() {
        Ok(Unlocked::Forward(k, v)) => {
            assert_eq!(k, 3);
            assert_eq!(v.len(), 1);
        }
        _ => panic!("expected forward"),
    }
    assert!(matches!(e.unlock(), Err(LockError::NotLocked)));
}

#[test]
fn isolated_runner_stops_on_kill() {
    let mut r = match IsolatedRunner::<Push>::spawn_sync(IsolatedRunnerOpts { chunk_size: 8, state: vec![] }) {
        Ok(r) => r,
        Err(_) => panic!("sync dispatch runs on a blocking runner"),
    };
    let mut mb: Mailbox<RunnerMessage<Push>> = Mailbox::bounded(8);
    assert!(mb.try_send(msg(0, 1)).is_ok());
    assert!(mb.try_send(RunnerMessage::Kill { actor: 0 }).is_ok());
    assert!(mb.try_send(msg(0, 2)).is_ok());
    assert_eq!(r.tick(&mut mb).len(), 2);
    assert!(r.is_stopped());
    assert_eq!(r.state(), None);
    assert_eq!(mb.len(), 0);
}

#[test]
fn isolated_runner_applies_in_order() {
    let mut r = match IsolatedRunner::<Push>::spawn_blocking(IsolatedRunnerOpts { chunk_size: 2, state: vec![] }) {
        Ok(r) => r,
        Err(_) => panic!("spawn must succeed"),
    };
    let mut mb: Mailbox<RunnerMessage<Push>> = Mailbox::bounded(8);
    for v in 1..=3u32 {
        assert!(mb.try_send(msg(0, v)).is_ok());
    }
    assert_eq!(r.tick(&mut mb).len(), 2);
    assert_eq!(r.tick(&mut mb).len(), 1);
    assert!(!r.is_stopped());
    assert_eq!(r.state(), Some(&vec![1, 2, 3]));
}

#[test]
fn suspending_dispatch_refused_by_blocking_runner() {
    let r = IsolatedRunner::<Suspends>::spawn_sync(IsolatedRunnerOpts { chunk_size: 1, state: 0 });
    assert!(matches!(r, Err(RunnerError::AsyncInSyncRunner)));
    let ok = IsolatedRunner::<Suspends>::spawn(IsolatedRunnerOpts { chunk_size: 1, state: 0 });
    assert!(ok.is_ok());
    let empty = IsolatedRunner::<Push>::spawn(IsolatedRunnerOpts { chunk_size: 0, state: vec![] });
    assert!(matches!(empty, Err(RunnerError::EmptyChunk)));
}

#[test]
fn isolated_runner_takes_any_actor_id_and_stops_on_any_kill() {
    let mut r = match IsolatedRunner::<Push>::spawn(IsolatedRunnerOpts { chunk_size: 8, state: vec![] }) {
        Ok(r) => r,
        Err(_) => panic!("spawn must succeed"),
    };
    let mut mb: Mailbox<RunnerMessage<Push>> = Mailbox::bounded(8);
    assert!(mb.try_send(msg(5, 1)).is_ok());
    assert!(mb.try_send(msg(0, 2)).is_ok());
    assert!(mb.try_send(RunnerMessage::Pause { actor: 9 }).is_ok());
    let replies = r.tick(&mut mb);
    assert_eq!(replies.len(), 3);
    assert!(matches!(replies[0], Reply::Applied(Ok(()))));
    match &replies[2] {
        Reply::Paused(s) => assert_eq!(s, &vec![1, 2]),
        _ => panic!("expected the paused state"),
    }
    assert!(mb.try_send(RunnerMessage::Resume { actor: 4, state: vec![7] }).is_ok());
    assert!(mb.try_send(RunnerMessage::Kill { actor: 3 }).is_ok());
    assert!(mb.try_send(msg(0, 8)).is_ok());
    let replies = r.tick(&mut mb);
    assert_eq!(replies.len(), 2);
    match &replies[1] {
        Reply::Killed(Some(s)) => assert_eq!(s, &vec![7]),
        _ => panic!("expected the killed state"),
    }
    assert!(r.is_stopped());
}

#[test]
fn router_replies_follow_the_batch() {
    let mut root: ShardedRunner<Push> = ShardedRunner::new(opts(8, MessageDropping::Forbidden), true);
    spawn(&mut root, vec![]);
    assert_eq!(root.spawn_shard(), Ok(0));
    let _ = root.begin_migration(0, 0);
    root.handle(RunnerMessage::Unlock { actor: 0 });
    let replies = root.run_batch(vec![msg(0, 1), msg(1, 2), msg(0, 3)]);
    assert_eq!(replies.len(), 3);
    match &replies[0] {
        Reply::Forward(0, RunnerMessage::Message { message, actor: 0, .. }) => assert_eq!(message.0, 1),
        _ => panic!("expected a forward"),
    }
    assert!(matches!(replies[1], Reply::Refused(RouterError::UnknownActor)));
    match &replies[2] {
        Reply::Forward(0, RunnerMessage::Message { message, .. }) => assert_eq!(message.0, 3),
        _ => panic!("expected a forward"),
    }
    assert_eq!(root.len(), 1);
}

#[test]
fn actor_ref_send_errors() {
    let a = ActorRef::new(2);
    let mut mb: Mailbox<RunnerMessage<Push>> = Mailbox::bounded(1);
    assert!(a.try_send(&mut mb, 0, Push(1)).is_ok());
    match a.try_send(&mut mb, 4, Push(2)) {
        Err(SendError::Full(RunnerMessage::Message { priority, actor, message })) => {
            assert_eq!((priority, actor, message.0), (4, 2, 2));
        }
        _ => panic!("expected Full"),
    }
    mb.close();
    assert!(matches!(a.try_send(&mut mb, 0, Push(3)), Err(SendError::Closed(_))));
}
