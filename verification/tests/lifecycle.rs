//! The sessions of users over time.

use std::collections::VecDeque;

use phira_mp::lifecycle::{
    after_lookup, LifecycleEvent, LifecycleStep, LookupStep, SessionProbe, SessionRegistry,
    ROUTE_REPLAY_ATTEMPTS,
};
use phira_mp::rooms::{RoomCommand, RoomId};
use phira_mp::session::{LifecycleFact, SessionHandle};

fn rid() -> RoomId {
    RoomId::new("test".to_owned()).unwrap()
}

/// A server with one room, in which user 1 is.
struct Server {
    registry: SessionRegistry,
    queue: VecDeque<LifecycleEvent>,
    timers: Vec<LifecycleEvent>,
    received: Vec<RoomCommand>,
}

impl Server {
    fn new() -> Self {
        Server {
            registry: SessionRegistry::new(),
            queue: VecDeque::new(),
            timers: Vec::new(),
            received: Vec::new(),
        }
    }

    fn send(&mut self, event: LifecycleEvent) {
        self.queue.push_back(event);
    }

    fn dispatch(&mut self, user_id: i32, cmd: RoomCommand) {
        for attempt in 0..ROUTE_REPLAY_ATTEMPTS {
            let room = if user_id == 1 { Some(rid()) } else { None };
            match after_lookup(attempt, room) {
                LookupStep::Found(room) => {
                    assert_eq!(room, rid());
                    self.received.push(cmd);
                    return;
                }
                LookupStep::Again => {}
                LookupStep::GiveUp => return,
            }
        }
    }

    fn run(&mut self) {
        while let Some(event) = self.queue.pop_front() {
            match self.registry.plan(event) {
                LifecycleStep::Ignore => {}
                LifecycleStep::Dispatch { user_id, cmd } => self.dispatch(user_id, cmd),
                LifecycleStep::DispatchAndWait {
                    user_id,
                    cmd,
                    expiry,
                } => {
                    self.dispatch(user_id, cmd);
                    self.timers.push(expiry);
                }
                LifecycleStep::DispatchAndForget { user_id, cmd } => {
                    self.dispatch(user_id, cmd);
                    self.registry.evict_name(user_id);
                }
            }
        }
    }

    /// The timers that were started run out.
    fn expire(&mut self) {
        let timers = std::mem::take(&mut self.timers);
        self.queue.extend(timers);
        self.run();
    }
}

fn connected(epoch: u64) -> LifecycleEvent {
    LifecycleEvent::Connected { user_id: 1, epoch }
}

fn disconnected(epoch: u64) -> LifecycleEvent {
    LifecycleEvent::Disconnected { user_id: 1, epoch }
}

#[test]
fn disconnect_dispatches_to_room() {
    let mut server = Server::new();
    let e1 = server.registry.register(1, "u1".to_owned());
    server.send(connected(e1));
    server.send(disconnected(e1));
    server.run();
    assert!(server
        .received
        .iter()
        .any(|c| matches!(c, RoomCommand::UserDisconnected { user_id: 1, .. })));
}

#[test]
fn reconnect_within_window_preserves_seat() {
    let mut server = Server::new();
    let e1 = server.registry.register(1, "u1".to_owned());
    server.send(connected(e1));
    server.send(disconnected(e1));
    server.run();
    let e2 = server.registry.register(1, "u1".to_owned());
    assert_eq!(e2, 2);
    server.send(connected(e2));
    server.run();
    assert!(server.received.iter().any(|c| matches!(
        c,
        RoomCommand::UserReconnected {
            user_id: 1,
            epoch: 2,
            ..
        }
    )));
}

#[test]
fn dangle_expired_after_window() {
    let mut server = Server::new();
    let e1 = server.registry.register(1, "u1".to_owned());
    server.send(connected(e1));
    server.send(disconnected(e1));
    server.run();
    server.expire();
    assert!(server
        .received
        .iter()
        .any(|c| matches!(c, RoomCommand::UserDangleExpired { user_id: 1 })));
    assert_eq!(server.registry.name_of(1), None);
}

#[test]
fn stale_disconnect_ignored_after_reconnect() {
    let mut server = Server::new();
    let e1 = server.registry.register(1, "u1".to_owned());
    server.send(connected(e1));
    server.send(disconnected(e1));
    let e2 = server.registry.register(1, "u1".to_owned());
    server.send(connected(e2));
    server.send(disconnected(e1));
    server.run();
    server.expire();
    assert!(!server.received.iter().any(|c| matches!(
        c,
        RoomCommand::UserDisconnected {
            user_id: 1,
            epoch: 1
        }
    )));
    assert!(!server
        .received
        .iter()
        .any(|c| matches!(c, RoomCommand::UserDangleExpired { user_id: 1 })));
}

#[test]
fn timer_of_a_lost_session_is_ignored_after_coming_back() {
    let mut server = Server::new();
    let e1 = server.registry.register(1, "u1".to_owned());
    server.send(disconnected(e1));
    server.run();
    assert_eq!(
        server.timers,
        vec![LifecycleEvent::DangleExpired {
            user_id: 1,
            epoch: 1
        }]
    );
    server.registry.register(1, "u1".to_owned());
    server.expire();
    assert_eq!(
        server.received,
        vec![RoomCommand::UserDisconnected {
            user_id: 1,
            epoch: 1
        }]
    );
    assert_eq!(server.registry.name_of(1).as_deref(), Some("u1"));
}

#[test]
fn registry_epoch_sequence() {
    let mut registry = SessionRegistry::new();
    assert_eq!(registry.register(1, "u1".to_owned()), 1);
    assert_eq!(registry.register(1, "u1".to_owned()), 2);
    assert_eq!(registry.register(2, "u2".to_owned()), 1);
    assert_eq!(registry.register(1, "u1".to_owned()), 3);
}

#[test]
fn explicit_reconnected_fact() {
    let mut server = Server::new();
    let e1 = server.registry.register(1, "u1".to_owned());
    server.send(connected(e1));
    server.send(LifecycleEvent::Reconnected {
        user_id: 1,
        epoch: e1,
    });
    server.run();
    assert!(server.received.iter().any(|c| matches!(
        c,
        RoomCommand::UserReconnected {
            user_id: 1,
            epoch: 1,
            ..
        }
    )));
    assert_eq!(server.received.len(), 2);
}

#[test]
fn register_keeps_name() {
    let mut registry = SessionRegistry::new();
    let e1 = registry.register(1, "alice".to_owned());
    assert_eq!(e1, 1);
    assert_eq!(registry.name_of(1).as_deref(), Some("alice"));
    let e2 = registry.register(1, "alice2".to_owned());
    assert_eq!(e2, 2);
    assert_eq!(registry.name_of(1).as_deref(), Some("alice2"));
    assert_eq!(registry.name_of(99), None);
}

#[test]
fn evict_name_keeps_monotonic_epoch() {
    let mut registry = SessionRegistry::new();
    let e1 = registry.register(1, "alice".to_owned());
    assert_eq!(e1, 1);
    assert_eq!(registry.name_of(1).as_deref(), Some("alice"));
    registry.evict_name(1);
    assert_eq!(registry.name_of(1), None);
    assert_eq!(registry.current_epoch(1), Some(1));
    let e2 = registry.register(1, "alice2".to_owned());
    assert_eq!(e2, 2);
    assert_eq!(registry.name_of(1).as_deref(), Some("alice2"));
    assert_eq!(registry.current_epoch(1), Some(2));
}

#[test]
fn replay_gives_up_when_user_never_in_room() {
    let mut server = Server::new();
    let e3 = server.registry.register(3, "u3".to_owned());
    server.send(LifecycleEvent::Disconnected {
        user_id: 3,
        epoch: e3,
    });
    server.run();
    assert!(!server
        .received
        .iter()
        .any(|c| matches!(c, RoomCommand::UserDisconnected { user_id: 3, .. })));
}

#[test]
fn rooms_are_looked_for_three_times() {
    assert_eq!(after_lookup(0, None), LookupStep::Again);
    assert_eq!(after_lookup(1, None), LookupStep::Again);
    assert_eq!(after_lookup(2, None), LookupStep::GiveUp);
    assert_eq!(after_lookup(2, Some(rid())), LookupStep::Found(rid()));
}

#[test]
fn epochs_are_current_or_not() {
    let mut registry = SessionRegistry::new();
    assert_eq!(registry.current_epoch(1), None);
    assert!(!registry.is_current(1, 0));
    registry.register(1, "u1".to_owned());
    registry.register(1, "u1".to_owned());
    assert!(!registry.is_current(1, 1));
    assert!(registry.is_current(1, 2));
}

#[test]
fn probes_count_if_they_are_on() {
    let mut registry = SessionRegistry::new();
    registry.note_wait(1_000_000);
    assert_eq!(registry.probe_snapshot(), None);
    let mut registry = SessionRegistry::with_probe(SessionProbe::new(true));
    assert_eq!(registry.probe_snapshot(), Some((0, 0, 0)));
    registry.note_wait(50_000);
    registry.note_wait(50_001);
    registry.note_wait(1_999);
    assert_eq!(registry.probe_snapshot(), Some((3, 1, 102)));
    registry.note_wait(u64::MAX);
    assert_eq!(registry.probe_snapshot(), Some((4, 2, 101)));
}

#[test]
fn probes_count_the_calls_that_look_at_epochs() {
    for setting in [None, Some("0".to_owned()), Some("11".to_owned())] {
        assert_eq!(SessionProbe::by_setting(&setting), SessionProbe::new(false));
    }
    let probe = SessionProbe::by_setting(&Some("1".to_owned()));
    assert_eq!(probe, SessionProbe::new(true));
    let mut registry = SessionRegistry::with_probe(probe);
    assert_eq!(registry.register_timed(60_000, 1, "a".to_owned()), 1);
    assert_eq!(registry.current_epoch_timed(1_000, 1), Some(1));
    assert_eq!(registry.current_epoch_timed(1_000, 2), None);
    let connected = LifecycleEvent::Connected {
        user_id: 1,
        epoch: 1,
    };
    registry.plan_timed(99_000, connected);
    assert_eq!(registry.probe_snapshot(), Some((3, 1, 62)));
    let old = LifecycleEvent::Disconnected {
        user_id: 1,
        epoch: 0,
    };
    assert_eq!(registry.plan_timed(1_000, old), LifecycleStep::Ignore);
    registry.evict_name(1);
    assert_eq!(registry.probe_snapshot(), Some((4, 1, 63)));
    assert_eq!(registry.probe_snapshot(), Some((4, 1, 63)));
}

#[test]
fn handles_and_facts() {
    assert_eq!(SessionHandle::new(5).user_id, 5);
    let fact = LifecycleFact::Connected {
        user_id: 1,
        epoch: 2,
    };
    assert_ne!(
        fact,
        LifecycleFact::Disconnected {
            user_id: 1,
            epoch: 2
        }
    );
}
