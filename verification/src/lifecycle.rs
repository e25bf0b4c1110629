//! The sessions of users over time: who is connected, who was, and for how long a lost
//! connection is waited for.
//!
//! Each session of a user has an epoch, one higher than that of the session before. What is
//! reported of a session counts only as long as its epoch is the user's current one: an old
//! connection that dies late, or a timer that was started for an old session, changes nothing.

use std::collections::HashMap;

use vstd::prelude::*;

use crate::rooms::{RoomCommand, RoomId, RoomState};
use crate::text;

pub mod effects;
pub mod laws;

verus! {

broadcast use vstd::std_specs::hash::group_hash_axioms;

/// How often the room of a user is looked for before the user counts as being in none.
pub const ROUTE_REPLAY_ATTEMPTS: usize = 3;

/// How long to wait before the room of a user is looked for again, in milliseconds.
pub const ROUTE_REPLAY_DELAY_MS: u64 = 20;

/// The wait for a lock above which it counts as slow, in nanoseconds.
pub const SLOW_WAIT_NS: u64 = 50_000;

/// Counts how long callers wait for the lock of a registry, if it is turned on.
#[derive(Debug, Clone, Copy, PartialEq, Eq, Structural)]
pub struct SessionProbe {
    /// Whether anything is counted.
    pub enabled: bool,
    /// How often the lock was taken.
    pub calls: u64,
    /// How often this was slow.
    pub slow_50us: u64,
    /// How long callers waited, in nanoseconds.
    pub wait_ns: u64,
}

/// A sum that starts over at zero where it is too large.
pub open spec fn wrapped_sum(a: u64, b: u64) -> u64 {
    if a + b > u64::MAX {
        (a + b - 0x1_0000_0000_0000_0000) as u64
    } else {
        (a + b) as u64
    }
}

impl SessionProbe {
    /// A probe that has counted nothing.
    pub fn new(enabled: bool) -> (res: Self)
        ensures
            res == (SessionProbe { enabled, calls: 0, slow_50us: 0, wait_ns: 0 }),
    {
        SessionProbe { enabled, calls: 0, slow_50us: 0, wait_ns: 0 }
    }

    /// A probe that has counted nothing. It is turned on by the setting `1`.
    pub fn by_setting(setting: &Option<String>) -> (res: Self)
        ensures
            res == (SessionProbe {
                enabled: setting matches Some(value) && value@ == "1"@,
                calls: 0,
                slow_50us: 0,
                wait_ns: 0,
            }),
    {
        match setting {
            Some(value) => Self::new(text::same_text(value, &"1".to_owned())),
            None => Self::new(false),
        }
    }

    /// What is told of the counters: how often the lock was taken, how often this was slow, and
    /// how long callers waited, in microseconds, if this was counted.
    pub open spec fn counts(self) -> Option<(u64, u64, u64)> {
        if self.enabled {
            Some((self.calls, self.slow_50us, (self.wait_ns / 1000) as u64))
        } else {
            None
        }
    }

    /// The probe after a caller has waited.
    pub open spec fn waited(self, wait_ns: u64) -> SessionProbe {
        if self.enabled {
            SessionProbe {
                enabled: true,
                calls: wrapped_sum(self.calls, 1),
                slow_50us: if wait_ns > SLOW_WAIT_NS {
                    wrapped_sum(self.slow_50us, 1)
                } else {
                    self.slow_50us
                },
                wait_ns: wrapped_sum(self.wait_ns, wait_ns),
            }
        } else {
            self
        }
    }

    /// Counts how long a caller has waited. The counters wrap around.
    pub fn note_wait(&mut self, wait_ns: u64)
        ensures
            *final(self) == old(self).waited(wait_ns),
    {
        if self.enabled {
            self.calls = self.calls.wrapping_add(1);
            if wait_ns > SLOW_WAIT_NS {
                self.slow_50us = self.slow_50us.wrapping_add(1);
            }
            self.wait_ns = self.wait_ns.wrapping_add(wait_ns);
        }
    }

    /// How often the lock was taken, how often this was slow, and how long callers waited, in
    /// microseconds, if this was counted.
    pub fn snapshot(&self) -> (res: Option<(u64, u64, u64)>)
        ensures
            res == self.counts(),
    {
        if self.enabled {
            Some((self.calls, self.slow_50us, self.wait_ns / 1000))
        } else {
            None
        }
    }
}

/// What a registry knows of the users.
#[verifier::ext_equal]
pub struct RegistryView {
    /// The epoch of the current session of each user who ever had one.
    pub epochs: Map<i32, u64>,
    /// The names of the users, as long as they are known.
    pub names: Map<i32, Seq<char>>,
    /// The probe.
    pub probe: SessionProbe,
}

impl RegistryView {
    /// The epoch of the last session of a user; the first one has epoch 1.
    pub open spec fn last_epoch(self, user: i32) -> u64 {
        if self.epochs.contains_key(user) {
            self.epochs[user]
        } else {
            0
        }
    }

    /// The registry after a user has begun a session.
    pub open spec fn registered(self, user: i32, name: Seq<char>) -> RegistryView {
        RegistryView {
            epochs: self.epochs.insert(user, (self.last_epoch(user) + 1) as u64),
            names: self.names.insert(user, name),
            ..self
        }
    }

    /// The registry after a caller has waited for its lock.
    pub open spec fn waited(self, wait_ns: u64) -> RegistryView {
        RegistryView { probe: self.probe.waited(wait_ns), ..self }
    }

    /// The registry after it was asked what is to be done about an event.
    pub open spec fn asked(self, wait_ns: u64, event: LifecycleEvent) -> RegistryView {
        if event.asks_for_epoch() {
            self.waited(wait_ns)
        } else {
            self
        }
    }

    /// Whether this is the epoch of the current session of a user.
    pub open spec fn is_current(self, user: i32, epoch: u64) -> bool {
        self.epochs.contains_pair(user, epoch)
    }

    /// What is to be done about an event.
    pub open spec fn step(self, event: LifecycleEvent) -> LifecycleStep {
        match event {
            LifecycleEvent::Connected { user_id, epoch }
            | LifecycleEvent::Reconnected { user_id, epoch } => LifecycleStep::Dispatch {
                user_id,
                cmd: RoomCommand::UserReconnected { user_id, epoch },
            },
            LifecycleEvent::Disconnected { user_id, epoch } => if self.is_current(user_id, epoch) {
                LifecycleStep::DispatchAndWait {
                    user_id,
                    cmd: RoomCommand::UserDisconnected { user_id, epoch },
                    expiry: LifecycleEvent::DangleExpired { user_id, epoch },
                }
            } else {
                LifecycleStep::Ignore
            },
            LifecycleEvent::DangleExpired { user_id, epoch } => if self.is_current(
                user_id,
                epoch,
            ) {
                LifecycleStep::DispatchAndForget {
                    user_id,
                    cmd: RoomCommand::UserDangleExpired { user_id },
                }
            } else {
                LifecycleStep::Ignore
            },
        }
    }
}

/// Knows the current session and the name of each user.
///
/// Epochs are never removed, so that they never fall back. Names are removed once a user is gone:
/// a user who comes back brings the name along.
pub struct SessionRegistry {
    epochs: HashMap<i32, u64>,
    names: HashMap<i32, String>,
    probe: SessionProbe,
}

impl View for SessionRegistry {
    type V = RegistryView;

    closed spec fn view(&self) -> RegistryView {
        RegistryView {
            epochs: self.epochs@,
            names: self.names@.map_values(|name: String| name@),
            probe: self.probe,
        }
    }
}

impl SessionRegistry {
    /// A registry that knows no one.
    pub fn new() -> (res: Self)
        ensures
            res@ == (RegistryView {
                epochs: Map::empty(),
                names: Map::empty(),
                probe: SessionProbe { enabled: false, calls: 0, slow_50us: 0, wait_ns: 0 },
            }),
    {
        Self::with_probe(SessionProbe::new(false))
    }

    /// A registry that knows no one, with a probe.
    pub fn with_probe(probe: SessionProbe) -> (res: Self)
        ensures
            res@ == (RegistryView { epochs: Map::empty(), names: Map::empty(), probe }),
    {
        let res = SessionRegistry { epochs: HashMap::new(), names: HashMap::new(), probe };
        assert(res@.epochs =~= Map::empty());
        assert(res@.names =~= Map::empty());
        res
    }

    /// A user has logged in: a session begins, with a new epoch. The session before, if there was
    /// one, is no longer the current one.
    pub fn register(&mut self, user_id: i32, name: String) -> (epoch: u64)
        requires
            old(self)@.last_epoch(user_id) < u64::MAX,
        ensures
            final(self)@ == old(self)@.registered(user_id, name@),
            epoch == old(self)@.last_epoch(user_id) + 1,
    {
        let last: u64 = match self.epochs.get(&user_id) {
            Some(epoch) => *epoch,
            None => 0,
        };
        let epoch: u64 = last + 1;
        self.epochs.insert(user_id, epoch);
        self.names.insert(user_id, name);
        assert(self@.names =~= old(self)@.names.insert(user_id, name@));
        epoch
    }

    /// The epoch of the current session of a user, if the user ever had one.
    pub fn current_epoch(&self, user_id: i32) -> (res: Option<u64>)
        ensures
            res == if self@.epochs.contains_key(user_id) {
                Some(self@.epochs[user_id])
            } else {
                None
            },
    {
        match self.epochs.get(&user_id) {
            Some(epoch) => Some(*epoch),
            None => None,
        }
    }

    /// The name of a user, as long as it is known.
    pub fn name_of(&self, user_id: i32) -> (res: Option<String>)
        ensures
            match res {
                Some(name) => self@.names.contains_pair(user_id, name@),
                None => !self@.names.contains_key(user_id),
            },
    {
        match self.names.get(&user_id) {
            Some(name) => Some(name.clone()),
            None => None,
        }
    }

    /// Whether this is the epoch of the current session of a user.
    pub fn is_current(&self, user_id: i32, epoch: u64) -> (res: bool)
        ensures
            res == self@.is_current(user_id, epoch),
    {
        match self.current_epoch(user_id) {
            Some(current) => current == epoch,
            None => false,
        }
    }

    /// Forgets the name of a user who is gone. The epoch stays.
    pub fn evict_name(&mut self, user_id: i32)
        ensures
            final(self)@ == (RegistryView {
                names: old(self)@.names.remove(user_id),
                ..old(self)@
            }),
    {
        self.names.remove(&user_id);
        assert(self@.names =~= old(self)@.names.remove(user_id));
    }

    /// Counts how long a caller has waited for the lock of this registry.
    pub fn note_wait(&mut self, wait_ns: u64)
        ensures
            final(self)@ == old(self)@.waited(wait_ns),
    {
        self.probe.note_wait(wait_ns);
    }

    /// Begins a session for a caller who has waited for the lock of this registry.
    pub fn register_timed(&mut self, wait_ns: u64, user_id: i32, name: String) -> (epoch: u64)
        requires
            old(self)@.last_epoch(user_id) < u64::MAX,
        ensures
            final(self)@ == old(self)@.waited(wait_ns).registered(user_id, name@),
            epoch == old(self)@.last_epoch(user_id) + 1,
    {
        self.note_wait(wait_ns);
        self.register(user_id, name)
    }

    /// The epoch of the current session of a user, if the user ever had one, for a caller who has
    /// waited for the lock of this registry.
    pub fn current_epoch_timed(&mut self, wait_ns: u64, user_id: i32) -> (res: Option<u64>)
        ensures
            final(self)@ == old(self)@.waited(wait_ns),
            res == if old(self)@.epochs.contains_key(user_id) {
                Some(old(self)@.epochs[user_id])
            } else {
                None
            },
    {
        self.note_wait(wait_ns);
        self.current_epoch(user_id)
    }

    /// What is to be done about an event, for a caller who has waited for the lock of this
    /// registry. The wait counts where the epoch of the user is looked at.
    pub fn plan_timed(&mut self, wait_ns: u64, event: LifecycleEvent) -> (res: LifecycleStep)
        ensures
            final(self)@ == old(self)@.asked(wait_ns, event),
            res == old(self)@.step(event),
    {
        match event {
            LifecycleEvent::Disconnected { .. } | LifecycleEvent::DangleExpired { .. } => {
                self.note_wait(wait_ns);
            },
            _ => {},
        }
        self.plan(event)
    }

    /// How often the lock was taken, how often this was slow, and how long callers waited, in
    /// microseconds, if this was counted.
    pub fn probe_snapshot(&self) -> (res: Option<(u64, u64, u64)>)
        ensures
            res == self@.probe.counts(),
    {
        self.probe.snapshot()
    }

    /// What is to be done about an event. What is reported of an old session is ignored.
    pub fn plan(&self, event: LifecycleEvent) -> (res: LifecycleStep)
        ensures
            res == self@.step(event),
    {
        match event {
            LifecycleEvent::Connected { user_id, epoch }
            | LifecycleEvent::Reconnected { user_id, epoch } => LifecycleStep::Dispatch {
                user_id,
                cmd: RoomCommand::UserReconnected { user_id, epoch },
            },
            LifecycleEvent::Disconnected { user_id, epoch } => {
                if !self.is_current(user_id, epoch) {
                    return LifecycleStep::Ignore;
                }
                LifecycleStep::DispatchAndWait {
                    user_id,
                    cmd: RoomCommand::UserDisconnected { user_id, epoch },
                    expiry: LifecycleEvent::DangleExpired { user_id, epoch },
                }
            },
            LifecycleEvent::DangleExpired { user_id, epoch } => {
                if !self.is_current(user_id, epoch) {
                    return LifecycleStep::Ignore;
                }
                LifecycleStep::DispatchAndForget {
                    user_id,
                    cmd: RoomCommand::UserDangleExpired { user_id },
                }
            },
        }
    }
}

/// Something that happened to a session.
#[allow(inconsistent_fields)]
#[derive(Debug, Clone, Copy, PartialEq, Eq, Structural)]
pub enum LifecycleEvent {
    /// A user has logged in. The epoch is the one that [`SessionRegistry::register`] gave.
    Connected {
        /// The user.
        user_id: i32,
        /// The epoch of the session.
        epoch: u64,
    },
    /// The connection was lost.
    Disconnected {
        /// The user.
        user_id: i32,
        /// The epoch of the session.
        epoch: u64,
    },
    /// A user has logged in again.
    Reconnected {
        /// The user.
        user_id: i32,
        /// The epoch of the session.
        epoch: u64,
    },
    /// A lost connection was waited for long enough. Only the timer that was started for the
    /// session reports this.
    DangleExpired {
        /// The user.
        user_id: i32,
        /// The epoch of the session.
        epoch: u64,
    },
}

impl LifecycleEvent {
    /// Whether the current epoch of the user decides what is to be done about an event.
    pub open spec fn asks_for_epoch(self) -> bool {
        self is Disconnected || self is DangleExpired
    }
}

/// What is to be done about an event.
#[allow(inconsistent_fields)]
#[derive(Debug, PartialEq)]
pub enum LifecycleStep {
    /// Nothing.
    Ignore,
    /// Tell the room of the user.
    Dispatch {
        /// The user.
        user_id: i32,
        /// What the room is told.
        cmd: RoomCommand,
    },
    /// Tell the room of the user, and start a timer.
    DispatchAndWait {
        /// The user.
        user_id: i32,
        /// What the room is told.
        cmd: RoomCommand,
        /// What the timer reports in the end.
        expiry: LifecycleEvent,
    },
    /// Tell the room of the user, and forget the name of the user.
    DispatchAndForget {
        /// The user.
        user_id: i32,
        /// What the room is told.
        cmd: RoomCommand,
    },
}

/// How long a lost connection of a user is waited for, by the state of the user's room: `playing`
/// during a game, `usual` otherwise.
pub fn window_for<T>(state: Option<RoomState>, usual: T, playing: T) -> (res: T)
    ensures
        res == if state == Some(RoomState::Playing) {
            playing
        } else {
            usual
        },
{
    match state {
        Some(RoomState::Playing) => playing,
        _ => usual,
    }
}

/// What is to be done after the room of a user was looked for.
#[derive(Debug, PartialEq, Eq)]
pub enum LookupStep {
    /// The user is in this room.
    Found(RoomId),
    /// Wait for [`ROUTE_REPLAY_DELAY_MS`], and look again.
    Again,
    /// The user is in no room.
    GiveUp,
}

/// What is to be done after the room of a user was looked for. A user who has just joined a room
/// may not be found at once.
pub fn after_lookup(attempt: usize, room: Option<RoomId>) -> (res: LookupStep)
    ensures
        res == match room {
            Some(room) => LookupStep::Found(room),
            None => if attempt + 1 < ROUTE_REPLAY_ATTEMPTS {
                LookupStep::Again
            } else {
                LookupStep::GiveUp
            },
        },
{
    match room {
        Some(room) => LookupStep::Found(room),
        None => if attempt < ROUTE_REPLAY_ATTEMPTS - 1 {
            LookupStep::Again
        } else {
            LookupStep::GiveUp
        },
    }
}

} // verus!
