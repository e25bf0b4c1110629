//! Laws of sessions: what becomes of each thing that is known of users, and what is to be done
//! about each event.

use vstd::prelude::*;

use crate::rooms::RoomCommand;

use super::{LifecycleEvent, LifecycleStep, RegistryView, SessionProbe};

verus! {

/// A session that begins has the epoch after the last one, or the first one; the name of the user is
/// known from then on. Nothing changes for anyone else.
pub proof fn sessions_begin_one_by_one(
    registry: RegistryView,
    user: i32,
    name: Seq<char>,
    other: i32,
)
    requires
        registry.epochs.contains_key(user) ==> registry.epochs[user] < u64::MAX,
    ensures
        ({
            let after = registry.registered(user, name);
            &&& after.epochs.contains_key(user)
            &&& registry.epochs.contains_key(user) ==> after.epochs[user] == registry.epochs[user]
                + 1
            &&& !registry.epochs.contains_key(user) ==> after.epochs[user] == 1
            &&& after.names.contains_key(user) && after.names[user] == name
            &&& other != user ==> {
                &&& after.epochs.contains_key(other) == registry.epochs.contains_key(other)
                &&& after.epochs[other] == registry.epochs[other]
                &&& after.names.contains_key(other) == registry.names.contains_key(other)
                &&& after.names[other] == registry.names[other]
            }
            &&& after.probe == registry.probe
        }),
{
}

/// A session is the current one if and only if it has the last epoch of its user.
pub proof fn current_sessions_have_the_last_epoch(registry: RegistryView, user: i32, epoch: u64)
    ensures
        registry.is_current(user, epoch) <==> registry.epochs.contains_key(user)
            && registry.epochs[user] == epoch,
        registry.last_epoch(user) == if registry.epochs.contains_key(user) {
            registry.epochs[user]
        } else {
            0
        },
{
}

/// Who logs in is reported to be back. A lost connection is reported, and waited for with the epoch
/// with which it was lost; one that was waited for long enough ends in the user being made to leave,
/// and the name being forgotten. Both are for the current session only.
pub proof fn events_are_reported_to_rooms(registry: RegistryView, user: i32, epoch: u64)
    ensures
        ({
            let current = registry.epochs.contains_key(user) && registry.epochs[user] == epoch;
            &&& registry.step(LifecycleEvent::Connected { user_id: user, epoch }) == (
            LifecycleStep::Dispatch {
                user_id: user,
                cmd: RoomCommand::UserReconnected { user_id: user, epoch },
            })
            &&& registry.step(LifecycleEvent::Reconnected { user_id: user, epoch }) == (
            LifecycleStep::Dispatch {
                user_id: user,
                cmd: RoomCommand::UserReconnected { user_id: user, epoch },
            })
            &&& registry.step(LifecycleEvent::Disconnected { user_id: user, epoch }) == if current {
                LifecycleStep::DispatchAndWait {
                    user_id: user,
                    cmd: RoomCommand::UserDisconnected { user_id: user, epoch },
                    expiry: LifecycleEvent::DangleExpired { user_id: user, epoch },
                }
            } else {
                LifecycleStep::Ignore
            }
            &&& registry.step(LifecycleEvent::DangleExpired { user_id: user, epoch }) == if current {
                LifecycleStep::DispatchAndForget {
                    user_id: user,
                    cmd: RoomCommand::UserDangleExpired { user_id: user },
                }
            } else {
                LifecycleStep::Ignore
            }
        }),
{
}

/// A probe that is on counts a wait: one call more, one slow call more if the wait took more than
/// fifty microseconds, and as many nanoseconds more as it took. Each counter starts over where it is
/// full. A probe that is off counts nothing.
pub proof fn waits_are_counted(probe: SessionProbe, wait_ns: u64)
    ensures
        ({
            let after = probe.waited(wait_ns);
            let full = 0x1_0000_0000_0000_0000;
            if probe.enabled {
                &&& after.enabled
                &&& after.calls == (probe.calls + 1) % full
                &&& after.slow_50us == if wait_ns > 50_000 {
                    (probe.slow_50us + 1) % full
                } else {
                    probe.slow_50us as int
                }
                &&& after.wait_ns == (probe.wait_ns + wait_ns) % full
            } else {
                after == probe
            }
        }),
{
}

/// What is told of a probe: its counters, with the time in microseconds; nothing if it is off.
pub proof fn counts_are_told(probe: SessionProbe)
    ensures
        probe.enabled ==> (probe.counts() matches Some((calls, slow, us)) && calls == probe.calls
            && slow == probe.slow_50us && us == probe.wait_ns as int / 1000),
        !probe.enabled ==> probe.counts() is None,
{
}

/// A wait is counted where an event makes it necessary to look at the epoch of a user: where a
/// connection was lost, or was waited for long enough. It changes nothing but the probe.
pub proof fn waits_change_only_the_probe(
    registry: RegistryView,
    wait_ns: u64,
    user: i32,
    epoch: u64,
)
    ensures
        (RegistryView { probe: registry.probe, ..registry.waited(wait_ns) }) == registry,
        registry.waited(wait_ns).probe == registry.probe.waited(wait_ns),
        registry.asked(wait_ns, LifecycleEvent::Connected { user_id: user, epoch }) == registry,
        registry.asked(wait_ns, LifecycleEvent::Reconnected { user_id: user, epoch }) == registry,
        registry.asked(wait_ns, LifecycleEvent::Disconnected { user_id: user, epoch })
            == registry.waited(wait_ns),
        registry.asked(wait_ns, LifecycleEvent::DangleExpired { user_id: user, epoch })
            == registry.waited(wait_ns),
{
}

/// How often and how long the room of a user is looked for.
pub proof fn rooms_are_looked_for_three_times()
    ensures
        super::ROUTE_REPLAY_ATTEMPTS == 3,
        super::ROUTE_REPLAY_DELAY_MS == 20,
        super::SLOW_WAIT_NS == 50_000,
{
}

} // verus!
