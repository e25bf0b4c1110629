//! What holds of sessions whatever becomes of them.

use vstd::prelude::*;

use super::{LifecycleEvent, LifecycleStep, RegistryView, SessionProbe};

verus! {

/// Epochs grow: the new session of a user has a higher epoch than any before, and the sessions of
/// other users stay as they are.
pub proof fn epochs_grow(registry: RegistryView, user: i32, name: Seq<char>, other: i32)
    requires
        registry.last_epoch(user) < u64::MAX,
    ensures
        ({
            let after = registry.registered(user, name);
            &&& after.last_epoch(user) == registry.last_epoch(user) + 1
            &&& other != user ==> after.last_epoch(other) == registry.last_epoch(other)
            &&& after.last_epoch(other) >= registry.last_epoch(other)
        }),
{
}

/// The session that a user has begun is the user's current session, and no other is.
pub proof fn one_session_is_current(
    registry: RegistryView,
    user: i32,
    name: Seq<char>,
    epoch: u64,
)
    requires
        registry.last_epoch(user) < u64::MAX,
    ensures
        registry.registered(user, name).is_current(user, epoch) <==> epoch == registry.last_epoch(
            user,
        ) + 1,
{
}

/// What is reported of an old session, or of one that never was, changes nothing.
pub proof fn old_sessions_are_ignored(registry: RegistryView, user: i32, epoch: u64)
    requires
        !registry.is_current(user, epoch),
    ensures
        registry.step(LifecycleEvent::Disconnected { user_id: user, epoch })
            == LifecycleStep::Ignore,
        registry.step(LifecycleEvent::DangleExpired { user_id: user, epoch })
            == LifecycleStep::Ignore,
{
}

/// A user who has come back is not made to leave by the timer of the lost session.
pub proof fn coming_back_stops_the_timer(
    registry: RegistryView,
    user: i32,
    name: Seq<char>,
    epoch: u64,
)
    requires
        registry.is_current(user, epoch),
        epoch < u64::MAX,
    ensures
        registry.registered(user, name).step(
            LifecycleEvent::DangleExpired { user_id: user, epoch },
        ) == LifecycleStep::Ignore,
{
}

/// The timer of a lost session ends in the user being made to leave, if the user does not come
/// back: what the timer reports is acted upon.
pub proof fn staying_away_ends_in_leaving(registry: RegistryView, user: i32, epoch: u64)
    requires
        registry.is_current(user, epoch),
    ensures
        registry.step(LifecycleEvent::Disconnected { user_id: user, epoch }) matches
            LifecycleStep::DispatchAndWait { user_id, expiry, .. } && user_id == user
            && registry.step(expiry) is DispatchAndForget,
{
}

/// Something that is done to a registry.
#[allow(inconsistent_fields)]
pub enum Change {
    /// A user begins a session.
    Register { user: i32, name: Seq<char> },
    /// The name of a user is forgotten.
    Evict { user: i32 },
}

/// The registry after some changes.
pub open spec fn changed(registry: RegistryView, changes: Seq<Change>) -> RegistryView
    decreases changes.len(),
{
    if changes.len() == 0 {
        registry
    } else {
        let before = changed(registry, changes.drop_last());
        match changes.last() {
            Change::Register { user, name } => before.registered(user, name),
            Change::Evict { user } => RegistryView {
                names: before.names.remove(user),
                ..before
            },
        }
    }
}

/// Whether no epoch is used up on the way.
pub open spec fn within_bounds(registry: RegistryView, changes: Seq<Change>) -> bool {
    forall|i: int|
        0 <= i < changes.len() ==> match #[trigger] changes[i] {
            Change::Register { user, .. } => changed(registry, changes.take(i)).last_epoch(user)
                < u64::MAX,
            Change::Evict { .. } => true,
        }
}

/// An epoch that was passed never comes back, whatever happens: a connection that was replaced
/// stays replaced, though the name of its user may have been forgotten in between.
pub proof fn old_epochs_stay_old(
    registry: RegistryView,
    changes: Seq<Change>,
    user: i32,
    epoch: u64,
)
    requires
        within_bounds(registry, changes),
        epoch < registry.last_epoch(user),
    ensures
        registry.last_epoch(user) <= changed(registry, changes).last_epoch(user),
        !changed(registry, changes).is_current(user, epoch),
    decreases changes.len(),
{
    if changes.len() > 0 {
        let before = changes.drop_last();
        assert forall|i: int| 0 <= i < before.len() implies match #[trigger] before[i] {
            Change::Register { user, .. } => changed(registry, before.take(i)).last_epoch(user)
                < u64::MAX,
            Change::Evict { .. } => true,
        } by {
            assert(before[i] == changes[i]);
            assert(before.take(i) =~= changes.take(i));
        }
        old_epochs_stay_old(registry, before, user, epoch);
        assert(changes.take(changes.len() - 1) =~= before);
        assert(changes[changes.len() - 1] == changes.last());
    }
}

/// A call of a registry by a caller who has waited for its lock.
#[allow(inconsistent_fields)]
pub enum Call {
    /// A user begins a session.
    Register { wait_ns: u64, user: i32, name: Seq<char> },
    /// The current epoch of a user is asked for.
    CurrentEpoch { wait_ns: u64, user: i32 },
    /// It is asked what is to be done about an event.
    Plan { wait_ns: u64, event: LifecycleEvent },
    /// The name of a user is forgotten.
    Evict { user: i32 },
}

impl Call {
    /// How long the caller has waited, where the epochs are looked at.
    pub open spec fn wait(self) -> Option<u64> {
        match self {
            Call::Register { wait_ns, .. } => Some(wait_ns),
            Call::CurrentEpoch { wait_ns, .. } => Some(wait_ns),
            Call::Plan { wait_ns, event } => if event.asks_for_epoch() {
                Some(wait_ns)
            } else {
                None
            },
            Call::Evict { .. } => None,
        }
    }
}

/// The registry after some calls.
pub open spec fn called(registry: RegistryView, calls: Seq<Call>) -> RegistryView
    decreases calls.len(),
{
    if calls.len() == 0 {
        registry
    } else {
        let before = called(registry, calls.drop_last());
        match calls.last() {
            Call::Register { wait_ns, user, name } => before.waited(wait_ns).registered(user, name),
            Call::CurrentEpoch { wait_ns, user: _ } => before.waited(wait_ns),
            Call::Plan { wait_ns, event } => before.asked(wait_ns, event),
            Call::Evict { user } => RegistryView { names: before.names.remove(user), ..before },
        }
    }
}

/// How many of some calls looked at the epochs.
pub open spec fn looks(calls: Seq<Call>) -> nat
    decreases calls.len(),
{
    if calls.len() == 0 {
        0
    } else {
        looks(calls.drop_last()) + if calls.last().wait() is Some {
            1nat
        } else {
            0nat
        }
    }
}

/// How many of some calls looked at the epochs after a slow wait.
pub open spec fn slow_looks(calls: Seq<Call>) -> nat
    decreases calls.len(),
{
    if calls.len() == 0 {
        0
    } else {
        slow_looks(calls.drop_last()) + if calls.last().wait() matches Some(wait) && wait
            > super::SLOW_WAIT_NS {
            1nat
        } else {
            0nat
        }
    }
}

/// A probe that is on counts each call that looks at the epochs of users, a session that begins
/// among them, and each slow one of these; there are no more slow ones than calls. A probe that is
/// off tells nothing. A counter holds 64 bits.
pub proof fn probe_counts_calls(registry: RegistryView, enabled: bool, calls: Seq<Call>)
    requires
        registry.probe == (SessionProbe { enabled, calls: 0, slow_50us: 0, wait_ns: 0 }),
        looks(calls) <= u64::MAX,
    ensures
        match called(registry, calls).probe.counts() {
            Some((n, slow, _)) => enabled && n == looks(calls) && slow == slow_looks(calls) && slow
                <= n,
            None => !enabled,
        },
    decreases calls.len(),
{
    if calls.len() > 0 {
        probe_counts_calls(registry, enabled, calls.drop_last());
        assert(called(registry, calls.drop_last()).probe.enabled == enabled);
    }
}

} // verus!
