//! What holds of rooms whatever happens in them.

use vstd::prelude::*;

use crate::rooms::{
    ApiError, Chart, Origin, Record, RoomCommand, RoomErrorCode, RoomEventView, RoomResponseView,
    TouchFrameView,
};

use super::state::{PhaseView, RoomView, Step, ROOM_MAX_USERS};

verus! {

/// What holds of every room.
pub open spec fn sound(room: RoomView) -> bool {
    // The players in the order in which they came are the players.
    &&& forall|user: i32| #[trigger]
        room.order.contains(user) <==> room.users.contains_key(
            user,
        )
    // The host is a player.
    &&& room.host matches Some(host) ==> room.users.contains_key(
        host,
    )
    // Players play, and monitors watch.
    &&& forall|user: i32| #[trigger]
        room.users.contains_key(user) ==> room.users[user].id == user && !room.users[user].monitor
    &&& forall|user: i32| #[trigger]
        room.monitors.contains_key(user) ==> room.monitors[user].id == user
            && room.monitors[user].monitor
    // A room is live if and only if someone watches.
    &&& room.live <==> !room.monitors.dom().is_empty()
    // Who is away is still in the room.
    &&& forall|user: i32| #[trigger]
        room.absent.contains(user) ==> room.in_room(
            user,
        )
    // A game is played on a chart.
    &&& !(room.phase is SelectChart) ==> room.chart is Some
    // Rooms are finite.
    &&& room.finite()
}

/// A room that waits for no one, and still does not move on.
pub open spec fn stuck(room: RoomView) -> bool {
    !room.users.dom().is_empty() && match room.phase {
        PhaseView::SelectChart => false,
        PhaseView::WaitForReady { started, .. } => room.all_ready(started),
        PhaseView::Playing { results, aborted } => room.all_settled(results, aborted),
    }
}

/// A new room is sound, and not stuck, and no one in it is done twice.
pub proof fn fresh_is_sound(id: Seq<char>, allowed: Seq<i32>)
    ensures
        sound(RoomView::fresh(id, allowed)),
        !stuck(RoomView::fresh(id, allowed)),
        settled_once(RoomView::fresh(id, allowed)),
{
}

proof fn lemma_push_contains(s: Seq<i32>, x: i32, y: i32)
    ensures
        s.push(x).contains(y) <==> s.contains(y) || y == x,
{
    if s.contains(y) {
        let i = s.index_of(y);
        assert(s.push(x)[i] == y);
    }
    assert(s.push(x)[s.len() as int] == x);
}

pub(crate) proof fn lemma_filter_contains(s: Seq<i32>, x: i32, y: i32)
    ensures
        s.filter(super::state::other_than(x)).contains(y) <==> s.contains(y) && y != x,
    decreases s.len(),
{
    reveal(Seq::filter);
    if s.len() > 0 {
        lemma_filter_contains(s.drop_last(), x, y);
        assert(s =~= s.drop_last().push(s.last()));
        lemma_push_contains(s.drop_last(), s.last(), y);
        if s.last() != x {
            lemma_push_contains(
                s.drop_last().filter(super::state::other_than(x)),
                s.last(),
                y,
            );
        }
    }
}

/// Being stuck depends on who is in the room, and on the phase.
proof fn lemma_stuck_same(a: RoomView, b: RoomView)
    requires
        a.users == b.users,
        a.monitors == b.monitors,
        a.phase == b.phase,
    ensures
        stuck(a) == stuck(b),
{
    if let PhaseView::WaitForReady { started, .. } = a.phase {
        if a.all_ready(started) {
            assert forall|user: i32| #[trigger] b.in_room(user) implies started.contains(user) by {
                assert(a.in_room(user));
            }
        }
        if b.all_ready(started) {
            assert forall|user: i32| #[trigger] a.in_room(user) implies started.contains(user) by {
                assert(b.in_room(user));
            }
        }
    }
}

/// Being sound does not depend on the rest.
proof fn lemma_sound_same(a: RoomView, b: RoomView)
    requires
        sound(a),
        a.users == b.users,
        a.monitors == b.monitors,
        a.order == b.order,
        a.host == b.host,
        a.live == b.live,
        forall|user: i32| #[trigger]
            b.absent.contains(user) ==> a.absent.contains(user) || b.in_room(user),
        !(b.phase is SelectChart) ==> b.chart is Some,
        b.touches.dom().finite(),
        b.judges.dom().finite(),
    ensures
        sound(b),
{
    assert forall|user: i32| #[trigger] b.absent.contains(user) implies b.in_room(user) by {
        if a.absent.contains(user) {
            assert(a.in_room(user));
        }
    }
}

/// Moving on keeps a room sound, and leaves it waiting for someone.
pub proof fn advanced_is_sound(room: RoomView)
    ensures
        sound(room) ==> sound(room.advanced().room),
        !stuck(room.advanced().room),
        room.advanced().room.users == room.users,
        room.advanced().room.monitors == room.monitors,
        room.advanced().room.order == room.order,
        room.advanced().room.absent == room.absent,
{
    let next = room.advanced().room;
    if let PhaseView::Playing { results, aborted } = room.phase {
        if room.all_settled(results, aborted) {
            if let Some(old) = room.host {
                if room.cycle {
                    room.order.index_of_first_ensures(old);
                    assert(next.host matches Some(host) ==> room.order.contains(host));
                }
            }
        }
    }
    if next.phase is Playing && !next.users.dom().is_empty() && room.phase is WaitForReady {
        let user = next.users.dom().choose();
        assert(next.users.contains_key(user));
    }
}

/// Leaving takes the user, and no one else, out of the room.
pub proof fn evicted_user_is_gone(room: RoomView, user: i32, pick: Option<usize>)
    ensures
        ({
            let after = room.evicted(user, pick).room;
            &&& !after.in_room(user)
            &&& !after.order.contains(user)
            &&& !after.absent.contains(user)
            &&& !after.touches.contains_key(user)
            &&& !after.judges.contains_key(user)
            &&& !after.game_time.contains_key(user)
            &&& forall|other: i32| #[trigger]
                after.in_room(other) <==> room.in_room(other) && other != user
            &&& forall|other: i32| #[trigger]
                after.users.contains_key(other) <==> room.users.contains_key(other) && other != user
        }),
        sound(room) ==> room.evicted(user, pick).room.host != Some(user),
{
    let left = room.without(user);
    let hosted = if room.is_host(user) {
        left.with_host(user, left.drawn_player(pick)).room
    } else {
        left
    };
    let after = room.evicted(user, pick).room;
    advanced_is_sound(hosted);
    assert(after.order == left.order);
    lemma_filter_contains(room.order, user, user);
    assert(after.touches.dom().subset_of(left.touches.dom()));
    assert(after.judges.dom().subset_of(left.judges.dom()));
    assert(after.game_time.dom().subset_of(left.game_time.dom()));
    if after.host == Some(user) && sound(room) {
        evicted_is_sound(room, user, pick);
        assert(after.users.contains_key(user));
    }
}

/// Leaving keeps a room sound. What is left is not stuck.
pub proof fn evicted_is_sound(room: RoomView, user: i32, pick: Option<usize>)
    ensures
        sound(room) ==> sound(room.evicted(user, pick).room),
        !stuck(room.evicted(user, pick).room),
{
    let left = room.without(user);
    let hosted = if room.is_host(user) {
        left.with_host(user, left.drawn_player(pick)).room
    } else {
        left
    };
    advanced_is_sound(hosted);
    if sound(room) {
        assert forall|other: i32| #[trigger] hosted.order.contains(
            other,
        ) <==> hosted.users.contains_key(other) by {
            lemma_filter_contains(room.order, user, other);
            assert(room.order.contains(other) <==> room.users.contains_key(other));
        }
        if room.is_host(user) {
            if let Some(i) = pick {
                if i < left.order.len() {
                    assert(left.order.contains(left.order[i as int]));
                    assert(hosted.order.contains(left.order[i as int]));
                }
            }
        }
        assert forall|other: i32| #[trigger] hosted.absent.contains(other) implies hosted.in_room(
            other,
        ) by {
            assert(room.absent.contains(other));
        }
        if room.live {
            assert(!room.monitors.dom().is_empty());
        } else {
            assert(room.monitors.remove(user).dom() =~= room.monitors.dom().remove(user));
            assert(left.monitors.dom().is_empty()) by {
                if !left.monitors.dom().is_empty() {
                    let other = left.monitors.dom().choose();
                    assert(room.monitors.dom().contains(other));
                }
            }
        }
        assert(sound(hosted));
    }
}

/// A room closes if and only if its last player leaves.
pub proof fn room_closes_when_empty(room: RoomView, user: i32, pick: Option<usize>)
    ensures
        room.evicted(user, pick).events.contains(RoomEventView::RoomClosed { room_id: room.id })
            <==> room.evicted(user, pick).room.users.dom().is_empty(),
{
    let left = room.without(user);
    let hosted = if room.is_host(user) {
        left.with_host(user, left.drawn_player(pick))
    } else {
        Step { room: left, events: Seq::empty() }
    };
    let closed = RoomEventView::RoomClosed { room_id: room.id };
    let events = room.evicted(user, pick).events;
    advanced_is_sound(hosted.room);
    if hosted.room.users.dom().is_empty() {
        assert(events.last() == closed);
        assert(events.contains(closed));
    } else {
        let told = seq![
            RoomEventView::UserLeft { room_id: room.id, user, name: room.name_of(user) },
        ];
        assert(events =~= told + hosted.events + hosted.room.advanced().events);
        assert forall|i: int| 0 <= i < events.len() implies events[i] != closed by {
            let head = told + hosted.events;
            if i < head.len() {
                assert(events[i] == head[i]);
            } else {
                assert(events[i] == hosted.room.advanced().events[i - head.len()]);
            }
        }
    }
}

/// Where players stay and one of them is drawn, a host who leaves has a successor, who is one of
/// them.
pub proof fn host_has_successor(room: RoomView, user: i32, pick: usize)
    requires
        sound(room),
        room.is_host(user),
        pick < room.without(user).order.len(),
    ensures
        ({
            let after = room.evicted(user, Some(pick)).room;
            after.host matches Some(host) && after.users.contains_key(host) && host != user
        }),
{
    evicted_is_sound(room, user, Some(pick));
    evicted_user_is_gone(room, user, Some(pick));
    let left = room.without(user);
    let hosted = left.with_host(user, left.drawn_player(Some(pick))).room;
    assert(hosted.host is Some);
    if let PhaseView::Playing { results, aborted } = hosted.phase {
        if hosted.all_settled(results, aborted) && hosted.cycle {
            assert(hosted.order.len() > 0);
        }
    }
}

proof fn lemma_evicted_all_is_sound(room: RoomView, users: Seq<i32>, picks: Seq<Option<usize>>)
    ensures
        sound(room) ==> sound(room.evicted_all(users, picks).room),
        !stuck(room) || users.len() > 0 ==> !stuck(room.evicted_all(users, picks).room),
    decreases users.len(),
{
    if users.len() > 0 {
        lemma_evicted_all_is_sound(room, users.drop_last(), picks.drop_last());
        evicted_is_sound(
            room.evicted_all(users.drop_last(), picks.drop_last()).room,
            users.last(),
            picks.last(),
        );
    }
}

proof fn lemma_ticked_is_sound(room: RoomView, now: u64, picks: Seq<Option<usize>>)
    ensures
        sound(room) ==> sound(room.ticked(now, picks).room),
        !stuck(room) ==> !stuck(room.ticked(now, picks).room),
{
    let flushed = room.flushed().room;
    if sound(room) {
        lemma_sound_same(room, flushed);
    }
    lemma_stuck_same(room, flushed);
    match flushed.phase {
        PhaseView::WaitForReady { started, deadline: Some(deadline) } if now >= deadline => {
            let unready = flushed.not_ready(started);
            let evicted = flushed.evicted_all(unready, picks).room;
            lemma_evicted_all_is_sound(flushed, unready, picks);
            advanced_is_sound(evicted);
        },
        PhaseView::WaitForReady { started, deadline: None } => {
            let after = room.ticked(now, picks).room;
            if stuck(after) {
                assert forall|user: i32| #[trigger] flushed.in_room(
                    user,
                ) implies started.contains(user) by {
                    assert(after.in_room(user));
                }
            }
            if sound(room) {
                lemma_sound_same(flushed, after);
            }
        },
        _ => {},
    }
}

/// Whether a command creates a room that has no players and is in the middle of a game. A room
/// loses its last player only when it closes, so that no one creates it again.
pub open spec fn recreates_closed_room(room: RoomView, cmd: RoomCommand) -> bool {
    cmd is CreateRoom && room.users.dom().is_empty() && !(room.phase is SelectChart)
}

proof fn lemma_user_command_is_sound(
    room: RoomView,
    user: i32,
    cmd: RoomCommand,
    pick: Option<usize>,
)
    ensures
        sound(room) ==> sound(room.told_by_user(user, cmd, pick).room),
        !stuck(room) && !recreates_closed_room(room, cmd) ==> !stuck(
            room.told_by_user(user, cmd, pick).room,
        ),
{
    let after = room.told_by_user(user, cmd, pick).room;
    match cmd {
        RoomCommand::CreateRoom { id: _, name } => {
            if !stuck(room) && !recreates_closed_room(room, cmd) {
                lemma_created_not_stuck(room, user, name@);
            }
            if sound(room) {
                lemma_created_sound(room, user, name@);
            }
        },
        RoomCommand::JoinRoom { id: _, monitor, name } => {
            if room.join_refusal(user, monitor) is None && sound(room) {
                lemma_joined_sound(room, user, monitor, name@);
            }
        },
        RoomCommand::LeaveRoom => {
            evicted_is_sound(room, user, pick);
        },
        RoomCommand::RequestStart => {
            let waiting = RoomView {
                phase: PhaseView::WaitForReady {
                    started: Set::empty().insert(user),
                    deadline: None,
                },
                game_time: Map::empty(),
                ..room
            };
            if sound(room) && room.chart is Some {
                lemma_sound_same(room, waiting);
            }
            advanced_is_sound(waiting);
        },
        RoomCommand::Ready => {
            if let PhaseView::WaitForReady { started, deadline } = room.phase {
                let ready = RoomView {
                    phase: PhaseView::WaitForReady { started: started.insert(user), deadline },
                    ..room
                };
                if sound(room) {
                    lemma_sound_same(room, ready);
                }
                advanced_is_sound(ready);
            }
        },
        RoomCommand::CancelReady => {
            if sound(room) {
                lemma_sound_same(room, after);
            }
            if let PhaseView::WaitForReady { started, deadline } = room.phase {
                if after.phase is WaitForReady && stuck(after) {
                    assert forall|other: i32| #[trigger] room.in_room(
                        other,
                    ) implies started.contains(other) by {
                        assert(after.in_room(other));
                    }
                }
            }
        },
        RoomCommand::Abort => {
            lemma_abort_is_sound(room, user);
        },
        _ => {
            lemma_stuck_same(room, after);
            if sound(room) {
                lemma_sound_same(room, after);
            }
        },
    }
}

proof fn lemma_created_sound(room: RoomView, user: i32, name: Seq<char>)
    requires
        sound(room),
    ensures
        sound(room.created(user, name).room),
{
    let after = room.created(user, name).room;
    assert forall|other: i32| #[trigger] after.order.contains(other) <==> after.users.contains_key(
        other,
    ) by {
        lemma_push_contains(room.order, user, other);
        assert(room.order.contains(other) <==> room.users.contains_key(other));
    }
    assert forall|other: i32| #[trigger] after.absent.contains(other) implies after.in_room(
        other,
    ) by {
        assert(room.absent.contains(other));
        assert(room.in_room(other));
    }
    assert forall|other: i32| #[trigger] after.users.contains_key(other) implies after.users[other].id
        == other && !after.users[other].monitor by {
        if other != user {
            assert(room.users.contains_key(other));
        }
    }
}

proof fn lemma_joined_sound(room: RoomView, user: i32, monitor: bool, name: Seq<char>)
    requires
        sound(room),
        room.join_refusal(user, monitor) is None,
    ensures
        sound(room.joined(user, monitor, name).room),
{
    let after = room.joined(user, monitor, name).room;
    assert forall|other: i32| #[trigger] after.absent.contains(other) implies after.in_room(
        other,
    ) by {
        assert(room.absent.contains(other));
        assert(room.in_room(other));
    }
    if monitor {
        assert(after.monitors.dom().contains(user));
        assert forall|other: i32| #[trigger] after.monitors.contains_key(
            other,
        ) implies after.monitors[other].id == other && after.monitors[other].monitor by {
            if other != user {
                assert(room.monitors.contains_key(other));
            }
        }
    } else {
        assert forall|other: i32| #[trigger] after.order.contains(
            other,
        ) <==> after.users.contains_key(other) by {
            lemma_push_contains(room.order, user, other);
            assert(room.order.contains(other) <==> room.users.contains_key(other));
        }
        assert forall|other: i32| #[trigger] after.users.contains_key(
            other,
        ) implies after.users[other].id == other && !after.users[other].monitor by {
            if other != user {
                assert(room.users.contains_key(other));
            }
        }
    }
}

proof fn lemma_created_not_stuck(room: RoomView, user: i32, name: Seq<char>)
    requires
        !stuck(room),
        room.phase is SelectChart || !room.users.dom().is_empty(),
    ensures
        !stuck(room.created(user, name).room),
{
    let after = room.created(user, name).room;
    match room.phase {
        PhaseView::WaitForReady { started, .. } => {
            let other = choose|other: i32| #[trigger]
                room.in_room(other) && !started.contains(other);
            assert(after.in_room(other));
        },
        PhaseView::Playing { results, aborted } => {
            let other = choose|other: i32| #[trigger]
                room.users.contains_key(other) && !(results.contains_key(other)
                    || aborted.contains(other));
            assert(after.users.contains_key(other));
        },
        _ => {},
    }
}

proof fn lemma_abort_is_sound(room: RoomView, user: i32)
    ensures
        sound(room) ==> sound(room.with_abort(user).room),
        !stuck(room) ==> !stuck(room.with_abort(user).room),
{
    if let PhaseView::Playing { results, aborted } = room.phase {
        let settled = RoomView {
            phase: PhaseView::Playing { results, aborted: aborted.insert(user) },
            ..room.without_play_of(user)
        };
        if sound(room) {
            lemma_sound_same(room, settled);
        }
        advanced_is_sound(settled);
    }
}

proof fn lemma_fetched_is_sound(
    room: RoomView,
    user: i32,
    record_id: i32,
    record: Result<Record, ApiError>,
)
    ensures
        sound(room) ==> sound(room.fetched(user, record_id, record).room),
        !stuck(room) ==> !stuck(room.fetched(user, record_id, record).room),
{
    if room.inflight.contains_pair(user, record_id) {
        let taken = RoomView { inflight: room.inflight.remove(user), ..room };
        if sound(room) {
            lemma_sound_same(room, taken);
        }
        lemma_stuck_same(room, taken);
        lemma_abort_is_sound(taken, user);
        if let Ok(record) = record {
            if let PhaseView::Playing { results, aborted } = taken.phase {
                let settled = RoomView {
                    phase: PhaseView::Playing { results: results.insert(user, record), aborted },
                    ..taken
                };
                if sound(room) {
                    lemma_sound_same(taken, settled);
                }
                advanced_is_sound(settled);
                if results.contains_key(user) && stuck(settled) {
                    assert forall|other: i32| #[trigger] taken.users.contains_key(
                        other,
                    ) implies results.contains_key(other) || aborted.contains(other) by {
                        assert(settled.users.contains_key(other));
                    }
                }
            }
        }
    }
}

/// Every command keeps a room sound.
pub proof fn told_is_sound(
    room: RoomView,
    origin: Origin,
    cmd: RoomCommand,
    picks: Seq<Option<usize>>,
)
    requires
        sound(room),
    ensures
        sound(room.told(origin, cmd, picks).room),
{
    told_keeps(room, origin, cmd, picks);
}

/// No command leaves a room stuck: once everyone is ready the game starts, and once every player
/// has played or aborted it ends.
pub proof fn told_is_not_stuck(
    room: RoomView,
    origin: Origin,
    cmd: RoomCommand,
    picks: Seq<Option<usize>>,
)
    requires
        !stuck(room),
        !recreates_closed_room(room, cmd),
    ensures
        !stuck(room.told(origin, cmd, picks).room),
{
    told_keeps(room, origin, cmd, picks);
}

proof fn told_keeps(room: RoomView, origin: Origin, cmd: RoomCommand, picks: Seq<Option<usize>>)
    ensures
        sound(room) ==> sound(room.told(origin, cmd, picks).room),
        !stuck(room) && !recreates_closed_room(room, cmd) ==> !stuck(
            room.told(origin, cmd, picks).room,
        ),
{
    let after = room.told(origin, cmd, picks).room;
    match cmd {
        RoomCommand::Tick { now } => {
            lemma_ticked_is_sound(room, now, picks);
        },
        RoomCommand::UserDangleExpired { user_id } => {
            evicted_is_sound(room, user_id, picks[0]);
        },
        RoomCommand::RecordFetched { user_id, record_id, record } => {
            lemma_fetched_is_sound(room, user_id, record_id, record);
            if let Origin::Client { user_id: user } = origin {
                lemma_user_command_is_sound(room, user, cmd, picks[0]);
            }
        },
        RoomCommand::AdminKick { user_id } => {
            evicted_is_sound(room, user_id, picks[0]);
            if let Origin::Client { user_id: user } = origin {
                lemma_user_command_is_sound(room, user, cmd, picks[0]);
            }
        },
        RoomCommand::UserDisconnected { .. }
        | RoomCommand::UserReconnected { .. }
        | RoomCommand::GetClientState { .. }
        | RoomCommand::UpdateConfig { .. } => {
            lemma_stuck_same(room, after);
            if sound(room) {
                lemma_sound_same(room, after);
            }
        },
        _ => {
            if let Origin::Client { user_id: user } = origin {
                lemma_user_command_is_sound(room, user, cmd, picks[0]);
            }
        },
    }
}

/// Selecting a chart keeps a room sound, and leaves it no more stuck than it was.
pub proof fn selected_is_sound(
    room: RoomView,
    user: i32,
    id: i32,
    fetched: Result<Chart, ApiError>,
)
    ensures
        sound(room) ==> sound(room.selected(user, id, fetched).room),
        stuck(room) == stuck(room.selected(user, id, fetched).room),
{
    let after = room.selected(user, id, fetched).room;
    lemma_stuck_same(room, after);
    if sound(room) {
        lemma_sound_same(room, after);
    }
}

/// Whether each player who is done with the game is done in one way: there is a record, or the
/// player has aborted, but not both; and no record of one who has aborted is being fetched.
pub open spec fn settled_once(room: RoomView) -> bool {
    room.phase matches PhaseView::Playing { results, aborted } ==> {
        &&& forall|user: i32| #[trigger] results.contains_key(user) ==> !aborted.contains(user)
        &&& forall|user: i32| #[trigger] room.inflight.contains_key(user) ==> !aborted.contains(user)
    }
}

proof fn lemma_evicted_all_settled_once(
    room: RoomView,
    users: Seq<i32>,
    picks: Seq<Option<usize>>,
)
    requires
        settled_once(room),
    ensures
        settled_once(room.evicted_all(users, picks).room),
    decreases users.len(),
{
    if users.len() > 0 {
        lemma_evicted_all_settled_once(room, users.drop_last(), picks.drop_last());
    }
}

proof fn lemma_evicted_settled_once(room: RoomView, user: i32, pick: Option<usize>)
    ensures
        settled_once(room) ==> settled_once(room.evicted(user, pick).room),
{
}

proof fn lemma_user_command_settled_once(
    room: RoomView,
    user: i32,
    cmd: RoomCommand,
    pick: Option<usize>,
)
    requires
        settled_once(room),
    ensures
        settled_once(room.told_by_user(user, cmd, pick).room),
{
    match cmd {
        RoomCommand::LeaveRoom => {
            lemma_evicted_settled_once(room, user, pick);
        },
        RoomCommand::CreateRoom { id: _, name } => {
            assert(settled_once(room.created(user, name@).room));
        },
        RoomCommand::JoinRoom { id: _, monitor, name } => {
            assert(settled_once(room.joined(user, monitor, name@).room));
        },
        RoomCommand::RequestStart => {
            assert(settled_once(room.start_requested(user).room));
        },
        RoomCommand::Ready => {
            assert(settled_once(room.readied(user).room));
        },
        RoomCommand::CancelReady => {
            assert(settled_once(room.ready_cancelled(user).room));
        },
        RoomCommand::Abort => {
            assert(settled_once(room.aborted(user).room));
        },
        RoomCommand::Played { id } => {
            assert(settled_once(room.uploaded(user, id).room));
        },
        _ => {},
    }
}

proof fn lemma_fetched_settled_once(
    room: RoomView,
    user: i32,
    record_id: i32,
    record: Result<Record, ApiError>,
)
    requires
        settled_once(room),
    ensures
        settled_once(room.fetched(user, record_id, record).room),
{
}

proof fn lemma_ticked_settled_once(room: RoomView, now: u64, picks: Seq<Option<usize>>)
    requires
        settled_once(room),
    ensures
        settled_once(room.ticked(now, picks).room),
{
    let flushed = room.flushed().room;
    assert(settled_once(flushed));
    if let PhaseView::WaitForReady { started, .. } = flushed.phase {
        lemma_evicted_all_settled_once(flushed, flushed.not_ready(started), picks);
    }
}

/// No command makes a player be done with the game in two ways.
pub proof fn told_is_settled_once(
    room: RoomView,
    origin: Origin,
    cmd: RoomCommand,
    picks: Seq<Option<usize>>,
)
    requires
        settled_once(room),
    ensures
        settled_once(room.told(origin, cmd, picks).room),
{
    match cmd {
        RoomCommand::Tick { now } => {
            lemma_ticked_settled_once(room, now, picks);
        },
        RoomCommand::UserDangleExpired { user_id } => {
            lemma_evicted_settled_once(room, user_id, picks[0]);
        },
        RoomCommand::RecordFetched { user_id, record_id, record } => {
            lemma_fetched_settled_once(room, user_id, record_id, record);
        },
        RoomCommand::AdminKick { user_id } => {
            lemma_evicted_settled_once(room, user_id, picks[0]);
        },
        RoomCommand::UserDisconnected { .. }
        | RoomCommand::UserReconnected { .. }
        | RoomCommand::GetClientState { .. }
        | RoomCommand::UpdateConfig { .. }
        | RoomCommand::AdminBroadcast { .. } => {},
        _ => {
            if let Origin::Client { user_id: user } = origin {
                lemma_user_command_settled_once(room, user, cmd, picks[0]);
            }
        },
    }
}

/// A refused command changes nothing, and nothing is told of it.
pub proof fn refusal_changes_nothing(
    room: RoomView,
    origin: Origin,
    cmd: RoomCommand,
    picks: Seq<Option<usize>>,
)
    requires
        room.told(origin, cmd, picks).resp matches Some(RoomResponseView::Failure(_)),
    ensures
        room.told(origin, cmd, picks).room == room,
        room.told(origin, cmd, picks).events.len() == 0,
{
}

/// A chart that could not be fetched changes nothing, and nothing is told of it.
pub proof fn failed_fetch_of_chart_changes_nothing(
    room: RoomView,
    user: i32,
    id: i32,
    fetched: Result<Chart, ApiError>,
)
    requires
        fetched is Err,
    ensures
        room.selected(user, id, fetched).room == room,
        room.selected(user, id, fetched).events.len() == 0,
{
}

/// What only the server may do is ignored when a user asks for it.
pub proof fn system_commands_of_users_are_ignored(
    room: RoomView,
    user: i32,
    cmd: RoomCommand,
    picks: Seq<Option<usize>>,
)
    requires
        cmd is RecordFetched || cmd is AdminKick || cmd is AdminBroadcast,
    ensures
        room.told(Origin::Client { user_id: user }, cmd, picks) == room.ignored(),
{
}

/// Whether a command is one that users give.
pub open spec fn is_user_command(cmd: RoomCommand) -> bool {
    ||| cmd is CreateRoom
    ||| cmd is JoinRoom
    ||| cmd is LeaveRoom
    ||| cmd is Chat
    ||| cmd is SelectChart
    ||| cmd is RequestStart
    ||| cmd is Ready
    ||| cmd is CancelReady
    ||| cmd is Abort
    ||| cmd is Played
    ||| cmd is LockRoom
    ||| cmd is CycleRoom
    ||| cmd is Touches
    ||| cmd is Judges
}

/// What users do is ignored when no user does it.
pub proof fn user_commands_of_no_user_are_ignored(
    room: RoomView,
    cmd: RoomCommand,
    picks: Seq<Option<usize>>,
)
    requires
        is_user_command(cmd),
    ensures
        room.told(Origin::System, cmd, picks) == room.ignored(),
{
}

/// What is drawn only matters when the host has to leave.
pub proof fn draws_matter_only_for_hosts(
    room: RoomView,
    user: i32,
    pick: Option<usize>,
    other: Option<usize>,
)
    requires
        !room.is_host(user),
    ensures
        room.evicted(user, pick) == room.evicted(user, other),
{
}

proof fn lemma_evicted_users(room: RoomView, user: i32, pick: Option<usize>)
    ensures
        room.evicted(user, pick).room.users == room.users.remove(user),
{
    let left = room.without(user);
    let hosted = if room.is_host(user) {
        left.with_host(user, left.drawn_player(pick)).room
    } else {
        left
    };
    advanced_is_sound(hosted);
}

proof fn lemma_evicted_all_users(room: RoomView, users: Seq<i32>, picks: Seq<Option<usize>>)
    ensures
        room.evicted_all(users, picks).room.users.dom().subset_of(room.users.dom()),
    decreases users.len(),
{
    if users.len() > 0 {
        lemma_evicted_all_users(room, users.drop_last(), picks.drop_last());
        let before = room.evicted_all(users.drop_last(), picks.drop_last()).room;
        lemma_evicted_users(before, users.last(), picks.last());
    }
}

/// Only those who create or join a room become players in it.
pub proof fn players_come_by_joining(
    room: RoomView,
    origin: Origin,
    cmd: RoomCommand,
    picks: Seq<Option<usize>>,
)
    requires
        !(cmd is CreateRoom),
        !(cmd is JoinRoom),
    ensures
        room.told(origin, cmd, picks).room.users.dom().subset_of(room.users.dom()),
{
    match cmd {
        RoomCommand::Tick { now } => {
            let flushed = room.flushed().room;
            if let PhaseView::WaitForReady { started, deadline: Some(deadline) } = flushed.phase {
                let unready = flushed.not_ready(started);
                lemma_evicted_all_users(flushed, unready, picks);
                advanced_is_sound(flushed.evicted_all(unready, picks).room);
            }
        },
        RoomCommand::UserDangleExpired { user_id } => {
            lemma_evicted_users(room, user_id, picks[0]);
        },
        RoomCommand::AdminKick { user_id } => {
            lemma_evicted_users(room, user_id, picks[0]);
        },
        RoomCommand::LeaveRoom => {
            if let Origin::Client { user_id } = origin {
                lemma_evicted_users(room, user_id, picks[0]);
            }
        },
        RoomCommand::RequestStart => {
            if let Origin::Client { user_id } = origin {
                advanced_is_sound(
                    RoomView {
                        phase: PhaseView::WaitForReady {
                            started: Set::empty().insert(user_id),
                            deadline: None,
                        },
                        game_time: Map::empty(),
                        ..room
                    },
                );
            }
        },
        RoomCommand::Ready => {
            if let (Origin::Client { user_id }, PhaseView::WaitForReady { started, deadline }) = (
                origin,
                room.phase,
            ) {
                advanced_is_sound(
                    RoomView {
                        phase: PhaseView::WaitForReady {
                            started: started.insert(user_id),
                            deadline,
                        },
                        ..room
                    },
                );
            }
        },
        RoomCommand::Abort => {
            if let Origin::Client { user_id } = origin {
                lemma_abort_users(room, user_id);
            }
        },
        RoomCommand::RecordFetched { user_id, record_id, record } => {
            let taken = RoomView { inflight: room.inflight.remove(user_id), ..room };
            lemma_abort_users(taken, user_id);
            if let (Ok(record), PhaseView::Playing { results, aborted }) = (record, taken.phase) {
                advanced_is_sound(
                    RoomView {
                        phase: PhaseView::Playing {
                            results: results.insert(user_id, record),
                            aborted,
                        },
                        ..taken
                    },
                );
            }
        },
        _ => {},
    }
}

proof fn lemma_abort_users(room: RoomView, user: i32)
    ensures
        room.with_abort(user).room.users == room.users,
        room.with_abort(user).room.order == room.order,
{
    if let PhaseView::Playing { results, aborted } = room.phase {
        advanced_is_sound(
            RoomView {
                phase: PhaseView::Playing { results, aborted: aborted.insert(user) },
                ..room.without_play_of(user)
            },
        );
    }
}

proof fn lemma_filter_distinct(s: Seq<i32>, x: i32)
    requires
        s.no_duplicates(),
    ensures
        s.filter(super::state::other_than(x)).no_duplicates(),
    decreases s.len(),
{
    reveal(Seq::filter);
    if s.len() > 0 {
        lemma_filter_distinct(s.drop_last(), x);
        lemma_filter_contains(s.drop_last(), x, s.last());
    }
}

proof fn lemma_evicted_order(room: RoomView, user: i32, pick: Option<usize>)
    ensures
        room.evicted(user, pick).room.order == room.order.filter(super::state::other_than(user)),
{
    let left = room.without(user);
    let hosted = if room.is_host(user) {
        left.with_host(user, left.drawn_player(pick)).room
    } else {
        left
    };
    advanced_is_sound(hosted);
}

proof fn lemma_evicted_all_order(room: RoomView, users: Seq<i32>, picks: Seq<Option<usize>>)
    requires
        room.order.no_duplicates(),
    ensures
        room.evicted_all(users, picks).room.order.no_duplicates(),
    decreases users.len(),
{
    if users.len() > 0 {
        lemma_evicted_all_order(room, users.drop_last(), picks.drop_last());
        let before = room.evicted_all(users.drop_last(), picks.drop_last()).room;
        lemma_evicted_order(before, users.last(), picks.last());
        lemma_filter_distinct(before.order, users.last());
    }
}

proof fn lemma_user_command_order(
    room: RoomView,
    user: i32,
    cmd: RoomCommand,
    pick: Option<usize>,
)
    requires
        sound(room),
        room.order.no_duplicates(),
        cmd is CreateRoom ==> room.users.dom().is_empty(),
    ensures
        room.told_by_user(user, cmd, pick).room.order.no_duplicates(),
{
    match cmd {
        RoomCommand::CreateRoom { .. } => {
            assert(room.order.contains(user) <==> room.users.contains_key(user));
        },
        RoomCommand::JoinRoom { .. } => {
            assert(room.order.contains(user) <==> room.users.contains_key(user));
        },
        RoomCommand::LeaveRoom => {
            lemma_evicted_order(room, user, pick);
            lemma_filter_distinct(room.order, user);
        },
        RoomCommand::RequestStart => {
            advanced_is_sound(
                RoomView {
                    phase: PhaseView::WaitForReady {
                        started: Set::empty().insert(user),
                        deadline: None,
                    },
                    game_time: Map::empty(),
                    ..room
                },
            );
        },
        RoomCommand::Ready => {
            if let PhaseView::WaitForReady { started, deadline } = room.phase {
                advanced_is_sound(
                    RoomView {
                        phase: PhaseView::WaitForReady { started: started.insert(user), deadline },
                        ..room
                    },
                );
            }
        },
        RoomCommand::Abort => {
            lemma_abort_users(room, user);
        },
        _ => {},
    }
}

/// Every player has one place in the order of coming. (A room is created when it has none.)
pub proof fn order_has_no_duplicates(
    room: RoomView,
    origin: Origin,
    cmd: RoomCommand,
    picks: Seq<Option<usize>>,
)
    requires
        sound(room),
        room.order.no_duplicates(),
        cmd is CreateRoom ==> room.users.dom().is_empty(),
    ensures
        room.told(origin, cmd, picks).room.order.no_duplicates(),
{
    match cmd {
        RoomCommand::Tick { now } => {
            let flushed = room.flushed().room;
            if let PhaseView::WaitForReady { started, deadline: Some(deadline) } = flushed.phase {
                let unready = flushed.not_ready(started);
                lemma_evicted_all_order(flushed, unready, picks);
                advanced_is_sound(flushed.evicted_all(unready, picks).room);
            }
        },
        RoomCommand::UserDangleExpired { user_id } => {
            lemma_evicted_order(room, user_id, picks[0]);
            lemma_filter_distinct(room.order, user_id);
        },
        RoomCommand::AdminKick { user_id } => {
            lemma_evicted_order(room, user_id, picks[0]);
            lemma_filter_distinct(room.order, user_id);
        },
        RoomCommand::RecordFetched { user_id, record_id, record } => {
            let taken = RoomView { inflight: room.inflight.remove(user_id), ..room };
            lemma_abort_users(taken, user_id);
            if let (Ok(record), PhaseView::Playing { results, aborted }) = (record, taken.phase) {
                advanced_is_sound(
                    RoomView {
                        phase: PhaseView::Playing {
                            results: results.insert(user_id, record),
                            aborted,
                        },
                        ..taken
                    },
                );
            }
        },
        RoomCommand::UserDisconnected { .. }
        | RoomCommand::UserReconnected { .. }
        | RoomCommand::GetClientState { .. }
        | RoomCommand::UpdateConfig { .. }
        | RoomCommand::AdminBroadcast { .. } => {},
        _ => {
            if let Origin::Client { user_id: user } = origin {
                lemma_user_command_order(room, user, cmd, picks[0]);
            }
        },
    }
}

/// A room never has more than eight players. (It is created when it has none.)
pub proof fn capacity_is_kept(
    room: RoomView,
    origin: Origin,
    cmd: RoomCommand,
    picks: Seq<Option<usize>>,
)
    requires
        room.users.dom().finite(),
        room.users.dom().len() <= ROOM_MAX_USERS,
        cmd is CreateRoom ==> room.users.dom().is_empty(),
    ensures
        room.told(origin, cmd, picks).room.users.dom().finite(),
        room.told(origin, cmd, picks).room.users.dom().len() <= ROOM_MAX_USERS,
{
    let after = room.told(origin, cmd, picks).room;
    if cmd is CreateRoom || cmd is JoinRoom {
        if let Origin::Client { user_id } = origin {
            assert(after.users.dom() == room.users.dom() || after.users.dom()
                =~= room.users.dom().insert(user_id));
        }
    } else {
        players_come_by_joining(room, origin, cmd, picks);
        vstd::set_lib::lemma_len_subset(after.users.dom(), room.users.dom());
    }
}

/// Monitors do not take the places of players: no one is refused to watch because a room is full.
pub proof fn monitors_take_no_place(room: RoomView, user: i32)
    ensures
        room.join_refusal(user, true) matches Some((code, _)) ==> code != RoomErrorCode::RoomFull,
{
}

/// A user who joins is in the room then, and everyone else as before.
pub proof fn joining_adds_one_user(room: RoomView, user: i32, monitor: bool, name: Seq<char>)
    requires
        room.join_refusal(user, monitor) is None,
    ensures
        room.joined(user, monitor, name).room.in_room(user),
        monitor ==> room.joined(user, monitor, name).room.live,
        forall|other: i32| #[trigger]
            room.joined(user, monitor, name).room.in_room(other) <==> room.in_room(other) || other
                == user,
{
}

/// A user who is back in time keeps the place, and does not have to leave later.
pub proof fn reconnection_keeps_place(room: RoomView, user: i32, pick: Option<usize>)
    requires
        !room.absent.contains(user),
    ensures
        room.disconnected(user).reconnected(user) == room,
        room.disconnected(user).reconnected(user).dangle_expired(user, pick) == (Step {
            room,
            events: Seq::empty(),
        }),
{
    assert(room.absent.insert(user).remove(user) =~= room.absent);
    assert(room.absent.remove(user) =~= room.absent);
}

/// A user who is not back in time has to leave, whatever phase the room is in.
pub proof fn absence_ends_in_leaving(room: RoomView, user: i32, pick: Option<usize>)
    requires
        room.in_room(user),
    ensures
        !room.disconnected(user).dangle_expired(user, pick).room.in_room(user),
{
    evicted_user_is_gone(room.disconnected(user), user, pick);
}

/// A record counts at most once: what is fetched again changes nothing.
pub proof fn record_counts_once(
    room: RoomView,
    user: i32,
    record_id: i32,
    first: Result<Record, ApiError>,
    again: Result<Record, ApiError>,
)
    ensures
        ({
            let after = room.fetched(user, record_id, first).room;
            after.fetched(user, record_id, again) == (Step { room: after, events: Seq::empty() })
        }),
{
    let after = room.fetched(user, record_id, first).room;
    if room.inflight.contains_pair(user, record_id) {
        let taken = RoomView { inflight: room.inflight.remove(user), ..room };
        lemma_inflight_kept(taken, user, first);
        assert(!after.inflight.contains_key(user));
    }
}

proof fn lemma_inflight_kept(room: RoomView, user: i32, record: Result<Record, ApiError>)
    ensures
        room.without_record(user).room.inflight == room.inflight,
        record matches Ok(record) ==> room.with_record(user, record).room.inflight == room.inflight,
{
}

/// While a player's record is being fetched, the player can neither upload another nor abort.
pub proof fn upload_excludes_another(room: RoomView, user: i32, record: i32, other: i32)
    requires
        room.phase is Playing,
        room.uploaded(user, record).resp == Some(RoomResponseView::Done),
    ensures
        ({
            let after = room.uploaded(user, record).room;
            &&& after.uploaded(user, other) == after.refused(
                RoomErrorCode::AlreadyUploaded,
                "already uploaded"@,
            )
            &&& after.aborted(user) == after.refused(
                RoomErrorCode::AlreadyUploaded,
                "already uploaded"@,
            )
        }),
{
}

/// A record that could not be fetched, is someone else's or is of another chart does not count,
/// and the player who uploaded it counts as one who has aborted, unless the game is over then.
pub proof fn invalid_record_settles_player(
    room: RoomView,
    user: i32,
    record_id: i32,
    record: Result<Record, ApiError>,
)
    requires
        room.phase is Playing,
        !room.phase->results.contains_key(user),
        room.inflight.contains_pair(user, record_id),
        record matches Ok(record) ==> !room.valid_record(user, record),
    ensures
        ({
            let after = room.fetched(user, record_id, record).room;
            after.phase is SelectChart || (after.phase is Playing
                && after.phase->aborted.contains(user) && !after.phase->results.contains_key(user))
        }),
{
}

/// Right after touches with a last frame, the game time that a user is told is that frame's.
pub proof fn game_time_is_last_frame(room: RoomView, user: i32, frames: Seq<TouchFrameView>)
    requires
        frames.len() > 0,
    ensures
        room.touched(user, frames).client_room_state(user).last_game_time == frames.last().time,
{
}

/// When the host starts a game, the game times of everyone are forgotten.
pub proof fn game_time_starts_over(room: RoomView, host: i32, user: i32)
    requires
        room.start_requested(host).resp == Some(RoomResponseView::Done),
    ensures
        room.start_requested(host).room.client_room_state(user).last_game_time
            == crate::rooms::not_started(),
{
    let waiting = RoomView {
        phase: PhaseView::WaitForReady { started: Set::empty().insert(host), deadline: None },
        game_time: Map::empty(),
        ..room
    };
    assert(waiting.advanced().room.game_time =~= Map::empty());
}

/// After a tick nothing waits to be relayed.
pub proof fn tick_relays_everything(room: RoomView, now: u64, picks: Seq<Option<usize>>)
    ensures
        room.ticked(now, picks).room.touches =~= Map::empty(),
        room.ticked(now, picks).room.judges =~= Map::empty(),
{
    let flushed = room.flushed().room;
    if let PhaseView::WaitForReady { started, deadline: Some(deadline) } = flushed.phase {
        let unready = flushed.not_ready(started);
        lemma_evicted_all_relays(flushed, unready, picks);
        lemma_advanced_relays(flushed.evicted_all(unready, picks).room);
    }
}

proof fn lemma_advanced_relays(room: RoomView)
    requires
        room.touches =~= Map::empty(),
        room.judges =~= Map::empty(),
    ensures
        room.advanced().room.touches =~= Map::empty(),
        room.advanced().room.judges =~= Map::empty(),
{
}

proof fn lemma_evicted_all_relays(room: RoomView, users: Seq<i32>, picks: Seq<Option<usize>>)
    requires
        room.touches =~= Map::empty(),
        room.judges =~= Map::empty(),
    ensures
        room.evicted_all(users, picks).room.touches =~= Map::empty(),
        room.evicted_all(users, picks).room.judges =~= Map::empty(),
    decreases users.len(),
{
    if users.len() > 0 {
        lemma_evicted_all_relays(room, users.drop_last(), picks.drop_last());
        let before = room.evicted_all(users.drop_last(), picks.drop_last()).room;
        let left = before.without(users.last());
        assert(left.touches =~= Map::empty());
        assert(left.judges =~= Map::empty());
        lemma_advanced_relays(left);
        lemma_advanced_relays(
            left.with_host(users.last(), left.drawn_player(picks.last())).room,
        );
    }
}

/// Where no one watches, nothing is relayed.
pub proof fn nothing_is_relayed_unwatched(room: RoomView)
    requires
        room.monitors.dom().is_empty(),
    ensures
        room.flushed().events.len() == 0,
{
}

/// In a cycling room, the next player in the order of coming becomes the host when a game ends.
pub proof fn cycle_passes_the_host_on(room: RoomView, at: int)
    requires
        room.phase matches PhaseView::Playing { results, aborted } && room.all_settled(
            results,
            aborted,
        ),
        room.cycle,
        room.order.no_duplicates(),
        0 <= at < room.order.len(),
        room.host == Some(room.order[at]),
    ensures
        room.advanced().room.host == Some(
            room.order[if at + 1 < room.order.len() {
                at + 1
            } else {
                0
            }],
        ),
{
    let old = room.order[at];
    room.order.index_of_first_ensures(old);
    assert(room.order.contains(old));
    let index = room.order.index_of_first(old)->0;
    assert(room.order[index] == room.order[at]);
    assert(index == at);
    let len = room.order.len() as int;
    if at + 1 < len {
        assert((at + 1) % len == at + 1) by (nonlinear_arith)
            requires
                0 <= at + 1 < len,
        ;
    } else {
        assert((at + 1) % len == 0) by (nonlinear_arith)
            requires
                at + 1 == len,
                len > 0,
        ;
    }
}

/// Something that happens to a room.
#[allow(inconsistent_fields)]
pub enum Happening {
    /// A command, and what is drawn.
    Command { origin: Origin, cmd: RoomCommand, picks: Seq<Option<usize>> },
    /// A chart that was fetched, or could not be.
    Fetched { user: i32, id: i32, chart: Result<Chart, ApiError> },
}

/// A room after what happened to it.
pub open spec fn lived(room: RoomView, history: Seq<Happening>) -> RoomView
    decreases history.len(),
{
    if history.len() == 0 {
        room
    } else {
        let before = lived(room, history.drop_last());
        match history.last() {
            Happening::Command { origin, cmd, picks } => before.told(origin, cmd, picks).room,
            Happening::Fetched { user, id, chart } => before.selected(user, id, chart).room,
        }
    }
}

/// Whatever has happened to a room since it was made, it is sound, and no one in it is done twice
/// with a game.
pub proof fn every_room_is_sound(id: Seq<char>, allowed: Seq<i32>, history: Seq<Happening>)
    ensures
        sound(lived(RoomView::fresh(id, allowed), history)),
        settled_once(lived(RoomView::fresh(id, allowed), history)),
    decreases history.len(),
{
    fresh_is_sound(id, allowed);
    if history.len() > 0 {
        every_room_is_sound(id, allowed, history.drop_last());
        let before = lived(RoomView::fresh(id, allowed), history.drop_last());
        match history.last() {
            Happening::Command { origin, cmd, picks } => {
                told_is_sound(before, origin, cmd, picks);
                told_is_settled_once(before, origin, cmd, picks);
            },
            Happening::Fetched { user, id, chart } => {
                selected_is_sound(before, user, id, chart);
            },
        }
    }
}

} // verus!
