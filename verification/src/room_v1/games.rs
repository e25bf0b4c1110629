//! What holds of games: how records settle players, how long users are waited for, and what is
//! relayed.

use vstd::prelude::*;

use crate::rooms::{
    ApiError, JudgeEvent, Origin, Record, RoomCommand, RoomEventView, TargetsView, TimeMs,
    TouchFrameView,
};

use super::laws::Happening;
use super::state::{PhaseView, RoomView, Step};

verus! {

/// Whether an event says that a player is done with a game.
pub open spec fn settles(event: RoomEventView) -> bool {
    event is Played || event is Abort
}

/// Whether every player but one is done with a game.
pub open spec fn others_settled(
    room: RoomView,
    user: i32,
    results: Map<i32, Record>,
    aborted: Set<i32>,
) -> bool {
    forall|other: i32| #[trigger]
        room.users.contains_key(other) && other != user ==> results.contains_key(other)
            || aborted.contains(other)
}

/// A record that was fetched for a player, or could not be, settles the player by one event: the
/// player has played if the record is valid, and has aborted otherwise. The game ends then if and
/// only if every other player is done. There is no answer, and the same again does nothing.
pub proof fn fetched_record_settles_player(
    room: RoomView,
    user: i32,
    record_id: i32,
    record: Result<Record, ApiError>,
    picks: Seq<Option<usize>>,
)
    requires
        room.phase is Playing,
        room.users.contains_key(user),
        !room.phase->results.contains_key(user),
        !room.phase->aborted.contains(user),
        room.inflight.contains_pair(user, record_id),
    ensures
        ({
            let cmd = RoomCommand::RecordFetched { user_id: user, record_id, record };
            let out = room.told(Origin::System, cmd, picks);
            let over = others_settled(room, user, room.phase->results, room.phase->aborted);
            &&& out.resp is None
            &&& out.events.len() > 0
            &&& out.events[0] == match record {
                Ok(record) if room.valid_record(user, record) => RoomEventView::Played {
                    room_id: room.id,
                    user,
                    score: record.score,
                    accuracy: record.accuracy,
                    full_combo: record.full_combo,
                },
                _ => RoomEventView::Abort { room_id: room.id, user },
            }
            &&& forall|i: int| 1 <= i < out.events.len() ==> !settles(#[trigger] out.events[i])
            &&& over ==> out.events.len() > 1 && out.events[1] == (RoomEventView::GameEnd {
                room_id: room.id,
                chart: room.chart_id(),
            }) && out.room.phase is SelectChart
            &&& !over ==> out.events.len() == 1 && out.room.phase is Playing
            &&& out.room.told(Origin::System, cmd, picks) == out.room.ignored()
        }),
{
    let cmd = RoomCommand::RecordFetched { user_id: user, record_id, record };
    let out = room.told(Origin::System, cmd, picks);
    let results = room.phase->results;
    let aborted = room.phase->aborted;
    let taken = RoomView { inflight: room.inflight.remove(user), ..room };
    let valid = record matches Ok(record) && room.valid_record(user, record);
    let settled = if valid {
        RoomView {
            phase: PhaseView::Playing { results: results.insert(user, record->Ok_0), aborted },
            ..taken
        }
    } else {
        RoomView {
            phase: PhaseView::Playing { results, aborted: aborted.insert(user) },
            ..taken.without_play_of(user)
        }
    };
    let done = settled.all_settled(settled.phase->results, settled.phase->aborted);
    assert(done == others_settled(room, user, results, aborted)) by {
        if done {
            assert forall|other: i32| #[trigger]
                room.users.contains_key(other) && other != user implies results.contains_key(other)
                || aborted.contains(other) by {
                assert(settled.users.contains_key(other));
            }
        }
    }
    assert(out.events == seq![out.events[0]] + settled.advanced().events);
    super::laws::record_counts_once(room, user, record_id, record, record);
}

/// How often the leaving of a user is told.
pub open spec fn leavings(events: Seq<RoomEventView>, user: i32) -> nat
    decreases events.len(),
{
    if events.len() == 0 {
        0
    } else {
        leavings(events.drop_last(), user) + if events.last() matches RoomEventView::UserLeft {
            user: other,
            ..
        } && other == user {
            1nat
        } else {
            0nat
        }
    }
}

proof fn lemma_leavings_concat(a: Seq<RoomEventView>, b: Seq<RoomEventView>, user: i32)
    ensures
        leavings(a + b, user) == leavings(a, user) + leavings(b, user),
    decreases b.len(),
{
    if b.len() == 0 {
        assert(a + b =~= a);
    } else {
        assert((a + b).drop_last() =~= a + b.drop_last());
        lemma_leavings_concat(a, b.drop_last(), user);
    }
}

proof fn lemma_no_leavings(events: Seq<RoomEventView>, user: i32)
    requires
        forall|i: int| 0 <= i < events.len() ==> !((#[trigger] events[i]) is UserLeft),
    ensures
        leavings(events, user) == 0,
    decreases events.len(),
{
    if events.len() > 0 {
        let front = events.drop_last();
        assert forall|i: int| 0 <= i < front.len() implies !((#[trigger] front[i]) is UserLeft) by {
            assert(front[i] == events[i]);
        }
        lemma_no_leavings(front, user);
        assert(events.last() == events[events.len() - 1]);
    }
}

/// Who leaves is told to have left once, and before anything else; no one else is told to have
/// left.
proof fn lemma_evicted_is_told(room: RoomView, user: i32, pick: Option<usize>, other: i32)
    ensures
        ({
            let events = room.evicted(user, pick).events;
            &&& events.len() > 0
            &&& events[0] == (RoomEventView::UserLeft {
                room_id: room.id,
                user,
                name: room.name_of(user),
            })
            &&& leavings(events, other) == if other == user {
                1nat
            } else {
                0nat
            }
        }),
{
    let left = room.without(user);
    let gone = seq![
        RoomEventView::UserLeft { room_id: room.id, user, name: room.name_of(user) },
    ];
    let hosted = if room.is_host(user) {
        left.with_host(user, left.drawn_player(pick))
    } else {
        Step { room: left, events: Seq::empty() }
    };
    let rest = if hosted.room.users.dom().is_empty() {
        seq![RoomEventView::RoomClosed { room_id: room.id }]
    } else {
        hosted.room.advanced().events
    };
    let events = room.evicted(user, pick).events;
    assert(events =~= gone + hosted.events + rest);
    lemma_leavings_concat(gone + hosted.events, rest, other);
    lemma_leavings_concat(gone, hosted.events, other);
    lemma_no_leavings(hosted.events, other);
    lemma_no_leavings(rest, other);
    assert(gone.drop_last() =~= Seq::empty());
    assert(leavings(gone.drop_last(), other) == 0);
    assert(events[0] == gone[0]);
}

/// A user who has lost the connection keeps the place, and nothing is told of it, whatever phase
/// the room is in. If the user is not back in time, the leaving is told once, and nothing more is
/// told later.
pub proof fn loss_is_told_at_the_end(
    room: RoomView,
    origin: Origin,
    user: i32,
    epoch: u64,
    picks: Seq<Option<usize>>,
)
    requires
        room.in_room(user),
    ensures
        ({
            let lost = room.told(
                origin,
                RoomCommand::UserDisconnected { user_id: user, epoch },
                picks,
            );
            let expired = lost.room.told(
                origin,
                RoomCommand::UserDangleExpired { user_id: user },
                picks,
            );
            &&& lost.resp is None
            &&& lost.events.len() == 0
            &&& lost.room.in_room(user)
            &&& lost.room.phase == room.phase
            &&& expired.resp is None
            &&& expired.events.len() > 0
            &&& expired.events[0] == (RoomEventView::UserLeft {
                room_id: room.id,
                user,
                name: room.name_of(user),
            })
            &&& leavings(expired.events, user) == 1
            &&& !expired.room.in_room(user)
            &&& expired.room.told(origin, RoomCommand::UserDangleExpired { user_id: user }, picks)
                == expired.room.ignored()
        }),
{
    let lost = room.disconnected(user);
    lemma_evicted_is_told(lost, user, picks[0], user);
    super::laws::evicted_user_is_gone(lost, user, picks[0]);
}

/// Whether no one both plays and watches.
pub open spec fn each_in_one_role(room: RoomView) -> bool {
    forall|user: i32| #[trigger]
        room.users.contains_key(user) ==> !room.monitors.contains_key(user)
}

proof fn lemma_evicted_roles(room: RoomView, user: i32, pick: Option<usize>)
    requires
        each_in_one_role(room),
    ensures
        each_in_one_role(room.evicted(user, pick).room),
{
    let left = room.without(user);
    let hosted = if room.is_host(user) {
        left.with_host(user, left.drawn_player(pick)).room
    } else {
        left
    };
    super::laws::advanced_is_sound(hosted);
    let after = room.evicted(user, pick).room;
    assert(after.users == left.users && after.monitors == left.monitors);
    assert forall|other: i32| #[trigger]
        after.users.contains_key(other) implies !after.monitors.contains_key(other) by {
        assert(room.users.contains_key(other));
    }
}

proof fn lemma_evicted_all_roles(room: RoomView, users: Seq<i32>, picks: Seq<Option<usize>>)
    requires
        each_in_one_role(room),
    ensures
        each_in_one_role(room.evicted_all(users, picks).room),
    decreases users.len(),
{
    if users.len() > 0 {
        lemma_evicted_all_roles(room, users.drop_last(), picks.drop_last());
        lemma_evicted_roles(
            room.evicted_all(users.drop_last(), picks.drop_last()).room,
            users.last(),
            picks.last(),
        );
    }
}

/// No one comes to both play and watch in a room, unless someone who watches in it creates it
/// again.
pub proof fn roles_are_kept(
    room: RoomView,
    origin: Origin,
    cmd: RoomCommand,
    picks: Seq<Option<usize>>,
)
    requires
        each_in_one_role(room),
        cmd is CreateRoom ==> (origin matches Origin::Client { user_id }
            ==> !room.monitors.contains_key(user_id)),
    ensures
        each_in_one_role(room.told(origin, cmd, picks).room),
{
    let after = room.told(origin, cmd, picks).room;
    match cmd {
        RoomCommand::Tick { now } => {
            let flushed = room.flushed().room;
            assert(each_in_one_role(flushed));
            if let PhaseView::WaitForReady { started, deadline: Some(deadline) } = flushed.phase {
                let unready = flushed.not_ready(started);
                lemma_evicted_all_roles(flushed, unready, picks);
                super::laws::advanced_is_sound(flushed.evicted_all(unready, picks).room);
            }
        },
        RoomCommand::UserDangleExpired { user_id } => {
            lemma_evicted_roles(room, user_id, picks[0]);
        },
        RoomCommand::AdminKick { user_id } => {
            lemma_evicted_roles(room, user_id, picks[0]);
        },
        RoomCommand::LeaveRoom => {
            if let Origin::Client { user_id } = origin {
                lemma_evicted_roles(room, user_id, picks[0]);
            }
        },
        _ => {
            assert forall|user: i32| #[trigger]
                after.users.contains_key(user) implies !after.monitors.contains_key(user) by {
                assert(room.users.contains_key(user) ==> !room.monitors.contains_key(user));
            }
        },
    }
}

/// How many of some users a user is.
pub open spec fn occurrences(users: Seq<i32>, user: i32) -> nat
    decreases users.len(),
{
    if users.len() == 0 {
        0
    } else {
        occurrences(users.drop_last(), user) + if users.last() == user {
            1nat
        } else {
            0nat
        }
    }
}

proof fn lemma_occurrences_concat(a: Seq<i32>, b: Seq<i32>, user: i32)
    ensures
        occurrences(a + b, user) == occurrences(a, user) + occurrences(b, user),
    decreases b.len(),
{
    if b.len() == 0 {
        assert(a + b =~= a);
    } else {
        assert((a + b).drop_last() =~= a + b.drop_last());
        lemma_occurrences_concat(a, b.drop_last(), user);
    }
}

proof fn lemma_occurs(users: Seq<i32>, user: i32)
    ensures
        occurrences(users, user) > 0 <==> users.contains(user),
    decreases users.len(),
{
    if users.len() > 0 {
        let front = users.drop_last();
        lemma_occurs(front, user);
        assert(users[users.len() - 1] == users.last());
        if front.contains(user) {
            let i = front.index_of(user);
            assert(users[i] == user);
        }
        if users.contains(user) && users.last() != user {
            let i = users.index_of(user);
            assert(front[i] == user);
        }
    }
}

/// In ascending order each one occurs once, and what is kept of them too.
proof fn lemma_occurs_once(users: Seq<i32>, keep: spec_fn(i32) -> bool, user: i32)
    requires
        crate::binary::map::ascending(users),
    ensures
        occurrences(users.filter(keep), user) == if users.contains(user) && keep(user) {
            1nat
        } else {
            0nat
        },
    decreases users.len(),
{
    reveal(Seq::filter);
    if users.len() > 0 {
        let front = users.drop_last();
        let last = users.last();
        assert(users[users.len() - 1] == last);
        assert forall|i: int, j: int| 0 <= i < j < front.len() implies (
        #[trigger] crate::binary::map::MapKey::rank(&front[i])) < (
        #[trigger] crate::binary::map::MapKey::rank(&front[j])) by {
            assert(front[i] == users[i] && front[j] == users[j]);
            assert(crate::binary::map::MapKey::rank(&users[i]) < crate::binary::map::MapKey::rank(
                &users[j],
            ));
        }
        lemma_occurs_once(front, keep, user);
        if front.contains(user) {
            let i = front.index_of(user);
            assert(users[i] == user);
            assert(crate::binary::map::MapKey::rank(&users[i]) < crate::binary::map::MapKey::rank(
                &users[users.len() - 1],
            ));
        }
        if users.contains(user) && last != user {
            let i = users.index_of(user);
            assert(front[i] == user);
        }
        let kept = front.filter(keep);
        assert(kept.push(last).drop_last() =~= kept);
    }
}

/// Those who are not ready are in the room, each of them once.
proof fn lemma_not_ready(room: RoomView, started: Set<i32>, user: i32)
    requires
        room.finite(),
        each_in_one_role(room),
    ensures
        occurrences(room.not_ready(started), user) == if room.in_room(user) && !started.contains(
            user,
        ) {
            1nat
        } else {
            0nat
        },
{
    let players = super::state::ids_in_order(room.users.dom());
    let watchers = super::state::ids_in_order(room.monitors.dom());
    crate::binary::map::lemma_sorted_keys(room.users.dom());
    crate::binary::map::lemma_sorted_keys(room.monitors.dom());
    lemma_occurs_once(players, super::state::outside(started), user);
    lemma_occurs_once(watchers, super::state::outside(started), user);
    lemma_occurrences_concat(
        RoomView::unready(players, started),
        RoomView::unready(watchers, started),
        user,
    );
    assert(players.to_set().contains(user) <==> players.contains(user));
    assert(watchers.to_set().contains(user) <==> watchers.contains(user));
    assert(room.users.dom().contains(user) <==> room.users.contains_key(user));
    assert(room.monitors.dom().contains(user) <==> room.monitors.contains_key(user));
}

/// Of several users who are made to leave, each is gone, and is told to have left as often as made
/// to leave.
proof fn lemma_evicted_all_are_told(
    room: RoomView,
    users: Seq<i32>,
    picks: Seq<Option<usize>>,
    user: i32,
)
    ensures
        ({
            let after = room.evicted_all(users, picks);
            &&& after.room.in_room(user) <==> room.in_room(user) && !users.contains(user)
            &&& after.room.users.contains_key(user) <==> room.users.contains_key(user)
                && !users.contains(user)
            &&& leavings(after.events, user) == occurrences(users, user)
        }),
    decreases users.len(),
{
    if users.len() > 0 {
        let front = users.drop_last();
        lemma_evicted_all_are_told(room, front, picks.drop_last(), user);
        let before = room.evicted_all(front, picks.drop_last());
        let last = before.room.evicted(users.last(), picks.last());
        lemma_evicted_is_told(before.room, users.last(), picks.last(), user);
        lemma_leavings_concat(before.events, last.events, user);
        super::laws::evicted_user_is_gone(before.room, users.last(), picks.last());
        assert(last.room.in_room(user) <==> before.room.in_room(user) && user != users.last());
        assert(last.room.users.contains_key(user) <==> before.room.users.contains_key(user) && user
            != users.last());
        lemma_occurs(users, user);
        lemma_occurs(front, user);
    } else {
        assert(!users.contains(user));
    }
}

/// A room that waits for users to get ready goes on waiting while those are made to leave who are
/// not ready, and starts to play when the last of them has left.
proof fn lemma_last_one_starts(
    room: RoomView,
    started: Set<i32>,
    users: Seq<i32>,
    rest: Seq<i32>,
    picks: Seq<Option<usize>>,
    player: i32,
)
    requires
        room.phase matches PhaseView::WaitForReady { started: ready, .. } && ready == started,
        room.users.contains_key(player),
        started.contains(player),
        forall|user: i32| #[trigger]
            (users + rest).contains(user) <==> room.in_room(user) && !started.contains(user),
        forall|user: i32| occurrences(users + rest, user) <= 1,
    ensures
        ({
            let after = room.evicted_all(users, picks);
            if rest.len() > 0 || users.len() == 0 {
                after.room.phase == room.phase
            } else {
                &&& after.room.phase == (PhaseView::Playing {
                    results: Map::empty(),
                    aborted: Set::empty(),
                })
                &&& after.events.contains(RoomEventView::StartPlaying { room_id: room.id })
            }
        }),
        room.evicted_all(users, picks).room.id == room.id,
    decreases users.len(),
{
    if users.len() > 0 {
        let front = users.drop_last();
        let more = seq![users.last()] + rest;
        assert(front + more =~= users + rest);
        lemma_last_one_starts(room, started, front, more, picks.drop_last(), player);
        let before = room.evicted_all(front, picks.drop_last());
        let last = before.room.evicted(users.last(), picks.last());
        let left = before.room.without(users.last());
        let hosted = if before.room.is_host(users.last()) {
            left.with_host(users.last(), left.drawn_player(picks.last()))
        } else {
            Step { room: left, events: Seq::empty() }
        };
        lemma_evicted_all_are_told(room, front, picks.drop_last(), player);
        assert(!users.contains(player)) by {
            if users.contains(player) {
                let i = users.index_of(player);
                assert((users + rest)[i] == player);
                assert((users + rest).contains(player));
            }
        }
        if front.contains(player) {
            let i = front.index_of(player);
            assert(users[i] == player);
        }
        assert(users[users.len() - 1] == users.last());
        assert(hosted.room.users.contains_key(player));
        assert(hosted.room.users.dom().contains(player));
        assert(hosted.room.phase == room.phase);
        if rest.len() > 0 {
            let next = rest[0];
            assert((users + rest)[users.len() as int] == next);
            assert((users + rest).contains(next));
            lemma_occurrences_concat(users, rest, next);
            assert(rest.contains(next));
            lemma_occurs(rest, next);
            lemma_occurs(users, next);
            assert(occurrences(users + rest, next) <= 1);
            assert(!users.contains(next));
            if front.contains(next) {
                let i = front.index_of(next);
                assert(users[i] == next);
            }
            lemma_evicted_all_are_told(room, front, picks.drop_last(), next);
            assert(hosted.room.in_room(next));
            assert(!hosted.room.all_ready(started));
        } else {
            assert(users + rest =~= users);
            assert forall|user: i32| #[trigger] hosted.room.in_room(user) implies started.contains(
                user,
            ) by {
                lemma_evicted_all_are_told(room, front, picks.drop_last(), user);
                assert(before.room.in_room(user) && user != users.last());
                if !started.contains(user) {
                    assert((users + rest).contains(user));
                    let i = users.index_of(user);
                    assert(front[i] == user);
                }
            }
            assert(hosted.room.all_ready(started));
            let start = RoomEventView::StartPlaying { room_id: room.id };
            let after = room.evicted_all(users, picks);
            assert(hosted.room.advanced().events == seq![start]);
            assert(last.events.last() == start);
            assert(after.events.last() == start);
            assert(after.events.contains(start));
        }
    }
}

/// When the time to get ready is over, exactly those leave who are not ready, each of them is told
/// to have left once, and no one else is. If a player is left, the game starts. There is no answer.
pub proof fn unready_users_leave_at_the_deadline(
    room: RoomView,
    origin: Origin,
    now: TimeMs,
    picks: Seq<Option<usize>>,
    user: i32,
)
    requires
        super::laws::sound(room),
        each_in_one_role(room),
        room.phase matches PhaseView::WaitForReady { deadline: Some(deadline), .. } && now
            >= deadline,
    ensures
        ({
            let out = room.told(origin, RoomCommand::Tick { now }, picks);
            let started = room.phase->started;
            &&& out.resp is None
            &&& out.room.in_room(user) <==> room.in_room(user) && started.contains(user)
            &&& leavings(out.events, user) == if room.in_room(user) && !started.contains(user) {
                1nat
            } else {
                0nat
            }
            &&& room.users.contains_key(user) && started.contains(user) ==> {
                &&& out.room.phase is Playing
                &&& out.events.contains(RoomEventView::StartPlaying { room_id: room.id })
            }
        }),
{
    let started = room.phase->started;
    let flushed = room.flushed();
    let unready = flushed.room.not_ready(started);
    let evicted = flushed.room.evicted_all(unready, picks);
    let out = room.told(origin, RoomCommand::Tick { now }, picks);
    let events = flushed.events + evicted.events;
    assert(flushed.room.finite());
    lemma_not_ready(flushed.room, started, user);
    lemma_occurs(unready, user);
    lemma_evicted_all_are_told(flushed.room, unready, picks, user);
    lemma_leavings_concat(flushed.events, evicted.events, user);
    lemma_no_leavings(flushed.events, user);
    assert(flushed.room.in_room(user) == room.in_room(user));
    super::laws::advanced_is_sound(evicted.room);
    let more = evicted.room.advanced().events;
    if evicted.room.phase is WaitForReady {
        lemma_leavings_concat(events, more, user);
        lemma_no_leavings(more, user);
    }
    if room.users.contains_key(user) && started.contains(user) {
        assert forall|other: i32| #[trigger] (unready + Seq::empty()).contains(other)
            <==> flushed.room.in_room(other) && !started.contains(other) by {
            assert(unready + Seq::empty() =~= unready);
            lemma_not_ready(flushed.room, started, other);
            lemma_occurs(unready, other);
        }
        assert forall|other: i32| occurrences(unready + Seq::empty(), other) <= 1 by {
            assert(unready + Seq::empty() =~= unready);
            lemma_not_ready(flushed.room, started, other);
        }
        lemma_last_one_starts(flushed.room, started, unready, Seq::empty(), picks, user);
        let start = RoomEventView::StartPlaying { room_id: room.id };
        if unready.len() > 0 {
            let i = evicted.events.index_of(start);
            assert(events[flushed.events.len() + i] == start);
        } else {
            assert(evicted.room == flushed.room);
            assert forall|other: i32| #[trigger] evicted.room.in_room(
                other,
            ) implies started.contains(other) by {
                lemma_not_ready(flushed.room, started, other);
                lemma_occurs(unready, other);
            }
            assert(evicted.room.all_ready(started));
            assert(out.events.last() == start);
            assert(out.events.contains(start));
        }
    }
}

/// Before the time to get ready is over, a tick makes no one leave; the first one sets when it is
/// over. There is no answer.
pub proof fn no_one_leaves_before_the_deadline(
    room: RoomView,
    origin: Origin,
    now: TimeMs,
    picks: Seq<Option<usize>>,
    user: i32,
)
    requires
        room.phase matches PhaseView::WaitForReady { deadline, .. } && (deadline matches Some(
            deadline,
        ) ==> now < deadline),
    ensures
        ({
            let out = room.told(origin, RoomCommand::Tick { now }, picks);
            &&& out.resp is None
            &&& out.room.users == room.users
            &&& out.room.monitors == room.monitors
            &&& out.room.phase == (PhaseView::WaitForReady {
                started: room.phase->started,
                deadline: match room.phase->deadline {
                    Some(deadline) => Some(deadline),
                    None => Some(super::state::ready_deadline(now)),
                },
            })
            &&& leavings(out.events, user) == 0
        }),
{
    lemma_no_leavings(room.flushed().events, user);
}

/// The time of the first tick in a history.
pub open spec fn first_tick(history: Seq<Happening>) -> Option<TimeMs>
    decreases history.len(),
{
    if history.len() == 0 {
        None
    } else {
        match first_tick(history.drop_last()) {
            Some(now) => Some(now),
            None => match history.last() {
                Happening::Command { cmd: RoomCommand::Tick { now }, .. } => Some(now),
                _ => None,
            },
        }
    }
}

/// When a room begins to wait, there is no deadline yet.
pub proof fn waiting_starts_without_deadline(
    room: RoomView,
    origin: Origin,
    cmd: RoomCommand,
    picks: Seq<Option<usize>>,
)
    requires
        !(room.phase is WaitForReady),
    ensures
        room.told(origin, cmd, picks).room.phase matches PhaseView::WaitForReady { deadline, .. }
            ==> deadline is None,
{
    match cmd {
        RoomCommand::UserDangleExpired { user_id } => {
            lemma_evicted_does_not_wait(room, user_id, picks[0]);
        },
        RoomCommand::AdminKick { user_id } => {
            lemma_evicted_does_not_wait(room, user_id, picks[0]);
        },
        RoomCommand::LeaveRoom => {
            if let Origin::Client { user_id } = origin {
                lemma_evicted_does_not_wait(room, user_id, picks[0]);
            }
        },
        _ => {},
    }
}

/// While a room waits, only the first tick sets the deadline, and nothing moves it later: it is
/// a fixed time after that tick, whatever else happens and however many ticks are lost.
pub proof fn first_tick_sets_the_deadline(room: RoomView, history: Seq<Happening>)
    requires
        room.phase matches PhaseView::WaitForReady { deadline: None, .. },
        forall|k: int|
            0 <= k <= history.len() ==> (#[trigger] super::laws::lived(
                room,
                history.take(k),
            )).phase is WaitForReady,
    ensures
        super::laws::lived(room, history).phase matches PhaseView::WaitForReady { deadline, .. }
            && deadline == match first_tick(history) {
            Some(now) => Some(super::state::ready_deadline(now)),
            None => None,
        },
    decreases history.len(),
{
    assert(history.take(history.len() as int) =~= history);
    if history.len() > 0 {
        let front = history.drop_last();
        assert forall|k: int| 0 <= k <= front.len() implies (#[trigger] super::laws::lived(
            room,
            front.take(k),
        )).phase is WaitForReady by {
            assert(front.take(k) =~= history.take(k));
        }
        first_tick_sets_the_deadline(room, front);
        let before = super::laws::lived(room, front);
        match history.last() {
            Happening::Command { origin, cmd, picks } => {
                lemma_deadline_kept(before, origin, cmd, picks);
            },
            _ => {},
        }
    }
}

proof fn lemma_evicted_waits(room: RoomView, user: i32, pick: Option<usize>)
    requires
        room.phase is WaitForReady,
    ensures
        room.evicted(user, pick).room.phase is WaitForReady ==> room.evicted(user, pick).room.phase
            == room.phase,
        !(room.evicted(user, pick).room.phase is SelectChart),
        room.evicted(user, pick).room.phase matches PhaseView::Playing { results, aborted }
            ==> results == Map::<i32, Record>::empty() && aborted == Set::<i32>::empty(),
{
}

/// A room that plays does not wait again because users are made to leave.
proof fn lemma_evicted_does_not_wait(room: RoomView, user: i32, pick: Option<usize>)
    requires
        !(room.phase is WaitForReady),
    ensures
        !(room.evicted(user, pick).room.phase is WaitForReady),
{
}

proof fn lemma_evicted_all_wait(room: RoomView, users: Seq<i32>, picks: Seq<Option<usize>>)
    requires
        room.phase is WaitForReady,
    ensures
        room.evicted_all(users, picks).room.phase is WaitForReady ==> room.evicted_all(
            users,
            picks,
        ).room.phase == room.phase,
    decreases users.len(),
{
    if users.len() > 0 {
        let before = room.evicted_all(users.drop_last(), picks.drop_last()).room;
        lemma_evicted_all_wait(room, users.drop_last(), picks.drop_last());
        if before.phase is WaitForReady {
            lemma_evicted_waits(before, users.last(), picks.last());
        } else {
            lemma_evicted_does_not_wait(before, users.last(), picks.last());
        }
    }
}

proof fn lemma_deadline_kept(
    room: RoomView,
    origin: Origin,
    cmd: RoomCommand,
    picks: Seq<Option<usize>>,
)
    requires
        room.phase is WaitForReady,
    ensures
        room.told(origin, cmd, picks).room.phase matches PhaseView::WaitForReady { deadline, .. }
            ==> deadline == match (room.phase->deadline, cmd) {
            (None, RoomCommand::Tick { now }) => Some(super::state::ready_deadline(now)),
            (deadline, _) => deadline,
        },
{
    match cmd {
        RoomCommand::Tick { now } => {
            let flushed = room.flushed().room;
            if let PhaseView::WaitForReady { started, deadline: Some(deadline) } = flushed.phase {
                lemma_evicted_all_wait(flushed, flushed.not_ready(started), picks);
            }
        },
        RoomCommand::UserDangleExpired { user_id } => {
            lemma_evicted_waits(room, user_id, picks[0]);
        },
        RoomCommand::AdminKick { user_id } => {
            lemma_evicted_waits(room, user_id, picks[0]);
        },
        RoomCommand::LeaveRoom => {
            if let Origin::Client { user_id } = origin {
                lemma_evicted_waits(room, user_id, picks[0]);
            }
        },
        _ => {},
    }
}

/// The ids of a finite set in ascending order are the ids of the set, each of them once.
proof fn lemma_ids_once(ids: Set<i32>)
    requires
        ids.finite(),
    ensures
        super::state::ids_in_order(ids).no_duplicates(),
        super::state::ids_in_order(ids).to_set() == ids,
        super::state::ids_in_order(ids).len() == ids.len(),
{
    let list = super::state::ids_in_order(ids);
    crate::binary::map::lemma_sorted_keys(ids);
    assert forall|i: int, j: int| 0 <= i < list.len() && 0 <= j < list.len() && i
        != j implies list[i] != list[j] by {
        if i < j {
            assert(crate::binary::map::MapKey::rank(&list[i]) < crate::binary::map::MapKey::rank(
                &list[j],
            ));
        } else {
            assert(crate::binary::map::MapKey::rank(&list[j]) < crate::binary::map::MapKey::rank(
                &list[i],
            ));
        }
    }
    list.unique_seq_to_set();
}

/// What waits to be relayed is relayed where someone watches: first the touches of each player of
/// whom there are some, in one event, then the judgements of each player of whom there are some,
/// in one event. It goes to those who watch, to each of them once. Where no one watches nothing is
/// relayed. Either way nothing waits to be relayed then.
pub proof fn flush_relays_each_player_once(room: RoomView)
    requires
        room.finite(),
    ensures
        ({
            let flushed = room.flushed();
            let watchers = super::state::ids_in_order(room.monitors.dom());
            let touching = super::state::ids_in_order(room.touches.dom());
            let judged = super::state::ids_in_order(room.judges.dom());
            &&& watchers.no_duplicates() && watchers.to_set() == room.monitors.dom()
            &&& touching.no_duplicates() && touching.to_set() == room.touches.dom()
            &&& judged.no_duplicates() && judged.to_set() == room.judges.dom()
            &&& flushed.room == (RoomView { touches: Map::empty(), judges: Map::empty(), ..room })
            &&& room.monitors.dom().is_empty() ==> flushed.events.len() == 0
            &&& !room.monitors.dom().is_empty() ==> {
                &&& flushed.events.len() == room.touches.dom().len() + room.judges.dom().len()
                &&& forall|i: int|
                    0 <= i < touching.len() ==> #[trigger] flushed.events[i] == (
                    RoomEventView::RelayTouches {
                        room_id: room.id,
                        targets: TargetsView::Specific(watchers),
                        player: touching[i],
                        frames: super::state::concat(room.touches[touching[i]]),
                    })
                &&& forall|i: int|
                    touching.len() <= i < touching.len() + judged.len()
                        ==> #[trigger] flushed.events[i] == (RoomEventView::RelayJudges {
                        room_id: room.id,
                        targets: TargetsView::Specific(watchers),
                        player: judged[i - touching.len()],
                        judges: super::state::concat(room.judges[judged[i - touching.len()]]),
                    })
            }
        }),
{
    lemma_ids_once(room.monitors.dom());
    lemma_ids_once(room.touches.dom());
    lemma_ids_once(room.judges.dom());
}

/// What was relayed is not relayed again.
pub proof fn second_flush_tells_nothing(room: RoomView)
    ensures
        room.flushed().room.flushed() == (Step {
            room: room.flushed().room,
            events: Seq::empty(),
        }),
{
    let after = room.flushed().room;
    lemma_ids_once(Set::empty());
    assert(after.touches.dom() =~= Set::empty());
    assert(after.judges.dom() =~= Set::empty());
    assert(after.flushed().events =~= Seq::empty());
}

/// What of a player waits to be relayed, batch after batch.
pub open spec fn waiting<T>(batches: Map<i32, Seq<Seq<T>>>, player: i32) -> Seq<T> {
    if batches.contains_key(player) {
        super::state::concat(batches[player])
    } else {
        Seq::empty()
    }
}

/// Touches and judgements are relayed in the order in which they came.
pub proof fn relays_keep_the_order(
    room: RoomView,
    user: i32,
    frames: Seq<TouchFrameView>,
    judges: Seq<JudgeEvent>,
)
    requires
        room.live,
    ensures
        waiting(room.touched(user, frames).touches, user) == waiting(room.touches, user) + frames,
        waiting(room.judged(user, judges).judges, user) == waiting(room.judges, user) + judges,
{
    lemma_with_batch(room.touches, user, frames);
    lemma_with_batch(room.judges, user, judges);
}

proof fn lemma_with_batch<T>(batches: Map<i32, Seq<Seq<T>>>, player: i32, batch: Seq<T>)
    ensures
        waiting(super::state::with_batch(batches, player, batch), player) == waiting(
            batches,
            player,
        ) + batch,
{
    let before = if batches.contains_key(player) {
        batches[player]
    } else {
        Seq::empty()
    };
    assert(before.push(batch).drop_last() =~= before);
    assert(super::state::concat(before) =~= waiting(batches, player));
}

} // verus!
