//! What those in a room know of being its host.

use vstd::prelude::*;

use crate::proto::MessageView;
use crate::rooms::{ApiError, Origin, Record, RoomCommand, RoomEventView};
use crate::room_v1::state::{PhaseView, RoomView, Step};

verus! {

/// Whether a user knows to be the host after being told of some events.
pub open spec fn told_hosting(user: i32, before: bool, events: Seq<RoomEventView>) -> bool
    decreases events.len(),
{
    if events.len() == 0 {
        before
    } else {
        super::laws::knows_hosting(
            user,
            told_hosting(user, before, events.drop_last()),
            super::server_commands(events.last()),
        )
    }
}

/// Whether a user never follows themselves as the host in some events.
pub open spec fn never_succeeds_self(user: i32, events: Seq<RoomEventView>) -> bool {
    forall|i: int|
        0 <= i < events.len() ==> ((#[trigger] events[i]) matches RoomEventView::NewHost {
            room_id: _,
            new_host,
            old_host,
        } ==> new_host != user || old_host != user)
}

/// What a user knows of being the host after being told of one event.
spec fn hosting_after(user: i32, before: bool, event: RoomEventView) -> bool {
    match event {
        RoomEventView::NewHost { room_id: _, new_host, old_host } => if user == old_host {
            false
        } else if user == new_host {
            true
        } else {
            before
        },
        _ => before,
    }
}

proof fn lemma_hosting_after(user: i32, before: bool, event: RoomEventView)
    ensures
        super::laws::knows_hosting(user, before, super::server_commands(event)) == hosting_after(
            user,
            before,
            event,
        ),
{
    reveal_with_fuel(super::laws::knows_hosting, 4);
    let commands = super::server_commands(event);
    if let RoomEventView::NewHost { room_id: _, new_host, old_host } = event {
        assert(seq![old_host][0] == old_host);
        assert(seq![new_host][0] == new_host);
        assert(commands.drop_last().last() == super::hosting(new_host, true));
        assert(commands.drop_last().drop_last().last() == super::announced(
            MessageView::NewHost { user: new_host },
        ));
    } else if commands.len() == 2 {
        assert(commands.drop_last().last() == commands[0]);
    }
}

proof fn lemma_told_hosting_push(
    user: i32,
    before: bool,
    events: Seq<RoomEventView>,
    event: RoomEventView,
)
    ensures
        told_hosting(user, before, events.push(event)) == hosting_after(
            user,
            told_hosting(user, before, events),
            event,
        ),
{
    assert(events.push(event).drop_last() =~= events);
    lemma_hosting_after(user, told_hosting(user, before, events), event);
}

proof fn lemma_told_hosting_concat(
    user: i32,
    before: bool,
    a: Seq<RoomEventView>,
    b: Seq<RoomEventView>,
)
    ensures
        told_hosting(user, before, a + b) == told_hosting(user, told_hosting(user, before, a), b),
    decreases b.len(),
{
    if b.len() == 0 {
        assert(a + b =~= a);
    } else {
        assert((a + b).drop_last() =~= a + b.drop_last());
        lemma_told_hosting_concat(user, before, a, b.drop_last());
    }
}

proof fn lemma_same_host(user: i32, before: bool, events: Seq<RoomEventView>)
    requires
        forall|i: int| 0 <= i < events.len() ==> !((#[trigger] events[i]) is NewHost),
    ensures
        told_hosting(user, before, events) == before,
    decreases events.len(),
{
    if events.len() > 0 {
        assert forall|i: int| 0 <= i < events.drop_last().len() implies !((
        #[trigger] events.drop_last()[i]) is NewHost) by {
            assert(events.drop_last()[i] == events[i]);
        }
        lemma_same_host(user, before, events.drop_last());
        assert(events =~= events.drop_last().push(events.last()));
        lemma_told_hosting_push(user, before, events.drop_last(), events.last());
    }
}

proof fn lemma_parts(user: i32, a: Seq<RoomEventView>, b: Seq<RoomEventView>)
    requires
        never_succeeds_self(user, a + b),
    ensures
        never_succeeds_self(user, a),
        never_succeeds_self(user, b),
{
    assert forall|i: int| 0 <= i < a.len() implies ((#[trigger] a[i]) matches
        RoomEventView::NewHost { room_id: _, new_host, old_host } ==> new_host != user || old_host
        != user) by {
        assert((a + b)[i] == a[i]);
    }
    assert forall|i: int| 0 <= i < b.len() implies ((#[trigger] b[i]) matches
        RoomEventView::NewHost { room_id: _, new_host, old_host } ==> new_host != user || old_host
        != user) by {
        assert((a + b)[a.len() + i] == b[i]);
    }
}

/// A user who is still in a room after something happened in it was in it before, and knows
/// whether they are the host.
spec fn stays_informed(
    user: i32,
    before: RoomView,
    events: Seq<RoomEventView>,
    after: RoomView,
) -> bool {
    after.in_room(user) ==> {
        &&& before.in_room(user)
        &&& never_succeeds_self(user, events) ==> told_hosting(user, before.is_host(user), events)
            == after.is_host(user)
    }
}

proof fn lemma_stays_informed_after(
    user: i32,
    before: RoomView,
    events: Seq<RoomEventView>,
    middle: RoomView,
    more: Seq<RoomEventView>,
    after: RoomView,
)
    requires
        stays_informed(user, before, events, middle),
        stays_informed(user, middle, more, after),
    ensures
        stays_informed(user, before, events + more, after),
{
    lemma_told_hosting_concat(user, before.is_host(user), events, more);
    if never_succeeds_self(user, events + more) {
        lemma_parts(user, events, more);
    }
}

/// The host, if there is one, is one of the players.
spec fn placed(room: RoomView) -> bool {
    room.host matches Some(host) ==> room.order.contains(host)
}

proof fn lemma_same_hosts(user: i32, before: RoomView, event: RoomEventView, after: RoomView)
    requires
        !(event is NewHost),
        after.host == before.host,
        after.in_room(user) ==> before.in_room(user),
    ensures
        stays_informed(user, before, seq![event], after),
{
    lemma_same_host(user, before.is_host(user), seq![event]);
}

proof fn lemma_advanced_hosts(user: i32, room: RoomView)
    requires
        placed(room),
    ensures
        stays_informed(user, room, room.advanced().events, room.advanced().room),
{
    crate::room_v1::laws::advanced_is_sound(room);
    let next = room.advanced();
    let before = room.is_host(user);
    match room.phase {
        PhaseView::WaitForReady { started, .. } if room.all_ready(started) => {
            lemma_same_host(user, before, next.events);
        },
        PhaseView::Playing { results, aborted } if room.all_settled(results, aborted) => {
            let end = RoomEventView::GameEnd { room_id: room.id, chart: room.chart_id() };
            lemma_same_host(user, before, seq![end]);
            match room.host {
                Some(old) if room.cycle => {
                    assert(next.events.len() == 2);
                    assert(next.events =~= seq![end].push(next.events[1]));
                    lemma_told_hosting_push(user, before, seq![end], next.events[1]);
                },
                _ => {},
            }
        },
        _ => {},
    }
}

proof fn lemma_evicted_hosts(user: i32, room: RoomView, leaver: i32, pick: Option<usize>)
    requires
        crate::room_v1::laws::sound(room),
    ensures
        stays_informed(
            user,
            room,
            room.evicted(leaver, pick).events,
            room.evicted(leaver, pick).room,
        ),
{
    crate::room_v1::laws::evicted_user_is_gone(room, leaver, pick);
    let left = room.without(leaver);
    let gone = RoomEventView::UserLeft {
        room_id: room.id,
        user: leaver,
        name: room.name_of(leaver),
    };
    let hosted = if room.is_host(leaver) {
        left.with_host(leaver, left.drawn_player(pick))
    } else {
        Step { room: left, events: Seq::empty() }
    };
    let told = seq![gone] + hosted.events;
    lemma_same_host(user, room.is_host(user), seq![gone]);
    if hosted.events.len() == 1 {
        assert(told =~= seq![gone].push(hosted.events[0]));
        lemma_told_hosting_push(user, room.is_host(user), seq![gone], hosted.events[0]);
    } else {
        assert(told =~= seq![gone]);
    }
    assert(stays_informed(user, room, told, hosted.room));
    if hosted.room.users.dom().is_empty() {
        let closed = RoomEventView::RoomClosed { room_id: room.id };
        lemma_same_hosts(user, hosted.room, closed, hosted.room);
        lemma_stays_informed_after(user, room, told, hosted.room, seq![closed], hosted.room);
    } else {
        if let Some(host) = room.host {
            crate::room_v1::laws::lemma_filter_contains(room.order, leaver, host);
            assert(room.order.contains(host));
        }
        lemma_advanced_hosts(user, hosted.room);
        lemma_stays_informed_after(
            user,
            room,
            told,
            hosted.room,
            hosted.room.advanced().events,
            hosted.room.advanced().room,
        );
    }
}

proof fn lemma_evicted_all_hosts(
    user: i32,
    room: RoomView,
    leavers: Seq<i32>,
    picks: Seq<Option<usize>>,
)
    requires
        crate::room_v1::laws::sound(room),
    ensures
        crate::room_v1::laws::sound(room.evicted_all(leavers, picks).room),
        stays_informed(
            user,
            room,
            room.evicted_all(leavers, picks).events,
            room.evicted_all(leavers, picks).room,
        ),
    decreases leavers.len(),
{
    if leavers.len() > 0 {
        let before = room.evicted_all(leavers.drop_last(), picks.drop_last());
        let last = before.room.evicted(leavers.last(), picks.last());
        lemma_evicted_all_hosts(user, room, leavers.drop_last(), picks.drop_last());
        lemma_evicted_hosts(user, before.room, leavers.last(), picks.last());
        crate::room_v1::laws::evicted_is_sound(before.room, leavers.last(), picks.last());
        lemma_stays_informed_after(
            user,
            room,
            before.events,
            before.room,
            last.events,
            last.room,
        );
    }
}

proof fn lemma_ticked_hosts(user: i32, room: RoomView, now: u64, picks: Seq<Option<usize>>)
    requires
        crate::room_v1::laws::sound(room),
    ensures
        stays_informed(user, room, room.ticked(now, picks).events, room.ticked(now, picks).room),
{
    let flushed = room.flushed();
    lemma_same_host(user, room.is_host(user), flushed.events);
    assert(stays_informed(user, room, flushed.events, flushed.room));
    match flushed.room.phase {
        PhaseView::WaitForReady { started, deadline: Some(deadline) } if now >= deadline => {
            let leavers = flushed.room.not_ready(started);
            let evicted = flushed.room.evicted_all(leavers, picks);
            lemma_evicted_all_hosts(user, flushed.room, leavers, picks);
            lemma_stays_informed_after(
                user,
                room,
                flushed.events,
                flushed.room,
                evicted.events,
                evicted.room,
            );
            if evicted.room.phase is WaitForReady {
                if let Some(host) = evicted.room.host {
                    assert(evicted.room.order.contains(host));
                }
                lemma_advanced_hosts(user, evicted.room);
                lemma_stays_informed_after(
                    user,
                    room,
                    flushed.events + evicted.events,
                    evicted.room,
                    evicted.room.advanced().events,
                    evicted.room.advanced().room,
                );
            }
        },
        _ => {},
    }
}

/// One event, and then the room moves on.
proof fn lemma_same_hosts_and_on(
    user: i32,
    before: RoomView,
    event: RoomEventView,
    middle: RoomView,
)
    requires
        placed(before),
        !(event is NewHost),
        middle.host == before.host,
        middle.order == before.order,
        middle.users == before.users,
        middle.monitors == before.monitors,
    ensures
        ({
            let step = middle.advanced_after(seq![event]);
            stays_informed(user, before, step.events, step.room)
        }),
{
    lemma_same_hosts(user, before, event, middle);
    lemma_advanced_hosts(user, middle);
    lemma_stays_informed_after(
        user,
        before,
        seq![event],
        middle,
        middle.advanced().events,
        middle.advanced().room,
    );
}

proof fn lemma_aborted_hosts(user: i32, room: RoomView, player: i32)
    requires
        placed(room),
    ensures
        stays_informed(user, room, room.with_abort(player).events, room.with_abort(player).room),
{
    if let PhaseView::Playing { results, aborted } = room.phase {
        let middle = RoomView {
            phase: PhaseView::Playing { results, aborted: aborted.insert(player) },
            ..room.without_play_of(player)
        };
        lemma_same_hosts_and_on(
            user,
            room,
            RoomEventView::Abort { room_id: room.id, user: player },
            middle,
        );
    }
}

proof fn lemma_fetched_hosts(
    user: i32,
    room: RoomView,
    player: i32,
    id: i32,
    record: Result<Record, ApiError>,
)
    requires
        placed(room),
    ensures
        stays_informed(
            user,
            room,
            room.fetched(player, id, record).events,
            room.fetched(player, id, record).room,
        ),
{
    let waiting = RoomView { inflight: room.inflight.remove(player), ..room };
    lemma_aborted_hosts(user, waiting, player);
    if let Ok(record) = record {
        if let PhaseView::Playing { results, aborted } = room.phase {
            let middle = RoomView {
                phase: PhaseView::Playing { results: results.insert(player, record), aborted },
                ..waiting
            };
            lemma_same_hosts_and_on(
                user,
                room,
                RoomEventView::Played {
                    room_id: room.id,
                    user: player,
                    score: record.score,
                    accuracy: record.accuracy,
                    full_combo: record.full_combo,
                },
                middle,
            );
        }
    }
}

proof fn lemma_hosts_told_by_user(
    user: i32,
    room: RoomView,
    by: i32,
    cmd: RoomCommand,
    pick: Option<usize>,
)
    requires
        crate::room_v1::laws::sound(room),
        !(cmd is CreateRoom),
        !(cmd is JoinRoom),
    ensures
        ({
            let outcome = room.told_by_user(by, cmd, pick);
            stays_informed(user, room, outcome.events, outcome.room)
        }),
{
    let outcome = room.told_by_user(by, cmd, pick);
    if let Some(host) = room.host {
        assert(room.order.contains(host));
    }
    match cmd {
        RoomCommand::LeaveRoom => {
            lemma_evicted_hosts(user, room, by, pick);
        },
        RoomCommand::RequestStart => {
            let waiting = RoomView {
                phase: PhaseView::WaitForReady { started: Set::empty().insert(by), deadline: None },
                game_time: Map::empty(),
                ..room
            };
            lemma_same_hosts_and_on(
                user,
                room,
                RoomEventView::GameStart { room_id: room.id, user: by },
                waiting,
            );
        },
        RoomCommand::Ready => {
            if let PhaseView::WaitForReady { started, deadline } = room.phase {
                let ready = RoomView {
                    phase: PhaseView::WaitForReady { started: started.insert(by), deadline },
                    ..room
                };
                lemma_same_hosts_and_on(
                    user,
                    room,
                    RoomEventView::Ready { room_id: room.id, user: by },
                    ready,
                );
            }
        },
        RoomCommand::Abort => {
            lemma_aborted_hosts(user, room, by);
        },
        _ => {
            lemma_same_host(user, room.is_host(user), outcome.events);
        },
    }
}

/// Everyone in a room, who is told what clients are told of what happens in it, always knows
/// whether they are the host. Who creates a room learns of it by the answer. A host who follows
/// themselves, as the only player of a room whose host changes, is told so first, and then that
/// they are the host no longer.
pub proof fn clients_know_the_host(
    room: RoomView,
    origin: Origin,
    cmd: RoomCommand,
    picks: Seq<Option<usize>>,
    user: i32,
)
    requires
        crate::room_v1::laws::sound(room),
        !(cmd is CreateRoom),
        never_succeeds_self(user, room.told(origin, cmd, picks).events),
        room.told(origin, cmd, picks).room.in_room(user),
    ensures
        ({
            let outcome = room.told(origin, cmd, picks);
            told_hosting(user, room.is_host(user), outcome.events) == outcome.room.is_host(user)
        }),
{
    let outcome = room.told(origin, cmd, picks);
    if let Some(host) = room.host {
        assert(room.order.contains(host));
    }
    match cmd {
        RoomCommand::Tick { now } => {
            lemma_ticked_hosts(user, room, now, picks);
        },
        RoomCommand::UserDangleExpired { user_id } => {
            lemma_evicted_hosts(user, room, user_id, picks[0]);
        },
        RoomCommand::JoinRoom { .. } => {
            lemma_same_host(user, room.is_host(user), outcome.events);
        },
        _ => match origin {
            Origin::Client { user_id } => {
                lemma_hosts_told_by_user(user, room, user_id, cmd, picks[0]);
            },
            Origin::System => match cmd {
                RoomCommand::RecordFetched { user_id, record_id, record } => {
                    lemma_fetched_hosts(user, room, user_id, record_id, record);
                },
                RoomCommand::AdminKick { user_id } => {
                    lemma_evicted_hosts(user, room, user_id, picks[0]);
                },
                _ => {
                    lemma_same_host(user, room.is_host(user), outcome.events);
                },
            },
        },
    }
}

} // verus!
