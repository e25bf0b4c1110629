//! What clients know of a room by what they are told.

use vstd::prelude::*;

use crate::proto::{MessageView, ServerCommandView};
use crate::rooms::{
    ApiError, Chart, Origin, Record, RoomCommand, RoomEventView, RoomState, TargetsView,
    UserInfoView,
};
use crate::room_v1::state::{PhaseView, RoomView, Step};

verus! {

/// Of everything that happens in a room someone is told, but that it closes.
pub proof fn everything_is_told(event: RoomEventView)
    ensures
        super::server_commands(event).len() == 0 <==> event is RoomClosed,
{
}

/// What is relayed goes to those it is meant for, and to no one else.
pub proof fn relays_go_to_their_targets(event: RoomEventView)
    ensures
        event matches RoomEventView::RelayTouches { room_id: _, targets, player, frames }
            ==> super::server_commands(event) == seq![
            (targets, ServerCommandView::Touches { player, frames }),
        ],
        event matches RoomEventView::RelayJudges { room_id: _, targets, player, judges }
            ==> super::server_commands(event) == seq![
            (targets, ServerCommandView::Judges { player, judges }),
        ],
{
}

/// Whether a user knows to be the host after being told of some commands.
pub open spec fn knows_hosting(
    user: i32,
    before: bool,
    commands: Seq<(TargetsView, ServerCommandView)>,
) -> bool
    decreases commands.len(),
{
    if commands.len() == 0 {
        before
    } else {
        match commands.last() {
            (TargetsView::Specific(users), ServerCommandView::ChangeHost(is_host))
                if users.contains(user) => is_host,
            _ => knows_hosting(user, before, commands.drop_last()),
        }
    }
}

/// When the host changes, the new host knows it, the old host knows it, and nothing changes for
/// the others.
pub proof fn hosts_know_of_changes(
    room_id: Seq<char>,
    new_host: i32,
    old_host: i32,
    user: i32,
    before: bool,
)
    requires
        new_host != old_host,
    ensures
        ({
            let commands = super::server_commands(
                RoomEventView::NewHost { room_id, new_host, old_host },
            );
            knows_hosting(user, before, commands) == if user == new_host {
                true
            } else if user == old_host {
                false
            } else {
                before
            }
        }),
{
    let commands = super::server_commands(RoomEventView::NewHost { room_id, new_host, old_host });
    reveal_with_fuel(knows_hosting, 4);
    assert(seq![old_host][0] == old_host);
    assert(seq![new_host][0] == new_host);
    assert(commands.drop_last().last() == super::hosting(new_host, true));
    assert(commands.drop_last().drop_last().last() == super::announced(
        MessageView::NewHost { user: new_host },
    ));
}

/// What a client knows of a room.
#[verifier::ext_equal]
pub struct Knowledge {
    pub state: RoomState,
    pub locked: bool,
    pub cycle: bool,
    pub users: Map<i32, UserInfoView>,
}

/// What there is to know of a room.
pub open spec fn facts(room: RoomView) -> Knowledge {
    Knowledge {
        state: room.client_state(),
        locked: room.locked,
        cycle: room.cycle,
        users: room.users.union_prefer_right(room.monitors),
    }
}

/// What a client knows after being told one thing more.
pub open spec fn learned(known: Knowledge, told: (TargetsView, ServerCommandView)) -> Knowledge {
    if !(told.0 is All) {
        known
    } else {
        match told.1 {
            ServerCommandView::ChangeState(state) => Knowledge { state, ..known },
            ServerCommandView::OnJoinRoom(user) => Knowledge {
                users: known.users.insert(user.id, user),
                ..known
            },
            ServerCommandView::Message(MessageView::LeaveRoom { user, name: _ }) => Knowledge {
                users: known.users.remove(user),
                ..known
            },
            ServerCommandView::Message(MessageView::LockRoom { lock }) => Knowledge {
                locked: lock,
                ..known
            },
            ServerCommandView::Message(MessageView::CycleRoom { cycle }) => Knowledge {
                cycle,
                ..known
            },
            _ => known,
        }
    }
}

/// What a client knows after being told several things.
pub open spec fn learned_all(
    known: Knowledge,
    told: Seq<(TargetsView, ServerCommandView)>,
) -> Knowledge
    decreases told.len(),
{
    if told.len() == 0 {
        known
    } else {
        learned(learned_all(known, told.drop_last()), told.last())
    }
}

/// What a client knows after being told of some events.
pub open spec fn informed(known: Knowledge, events: Seq<RoomEventView>) -> Knowledge
    decreases events.len(),
{
    if events.len() == 0 {
        known
    } else {
        learned_all(
            informed(known, events.drop_last()),
            super::server_commands(events.last()),
        )
    }
}

/// What a client knows after being told of one event.
pub open spec fn known_after(known: Knowledge, event: RoomEventView) -> Knowledge {
    match event {
        RoomEventView::UserJoined { room_id: _, user } => Knowledge {
            users: known.users.insert(user.id, user),
            ..known
        },
        RoomEventView::UserLeft { room_id: _, user, name: _ } => Knowledge {
            users: known.users.remove(user),
            ..known
        },
        RoomEventView::SelectChart { room_id: _, user: _, name: _, id } => Knowledge {
            state: RoomState::SelectChart(Some(id)),
            ..known
        },
        RoomEventView::GameStart { .. } => Knowledge {
            state: RoomState::WaitingForReady,
            ..known
        },
        RoomEventView::CancelGame { room_id: _, user: _, chart } => Knowledge {
            state: RoomState::SelectChart(chart),
            ..known
        },
        RoomEventView::StartPlaying { .. } => Knowledge { state: RoomState::Playing, ..known },
        RoomEventView::GameEnd { room_id: _, chart } => Knowledge {
            state: RoomState::SelectChart(chart),
            ..known
        },
        RoomEventView::LockRoom { room_id: _, lock } => Knowledge { locked: lock, ..known },
        RoomEventView::CycleRoom { room_id: _, cycle } => Knowledge { cycle, ..known },
        _ => known,
    }
}

proof fn lemma_known_after(known: Knowledge, event: RoomEventView)
    requires
        plain(event),
    ensures
        learned_all(known, super::server_commands(event)) == known_after(known, event),
{
    reveal_with_fuel(learned_all, 4);
    let told = super::server_commands(event);
    if told.len() == 2 {
        assert(told.drop_last().last() == told[0]);
    } else if told.len() == 3 {
        assert(told.drop_last().last() == told[1]);
        assert(told.drop_last().drop_last().last() == told[0]);
    }
}

/// Whether an event is relayed to some users only, if it is relayed.
spec fn plain(event: RoomEventView) -> bool {
    match event {
        RoomEventView::RelayTouches { targets, .. } => targets is Specific,
        RoomEventView::RelayJudges { targets, .. } => targets is Specific,
        _ => true,
    }
}

proof fn lemma_informed_push(known: Knowledge, events: Seq<RoomEventView>, event: RoomEventView)
    requires
        plain(event),
    ensures
        informed(known, events.push(event)) == known_after(informed(known, events), event),
{
    assert(events.push(event).drop_last() =~= events);
    lemma_known_after(informed(known, events), event);
}

proof fn lemma_informed_of_one(known: Knowledge, event: RoomEventView)
    requires
        plain(event),
    ensures
        informed(known, seq![event]) == known_after(known, event),
{
    let none = Seq::<RoomEventView>::empty();
    assert(seq![event] =~= none.push(event));
    lemma_informed_push(known, none, event);
    assert(informed(known, none) == known);
}

proof fn lemma_informed_concat(
    known: Knowledge,
    a: Seq<RoomEventView>,
    b: Seq<RoomEventView>,
)
    ensures
        informed(known, a + b) == informed(informed(known, a), b),
    decreases b.len(),
{
    if b.len() == 0 {
        assert(a + b =~= a);
    } else {
        assert((a + b).drop_last() =~= a + b.drop_last());
        lemma_informed_concat(known, a, b.drop_last());
    }
}

proof fn lemma_relays_tell_nothing(known: Knowledge, events: Seq<RoomEventView>)
    requires
        forall|i: int|
            0 <= i < events.len() ==> plain(#[trigger] events[i]) && (events[i] is RelayTouches
                || events[i] is RelayJudges),
    ensures
        informed(known, events) == known,
    decreases events.len(),
{
    if events.len() > 0 {
        assert(events =~= events.drop_last().push(events.last()));
        assert forall|i: int| 0 <= i < events.drop_last().len() implies plain(
            #[trigger] events.drop_last()[i],
        ) && (events.drop_last()[i] is RelayTouches || events.drop_last()[i] is RelayJudges) by {
            assert(events.drop_last()[i] == events[i]);
        }
        lemma_relays_tell_nothing(known, events.drop_last());
        lemma_informed_push(known, events.drop_last(), events.last());
    }
}

/// Clients who know a room and are told what the events say know the room that it becomes.
pub open spec fn keeps_up(before: RoomView, events: Seq<RoomEventView>, after: RoomView) -> bool {
    informed(facts(before), events) == facts(after)
}

proof fn lemma_keeps_up_after(
    before: RoomView,
    events: Seq<RoomEventView>,
    middle: RoomView,
    more: Seq<RoomEventView>,
    after: RoomView,
)
    requires
        keeps_up(before, events, middle),
        keeps_up(middle, more, after),
    ensures
        keeps_up(before, events + more, after),
{
    lemma_informed_concat(facts(before), events, more);
}

proof fn lemma_advanced(room: RoomView)
    ensures
        keeps_up(room, room.advanced().events, room.advanced().room),
{
    let known = facts(room);
    let next = room.advanced();
    match room.phase {
        PhaseView::WaitForReady { started, .. } if room.all_ready(started) => {
            lemma_informed_of_one(known, RoomEventView::StartPlaying { room_id: room.id });
        },
        PhaseView::Playing { results, aborted } if room.all_settled(results, aborted) => {
            let end = RoomEventView::GameEnd { room_id: room.id, chart: room.chart_id() };
            lemma_informed_of_one(known, end);
            if let Some(old) = room.host {
                if room.cycle {
                    if next.events.len() == 2 {
                        assert(next.events =~= seq![end].push(next.events[1]));
                        lemma_informed_push(known, seq![end], next.events[1]);
                    } else {
                        assert(next.events =~= seq![end]);
                    }
                }
            }
        },
        _ => {},
    }
}

proof fn lemma_evicted(room: RoomView, user: i32, pick: Option<usize>)
    ensures
        keeps_up(room, room.evicted(user, pick).events, room.evicted(user, pick).room),
{
    let known = facts(room);
    let left = room.without(user);
    let gone = RoomEventView::UserLeft { room_id: room.id, user, name: room.name_of(user) };
    let hosted = if room.is_host(user) {
        left.with_host(user, left.drawn_player(pick))
    } else {
        Step { room: left, events: Seq::empty() }
    };
    lemma_informed_of_one(known, gone);
    assert(facts(left).users =~= known.users.remove(user));
    let told = seq![gone] + hosted.events;
    if hosted.events.len() == 1 {
        assert(told =~= seq![gone].push(hosted.events[0]));
        lemma_informed_push(known, seq![gone], hosted.events[0]);
    } else {
        assert(told =~= seq![gone]);
    }
    assert(keeps_up(room, told, hosted.room));
    if hosted.room.users.dom().is_empty() {
        let closed = RoomEventView::RoomClosed { room_id: room.id };
        assert(told + seq![closed] =~= told.push(closed));
        lemma_informed_push(known, told, closed);
    } else {
        lemma_advanced(hosted.room);
        lemma_keeps_up_after(
            room,
            told,
            hosted.room,
            hosted.room.advanced().events,
            hosted.room.advanced().room,
        );
    }
}

proof fn lemma_evicted_all(room: RoomView, users: Seq<i32>, picks: Seq<Option<usize>>)
    ensures
        keeps_up(room, room.evicted_all(users, picks).events, room.evicted_all(users, picks).room),
    decreases users.len(),
{
    if users.len() > 0 {
        let before = room.evicted_all(users.drop_last(), picks.drop_last());
        let last = before.room.evicted(users.last(), picks.last());
        lemma_evicted_all(room, users.drop_last(), picks.drop_last());
        lemma_evicted(before.room, users.last(), picks.last());
        lemma_keeps_up_after(room, before.events, before.room, last.events, last.room);
    }
}

proof fn lemma_ticked(room: RoomView, now: u64, picks: Seq<Option<usize>>)
    ensures
        keeps_up(room, room.ticked(now, picks).events, room.ticked(now, picks).room),
{
    let flushed = room.flushed();
    lemma_relays_tell_nothing(facts(room), flushed.events);
    assert(keeps_up(room, flushed.events, flushed.room));
    match flushed.room.phase {
        PhaseView::WaitForReady { started, deadline: Some(deadline) } if now >= deadline => {
            let evicted = flushed.room.evicted_all(flushed.room.not_ready(started), picks);
            lemma_evicted_all(flushed.room, flushed.room.not_ready(started), picks);
            lemma_keeps_up_after(room, flushed.events, flushed.room, evicted.events, evicted.room);
            if evicted.room.phase is WaitForReady {
                lemma_advanced(evicted.room);
                lemma_keeps_up_after(
                    room,
                    flushed.events + evicted.events,
                    evicted.room,
                    evicted.room.advanced().events,
                    evicted.room.advanced().room,
                );
            }
        },
        _ => {},
    }
}

/// A room that has changed in nothing clients are told of, but for one event.
proof fn lemma_one_event(before: RoomView, event: RoomEventView, after: RoomView)
    requires
        plain(event),
        facts(after) == known_after(facts(before), event),
    ensures
        keeps_up(before, seq![event], after),
{
    lemma_informed_of_one(facts(before), event);
}

/// One event, and then the room moves on.
proof fn lemma_one_event_and_on(before: RoomView, event: RoomEventView, middle: RoomView)
    requires
        plain(event),
        facts(middle) == known_after(facts(before), event),
    ensures
        ({
            let step = middle.advanced_after(seq![event]);
            keeps_up(before, step.events, step.room)
        }),
{
    lemma_one_event(before, event, middle);
    lemma_advanced(middle);
    lemma_keeps_up_after(
        before,
        seq![event],
        middle,
        middle.advanced().events,
        middle.advanced().room,
    );
}

proof fn lemma_nothing_told(before: RoomView, after: RoomView)
    requires
        facts(after) == facts(before),
    ensures
        keeps_up(before, Seq::empty(), after),
{
}

proof fn lemma_with_abort(room: RoomView, user: i32)
    ensures
        keeps_up(room, room.with_abort(user).events, room.with_abort(user).room),
{
    if let PhaseView::Playing { results, aborted } = room.phase {
        let middle = RoomView {
            phase: PhaseView::Playing { results, aborted: aborted.insert(user) },
            ..room.without_play_of(user)
        };
        assert(facts(middle) == facts(room));
        lemma_one_event_and_on(room, RoomEventView::Abort { room_id: room.id, user }, middle);
    }
}

proof fn lemma_fetched(room: RoomView, user: i32, id: i32, record: Result<Record, ApiError>)
    ensures
        keeps_up(room, room.fetched(user, id, record).events, room.fetched(user, id, record).room),
{
    let waiting = RoomView { inflight: room.inflight.remove(user), ..room };
    assert(facts(waiting) == facts(room));
    lemma_with_abort(waiting, user);
    if let Ok(record) = record {
        if let PhaseView::Playing { results, aborted } = room.phase {
            let middle = RoomView {
                phase: PhaseView::Playing { results: results.insert(user, record), aborted },
                ..waiting
            };
            lemma_one_event_and_on(
                room,
                RoomEventView::Played {
                    room_id: room.id,
                    user,
                    score: record.score,
                    accuracy: record.accuracy,
                    full_combo: record.full_combo,
                },
                middle,
            );
        }
    }
}

proof fn lemma_joined(room: RoomView, user: i32, monitor: bool, name: Seq<char>)
    ensures
        keeps_up(
            room,
            room.joined(user, monitor, name).events,
            room.joined(user, monitor, name).room,
        ),
{
    if room.join_refusal(user, monitor) is None {
        let info = UserInfoView { id: user, name, monitor };
        let after = room.with_user(info);
        assert(facts(after).users =~= facts(room).users.insert(user, info));
        lemma_one_event(room, RoomEventView::UserJoined { room_id: room.id, user: info }, after);
    }
}

proof fn lemma_started(room: RoomView, user: i32)
    ensures
        keeps_up(room, room.start_requested(user).events, room.start_requested(user).room),
{
    let waiting = RoomView {
        phase: PhaseView::WaitForReady { started: Set::empty().insert(user), deadline: None },
        game_time: Map::empty(),
        ..room
    };
    lemma_one_event_and_on(room, RoomEventView::GameStart { room_id: room.id, user }, waiting);
}

proof fn lemma_readied(room: RoomView, user: i32)
    ensures
        keeps_up(room, room.readied(user).events, room.readied(user).room),
        keeps_up(room, room.ready_cancelled(user).events, room.ready_cancelled(user).room),
{
    if let PhaseView::WaitForReady { started, deadline } = room.phase {
        let ready = RoomView {
            phase: PhaseView::WaitForReady { started: started.insert(user), deadline },
            ..room
        };
        lemma_one_event_and_on(room, RoomEventView::Ready { room_id: room.id, user }, ready);
        let after = room.ready_cancelled(user).room;
        if started.contains(user) && room.is_host(user) {
            lemma_one_event(
                room,
                RoomEventView::CancelGame { room_id: room.id, user, chart: room.chart_id() },
                after,
            );
        } else if started.contains(user) {
            lemma_one_event(room, RoomEventView::CancelReady { room_id: room.id, user }, after);
        }
    }
}

proof fn lemma_told_by_user(room: RoomView, user: i32, cmd: RoomCommand, pick: Option<usize>)
    requires
        !(cmd is CreateRoom),
    ensures
        ({
            let outcome = room.told_by_user(user, cmd, pick);
            keeps_up(room, outcome.events, outcome.room)
        }),
{
    let outcome = room.told_by_user(user, cmd, pick);
    match cmd {
        RoomCommand::JoinRoom { id: _, monitor, name } => {
            lemma_joined(room, user, monitor, name@);
        },
        RoomCommand::LeaveRoom => {
            lemma_evicted(room, user, pick);
        },
        RoomCommand::Chat { message } => {
            lemma_one_event(
                room,
                RoomEventView::Chat { room_id: room.id, user, content: message@ },
                room,
            );
        },
        RoomCommand::RequestStart => {
            lemma_started(room, user);
        },
        RoomCommand::Ready => {
            lemma_readied(room, user);
        },
        RoomCommand::CancelReady => {
            lemma_readied(room, user);
        },
        RoomCommand::Abort => {
            lemma_with_abort(room, user);
        },
        RoomCommand::LockRoom { lock } => {
            lemma_one_event(
                room,
                RoomEventView::LockRoom { room_id: room.id, lock },
                RoomView { locked: lock, ..room },
            );
        },
        RoomCommand::CycleRoom { cycle } => {
            lemma_one_event(
                room,
                RoomEventView::CycleRoom { room_id: room.id, cycle },
                RoomView { cycle, ..room },
            );
        },
        _ => {
            lemma_nothing_told(room, outcome.room);
        },
    }
}

/// A client who knows a room, and is told what clients are told of what happens in it, always
/// knows the state of the room, whether it is locked, whether its host changes, and who is in it.
/// Who creates a room learns of it by the answer.
pub proof fn clients_know_the_room(
    room: RoomView,
    origin: Origin,
    cmd: RoomCommand,
    picks: Seq<Option<usize>>,
)
    requires
        !(cmd is CreateRoom),
    ensures
        ({
            let outcome = room.told(origin, cmd, picks);
            informed(facts(room), outcome.events) == facts(outcome.room)
        }),
{
    match cmd {
        RoomCommand::Tick { now } => {
            lemma_ticked(room, now, picks);
        },
        RoomCommand::UserDangleExpired { user_id } => {
            lemma_evicted(room, user_id, picks[0]);
        },
        RoomCommand::UserDisconnected { user_id, epoch: _ } => {
            assert(facts(room.disconnected(user_id)) == facts(room));
        },
        RoomCommand::UserReconnected { user_id, epoch: _ } => {
            assert(facts(room.reconnected(user_id)) == facts(room));
        },
        RoomCommand::GetClientState { .. } => {},
        RoomCommand::UpdateConfig { config } => {
            assert(facts(RoomView { allowed: config.monitors@, ..room }) == facts(room));
        },
        _ => match origin {
            Origin::Client { user_id } => {
                lemma_told_by_user(room, user_id, cmd, picks[0]);
            },
            Origin::System => match cmd {
                RoomCommand::RecordFetched { user_id, record_id, record } => {
                    lemma_fetched(room, user_id, record_id, record);
                },
                RoomCommand::AdminKick { user_id } => {
                    lemma_evicted(room, user_id, picks[0]);
                },
                RoomCommand::AdminBroadcast { content } => {
                    lemma_one_event(
                        room,
                        RoomEventView::Chat { room_id: room.id, user: 0, content: content@ },
                        room,
                    );
                },
                _ => {},
            },
        },
    }
}

/// A client knows the chart that was selected, where the chart that was fetched is the one that
/// was asked for.
pub proof fn clients_know_the_chart(
    room: RoomView,
    user: i32,
    id: i32,
    fetched: Result<Chart, ApiError>,
)
    requires
        room.phase is SelectChart,
        fetched matches Ok(chart) ==> chart.id == id,
    ensures
        ({
            let outcome = room.selected(user, id, fetched);
            informed(facts(room), outcome.events) == facts(outcome.room)
        }),
{
    let outcome = room.selected(user, id, fetched);
    if fetched is Ok {
        lemma_one_event(room, outcome.events[0], outcome.room);
        assert(outcome.events =~= seq![outcome.events[0]]);
    }
}

} // verus!
