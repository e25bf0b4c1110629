//! What each command does to a room, told by what there was before and what there is after.
//!
//! Where a law says that a room is the same but for some fields, it puts these fields back and
//! finds the room that was there before.

use vstd::prelude::*;

use crate::model::HasModel;
use crate::rooms::{
    ApiError, Chart, ChartView, Float32, JudgeEvent, Origin, RandomSource, Record, RoomCommand,
    RoomConfig, RoomErrorCode, RoomErrorView, RoomEventView, RoomId, RoomResponseView, RoomState,
    TargetsView, TouchFrameView, UserInfoView, Varchar,
};

use super::state::{Outcome, PhaseView, RoomView};

verus! {

/// Whether nothing happened, and there is no answer.
pub open spec fn nothing_happened(room: RoomView, out: Outcome) -> bool {
    out.room == room && out.resp is None && out.events.len() == 0
}

/// Whether nothing happened, and the answer is a refusal.
pub open spec fn was_refused(
    room: RoomView,
    out: Outcome,
    code: RoomErrorCode,
    msg: Seq<char>,
) -> bool {
    &&& out.room == room
    &&& out.events.len() == 0
    &&& out.resp == Some(RoomResponseView::Failure(RoomErrorView::Business { code, msg }))
}

/// Whether a user plays or watches in a room.
pub open spec fn is_member(room: RoomView, user: i32) -> bool {
    room.users.contains_key(user) || room.monitors.contains_key(user)
}

/// Whether everyone who plays or watches in a room is among those who are ready.
pub open spec fn everyone_ready(room: RoomView, started: Set<i32>) -> bool {
    forall|user: i32|
        #![trigger started.contains(user)]
        #![trigger room.users.contains_key(user)]
        #![trigger room.monitors.contains_key(user)]
        room.users.contains_key(user) || room.monitors.contains_key(user) ==> started.contains(user)
}

/// Whether everyone who plays in a room has a record or has aborted.
pub open spec fn everyone_done(
    room: RoomView,
    results: Map<i32, Record>,
    aborted: Set<i32>,
) -> bool {
    forall|user: i32| #[trigger]
        room.users.contains_key(user) ==> results.contains_key(user) || aborted.contains(user)
}

/// The id of the chart that is selected in a room.
pub open spec fn selected_chart(room: RoomView) -> Option<i32> {
    match room.chart {
        Some(chart) => Some(chart.id),
        None => None,
    }
}

proof fn lemma_ready(room: RoomView, started: Set<i32>)
    ensures
        everyone_ready(room, started) == room.all_ready(started),
{
    if room.all_ready(started) {
        assert forall|user: i32|
            room.users.contains_key(user) || room.monitors.contains_key(
                user,
            ) implies started.contains(user) by {
            assert(room.in_room(user));
        }
    }
    if everyone_ready(room, started) {
        assert forall|user: i32| #[trigger] room.in_room(user) implies started.contains(user) by {
            assert(room.users.contains_key(user) || room.monitors.contains_key(user));
        }
    }
}

/// Who creates a room is its host and a player in it, who came last. Nothing else changes.
pub proof fn creating_makes_a_host(
    room: RoomView,
    user: i32,
    id: RoomId,
    name: String,
    picks: Seq<Option<usize>>,
)
    ensures
        ({
            let out = room.told(
                Origin::Client { user_id: user },
                RoomCommand::CreateRoom { id, name },
                picks,
            );
            &&& out.resp == Some(RoomResponseView::Done)
            &&& out.events == seq![RoomEventView::RoomCreated { room_id: room.id, host: user }]
            &&& out.room.host == Some(user)
            &&& out.room.users.contains_key(user)
            &&& out.room.users[user] == (UserInfoView { id: user, name: name@, monitor: false })
            &&& forall|other: i32|
                #![trigger out.room.users.contains_key(other)]
                #![trigger room.users.contains_key(other)]
                other != user ==> out.room.users.contains_key(other) == room.users.contains_key(
                    other,
                ) && out.room.users[other] == room.users[other]
            &&& out.room.order.len() == room.order.len() + 1
            &&& out.room.order.last() == user
            &&& out.room.order.drop_last() == room.order
            &&& (RoomView {
                host: room.host,
                users: room.users,
                order: room.order,
                ..out.room
            }) == room
        }),
{
    let out = room.told(
        Origin::Client { user_id: user },
        RoomCommand::CreateRoom { id, name },
        picks,
    );
    assert(out.room.order.drop_last() =~= room.order);
}

/// Why a user may not join: the user is in the room, or it is locked, or a game goes on, or the
/// user wants to watch and may not, or wants to play and there are eight players.
pub open spec fn may_not_join(room: RoomView, user: i32, monitor: bool) -> Option<
    (RoomErrorCode, Seq<char>),
> {
    if room.users.contains_key(user) || room.monitors.contains_key(user) {
        Some((RoomErrorCode::AlreadyInRoom, "already in room"@))
    } else if room.locked {
        Some((RoomErrorCode::RoomLocked, "room is locked"@))
    } else if room.phase is WaitForReady || room.phase is Playing {
        Some((RoomErrorCode::GameOngoing, "game is ongoing"@))
    } else if monitor {
        if room.allowed.contains(user) {
            None
        } else {
            Some((RoomErrorCode::CannotMonitor, "no monitor permission"@))
        }
    } else if room.users.dom().len() >= 8 {
        Some((RoomErrorCode::RoomFull, "room is full"@))
    } else {
        None
    }
}

/// Who may not join is refused for the first reason there is.
pub proof fn joining_is_refused_for_a_reason(
    room: RoomView,
    user: i32,
    id: RoomId,
    monitor: bool,
    name: String,
    picks: Seq<Option<usize>>,
)
    ensures
        ({
            let out = room.told(
                Origin::Client { user_id: user },
                RoomCommand::JoinRoom { id, monitor, name },
                picks,
            );
            match may_not_join(room, user, monitor) {
                Some((code, msg)) => was_refused(room, out, code, msg),
                None => out.resp is Some && out.resp->0 is JoinRoom,
            }
        }),
{
}

/// Who joins to play is a player, who came last; who joins to watch is a monitor, and the room is
/// live. No one else is touched, and nothing else changes.
pub proof fn joining_adds_the_user(
    room: RoomView,
    user: i32,
    id: RoomId,
    monitor: bool,
    name: String,
    picks: Seq<Option<usize>>,
)
    requires
        may_not_join(room, user, monitor) is None,
    ensures
        ({
            let out = room.told(
                Origin::Client { user_id: user },
                RoomCommand::JoinRoom { id, monitor, name },
                picks,
            );
            let info = UserInfoView { id: user, name: name@, monitor };
            &&& out.events == seq![RoomEventView::UserJoined { room_id: room.id, user: info }]
            &&& out.room.live == (room.live || monitor)
            &&& out.room.users.contains_key(user) == !monitor
            &&& out.room.monitors.contains_key(user) == monitor
            &&& !monitor ==> out.room.users[user] == info
            &&& monitor ==> out.room.monitors[user] == info
            &&& forall|other: i32|
                #![trigger out.room.users.contains_key(other)]
                #![trigger room.users.contains_key(other)]
                other != user ==> out.room.users.contains_key(other) == room.users.contains_key(
                    other,
                ) && out.room.users[other] == room.users[other]
            &&& forall|other: i32|
                #![trigger out.room.monitors.contains_key(other)]
                #![trigger room.monitors.contains_key(other)]
                other != user ==> out.room.monitors.contains_key(other)
                    == room.monitors.contains_key(other) && out.room.monitors[other]
                    == room.monitors[other]
            &&& monitor ==> out.room.order == room.order
            &&& !monitor ==> out.room.order.len() == room.order.len() + 1 && out.room.order.last()
                == user && out.room.order.drop_last() == room.order
            &&& (RoomView {
                users: room.users,
                monitors: room.monitors,
                order: room.order,
                live: room.live,
                ..out.room
            }) == room
        }),
{
    let out = room.told(
        Origin::Client { user_id: user },
        RoomCommand::JoinRoom { id, monitor, name },
        picks,
    );
    if !monitor {
        assert(out.room.order.drop_last() =~= room.order);
    }
}

proof fn lemma_values(m: Map<i32, UserInfoView>)
    requires
        m.dom().finite(),
    ensures
        ({
            let values = super::state::values_in_order(m);
            let ids = super::state::ids_in_order(m.dom());
            &&& values.len() == m.dom().len()
            &&& ids.len() == m.dom().len()
            &&& forall|user: i32| #[trigger] m.contains_key(user) ==> values.contains(m[user])
            &&& forall|i: int|
                0 <= i < values.len() ==> m.contains_key(#[trigger] ids[i]) && values[i]
                    == m[ids[i]]
            &&& forall|i: int, j: int|
                0 <= i < j < ids.len() ==> (#[trigger] ids[i]) < (#[trigger] ids[j])
        }),
{
    let values = super::state::values_in_order(m);
    let ids = super::state::ids_in_order(m.dom());
    crate::binary::map::lemma_sorted_keys(m.dom());
    assert forall|i: int, j: int| 0 <= i < j < ids.len() implies (#[trigger] ids[i]) < (
    #[trigger] ids[j]) by {
        assert(crate::binary::map::MapKey::rank(&ids[i]) < crate::binary::map::MapKey::rank(
            &ids[j],
        ));
    }
    assert(ids.no_duplicates());
    ids.unique_seq_to_set();
    assert forall|user: i32| #[trigger] m.contains_key(user) implies values.contains(m[user]) by {
        assert(ids.to_set().contains(user));
        let i = ids.index_of(user);
        assert(values[i] == m[user]);
    }
    assert forall|i: int| 0 <= i < values.len() implies m.contains_key(#[trigger] ids[i])
        && values[i] == m[ids[i]] by {
        assert(ids.contains(ids[i]));
        assert(ids.to_set().contains(ids[i]));
    }
}

/// Who joins is told the state of the room, whether it is live, and everyone in it: first each
/// player, then each monitor, both in ascending order of their ids.
pub proof fn joining_tells_who_is_there(
    room: RoomView,
    user: i32,
    id: RoomId,
    monitor: bool,
    name: String,
    picks: Seq<Option<usize>>,
)
    requires
        may_not_join(room, user, monitor) is None,
        super::laws::sound(room),
    ensures
        ({
            let out = room.told(
                Origin::Client { user_id: user },
                RoomCommand::JoinRoom { id, monitor, name },
                picks,
            );
            let n = out.room.users.dom().len();
            out.resp matches Some(RoomResponseView::JoinRoom(answer)) && {
                let told = answer.users;
                &&& answer.state == RoomState::SelectChart(selected_chart(room))
                &&& answer.live == (room.live || monitor)
                &&& told.len() == n + out.room.monitors.dom().len()
                &&& forall|i: int|
                    0 <= i < n ==> out.room.users.contains_key((#[trigger] told[i]).id) && told[i]
                        == out.room.users[told[i].id]
                &&& forall|i: int|
                    n <= i < told.len() ==> out.room.monitors.contains_key(
                        (#[trigger] told[i]).id,
                    ) && told[i] == out.room.monitors[told[i].id]
                &&& forall|i: int, j: int|
                    0 <= i < j < n || n <= i < j < told.len() ==> (#[trigger] told[i]).id < (
                    #[trigger] told[j]).id
            }
        }),
{
    let out = room.told(
        Origin::Client { user_id: user },
        RoomCommand::JoinRoom { id, monitor, name },
        picks,
    );
    super::laws::told_is_sound(
        room,
        Origin::Client { user_id: user },
        RoomCommand::JoinRoom { id, monitor, name },
        picks,
    );
    lemma_values(out.room.users);
    lemma_values(out.room.monitors);
    let players = super::state::values_in_order(out.room.users);
    let ids = super::state::ids_in_order(out.room.users.dom());
    let watching = super::state::values_in_order(out.room.monitors);
    let watchers = super::state::ids_in_order(out.room.monitors.dom());
    let told = players + watching;
    let n = out.room.users.dom().len() as int;
    assert forall|i: int| 0 <= i < n implies out.room.users.contains_key((#[trigger] told[i]).id)
        && told[i] == out.room.users[told[i].id] && told[i].id == ids[i] by {
        assert(out.room.users.contains_key(ids[i]));
    }
    assert forall|i: int| n <= i < told.len() implies out.room.monitors.contains_key(
        (#[trigger] told[i]).id,
    ) && told[i] == out.room.monitors[told[i].id] && told[i].id == watchers[i - n] by {
        assert(out.room.monitors.contains_key(watchers[i - n]));
    }
    assert forall|i: int, j: int| 0 <= i < j < n || n <= i < j < told.len() implies (
    #[trigger] told[i]).id < (#[trigger] told[j]).id by {
        if j < n {
            assert(ids[i] < ids[j]);
        } else {
            assert(watchers[i - n] < watchers[j - n]);
        }
    }
}

/// A message of someone in the room is told as it is; who is not in the room is refused.
pub proof fn chatting_is_told(
    room: RoomView,
    user: i32,
    message: Varchar<200>,
    picks: Seq<Option<usize>>,
)
    ensures
        ({
            let out = room.told(
                Origin::Client { user_id: user },
                RoomCommand::Chat { message },
                picks,
            );
            if is_member(room, user) {
                &&& out.room == room
                &&& out.resp == Some(RoomResponseView::Done)
                &&& out.events == seq![
                    RoomEventView::Chat { room_id: room.id, user, content: message@ },
                ]
            } else {
                was_refused(room, out, RoomErrorCode::NotInRoom, "not in room"@)
            }
        }),
{
}

/// A chart is fetched for the host, while a chart may be selected, and for no one else; who may
/// not select is told why.
pub proof fn only_hosts_select(room: RoomView, user: i32, id: i32, picks: Seq<Option<usize>>)
    ensures
        ({
            let origin = Origin::Client { user_id: user };
            let cmd = RoomCommand::SelectChart { id };
            let out = room.told(origin, cmd, picks);
            &&& super::needs_chart(room, origin, cmd) == (room.phase is SelectChart && room.host
                == Some(user))
            &&& !(room.phase is SelectChart) ==> was_refused(
                room,
                out,
                RoomErrorCode::InvalidState,
                "invalid state"@,
            )
            &&& room.phase is SelectChart && room.host != Some(user) ==> was_refused(
                room,
                out,
                RoomErrorCode::OnlyHost,
                "only host can do this"@,
            )
            &&& room.phase is SelectChart && room.host == Some(user) ==> nothing_happened(room, out)
        }),
{
}

/// No other command waits for a chart.
pub proof fn only_selections_need_charts(room: RoomView, origin: Origin, cmd: RoomCommand)
    ensures
        super::needs_chart(room, origin, cmd) ==> cmd is SelectChart && origin is Client,
{
}

/// A chart that was fetched is the selected one then, and is told by its name and the id that was
/// asked for; where it could not be fetched, nothing happens, and the answer says why. Nothing
/// else changes.
pub proof fn fetched_chart_is_selected(
    room: RoomView,
    user: i32,
    id: i32,
    fetched: Result<Chart, ApiError>,
)
    ensures
        ({
            let out = room.selected(user, id, fetched);
            match fetched {
                Ok(chart) => {
                    &&& out.resp == Some(RoomResponseView::Done)
                    &&& out.events == seq![
                        RoomEventView::SelectChart { room_id: room.id, user, name: chart.name@, id },
                    ]
                    &&& out.room.chart == Some(ChartView { id: chart.id, name: chart.name@ })
                    &&& (RoomView { chart: room.chart, ..out.room }) == room
                },
                Err(ApiError::Internal { msg }) => {
                    &&& out.room == room
                    &&& out.events.len() == 0
                    &&& out.resp == Some(
                        RoomResponseView::Failure(RoomErrorView::Internal { msg: msg@ }),
                    )
                },
            }
        }),
{
}

/// The host starts a game when a chart is selected: the host is ready, and no one else; the game
/// times are forgotten. Where no one else is in the room, the game starts at once.
pub proof fn hosts_start_games(room: RoomView, user: i32, picks: Seq<Option<usize>>)
    ensures
        ({
            let out = room.told(Origin::Client { user_id: user }, RoomCommand::RequestStart, picks);
            let asked = RoomEventView::GameStart { room_id: room.id, user };
            if !(room.phase is SelectChart) {
                was_refused(room, out, RoomErrorCode::InvalidState, "invalid state"@)
            } else if room.host != Some(user) {
                was_refused(room, out, RoomErrorCode::OnlyHost, "only host can do this"@)
            } else if room.chart is None {
                was_refused(room, out, RoomErrorCode::NoChartSelected, "no chart selected"@)
            } else {
                &&& out.resp == Some(RoomResponseView::Done)
                &&& forall|other: i32| !(#[trigger] out.room.game_time.contains_key(other))
                &&& (RoomView { phase: room.phase, game_time: room.game_time, ..out.room }) == room
                &&& if (forall|other: i32| #[trigger] is_member(room, other) ==> other == user) {
                    &&& out.events == seq![
                        asked,
                        RoomEventView::StartPlaying { room_id: room.id },
                    ]
                    &&& plays_from_scratch(out.room)
                } else {
                    &&& out.events == seq![asked]
                    &&& out.room.phase matches PhaseView::WaitForReady { started, deadline: None }
                        && forall|other: i32| #[trigger]
                        started.contains(other) <==> other == user
                }
            }
        }),
{
    let started = Set::<i32>::empty().insert(user);
    let waiting = RoomView {
        phase: PhaseView::WaitForReady { started, deadline: None },
        game_time: Map::empty(),
        ..room
    };
    if room.phase is SelectChart && room.host == Some(user) && room.chart is Some {
        let out = room.told(Origin::Client { user_id: user }, RoomCommand::RequestStart, picks);
        if waiting.all_ready(started) {
            assert forall|other: i32| #[trigger] is_member(room, other) implies other == user by {
                assert(waiting.in_room(other));
                assert(started.contains(other));
            }
            assert(out.events =~= seq![
                RoomEventView::GameStart { room_id: room.id, user },
                RoomEventView::StartPlaying { room_id: room.id },
            ]);
        } else {
            let other = choose|other: i32| #[trigger]
                waiting.in_room(other) && !started.contains(other);
            assert(is_member(room, other));
            assert(out.events =~= seq![RoomEventView::GameStart { room_id: room.id, user }]);
        }
    }
}

/// Whether a room plays, and no one is done.
pub open spec fn plays_from_scratch(room: RoomView) -> bool {
    room.phase matches PhaseView::Playing { results, aborted } && forall|user: i32|
        !(#[trigger] results.contains_key(user)) && !(#[trigger] aborted.contains(user))
}

/// While a room waits, who gets ready is ready then, and everyone else just as before. The game
/// starts if and only if everyone in the room is ready. Nothing else changes.
pub proof fn getting_ready_adds_the_user(room: RoomView, user: i32, picks: Seq<Option<usize>>)
    ensures
        ({
            let out = room.told(Origin::Client { user_id: user }, RoomCommand::Ready, picks);
            match room.phase {
                PhaseView::WaitForReady { started, deadline } => if started.contains(user) {
                    was_refused(room, out, RoomErrorCode::AlreadyReady, "already ready"@)
                } else {
                    let ready = RoomEventView::Ready { room_id: room.id, user };
                    &&& out.resp == Some(RoomResponseView::Done)
                    &&& if (forall|other: i32| #[trigger]
                        is_member(room, other) ==> other == user || started.contains(other)) {
                        &&& out.events == seq![
                            ready,
                            RoomEventView::StartPlaying { room_id: room.id },
                        ]
                        &&& plays_from_scratch(out.room)
                        &&& forall|other: i32| !(#[trigger] out.room.game_time.contains_key(other))
                        &&& (RoomView {
                            phase: room.phase,
                            game_time: room.game_time,
                            ..out.room
                        }) == room
                    } else {
                        &&& out.events == seq![ready]
                        &&& out.room.phase matches PhaseView::WaitForReady {
                            started: after,
                            deadline: kept,
                        } && kept == deadline && forall|other: i32| #[trigger]
                            after.contains(other) <==> started.contains(other) || other == user
                        &&& (RoomView { phase: room.phase, ..out.room }) == room
                    }
                },
                _ => was_refused(room, out, RoomErrorCode::InvalidState, "invalid state"@),
            }
        }),
{
    if let PhaseView::WaitForReady { started, deadline } = room.phase {
        let out = room.told(Origin::Client { user_id: user }, RoomCommand::Ready, picks);
        let more = started.insert(user);
        let mid = RoomView {
            phase: PhaseView::WaitForReady { started: more, deadline },
            ..room
        };
        if !started.contains(user) {
            if mid.all_ready(more) {
                assert forall|other: i32| #[trigger] is_member(room, other) implies other == user
                    || started.contains(other) by {
                    assert(mid.in_room(other));
                    assert(more.contains(other));
                }
                assert(out.events =~= seq![
                    RoomEventView::Ready { room_id: room.id, user },
                    RoomEventView::StartPlaying { room_id: room.id },
                ]);
            } else {
                let other = choose|other: i32| #[trigger]
                    mid.in_room(other) && !more.contains(other);
                assert(is_member(room, other));
                assert(out.events =~= seq![RoomEventView::Ready { room_id: room.id, user }]);
            }
        }
    }
}

/// While a room waits, who is ready, is not the host and takes it back is not ready then, and
/// everyone else is just as before. Where it is the host, the game is called off, and what waits
/// to be relayed is dropped. Nothing else changes.
pub proof fn taking_it_back_removes_the_user(room: RoomView, user: i32, picks: Seq<Option<usize>>)
    ensures
        ({
            let out = room.told(Origin::Client { user_id: user }, RoomCommand::CancelReady, picks);
            match room.phase {
                PhaseView::WaitForReady { started, deadline } => if !started.contains(user) {
                    was_refused(room, out, RoomErrorCode::NotReady, "not ready"@)
                } else if room.host == Some(user) {
                    &&& out.resp == Some(RoomResponseView::Done)
                    &&& out.events == seq![
                        RoomEventView::CancelGame {
                            room_id: room.id,
                            user,
                            chart: selected_chart(room),
                        },
                    ]
                    &&& out.room.phase is SelectChart
                    &&& forall|other: i32| !(#[trigger] out.room.touches.contains_key(other))
                    &&& forall|other: i32| !(#[trigger] out.room.judges.contains_key(other))
                    &&& (RoomView {
                        phase: room.phase,
                        touches: room.touches,
                        judges: room.judges,
                        ..out.room
                    }) == room
                } else {
                    &&& out.resp == Some(RoomResponseView::Done)
                    &&& out.events == seq![RoomEventView::CancelReady { room_id: room.id, user }]
                    &&& out.room.phase matches PhaseView::WaitForReady {
                        started: after,
                        deadline: kept,
                    } && kept == deadline && forall|other: i32| #[trigger]
                        after.contains(other) <==> started.contains(other) && other != user
                    &&& (RoomView { phase: room.phase, ..out.room }) == room
                },
                _ => was_refused(room, out, RoomErrorCode::InvalidState, "invalid state"@),
            }
        }),
{
}

/// Who has taken it back is needed again: the game does not start when someone else gets ready.
pub proof fn no_start_without_who_took_it_back(
    room: RoomView,
    user: i32,
    other: i32,
    picks: Seq<Option<usize>>,
)
    requires
        room.phase is WaitForReady,
        room.phase->started.contains(user),
        room.host != Some(user),
        is_member(room, user),
        other != user,
    ensures
        ({
            let back = room.told(Origin::Client { user_id: user }, RoomCommand::CancelReady, picks);
            let next = back.room.told(Origin::Client { user_id: other }, RoomCommand::Ready, picks);
            &&& next.room.phase is WaitForReady
            &&& !next.room.phase->started.contains(user)
            &&& forall|i: int|
                0 <= i < next.events.len() ==> !((#[trigger] next.events[i]) is StartPlaying)
        }),
{
    taking_it_back_removes_the_user(room, user, picks);
    let back = room.told(Origin::Client { user_id: user }, RoomCommand::CancelReady, picks);
    getting_ready_adds_the_user(back.room, other, picks);
    assert(is_member(back.room, user));
}

/// While a room waits, nothing starts the game as long as someone in the room is not ready, but
/// that one getting ready, leaving, or being made to leave at the deadline.
pub proof fn no_start_without_everyone(
    room: RoomView,
    origin: Origin,
    cmd: RoomCommand,
    picks: Seq<Option<usize>>,
    user: i32,
)
    requires
        room.finite(),
        room.phase is WaitForReady,
        !room.phase->started.contains(user),
        is_member(room, user),
        !(cmd is Ready && origin == (Origin::Client { user_id: user })),
        cmd matches RoomCommand::Tick { now } ==> (room.phase->deadline matches Some(deadline)
            ==> now < deadline),
        is_member(room.told(origin, cmd, picks).room, user),
    ensures
        ({
            let out = room.told(origin, cmd, picks);
            &&& !(out.room.phase is Playing)
            &&& out.room.phase is WaitForReady ==> !out.room.phase->started.contains(user)
            &&& forall|i: int|
                0 <= i < out.events.len() ==> !((#[trigger] out.events[i]) is StartPlaying)
        }),
{
    let out = room.told(origin, cmd, picks);
    match (cmd, origin) {
        (RoomCommand::Ready, Origin::Client { user_id }) => {
            getting_ready_adds_the_user(room, user_id, picks);
        },
        (RoomCommand::CancelReady, Origin::Client { user_id }) => {
            taking_it_back_removes_the_user(room, user_id, picks);
        },
        (RoomCommand::Tick { now }, _) => {
            ticks_relay_what_waits(room, origin, now, picks);
            assert forall|i: int| 0 <= i < out.events.len() implies !((#[trigger] out.events[i])
                is StartPlaying) by {
                let n = room.touches.dom().len();
                assert(i < n || n <= i);
            }
        },
        (RoomCommand::LeaveRoom, Origin::Client { user_id }) => {
            lemma_lost(room, user_id, picks[0]);
        },
        (RoomCommand::AdminKick { user_id }, Origin::System) => {
            lemma_lost(room, user_id, picks[0]);
        },
        (RoomCommand::UserDangleExpired { user_id }, _) => {
            lemma_lost(room, user_id, picks[0]);
        },
        _ => {},
    }
}

/// What a game does once the players who are done are these: it ends if and only if everyone who
/// plays is done. Then what waits to be relayed is dropped, and in a room whose host changes the
/// player who came next after the host is the host.
pub open spec fn goes_on(
    room: RoomView,
    results: Map<i32, Record>,
    aborted: Set<i32>,
    first: RoomEventView,
    after: RoomView,
    events: Seq<RoomEventView>,
) -> bool {
    &&& events.len() > 0
    &&& events[0] == first
    &&& if everyone_done(room, results, aborted) {
        &&& after.phase is SelectChart
        &&& events.len() > 1
        &&& events[1] == (RoomEventView::GameEnd {
            room_id: room.id,
            chart: selected_chart(room),
        })
        &&& forall|user: i32| !(#[trigger] after.touches.contains_key(user))
        &&& forall|user: i32| !(#[trigger] after.judges.contains_key(user))
        &&& match room.host {
            Some(old) if room.cycle => hands_over(room, old, after, events.skip(2)),
            _ => events.len() == 2 && after.host == room.host,
        }
    } else {
        &&& events.len() == 1
        &&& after.phase == (PhaseView::Playing { results, aborted })
        &&& after.host == room.host
    }
}

/// How the host changes after a game: to the player who came next, or from the last one to the
/// first one. A host who does not play is followed by the first one; where no one plays there is no
/// host.
pub open spec fn hands_over(
    room: RoomView,
    old: i32,
    after: RoomView,
    events: Seq<RoomEventView>,
) -> bool {
    if room.order.len() == 0 {
        after.host is None && events.len() == 0
    } else {
        &&& after.host matches Some(host) && events == seq![
            RoomEventView::NewHost { room_id: room.id, new_host: host, old_host: old },
        ]
        &&& !room.order.contains(old) ==> after.host == Some(room.order[0])
        &&& forall|at: int|
            0 <= at < room.order.len() && (#[trigger] room.order[at]) == old && !room.order.take(
                at,
            ).contains(old) ==> after.host == Some(
                room.order[if at == room.order.len() - 1 {
                    0
                } else {
                    at + 1
                }],
            )
    }
}

proof fn lemma_hands_over(room: RoomView, old: i32)
    ensures
        ({
            let step = room.with_host(old, room.next_player(old));
            hands_over(room, old, step.room, step.events)
        }),
{
    let step = room.with_host(old, room.next_player(old));
    if room.order.contains(old) {
        room.order.index_of_first_ensures(old);
        let first = room.order.index_of_first(old)->0;
        assert forall|at: int|
            0 <= at < room.order.len() && (#[trigger] room.order[at]) == old && !room.order.take(
                at,
            ).contains(old) implies step.room.host == Some(
            room.order[if at == room.order.len() - 1 {
                0
            } else {
                at + 1
            }],
        ) by {
            if first < at {
                assert(room.order.take(at)[first] == old);
            }
            assert(at == first);
            let n = room.order.len();
            if at == n - 1 {
                vstd::arithmetic::div_mod::lemma_mod_self_0(n as int);
            } else {
                vstd::arithmetic::div_mod::lemma_small_mod((at + 1) as nat, n);
            }
        }
    } else {
        assert forall|at: int| 0 <= at < room.order.len() implies (#[trigger] room.order[at])
            != old by {
            assert(room.order.contains(room.order[at]));
        }
    }
}

proof fn lemma_goes_on(
    room: RoomView,
    results: Map<i32, Record>,
    aborted: Set<i32>,
    first: RoomEventView,
)
    requires
        room.phase == (PhaseView::Playing { results, aborted }),
    ensures
        ({
            let step = room.advanced_after(seq![first]);
            goes_on(room, results, aborted, first, step.room, step.events)
        }),
{
    let step = room.advanced_after(seq![first]);
    assert(everyone_done(room, results, aborted) == room.all_settled(results, aborted));
    if room.all_settled(results, aborted) {
        let end = RoomEventView::GameEnd { room_id: room.id, chart: room.chart_id() };
        if let Some(old) = room.host {
            if room.cycle {
                let over = RoomView {
                    phase: PhaseView::SelectChart,
                    touches: Map::empty(),
                    judges: Map::empty(),
                    ..room
                };
                let next = over.with_host(old, over.next_player(old));
                lemma_hands_over(over, old);
                assert(step.events =~= seq![first, end] + next.events);
                assert(step.events.skip(2) =~= next.events);
            } else {
                assert(step.events =~= seq![first, end]);
            }
        } else {
            assert(step.events =~= seq![first, end]);
        }
    } else {
        assert(step.events =~= seq![first]);
    }
}

/// During a game, a player who aborts counts as done, and nothing that the room holds of the
/// player's play is kept; everyone else is just as before. Who has uploaded a record, or has
/// aborted, is refused.
pub proof fn aborting_settles_the_player(room: RoomView, user: i32, picks: Seq<Option<usize>>)
    ensures
        ({
            let out = room.told(Origin::Client { user_id: user }, RoomCommand::Abort, picks);
            match room.phase {
                PhaseView::Playing { results, aborted } => if results.contains_key(user)
                    || room.inflight.contains_key(user) {
                    was_refused(room, out, RoomErrorCode::AlreadyUploaded, "already uploaded"@)
                } else if aborted.contains(user) {
                    was_refused(room, out, RoomErrorCode::AlreadyAborted, "aborted"@)
                } else {
                    &&& out.resp == Some(RoomResponseView::Done)
                    &&& settled_by_abort(room, results, aborted, user, out.room, out.events)
                    &&& out.room.inflight == room.inflight
                },
                _ => was_refused(room, out, RoomErrorCode::InvalidState, "invalid state"@),
            }
        }),
{
    if let PhaseView::Playing { results, aborted } = room.phase {
        lemma_settled_by_abort(room, results, aborted, user);
    }
}

/// Whether a player was settled by aborting, and no one else was touched.
pub open spec fn settled_by_abort(
    room: RoomView,
    results: Map<i32, Record>,
    aborted: Set<i32>,
    user: i32,
    after: RoomView,
    events: Seq<RoomEventView>,
) -> bool {
    let over = everyone_done(room, results, aborted.insert(user));
    &&& goes_on(
        room,
        results,
        aborted.insert(user),
        RoomEventView::Abort { room_id: room.id, user },
        after,
        events,
    )
    &&& !after.game_time.contains_key(user)
    &&& !after.touches.contains_key(user)
    &&& !after.judges.contains_key(user)
    &&& forall|other: i32|
        #![trigger after.game_time.contains_key(other)]
        #![trigger room.game_time.contains_key(other)]
        other != user ==> after.game_time.contains_key(other) == room.game_time.contains_key(other)
            && after.game_time[other] == room.game_time[other]
    &&& !over ==> forall|other: i32|
        #![trigger after.touches.contains_key(other)]
        #![trigger room.touches.contains_key(other)]
        other != user ==> after.touches.contains_key(other) == room.touches.contains_key(other)
            && after.touches[other] == room.touches[other]
    &&& !over ==> forall|other: i32|
        #![trigger after.judges.contains_key(other)]
        #![trigger room.judges.contains_key(other)]
        other != user ==> after.judges.contains_key(other) == room.judges.contains_key(other)
            && after.judges[other] == room.judges[other]
    &&& (RoomView {
        phase: room.phase,
        host: room.host,
        game_time: room.game_time,
        touches: room.touches,
        judges: room.judges,
        inflight: room.inflight,
        ..after
    }) == room
}

proof fn lemma_settled_by_abort(
    room: RoomView,
    results: Map<i32, Record>,
    aborted: Set<i32>,
    user: i32,
)
    requires
        room.phase == (PhaseView::Playing { results, aborted }),
    ensures
        ({
            let step = room.with_abort(user);
            &&& settled_by_abort(room, results, aborted, user, step.room, step.events)
            &&& step.room.inflight == room.inflight
        }),
{
    let mid = RoomView {
        phase: PhaseView::Playing { results, aborted: aborted.insert(user) },
        ..room.without_play_of(user)
    };
    let first = RoomEventView::Abort { room_id: room.id, user };
    lemma_goes_on(mid, results, aborted.insert(user), first);
    let step = room.with_abort(user);
    assert(everyone_done(mid, results, aborted.insert(user)) == everyone_done(
        room,
        results,
        aborted.insert(user),
    ));
    assert(hands_over(mid, room.host->0, step.room, step.events.skip(2)) == hands_over(
        room,
        room.host->0,
        step.room,
        step.events.skip(2),
    ));
}

/// During a game, the record that a player has uploaded is noted, unless the player is done or one
/// is noted already. Outside of a game an upload is answered, and nothing more.
pub proof fn uploads_are_noted(room: RoomView, user: i32, id: i32, picks: Seq<Option<usize>>)
    ensures
        ({
            let out = room.told(Origin::Client { user_id: user }, RoomCommand::Played { id }, picks);
            match room.phase {
                PhaseView::Playing { results, aborted } => if results.contains_key(user)
                    || aborted.contains(user) || room.inflight.contains_key(user) {
                    was_refused(room, out, RoomErrorCode::AlreadyUploaded, "already uploaded"@)
                } else {
                    &&& out.resp == Some(RoomResponseView::Done)
                    &&& out.events.len() == 0
                    &&& out.room.inflight.contains_key(user)
                    &&& out.room.inflight[user] == id
                    &&& forall|other: i32|
                        #![trigger out.room.inflight.contains_key(other)]
                        #![trigger room.inflight.contains_key(other)]
                        other != user ==> out.room.inflight.contains_key(other)
                            == room.inflight.contains_key(other) && out.room.inflight[other]
                            == room.inflight[other]
                    &&& (RoomView { inflight: room.inflight, ..out.room }) == room
                },
                _ => {
                    &&& out.room == room
                    &&& out.events.len() == 0
                    &&& out.resp == Some(RoomResponseView::Done)
                },
            }
        }),
{
}

/// A record that no one waits for does nothing. One that a player has uploaded is not waited for
/// any more; outside of a game that is all.
pub proof fn fetched_records_are_waited_for(
    room: RoomView,
    user: i32,
    record_id: i32,
    record: Result<Record, ApiError>,
    picks: Seq<Option<usize>>,
)
    ensures
        ({
            let out = room.told(
                Origin::System,
                RoomCommand::RecordFetched { user_id: user, record_id, record },
                picks,
            );
            let awaited = room.inflight.contains_key(user) && room.inflight[user] == record_id;
            &&& out.resp is None
            &&& !awaited ==> nothing_happened(room, out)
            &&& awaited ==> !out.room.inflight.contains_key(user)
            &&& forall|other: i32|
                #![trigger out.room.inflight.contains_key(other)]
                #![trigger room.inflight.contains_key(other)]
                other != user ==> out.room.inflight.contains_key(other)
                    == room.inflight.contains_key(other) && out.room.inflight[other]
                    == room.inflight[other]
            &&& !(room.phase is Playing) ==> out.events.len() == 0 && (RoomView {
                inflight: room.inflight,
                ..out.room
            }) == room
        }),
{
}

/// A record that arrives for a player in a game counts if it is the player's own, and is of the
/// selected chart or does not say of which chart it is, whatever else it says: the player is told
/// to have played, with what the record says. Everyone else is just as before.
pub proof fn own_records_count(
    room: RoomView,
    user: i32,
    record_id: i32,
    record: Record,
    picks: Seq<Option<usize>>,
)
    requires
        room.phase is Playing,
        !room.phase->results.contains_key(user),
        room.inflight.contains_key(user),
        room.inflight[user] == record_id,
        record.player == user,
        record.chart is None || record.chart == selected_chart(room),
    ensures
        ({
            let out = room.told(
                Origin::System,
                RoomCommand::RecordFetched { user_id: user, record_id, record: Ok(record) },
                picks,
            );
            let over = everyone_done(
                room,
                room.phase->results.insert(user, record),
                room.phase->aborted,
            );
            &&& goes_on(
                room,
                room.phase->results.insert(user, record),
                room.phase->aborted,
                RoomEventView::Played {
                    room_id: room.id,
                    user,
                    score: record.score,
                    accuracy: record.accuracy,
                    full_combo: record.full_combo,
                },
                out.room,
                out.events,
            )
            &&& !over ==> out.room.touches == room.touches && out.room.judges == room.judges
            &&& (RoomView {
                phase: room.phase,
                host: room.host,
                touches: room.touches,
                judges: room.judges,
                inflight: room.inflight,
                ..out.room
            }) == room
        }),
{
    let results = room.phase->results.insert(user, record);
    let aborted = room.phase->aborted;
    let mid = RoomView {
        phase: PhaseView::Playing { results, aborted },
        inflight: room.inflight.remove(user),
        ..room
    };
    let first = RoomEventView::Played {
        room_id: room.id,
        user,
        score: record.score,
        accuracy: record.accuracy,
        full_combo: record.full_combo,
    };
    lemma_goes_on(mid, results, aborted, first);
    let step = mid.advanced_after(seq![first]);
    assert(everyone_done(mid, results, aborted) == everyone_done(room, results, aborted));
    assert(hands_over(mid, room.host->0, step.room, step.events.skip(2)) == hands_over(
        room,
        room.host->0,
        step.room,
        step.events.skip(2),
    ));
}

/// A record that arrives for a player who has one replaces it, and nothing is told.
pub proof fn later_records_replace_earlier_ones(
    room: RoomView,
    user: i32,
    record_id: i32,
    record: Record,
    picks: Seq<Option<usize>>,
    other: i32,
)
    requires
        room.phase is Playing,
        room.phase->results.contains_key(user),
        room.inflight.contains_key(user),
        room.inflight[user] == record_id,
        record.player == user,
        record.chart is None || record.chart == selected_chart(room),
    ensures
        ({
            let out = room.told(
                Origin::System,
                RoomCommand::RecordFetched { user_id: user, record_id, record: Ok(record) },
                picks,
            );
            &&& out.events.len() == 0
            &&& out.room.phase matches PhaseView::Playing { results, aborted } && {
                &&& aborted == room.phase->aborted
                &&& results.contains_key(user) && results[user] == record
                &&& other != user ==> results.contains_key(other)
                    == room.phase->results.contains_key(other) && results[other]
                    == room.phase->results[other]
            }
            &&& (RoomView { phase: room.phase, inflight: room.inflight, ..out.room }) == room
        }),
{
}

/// Any other record, or none, counts as an abort of a player who is not done; of one who is done
/// nothing more is told.
pub proof fn other_records_count_as_aborts(
    room: RoomView,
    user: i32,
    record_id: i32,
    record: Result<Record, ApiError>,
    picks: Seq<Option<usize>>,
)
    requires
        room.phase is Playing,
        room.inflight.contains_key(user),
        room.inflight[user] == record_id,
        record matches Ok(record) ==> record.player != user || (record.chart is Some
            && record.chart != selected_chart(room)),
    ensures
        ({
            let out = room.told(
                Origin::System,
                RoomCommand::RecordFetched { user_id: user, record_id, record },
                picks,
            );
            if room.phase->results.contains_key(user) || room.phase->aborted.contains(user) {
                out.events.len() == 0 && (RoomView { inflight: room.inflight, ..out.room }) == room
            } else {
                settled_by_abort(
                    room,
                    room.phase->results,
                    room.phase->aborted,
                    user,
                    out.room,
                    out.events,
                )
            }
        }),
{
    let results = room.phase->results;
    let aborted = room.phase->aborted;
    let taken = RoomView { inflight: room.inflight.remove(user), ..room };
    lemma_settled_by_abort(taken, results, aborted, user);
    let step = taken.with_abort(user);
    assert(everyone_done(taken, results, aborted.insert(user)) == everyone_done(
        room,
        results,
        aborted.insert(user),
    ));
    assert(hands_over(taken, room.host->0, step.room, step.events.skip(2)) == hands_over(
        room,
        room.host->0,
        step.room,
        step.events.skip(2),
    ));
}

/// The host locks and unlocks the room, and turns the changing of hosts on and off, as asked; no
/// one else does. Nothing else changes.
pub proof fn hosts_set_the_room(
    room: RoomView,
    user: i32,
    lock: bool,
    cycle: bool,
    picks: Seq<Option<usize>>,
)
    ensures
        ({
            let origin = Origin::Client { user_id: user };
            let locked = room.told(origin, RoomCommand::LockRoom { lock }, picks);
            let cycling = room.told(origin, RoomCommand::CycleRoom { cycle }, picks);
            if room.host == Some(user) {
                &&& locked.resp == Some(RoomResponseView::Done)
                &&& locked.events == seq![RoomEventView::LockRoom { room_id: room.id, lock }]
                &&& locked.room.locked == lock
                &&& (RoomView { locked: room.locked, ..locked.room }) == room
                &&& cycling.resp == Some(RoomResponseView::Done)
                &&& cycling.events == seq![RoomEventView::CycleRoom { room_id: room.id, cycle }]
                &&& cycling.room.cycle == cycle
                &&& (RoomView { cycle: room.cycle, ..cycling.room }) == room
            } else {
                &&& was_refused(room, locked, RoomErrorCode::OnlyHost, "only host can do this"@)
                &&& was_refused(room, cycling, RoomErrorCode::OnlyHost, "only host can do this"@)
            }
        }),
{
}

/// Touches do not change what waits to be relayed of anyone else, and in a live room wait behind
/// what waits of the player already; the time of the last one is the game time of the player, and
/// the game time of everyone else stays. Nothing else changes, and nothing is told.
pub proof fn touches_wait_for_the_next_tick(
    room: RoomView,
    user: i32,
    frames: std::sync::Arc<Vec<crate::rooms::TouchFrame>>,
    picks: Seq<Option<usize>>,
)
    ensures
        ({
            let out = room.told(
                Origin::Client { user_id: user },
                RoomCommand::Touches { frames },
                picks,
            );
            let batch = frames.model();
            &&& out.resp is None
            &&& out.events.len() == 0
            &&& forall|other: i32|
                #![trigger out.room.game_time.contains_key(other)]
                #![trigger room.game_time.contains_key(other)]
                other != user || batch.len() == 0 ==> out.room.game_time.contains_key(other)
                    == room.game_time.contains_key(other) && out.room.game_time[other]
                    == room.game_time[other]
            &&& batch.len() > 0 ==> out.room.game_time.contains_key(user)
                && out.room.game_time[user] == batch[batch.len() - 1].time
            &&& room.live ==> adds_batch(room.touches, user, batch, out.room.touches)
            &&& !room.live ==> out.room.touches == room.touches
            &&& (RoomView {
                game_time: room.game_time,
                touches: room.touches,
                ..out.room
            }) == room
        }),
{
    lemma_adds_batch(room.touches, user, frames.model());
}

/// Judgements do not change what waits to be relayed of anyone else, and in a live room wait
/// behind what waits of the player already. Nothing else changes, and nothing is told.
pub proof fn judgements_wait_for_the_next_tick(
    room: RoomView,
    user: i32,
    judges: std::sync::Arc<Vec<JudgeEvent>>,
    picks: Seq<Option<usize>>,
)
    ensures
        ({
            let out = room.told(
                Origin::Client { user_id: user },
                RoomCommand::Judges { judges },
                picks,
            );
            &&& out.resp is None
            &&& out.events.len() == 0
            &&& room.live ==> adds_batch(room.judges, user, judges.model(), out.room.judges)
            &&& !room.live ==> out.room.judges == room.judges
            &&& (RoomView { judges: room.judges, ..out.room }) == room
        }),
{
    lemma_adds_batch(room.judges, user, judges.model());
}

/// Whether one batch of one player was added behind the others, and nothing changed for anyone
/// else.
pub open spec fn adds_batch<T>(
    before: Map<i32, Seq<Seq<T>>>,
    player: i32,
    batch: Seq<T>,
    after: Map<i32, Seq<Seq<T>>>,
) -> bool {
    &&& after.contains_key(player)
    &&& after[player].len() > 0
    &&& after[player].last() == batch
    &&& after[player].drop_last() == if before.contains_key(player) {
        before[player]
    } else {
        Seq::empty()
    }
    &&& forall|other: i32|
        #![trigger after.contains_key(other)]
        #![trigger before.contains_key(other)]
        other != player ==> after.contains_key(other) == before.contains_key(other) && after[other]
            == before[other]
}

proof fn lemma_adds_batch<T>(before: Map<i32, Seq<Seq<T>>>, player: i32, batch: Seq<T>)
    ensures
        adds_batch(before, player, batch, super::state::with_batch(before, player, batch)),
{
    let after = super::state::with_batch(before, player, batch);
    let batches = if before.contains_key(player) {
        before[player]
    } else {
        Seq::empty()
    };
    assert(after[player].drop_last() =~= batches);
}

/// Batches are relayed one after the other.
pub proof fn batches_are_joined<T>(batches: Seq<Seq<T>>, batch: Seq<T>)
    ensures
        super::state::concat(Seq::<Seq<T>>::empty()) == Seq::<T>::empty(),
        super::state::concat(batches.push(batch)) == super::state::concat(batches) + batch,
{
    assert(batches.push(batch).drop_last() =~= batches);
}

/// The judgements that a player has sent, by what everyone has sent.
pub open spec fn sent_by<T>(sent: Seq<(i32, Seq<T>)>, player: i32) -> Seq<T>
    decreases sent.len(),
{
    if sent.len() == 0 {
        Seq::empty()
    } else if sent.last().0 == player {
        sent_by(sent.drop_last(), player) + sent.last().1
    } else {
        sent_by(sent.drop_last(), player)
    }
}

/// A room after several judgements were sent.
pub open spec fn after_judgements(room: RoomView, sent: Seq<(i32, Seq<JudgeEvent>)>) -> RoomView
    decreases sent.len(),
{
    if sent.len() == 0 {
        room
    } else {
        after_judgements(room, sent.drop_last()).judged(sent.last().0, sent.last().1)
    }
}

/// A room after several touches were sent.
pub open spec fn after_touches(room: RoomView, sent: Seq<(i32, Seq<TouchFrameView>)>) -> RoomView
    decreases sent.len(),
{
    if sent.len() == 0 {
        room
    } else {
        after_touches(room, sent.drop_last()).touched(sent.last().0, sent.last().1)
    }
}

/// Whoever sends judgements in between, between two ticks of a live room all that a player has
/// sent waits to be relayed, in the order in which it was sent.
pub proof fn all_judgements_of_a_player_wait(
    room: RoomView,
    sent: Seq<(i32, Seq<JudgeEvent>)>,
    player: i32,
)
    requires
        room.live,
        !room.judges.contains_key(player),
    ensures
        ({
            let after = after_judgements(room, sent);
            &&& after.live
            &&& after.judges.contains_key(player) <==> exists|i: int|
                0 <= i < sent.len() && (#[trigger] sent[i]).0 == player
            &&& after.judges.contains_key(player) ==> super::state::concat(after.judges[player])
                == sent_by(sent, player)
            &&& !after.judges.contains_key(player) ==> sent_by(sent, player).len() == 0
        }),
    decreases sent.len(),
{
    if sent.len() > 0 {
        let front = sent.drop_last();
        all_judgements_of_a_player_wait(room, front, player);
        let before = after_judgements(room, front);
        lemma_adds_batch(before.judges, sent.last().0, sent.last().1);
        lemma_sent(sent, player);
        let after = after_judgements(room, sent);
        if sent.last().0 == player {
            let batches = if before.judges.contains_key(player) {
                before.judges[player]
            } else {
                Seq::empty()
            };
            assert(after.judges[player] =~= batches.push(sent.last().1));
            batches_are_joined(batches, sent.last().1);
            batches_are_joined(Seq::empty(), sent.last().1);
        }
    }
}

/// Whoever sends touches in between, between two ticks of a live room all that a player has sent
/// waits to be relayed, in the order in which it was sent.
pub proof fn all_touches_of_a_player_wait(
    room: RoomView,
    sent: Seq<(i32, Seq<TouchFrameView>)>,
    player: i32,
)
    requires
        room.live,
        !room.touches.contains_key(player),
    ensures
        ({
            let after = after_touches(room, sent);
            &&& after.live
            &&& after.touches.contains_key(player) <==> exists|i: int|
                0 <= i < sent.len() && (#[trigger] sent[i]).0 == player
            &&& after.touches.contains_key(player) ==> super::state::concat(after.touches[player])
                == sent_by(sent, player)
            &&& !after.touches.contains_key(player) ==> sent_by(sent, player).len() == 0
        }),
    decreases sent.len(),
{
    if sent.len() > 0 {
        let front = sent.drop_last();
        all_touches_of_a_player_wait(room, front, player);
        let before = after_touches(room, front);
        lemma_adds_batch(before.touches, sent.last().0, sent.last().1);
        lemma_sent(sent, player);
        let after = after_touches(room, sent);
        if sent.last().0 == player {
            let batches = if before.touches.contains_key(player) {
                before.touches[player]
            } else {
                Seq::empty()
            };
            assert(after.touches[player] =~= batches.push(sent.last().1));
            batches_are_joined(batches, sent.last().1);
            batches_are_joined(Seq::empty(), sent.last().1);
        }
    }
}

proof fn lemma_sent<T>(sent: Seq<(i32, Seq<T>)>, player: i32)
    requires
        sent.len() > 0,
    ensures
        (exists|i: int| 0 <= i < sent.len() && (#[trigger] sent[i]).0 == player) <==> sent.last().0
            == player || (exists|i: int|
            0 <= i < sent.drop_last().len() && (#[trigger] sent.drop_last()[i]).0 == player),
{
    let front = sent.drop_last();
    assert(sent[sent.len() - 1] == sent.last());
    if exists|i: int| 0 <= i < front.len() && (#[trigger] front[i]).0 == player {
        let i = choose|i: int| 0 <= i < front.len() && (#[trigger] front[i]).0 == player;
        assert(sent[i].0 == player);
    }
    if sent.last().0 != player && exists|i: int|
        0 <= i < sent.len() && (#[trigger] sent[i]).0 == player {
        let i = choose|i: int| 0 <= i < sent.len() && (#[trigger] sent[i]).0 == player;
        assert(front[i].0 == player);
    }
}

/// Whether these ids are those of a set, each of them once.
pub open spec fn lists(ids: Seq<i32>, set: Set<i32>) -> bool {
    ids.no_duplicates() && forall|id: i32| #[trigger] ids.contains(id) <==> set.contains(id)
}

/// Whether these events relay what waits: the touches of each player in one event, and then the
/// judgements of each player in one event, to those who watch.
pub open spec fn relays(room: RoomView, events: Seq<RoomEventView>) -> bool {
    let n = room.touches.dom().len();
    if (forall|user: i32| !(#[trigger] room.monitors.contains_key(user))) {
        events.len() == 0
    } else {
        &&& events.len() == n + room.judges.dom().len()
        &&& forall|i: int|
            0 <= i < n ==> ((#[trigger] events[i]) matches RoomEventView::RelayTouches {
                room_id,
                targets,
                player,
                frames,
            } && room_id == room.id && room.touches.contains_key(player) && frames
                == super::state::concat(room.touches[player]) && (targets matches
                TargetsView::Specific(ids) && lists(ids, room.monitors.dom())))
        &&& forall|i: int|
            n <= i < events.len() ==> ((#[trigger] events[i]) matches RoomEventView::RelayJudges {
                room_id,
                targets,
                player,
                judges,
            } && room_id == room.id && room.judges.contains_key(player) && judges
                == super::state::concat(room.judges[player]) && (targets matches
                TargetsView::Specific(ids) && lists(ids, room.monitors.dom())))
        &&& forall|i: int, j: int|
            0 <= i < j < n ==> (#[trigger] events[i])->RelayTouches_player != (
            #[trigger] events[j])->RelayTouches_player
        &&& forall|i: int, j: int|
            n <= i < j < events.len() ==> (#[trigger] events[i])->RelayJudges_player != (
            #[trigger] events[j])->RelayJudges_player
    }
}

proof fn lemma_listed(ids: Set<i32>)
    requires
        ids.finite(),
    ensures
        lists(super::state::ids_in_order(ids), ids),
        super::state::ids_in_order(ids).len() == ids.len(),
{
    let list = super::state::ids_in_order(ids);
    crate::binary::map::lemma_sorted_keys(ids);
    assert forall|i: int, j: int| 0 <= i < list.len() && 0 <= j < list.len() && i
        != j implies list[i] != list[j] by {
        if i < j {
            assert(crate::binary::map::MapKey::rank(&list[i]) < crate::binary::map::MapKey::rank(
                &list[j],
            ));
        } else {
            assert(crate::binary::map::MapKey::rank(&list[j]) < crate::binary::map::MapKey::rank(
                &list[i],
            ));
        }
    }
    list.unique_seq_to_set();
    assert forall|id: i32| #[trigger] list.contains(id) <==> ids.contains(id) by {
        assert(list.to_set().contains(id) <==> list.contains(id));
    }
}

proof fn lemma_relays(room: RoomView)
    requires
        room.finite(),
    ensures
        relays(room, room.flushed().events),
{
    lemma_listed(room.monitors.dom());
    lemma_listed(room.touches.dom());
    lemma_listed(room.judges.dom());
    let touching = super::state::ids_in_order(room.touches.dom());
    let judged = super::state::ids_in_order(room.judges.dom());
    let events = room.flushed().events;
    let n = touching.len() as int;
    if forall|user: i32| !(#[trigger] room.monitors.contains_key(user)) {
        assert(room.monitors.dom() =~= Set::empty());
    } else {
        let user = choose|user: i32| #[trigger] room.monitors.contains_key(user);
        assert(room.monitors.dom().contains(user));
        assert forall|i: int| 0 <= i < n implies (#[trigger] events[i]) is RelayTouches
            && events[i]->RelayTouches_player == touching[i] && room.touches.contains_key(
            touching[i],
        ) by {
            assert(touching.contains(touching[i]));
        }
        assert forall|i: int| n <= i < events.len() implies (#[trigger] events[i]) is RelayJudges
            && events[i]->RelayJudges_player == judged[i - n] && room.judges.contains_key(
            judged[i - n],
        ) by {
            assert(judged.contains(judged[i - n]));
        }
    }
}

/// A tick relays what waits, and nothing waits then. While no one has to get ready, nothing else
/// happens; while the time to get ready goes on, its end is set by the first tick, sixty seconds
/// later, or at the end of time.
pub proof fn ticks_relay_what_waits(
    room: RoomView,
    origin: Origin,
    now: u64,
    picks: Seq<Option<usize>>,
)
    requires
        room.finite(),
        room.phase matches PhaseView::WaitForReady { deadline: Some(deadline), .. } ==> now
            < deadline,
    ensures
        ({
            let out = room.told(origin, RoomCommand::Tick { now }, picks);
            &&& out.resp is None
            &&& relays(room, out.events)
            &&& forall|user: i32| !(#[trigger] out.room.touches.contains_key(user))
            &&& forall|user: i32| !(#[trigger] out.room.judges.contains_key(user))
            &&& (RoomView {
                phase: room.phase,
                touches: room.touches,
                judges: room.judges,
                ..out.room
            }) == room
            &&& match room.phase {
                PhaseView::WaitForReady { started, deadline: None } => out.room.phase == (
                PhaseView::WaitForReady {
                    started,
                    deadline: Some(
                        if now <= 0xFFFF_FFFF_FFFF_FFFF - 60_000 {
                            (now + 60_000) as u64
                        } else {
                            0xFFFF_FFFF_FFFF_FFFF
                        },
                    ),
                }),
                _ => out.room.phase == room.phase,
            }
        }),
{
    lemma_relays(room);
}

/// What a tick relays of the judgements of a player who is watched is all that the player has sent
/// since the last one, in the order in which it was sent, whoever else has sent some in between; of a
/// player who has sent nothing it relays nothing.
pub proof fn ticks_relay_all_that_was_sent(
    room: RoomView,
    sent: Seq<(i32, Seq<JudgeEvent>)>,
    player: i32,
    origin: Origin,
    now: u64,
    picks: Seq<Option<usize>>,
)
    requires
        room.finite(),
        room.live,
        exists|user: i32| #[trigger] room.monitors.contains_key(user),
        forall|user: i32| !(#[trigger] room.judges.contains_key(user)),
        !(room.phase is WaitForReady),
    ensures
        ({
            let out = after_judgements(room, sent).told(origin, RoomCommand::Tick { now }, picks);
            &&& (exists|i: int| 0 <= i < sent.len() && (#[trigger] sent[i]).0 == player)
                <==> exists|k: int|
                0 <= k < out.events.len() && is_relay_of(#[trigger] out.events[k], player)
            &&& forall|k: int|
                0 <= k < out.events.len() && is_relay_of(#[trigger] out.events[k], player)
                    ==> out.events[k]->RelayJudges_judges == sent_by(sent, player)
        }),
{
    let full = after_judgements(room, sent);
    let out = full.told(origin, RoomCommand::Tick { now }, picks);
    all_judgements_of_a_player_wait(room, sent, player);
    lemma_only_judgements_change(room, sent);
    ticks_relay_what_waits(full, origin, now, picks);
    let n = full.touches.dom().len() as int;
    assert forall|k: int|
        0 <= k < out.events.len() && is_relay_of(
            #[trigger] out.events[k],
            player,
        ) implies full.judges.contains_key(player) && out.events[k]->RelayJudges_judges
        == sent_by(sent, player) by {
        assert(n <= k);
    }
    if full.judges.contains_key(player) {
        lemma_listed(full.judges.dom());
        lemma_listed(full.touches.dom());
        let players = super::state::ids_in_order(full.judges.dom());
        assert(players.contains(player));
        let k = n + players.index_of(player);
        assert(full.monitors.dom().contains(choose|user: i32| #[trigger]
            room.monitors.contains_key(user)));
        assert(full.flushed().events == full.touch_relays() + full.judge_relays());
        assert(is_relay_of(out.events[k], player));
    }
}

/// What a tick relays of the touches of a player who is watched is all that the player has sent
/// since the last one, in the order in which it was sent, whoever else has sent some in between; of a
/// player who has sent nothing it relays nothing.
pub proof fn ticks_relay_all_that_was_touched(
    room: RoomView,
    sent: Seq<(i32, Seq<TouchFrameView>)>,
    player: i32,
    origin: Origin,
    now: u64,
    picks: Seq<Option<usize>>,
)
    requires
        room.finite(),
        room.live,
        exists|user: i32| #[trigger] room.monitors.contains_key(user),
        forall|user: i32| !(#[trigger] room.touches.contains_key(user)),
        !(room.phase is WaitForReady),
    ensures
        ({
            let out = after_touches(room, sent).told(origin, RoomCommand::Tick { now }, picks);
            &&& (exists|i: int| 0 <= i < sent.len() && (#[trigger] sent[i]).0 == player)
                <==> exists|k: int|
                0 <= k < out.events.len() && is_touch_relay_of(#[trigger] out.events[k], player)
            &&& forall|k: int|
                0 <= k < out.events.len() && is_touch_relay_of(#[trigger] out.events[k], player)
                    ==> out.events[k]->RelayTouches_frames == sent_by(sent, player)
        }),
{
    let full = after_touches(room, sent);
    let out = full.told(origin, RoomCommand::Tick { now }, picks);
    all_touches_of_a_player_wait(room, sent, player);
    lemma_only_touches_change(room, sent);
    ticks_relay_what_waits(full, origin, now, picks);
    let n = full.touches.dom().len() as int;
    assert forall|k: int|
        0 <= k < out.events.len() && is_touch_relay_of(
            #[trigger] out.events[k],
            player,
        ) implies full.touches.contains_key(player) && out.events[k]->RelayTouches_frames
        == sent_by(sent, player) by {
        assert(k < n);
    }
    if full.touches.contains_key(player) {
        lemma_listed(full.touches.dom());
        let players = super::state::ids_in_order(full.touches.dom());
        assert(players.contains(player));
        let k = players.index_of(player);
        assert(full.monitors.dom().contains(choose|user: i32| #[trigger]
            room.monitors.contains_key(user)));
        assert(full.flushed().events == full.touch_relays() + full.judge_relays());
        assert(is_touch_relay_of(out.events[k], player));
    }
}

/// Whether an event relays touches of a player.
pub open spec fn is_touch_relay_of(event: RoomEventView, player: i32) -> bool {
    event is RelayTouches && event->RelayTouches_player == player
}

proof fn lemma_only_touches_change(room: RoomView, sent: Seq<(i32, Seq<TouchFrameView>)>)
    requires
        room.finite(),
    ensures
        (RoomView {
            touches: room.touches,
            game_time: room.game_time,
            ..after_touches(room, sent)
        }) == room,
        after_touches(room, sent).finite(),
    decreases sent.len(),
{
    if sent.len() > 0 {
        lemma_only_touches_change(room, sent.drop_last());
        let before = after_touches(room, sent.drop_last());
        let after = after_touches(room, sent);
        if before.live {
            assert(after.touches.dom() =~= before.touches.dom().insert(sent.last().0));
        }
    }
}

/// Whether an event relays judgements of a player.
pub open spec fn is_relay_of(event: RoomEventView, player: i32) -> bool {
    event is RelayJudges && event->RelayJudges_player == player
}

proof fn lemma_only_judgements_change(room: RoomView, sent: Seq<(i32, Seq<JudgeEvent>)>)
    requires
        room.finite(),
    ensures
        (RoomView { judges: room.judges, ..after_judgements(room, sent) }) == room,
        after_judgements(room, sent).finite(),
    decreases sent.len(),
{
    if sent.len() > 0 {
        lemma_only_judgements_change(room, sent.drop_last());
        let before = after_judgements(room, sent.drop_last());
        let after = after_judgements(room, sent);
        if before.live {
            assert(after.judges.dom() =~= before.judges.dom().insert(sent.last().0));
        }
    }
}

/// Who has lost the connection is away and keeps the place; who is back is away no longer; no one
/// else is touched, and nothing is told.
pub proof fn connections_only_mark_users(
    room: RoomView,
    origin: Origin,
    user: i32,
    epoch: u64,
    picks: Seq<Option<usize>>,
)
    ensures
        ({
            let lost = room.told(
                origin,
                RoomCommand::UserDisconnected { user_id: user, epoch },
                picks,
            );
            let back = room.told(
                origin,
                RoomCommand::UserReconnected { user_id: user, epoch },
                picks,
            );
            &&& lost.resp is None && lost.events.len() == 0
            &&& forall|other: i32| #[trigger]
                lost.room.absent.contains(other) <==> room.absent.contains(other) || (other == user
                    && is_member(room, user))
            &&& (RoomView { absent: room.absent, ..lost.room }) == room
            &&& back.resp is None && back.events.len() == 0
            &&& forall|other: i32| #[trigger]
                back.room.absent.contains(other) <==> room.absent.contains(other) && other != user
            &&& (RoomView { absent: room.absent, ..back.room }) == room
        }),
{
}

/// What a user in the room is told of it: each thing as it is, the users who play and those who
/// watch. Who is not in the room is told that there is nothing to tell. Nothing changes.
pub proof fn states_are_told_as_they_are(
    room: RoomView,
    origin: Origin,
    user: i32,
    picks: Seq<Option<usize>>,
)
    ensures
        ({
            let out = room.told(origin, RoomCommand::GetClientState { user_id: user }, picks);
            &&& out.room == room
            &&& out.events.len() == 0
            &&& !is_member(room, user) ==> out.resp == Some(RoomResponseView::ClientState(None))
            &&& is_member(room, user) ==> (out.resp matches Some(
                RoomResponseView::ClientState(Some(told)),
            ) && {
                &&& told.id == room.id
                &&& told.state == match room.phase {
                    PhaseView::SelectChart => RoomState::SelectChart(selected_chart(room)),
                    PhaseView::WaitForReady { .. } => RoomState::WaitingForReady,
                    PhaseView::Playing { .. } => RoomState::Playing,
                }
                &&& told.live == room.live
                &&& told.locked == room.locked
                &&& told.cycle == room.cycle
                &&& told.is_host == (room.host == Some(user))
                &&& told.is_ready == (room.phase is WaitForReady && room.phase->started.contains(
                    user,
                ))
                &&& forall|other: i32| #[trigger]
                    told.users.contains_key(other) <==> is_member(room, other)
                &&& forall|other: i32|
                    room.monitors.contains_key(other) ==> (#[trigger] told.users[other])
                        == room.monitors[other]
                &&& forall|other: i32|
                    room.users.contains_key(other) && !room.monitors.contains_key(other) ==> (
                    #[trigger] told.users[other]) == room.users[other]
                &&& room.game_time.contains_key(user) ==> told.last_game_time
                    == room.game_time[user]
                &&& !room.game_time.contains_key(user) ==> told.last_game_time == (Float32 {
                    bits: 0xFF80_0000,
                })
            })
        }),
{
}

/// A new configuration says who may watch from now on. Nothing else changes, and nothing is told.
pub proof fn configurations_say_who_may_watch(
    room: RoomView,
    origin: Origin,
    config: std::sync::Arc<RoomConfig>,
    picks: Seq<Option<usize>>,
)
    ensures
        ({
            let out = room.told(origin, RoomCommand::UpdateConfig { config }, picks);
            &&& out.resp is None && out.events.len() == 0
            &&& out.room.allowed == config.monitors@
            &&& (RoomView { allowed: room.allowed, ..out.room }) == room
        }),
{
}

/// What the server says to a room is told as a message of no user.
pub proof fn broadcasts_are_told(room: RoomView, content: String, picks: Seq<Option<usize>>)
    ensures
        ({
            let out = room.told(Origin::System, RoomCommand::AdminBroadcast { content }, picks);
            &&& out.room == room
            &&& out.resp == Some(RoomResponseView::Done)
            &&& out.events == seq![
                RoomEventView::Chat { room_id: room.id, user: 0, content: content@ },
            ]
        }),
{
}

/// Nothing comes of what users ask for that only the server may do, nor of what no user asks for
/// that only users may do.
pub proof fn strange_commands_do_nothing(
    room: RoomView,
    origin: Origin,
    cmd: RoomCommand,
    picks: Seq<Option<usize>>,
)
    requires
        origin is Client ==> cmd is RecordFetched || cmd is AdminKick || cmd is AdminBroadcast,
        origin is System ==> cmd is CreateRoom || cmd is JoinRoom || cmd is LeaveRoom || cmd is Chat
            || cmd is SelectChart || cmd is RequestStart || cmd is Ready || cmd is CancelReady
            || cmd is Abort || cmd is Played || cmd is LockRoom || cmd is CycleRoom
            || cmd is Touches || cmd is Judges,
    ensures
        nothing_happened(room, room.told(origin, cmd, picks)),
{
}

/// The players in the order in which they came, without one.
pub open spec fn those_but(order: Seq<i32>, user: i32) -> Seq<i32>
    decreases order.len(),
{
    if order.len() == 0 {
        Seq::empty()
    } else if order.last() == user {
        those_but(order.drop_last(), user)
    } else {
        those_but(order.drop_last(), user).push(order.last())
    }
}

proof fn lemma_those_but(order: Seq<i32>, user: i32)
    ensures
        order.filter(super::state::other_than(user)) == those_but(order, user),
    decreases order.len(),
{
    reveal(Seq::filter);
    if order.len() > 0 {
        lemma_those_but(order.drop_last(), user);
    }
}

/// Whether what a room holds of everyone but one is just as before, and of the one there is
/// nothing.
pub open spec fn forgets<V>(before: Map<i32, V>, user: i32, after: Map<i32, V>) -> bool {
    &&& !after.contains_key(user)
    &&& forall|other: i32|
        #![trigger after.contains_key(other)]
        #![trigger before.contains_key(other)]
        other != user ==> after.contains_key(other) == before.contains_key(other) && after[other]
            == before[other]
}

/// Whether a room has lost a user, and the events tell of it: the user is told to have left. If
/// the user was the host, the player who was drawn out of those who stay is the host. A room in
/// which no one plays closes. Otherwise it goes on: if everyone who stays is ready, the game
/// starts; if everyone who stays and plays is done, the game ends.
pub open spec fn lost(
    room: RoomView,
    user: i32,
    pick: Option<usize>,
    after: RoomView,
    events: Seq<RoomEventView>,
) -> bool {
    let order = those_but(room.order, user);
    let drawn: Option<i32> = match pick {
        Some(i) if i < order.len() => Some(order[i as int]),
        _ => None,
    };
    let host = if room.host == Some(user) {
        drawn
    } else {
        room.host
    };
    let gone = seq![
        RoomEventView::UserLeft {
            room_id: room.id,
            user,
            name: if room.users.contains_key(user) {
                room.users[user].name
            } else if room.monitors.contains_key(user) {
                room.monitors[user].name
            } else {
                Seq::empty()
            },
        },
    ];
    let told = match drawn {
        Some(new_host) if room.host == Some(user) => gone.push(
            RoomEventView::NewHost { room_id: room.id, new_host, old_host: user },
        ),
        _ => gone,
    };
    let staying = RoomView { order, host, ..after };
    &&& forgets(room.users, user, after.users)
    &&& forgets(room.monitors, user, after.monitors)
    &&& after.order == order
    &&& forall|other: i32| #[trigger]
        after.absent.contains(other) <==> room.absent.contains(other) && other != user
    &&& after.live == (room.live && exists|other: i32| #[trigger]
        after.monitors.contains_key(other))
    &&& (RoomView {
        users: room.users,
        monitors: room.monitors,
        order: room.order,
        absent: room.absent,
        live: room.live,
        phase: room.phase,
        host: room.host,
        touches: room.touches,
        judges: room.judges,
        game_time: room.game_time,
        ..after
    }) == room
    &&& if (forall|other: i32| !(#[trigger] after.users.contains_key(other))) {
        &&& events == told.push(RoomEventView::RoomClosed { room_id: room.id })
        &&& keeps_on(room, user, host, after)
    } else {
        match room.phase {
            PhaseView::WaitForReady { started, .. } if everyone_ready(after, started) => {
                &&& events == told.push(RoomEventView::StartPlaying { room_id: room.id })
                &&& plays_from_scratch(after)
                &&& after.host == host
                &&& forall|other: i32| !(#[trigger] after.game_time.contains_key(other))
                &&& forgets(room.touches, user, after.touches)
                &&& forgets(room.judges, user, after.judges)
            },
            PhaseView::Playing { results, aborted } if everyone_done(after, results, aborted) => {
                &&& after.phase is SelectChart
                &&& forall|other: i32| !(#[trigger] after.touches.contains_key(other))
                &&& forall|other: i32| !(#[trigger] after.judges.contains_key(other))
                &&& forgets(room.game_time, user, after.game_time)
                &&& events.len() > told.len()
                &&& events.take(told.len() as int) == told
                &&& events[told.len() as int] == (RoomEventView::GameEnd {
                    room_id: room.id,
                    chart: selected_chart(room),
                })
                &&& match host {
                    Some(old) if room.cycle => hands_over(
                        staying,
                        old,
                        after,
                        events.skip(told.len() as int + 1),
                    ),
                    _ => events.len() == told.len() + 1 && after.host == host,
                }
            },
            _ => {
                &&& events == told
                &&& keeps_on(room, user, host, after)
            },
        }
    }
}

/// Whether a room that has lost a user is in the phase in which it was.
pub open spec fn keeps_on(
    room: RoomView,
    user: i32,
    host: Option<i32>,
    after: RoomView,
) -> bool {
    &&& after.phase == room.phase
    &&& after.host == host
    &&& forgets(room.touches, user, after.touches)
    &&& forgets(room.judges, user, after.judges)
    &&& forgets(room.game_time, user, after.game_time)
}

proof fn lemma_lost(room: RoomView, user: i32, pick: Option<usize>)
    ensures
        lost(room, user, pick, room.evicted(user, pick).room, room.evicted(user, pick).events),
{
    let step = room.evicted(user, pick);
    let after = step.room;
    let left = room.without(user);
    lemma_those_but(room.order, user);
    let hosted = if room.is_host(user) {
        left.with_host(user, left.drawn_player(pick))
    } else {
        super::state::Step { room: left, events: Seq::empty() }
    };
    let gone = seq![
        RoomEventView::UserLeft { room_id: room.id, user, name: room.name_of(user) },
    ];
    let told = gone + hosted.events;
    super::laws::advanced_is_sound(hosted.room);
    assert(after.users == left.users && after.monitors == left.monitors);
    assert(after.order == left.order && after.absent == left.absent);
    assert(after.live == left.live);
    if after.live {
        let other = after.monitors.dom().choose();
        assert(after.monitors.contains_key(other));
    }
    if exists|other: i32| #[trigger] after.monitors.contains_key(other) {
        let other = choose|other: i32| #[trigger] after.monitors.contains_key(other);
        assert(room.monitors.remove(user).dom().contains(other));
    }
    if hosted.events.len() == 1 {
        assert(told =~= gone.push(hosted.events[0]));
    } else {
        assert(told =~= gone);
    }
    let alone = hosted.room.users.dom().is_empty();
    if alone {
        assert forall|other: i32| !(#[trigger] after.users.contains_key(other)) by {
            assert(!hosted.room.users.dom().contains(other));
        }
        assert(step.events =~= told.push(RoomEventView::RoomClosed { room_id: room.id }));
    } else {
        let other = hosted.room.users.dom().choose();
        assert(after.users.contains_key(other));
        match room.phase {
            PhaseView::WaitForReady { started, .. } => {
                lemma_ready(hosted.room, started);
                assert(everyone_ready(after, started) == everyone_ready(hosted.room, started));
                if hosted.room.all_ready(started) {
                    assert(step.events =~= told.push(
                        RoomEventView::StartPlaying { room_id: room.id },
                    ));
                } else {
                    assert(step.events =~= told);
                }
            },
            PhaseView::Playing { results, aborted } => {
                assert(everyone_done(after, results, aborted) == hosted.room.all_settled(
                    results,
                    aborted,
                ));
                if hosted.room.all_settled(results, aborted) {
                    let end = RoomEventView::GameEnd { room_id: room.id, chart: room.chart_id() };
                    lemma_goes_on(hosted.room, results, aborted, end);
                    let next = hosted.room.advanced();
                    let more = hosted.room.advanced_after(seq![end]);
                    assert(more.events =~= seq![end] + next.events);
                    assert(step.events =~= told + next.events);
                    assert(step.events.take(told.len() as int) =~= told);
                    assert(next.events[0] == end);
                    assert(step.events.skip(told.len() as int + 1) =~= more.events.skip(2));
                } else {
                    assert(step.events =~= told);
                }
            },
            _ => {
                assert(step.events =~= told);
            },
        }
    }
}

/// Who leaves, or is made to leave by the server, leaves; who is not in the room is refused.
pub proof fn leaving_loses_the_user(room: RoomView, user: i32, picks: Seq<Option<usize>>)
    ensures
        ({
            let left = room.told(Origin::Client { user_id: user }, RoomCommand::LeaveRoom, picks);
            let kicked = room.told(
                Origin::System,
                RoomCommand::AdminKick { user_id: user },
                picks,
            );
            if is_member(room, user) {
                &&& left.resp == Some(RoomResponseView::Done)
                &&& lost(room, user, picks[0], left.room, left.events)
                &&& kicked.resp == Some(RoomResponseView::Done)
                &&& lost(room, user, picks[0], kicked.room, kicked.events)
            } else {
                &&& was_refused(room, left, RoomErrorCode::NotInRoom, "not in room"@)
                &&& was_refused(room, kicked, RoomErrorCode::NotInRoom, "not in room"@)
            }
        }),
{
    lemma_lost(room, user, picks[0]);
}

/// Who is away for too long leaves; who is not away does not. There is no answer.
pub proof fn staying_away_loses_the_user(
    room: RoomView,
    origin: Origin,
    user: i32,
    picks: Seq<Option<usize>>,
)
    ensures
        ({
            let out = room.told(
                origin,
                RoomCommand::UserDangleExpired { user_id: user },
                picks,
            );
            &&& out.resp is None
            &&& if room.absent.contains(user) {
                lost(room, user, picks[0], out.room, out.events)
            } else {
                nothing_happened(room, out)
            }
        }),
{
    lemma_lost(room, user, picks[0]);
}

/// Several users leave one after the other, each out of the room that the others have left.
pub proof fn users_leave_one_after_the_other(
    room: RoomView,
    users: Seq<i32>,
    picks: Seq<Option<usize>>,
    user: i32,
    pick: Option<usize>,
)
    ensures
        room.evicted_all(Seq::empty(), Seq::empty()).room == room,
        room.evicted_all(Seq::empty(), Seq::empty()).events.len() == 0,
        ({
            let before = room.evicted_all(users, picks);
            let after = room.evicted_all(users.push(user), picks.push(pick));
            &&& after.events.len() >= before.events.len()
            &&& after.events.take(before.events.len() as int) == before.events
            &&& lost(
                before.room,
                user,
                pick,
                after.room,
                after.events.skip(before.events.len() as int),
            )
        }),
{
    let before = room.evicted_all(users, picks);
    let after = room.evicted_all(users.push(user), picks.push(pick));
    assert(users.push(user).drop_last() =~= users);
    assert(picks.push(pick).drop_last() =~= picks);
    lemma_lost(before.room, user, pick);
    let last = before.room.evicted(user, pick);
    assert(after.events.take(before.events.len() as int) =~= before.events);
    assert(after.events.skip(before.events.len() as int) =~= last.events);
}

/// Who has to leave because of a tick at the deadline: everyone who is not ready, first those who
/// play, then those who watch, both in ascending order of their ids.
pub proof fn those_not_ready_have_to_leave(room: RoomView, origin: Origin, now: u64)
    requires
        room.finite(),
        room.phase matches PhaseView::WaitForReady { deadline: Some(deadline), .. } && now
            >= deadline,
    ensures
        ({
            let who = super::state::leavers(room, origin, RoomCommand::Tick { now });
            let started = room.phase->started;
            exists|n: int|
                {
                    &&& 0 <= n <= who.len()
                    &&& #[trigger] ascends(who.take(n))
                    &&& ascends(who.skip(n))
                    &&& forall|user: i32| #[trigger]
                        who.take(n).contains(user) <==> room.users.contains_key(user)
                            && !started.contains(user)
                    &&& forall|user: i32| #[trigger]
                        who.skip(n).contains(user) <==> room.monitors.contains_key(user)
                            && !started.contains(user)
                }
        }),
{
    let started = room.phase->started;
    let flushed = room.flushed().room;
    let who = super::state::leavers(room, origin, RoomCommand::Tick { now });
    let players = super::state::ids_in_order(room.users.dom());
    let watchers = super::state::ids_in_order(room.monitors.dom());
    crate::binary::map::lemma_sorted_keys(room.users.dom());
    crate::binary::map::lemma_sorted_keys(room.monitors.dom());
    let a = RoomView::unready(players, started);
    let b = RoomView::unready(watchers, started);
    let n = a.len() as int;
    assert(who == a + b);
    assert(who.take(n) =~= a);
    assert(who.skip(n) =~= b);
    lemma_ascending(players);
    lemma_ascending(watchers);
    lemma_filter_ascends(players, super::state::outside(started));
    lemma_filter_ascends(watchers, super::state::outside(started));
    assert forall|user: i32| #[trigger] who.take(n).contains(user) <==> room.users.contains_key(
        user,
    ) && !started.contains(user) by {
        crate::bus::routes::lemma_filter_has(players, super::state::outside(started), user);
        assert(players.to_set().contains(user) <==> players.contains(user));
    }
    assert forall|user: i32| #[trigger] who.skip(n).contains(user) <==> room.monitors.contains_key(
        user,
    ) && !started.contains(user) by {
        crate::bus::routes::lemma_filter_has(watchers, super::state::outside(started), user);
        assert(watchers.to_set().contains(user) <==> watchers.contains(user));
    }
    assert(ascends(who.take(n)));
}

/// Whether ids are in ascending order, each of them once.
pub open spec fn ascends(ids: Seq<i32>) -> bool {
    forall|i: int, j: int| 0 <= i < j < ids.len() ==> (#[trigger] ids[i]) < (#[trigger] ids[j])
}

proof fn lemma_ascending(ids: Seq<i32>)
    requires
        crate::binary::map::ascending(ids),
    ensures
        ascends(ids),
{
    assert forall|i: int, j: int| 0 <= i < j < ids.len() implies (#[trigger] ids[i]) < (
    #[trigger] ids[j]) by {
        assert(crate::binary::map::MapKey::rank(&ids[i]) < crate::binary::map::MapKey::rank(
            &ids[j],
        ));
    }
}

proof fn lemma_filter_ascends(ids: Seq<i32>, keep: spec_fn(i32) -> bool)
    requires
        ascends(ids),
    ensures
        ascends(ids.filter(keep)),
    decreases ids.len(),
{
    reveal(Seq::filter);
    if ids.len() > 0 {
        let front = ids.drop_last();
        assert forall|i: int, j: int| 0 <= i < j < front.len() implies (#[trigger] front[i]) < (
        #[trigger] front[j]) by {
            assert(ids[i] < ids[j]);
        }
        lemma_filter_ascends(front, keep);
        let kept = front.filter(keep);
        assert forall|i: int| 0 <= i < kept.len() implies (#[trigger] kept[i]) < ids.last() by {
            assert(kept.contains(kept[i]));
            crate::bus::routes::lemma_filter_has(front, keep, kept[i]);
            let k = front.index_of(kept[i]);
            assert(ids[k] < ids[ids.len() - 1]);
        }
    }
}

/// A tick at the deadline relays what waits, and then makes those leave who have to. Where the
/// room still waits then, the game starts if and only if everyone who is left is ready.
pub proof fn ticks_at_the_deadline(
    room: RoomView,
    origin: Origin,
    now: u64,
    picks: Seq<Option<usize>>,
)
    requires
        room.finite(),
        room.phase matches PhaseView::WaitForReady { deadline: Some(deadline), .. } && now
            >= deadline,
    ensures
        ({
            let out = room.told(origin, RoomCommand::Tick { now }, picks);
            let who = super::state::leavers(room, origin, RoomCommand::Tick { now });
            let quiet = super::state::left_room(room, RoomCommand::Tick { now });
            let left = quiet.evicted_all(who, picks);
            &&& out.resp is None
            &&& forall|user: i32| !(#[trigger] quiet.touches.contains_key(user))
            &&& forall|user: i32| !(#[trigger] quiet.judges.contains_key(user))
            &&& (RoomView { touches: room.touches, judges: room.judges, ..quiet }) == room
            &&& exists|flushed: Seq<RoomEventView>|
                #![trigger relays(room, flushed)]
                {
                    &&& relays(room, flushed)
                    &&& if left.room.phase is WaitForReady && everyone_ready(
                        left.room,
                        left.room.phase->started,
                    ) {
                        &&& out.events == (flushed + left.events).push(
                            RoomEventView::StartPlaying { room_id: left.room.id },
                        )
                        &&& plays_from_scratch(out.room)
                        &&& forall|user: i32| !(#[trigger] out.room.game_time.contains_key(user))
                        &&& (RoomView {
                            phase: left.room.phase,
                            game_time: left.room.game_time,
                            ..out.room
                        }) == left.room
                    } else {
                        &&& out.events == flushed + left.events
                        &&& out.room == left.room
                    }
                }
        }),
{
    lemma_relays(room);
    let out = room.told(origin, RoomCommand::Tick { now }, picks);
    let who = super::state::leavers(room, origin, RoomCommand::Tick { now });
    let quiet = super::state::left_room(room, RoomCommand::Tick { now });
    let left = quiet.evicted_all(who, picks);
    let flushed = room.flushed().events;
    assert(relays(room, flushed));
    if left.room.phase is WaitForReady {
        lemma_ready(left.room, left.room.phase->started);
        if left.room.all_ready(left.room.phase->started) {
            assert(out.events =~= (flushed + left.events).push(
                RoomEventView::StartPlaying { room_id: left.room.id },
            ));
        } else {
            assert(out.events =~= flushed + left.events);
        }
    }
}

/// Who has to leave because of any other command: who asks to leave, is made to leave, or was away
/// for too long; no one because of other commands.
pub proof fn commands_make_few_leave(room: RoomView, origin: Origin, cmd: RoomCommand)
    requires
        !(cmd is Tick),
    ensures
        super::state::left_room(room, cmd) == room,
        super::state::leavers(room, origin, cmd) == match (cmd, origin) {
            (RoomCommand::UserDangleExpired { user_id }, _) if room.absent.contains(user_id) => seq![
                user_id,
            ],
            (RoomCommand::LeaveRoom, Origin::Client { user_id }) if is_member(room, user_id) => seq![
                user_id,
            ],
            (RoomCommand::AdminKick { user_id }, Origin::System) if is_member(room, user_id) => seq![
                user_id,
            ],
            _ => Seq::empty(),
        },
{
}

/// Nobody has to leave because of a tick before the deadline.
pub proof fn early_ticks_make_no_one_leave(room: RoomView, origin: Origin, now: u64)
    requires
        room.phase matches PhaseView::WaitForReady { deadline: Some(deadline), .. } ==> now
            < deadline,
    ensures
        super::state::leavers(room, origin, RoomCommand::Tick { now }).len() == 0,
{
}

/// For each user who leaves a draw is made if and only if the user is the host, out of the players
/// who stay; the source of random numbers is used for nothing else.
pub proof fn draws_are_made_for_hosts<R: RandomSource>(
    room: RoomView,
    users: Seq<i32>,
    picks: Seq<Option<usize>>,
    sources: Seq<R>,
    i: int,
)
    requires
        super::state::drew_all(room, users, picks, sources),
        0 <= i < users.len(),
    ensures
        picks.len() == users.len(),
        sources.len() == users.len() + 1,
        ({
            let there = room.evicted_all(users.take(i), picks.take(i)).room;
            if there.host == Some(users[i]) {
                sources[i].may_pick(
                    those_but(there.order, users[i]).len() as usize,
                    picks[i],
                    sources[i + 1],
                )
            } else {
                picks[i] is None && sources[i + 1] == sources[i]
            }
        }),
{
    let there = room.evicted_all(users.take(i), picks.take(i)).room;
    lemma_those_but(there.order, users[i]);
}

/// A new room is empty: no one is in it, nothing is selected, and it is open.
pub proof fn new_rooms_are_empty(id: Seq<char>, allowed: Seq<i32>, user: i32)
    ensures
        ({
            let room = RoomView::fresh(id, allowed);
            &&& room.id == id
            &&& room.allowed == allowed
            &&& room.phase is SelectChart
            &&& room.host is None && room.chart is None
            &&& !room.locked && !room.cycle && !room.live
            &&& room.order.len() == 0
            &&& !room.users.contains_key(user) && !room.monitors.contains_key(user)
            &&& !room.absent.contains(user) && !room.inflight.contains_key(user)
            &&& !room.touches.contains_key(user) && !room.judges.contains_key(user)
            &&& !room.game_time.contains_key(user)
        }),
{
}

} // verus!
