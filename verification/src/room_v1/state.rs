//! What a room is, and what each command makes of it.
//!
//! A room is a mathematical value here, and a command a function from rooms to rooms. Where a
//! host has to be drawn at random, the function takes what was drawn as an argument. Where a room
//! goes through its users, it does so in ascending order of their ids, players before monitors.

use vstd::prelude::*;

use crate::model::HasModel;
use crate::rooms::{
    ApiError, Chart, ChartView, ClientRoomStateView, Float32, JoinRoomResponseView, JudgeEvent,
    Origin, RandomSource, Record, RoomCommand, RoomErrorCode, RoomErrorView, RoomEventView, RoomResponseView,
    RoomState, TargetsView, TimeMs, TouchFrameView, UserInfoView,
};

verus! {

/// The number of players a room has places for.
pub const ROOM_MAX_USERS: usize = 8;

/// How long players have to get ready, in milliseconds.
pub const READY_TIMEOUT_MS: TimeMs = 60_000;

/// Where a room is in the course of a game.
#[verifier::ext_equal]
pub enum PhaseView {
    /// The host selects a chart.
    SelectChart,
    /// The users get ready.
    WaitForReady {
        /// Who is ready.
        started: Set<i32>,
        /// When those who are not ready have to leave, once the clock has ticked.
        deadline: Option<TimeMs>,
    },
    /// The players play.
    Playing {
        /// The records of those who have played.
        results: Map<i32, Record>,
        /// Those who have aborted.
        aborted: Set<i32>,
    },
}

/// A room.
#[verifier::ext_equal]
pub struct RoomView {
    pub id: Seq<char>,
    /// Who may watch.
    pub allowed: Seq<i32>,
    pub phase: PhaseView,
    pub host: Option<i32>,
    pub locked: bool,
    pub cycle: bool,
    pub live: bool,
    pub users: Map<i32, UserInfoView>,
    pub monitors: Map<i32, UserInfoView>,
    /// The players in the order in which they came.
    pub order: Seq<i32>,
    /// Who has lost the connection.
    pub absent: Set<i32>,
    pub chart: Option<ChartView>,
    /// The touches to be relayed, in batches by player.
    pub touches: Map<i32, Seq<Seq<TouchFrameView>>>,
    /// The judgements to be relayed, in batches by player.
    pub judges: Map<i32, Seq<Seq<JudgeEvent>>>,
    /// The record of each player that is being fetched.
    pub inflight: Map<i32, i32>,
    /// The time of the last touch frame of each player in the current game.
    pub game_time: Map<i32, Float32>,
}

/// A room after something happened in it, and the events that tell of it.
#[verifier::ext_equal]
pub struct Step {
    pub room: RoomView,
    pub events: Seq<RoomEventView>,
}

/// A room after a command, the answer to the command, and the events that tell of it.
#[verifier::ext_equal]
pub struct Outcome {
    pub room: RoomView,
    pub resp: Option<RoomResponseView>,
    pub events: Seq<RoomEventView>,
}

/// A refusal.
pub open spec fn refusal(code: RoomErrorCode, msg: Seq<char>) -> RoomResponseView {
    RoomResponseView::Failure(RoomErrorView::Business { code, msg })
}

/// The items of all batches, one after the other.
pub open spec fn concat<T>(batches: Seq<Seq<T>>) -> Seq<T>
    decreases batches.len(),
{
    if batches.len() == 0 {
        Seq::empty()
    } else {
        concat(batches.drop_last()) + batches.last()
    }
}

/// Ids in ascending order.
pub open spec fn ids_in_order(ids: Set<i32>) -> Seq<i32> {
    crate::binary::map::sorted_keys(ids)
}

/// Every id but this one.
pub open spec fn other_than(id: i32) -> spec_fn(i32) -> bool {
    |other: i32| other != id
}

/// Every id that is not in the set.
pub open spec fn outside(ids: Set<i32>) -> spec_fn(i32) -> bool {
    |id: i32| !ids.contains(id)
}

/// The values of a map in ascending order of their keys.
pub open spec fn values_in_order<V>(m: Map<i32, V>) -> Seq<V> {
    let keys = ids_in_order(m.dom());
    Seq::new(keys.len(), |i: int| m[keys[i]])
}

/// The time `READY_TIMEOUT_MS` after `now`, or the end of time.
pub open spec fn ready_deadline(now: TimeMs) -> TimeMs {
    if now + READY_TIMEOUT_MS <= u64::MAX {
        (now + READY_TIMEOUT_MS) as u64
    } else {
        u64::MAX
    }
}

/// The batches of a player with one more batch.
pub open spec fn with_batch<T>(m: Map<i32, Seq<Seq<T>>>, player: i32, batch: Seq<T>) -> Map<
    i32,
    Seq<Seq<T>>,
> {
    let batches = if m.contains_key(player) {
        m[player]
    } else {
        Seq::empty()
    };
    m.insert(player, batches.push(batch))
}

impl RoomView {
    /// A new room, with no one in it.
    pub open spec fn fresh(id: Seq<char>, allowed: Seq<i32>) -> RoomView {
        RoomView {
            id,
            allowed,
            phase: PhaseView::SelectChart,
            host: None,
            locked: false,
            cycle: false,
            live: false,
            users: Map::empty(),
            monitors: Map::empty(),
            order: Seq::empty(),
            absent: Set::empty(),
            chart: None,
            touches: Map::empty(),
            judges: Map::empty(),
            inflight: Map::empty(),
            game_time: Map::empty(),
        }
    }

    /// Whether there are finitely many users in the room, and finitely many whose play waits to be
    /// relayed. It holds of the content of every room.
    pub open spec fn finite(self) -> bool {
        &&& self.users.dom().finite()
        &&& self.monitors.dom().finite()
        &&& self.touches.dom().finite()
        &&& self.judges.dom().finite()
    }

    /// Whether a user is in the room, to play or to watch.
    pub open spec fn in_room(self, user: i32) -> bool {
        self.users.contains_key(user) || self.monitors.contains_key(user)
    }

    /// Whether a user is the host.
    pub open spec fn is_host(self, user: i32) -> bool {
        self.host == Some(user)
    }

    /// The id of the selected chart.
    pub open spec fn chart_id(self) -> Option<i32> {
        match self.chart {
            Some(chart) => Some(chart.id),
            None => None,
        }
    }

    /// The state of the room as a client sees it.
    pub open spec fn client_state(self) -> RoomState {
        match self.phase {
            PhaseView::SelectChart => RoomState::SelectChart(self.chart_id()),
            PhaseView::WaitForReady { .. } => RoomState::WaitingForReady,
            PhaseView::Playing { .. } => RoomState::Playing,
        }
    }

    /// The room as a user who comes back needs to see it.
    pub open spec fn client_room_state(self, user: i32) -> ClientRoomStateView {
        ClientRoomStateView {
            id: self.id,
            state: self.client_state(),
            live: self.live,
            locked: self.locked,
            cycle: self.cycle,
            is_host: self.is_host(user),
            is_ready: self.phase matches PhaseView::WaitForReady { started, .. }
                && started.contains(user),
            users: self.users.union_prefer_right(self.monitors),
            last_game_time: if self.game_time.contains_key(user) {
                self.game_time[user]
            } else {
                crate::rooms::not_started()
            },
        }
    }

    /// The name of a user in the room.
    pub open spec fn name_of(self, user: i32) -> Seq<char> {
        if self.users.contains_key(user) {
            self.users[user].name
        } else if self.monitors.contains_key(user) {
            self.monitors[user].name
        } else {
            Seq::empty()
        }
    }

    /// The users in the room, players first.
    pub open spec fn roster(self) -> Seq<UserInfoView> {
        values_in_order(self.users) + values_in_order(self.monitors)
    }

    /// The room with another host, or with none.
    pub open spec fn with_host(self, old_host: i32, new_host: Option<i32>) -> Step {
        Step {
            room: RoomView { host: new_host, ..self },
            events: match new_host {
                Some(new_host) => seq![
                    RoomEventView::NewHost { room_id: self.id, new_host, old_host },
                ],
                None => Seq::empty(),
            },
        }
    }

    /// The player who came right after `user`; after the last one comes the first one. It is the
    /// first one too if `user` is not a player.
    pub open spec fn next_player(self, user: i32) -> Option<i32> {
        if self.order.len() == 0 {
            None
        } else if self.order.contains(user) {
            Some(self.order[(self.order.index_of_first(user)->0 + 1) % (self.order.len() as int)])
        } else {
            Some(self.order[0])
        }
    }

    /// The player who was drawn.
    pub open spec fn drawn_player(self, pick: Option<usize>) -> Option<i32> {
        match pick {
            Some(i) => if i < self.order.len() {
                Some(self.order[i as int])
            } else {
                None
            },
            None => None,
        }
    }

    /// Whether everyone in the room is ready.
    pub open spec fn all_ready(self, started: Set<i32>) -> bool {
        forall|user: i32| #[trigger] self.in_room(user) ==> started.contains(user)
    }

    /// Whether every player has played or aborted.
    pub open spec fn all_settled(self, results: Map<i32, Record>, aborted: Set<i32>) -> bool {
        forall|user: i32| #[trigger]
            self.users.contains_key(user) ==> results.contains_key(user) || aborted.contains(user)
    }

    /// The room after it has moved on, where it was waiting for no one: if everyone is ready, the
    /// game starts; if every player has played or aborted, the game ends, and in a cycling room
    /// the next player becomes the host.
    pub open spec fn advanced(self) -> Step {
        match self.phase {
            PhaseView::WaitForReady { started, .. } if self.all_ready(started) => Step {
                room: RoomView {
                    phase: PhaseView::Playing { results: Map::empty(), aborted: Set::empty() },
                    game_time: Map::empty(),
                    ..self
                },
                events: seq![RoomEventView::StartPlaying { room_id: self.id }],
            },
            PhaseView::Playing { results, aborted } if self.all_settled(results, aborted) => {
                let over = RoomView {
                    phase: PhaseView::SelectChart,
                    touches: Map::empty(),
                    judges: Map::empty(),
                    ..self
                };
                let end = seq![
                    RoomEventView::GameEnd { room_id: self.id, chart: self.chart_id() },
                ];
                match self.host {
                    Some(old) if self.cycle => {
                        let next = over.with_host(old, over.next_player(old));
                        Step { room: next.room, events: end + next.events }
                    },
                    _ => Step { room: over, events: end },
                }
            },
            _ => Step { room: self, events: Seq::empty() },
        }
    }

    /// Appends what the room does when it moves on.
    pub open spec fn advanced_after(self, events: Seq<RoomEventView>) -> Step {
        let next = self.advanced();
        Step { room: next.room, events: events + next.events }
    }

    /// The room without what it holds of a user's play.
    pub open spec fn without_play_of(self, user: i32) -> RoomView {
        RoomView {
            touches: self.touches.remove(user),
            judges: self.judges.remove(user),
            game_time: self.game_time.remove(user),
            ..self
        }
    }

    /// The room without a user. Without monitors it is not live.
    pub open spec fn without(self, user: i32) -> RoomView {
        RoomView {
            users: self.users.remove(user),
            monitors: self.monitors.remove(user),
            order: self.order.filter(other_than(user)),
            absent: self.absent.remove(user),
            live: self.live && !self.monitors.remove(user).dom().is_empty(),
            ..self.without_play_of(user)
        }
    }

    /// The room after a user has left it or was made to leave. If the user was the host, the
    /// player who was drawn is the host now. A room without players closes; any other moves on.
    pub open spec fn evicted(self, user: i32, pick: Option<usize>) -> Step {
        let left = self.without(user);
        let told = seq![
            RoomEventView::UserLeft { room_id: self.id, user, name: self.name_of(user) },
        ];
        let hosted = if self.is_host(user) {
            left.with_host(user, left.drawn_player(pick))
        } else {
            Step { room: left, events: Seq::empty() }
        };
        if hosted.room.users.dom().is_empty() {
            Step {
                room: hosted.room,
                events: told + hosted.events + seq![
                    RoomEventView::RoomClosed { room_id: self.id },
                ],
            }
        } else {
            hosted.room.advanced_after(told + hosted.events)
        }
    }

    /// The room after several users were made to leave it, one after the other. There is one draw
    /// for each of them; it counts where the user is the host.
    pub open spec fn evicted_all(self, users: Seq<i32>, picks: Seq<Option<usize>>) -> Step
        decreases users.len(),
    {
        if users.len() == 0 {
            Step { room: self, events: Seq::empty() }
        } else {
            let before = self.evicted_all(users.drop_last(), picks.drop_last());
            let last = before.room.evicted(users.last(), picks.last());
            Step { room: last.room, events: before.events + last.events }
        }
    }

    /// The touches of each player that wait to be relayed, as events.
    pub open spec fn touch_relays(self) -> Seq<RoomEventView> {
        let players = ids_in_order(self.touches.dom());
        Seq::new(
            players.len(),
            |i: int|
                RoomEventView::RelayTouches {
                    room_id: self.id,
                    targets: TargetsView::Specific(ids_in_order(self.monitors.dom())),
                    player: players[i],
                    frames: concat(self.touches[players[i]]),
                },
        )
    }

    /// The judgements of each player that wait to be relayed, as events.
    pub open spec fn judge_relays(self) -> Seq<RoomEventView> {
        let players = ids_in_order(self.judges.dom());
        Seq::new(
            players.len(),
            |i: int|
                RoomEventView::RelayJudges {
                    room_id: self.id,
                    targets: TargetsView::Specific(ids_in_order(self.monitors.dom())),
                    player: players[i],
                    judges: concat(self.judges[players[i]]),
                },
        )
    }

    /// The room after what was to be relayed is relayed. Where no one watches it is dropped.
    pub open spec fn flushed(self) -> Step {
        Step {
            room: RoomView { touches: Map::empty(), judges: Map::empty(), ..self },
            events: if self.monitors.dom().is_empty() {
                Seq::empty()
            } else {
                self.touch_relays() + self.judge_relays()
            },
        }
    }

    /// Those of some users who are not ready.
    pub open spec fn unready(users: Seq<i32>, started: Set<i32>) -> Seq<i32> {
        users.filter(outside(started))
    }

    /// Those in the room who are not ready, players first.
    pub open spec fn not_ready(self, started: Set<i32>) -> Seq<i32> {
        Self::unready(ids_in_order(self.users.dom()), started) + Self::unready(
            ids_in_order(self.monitors.dom()),
            started,
        )
    }

    /// The room after a tick of the clock: what was to be relayed is relayed. While the room waits
    /// for users to get ready, the first tick sets the deadline, and a tick at the deadline or
    /// later makes those leave who are not ready. Where this is everyone, the room is told to be
    /// closed, and after that to start playing: of no one left, everyone is ready.
    pub open spec fn ticked(self, now: TimeMs, picks: Seq<Option<usize>>) -> Step {
        let flushed = self.flushed();
        let room = flushed.room;
        match room.phase {
            PhaseView::WaitForReady { started, deadline: None } => Step {
                room: RoomView {
                    phase: PhaseView::WaitForReady {
                        started,
                        deadline: Some(ready_deadline(now)),
                    },
                    ..room
                },
                events: flushed.events,
            },
            PhaseView::WaitForReady { started, deadline: Some(deadline) } if now >= deadline => {
                let evicted = room.evicted_all(room.not_ready(started), picks);
                let events = flushed.events + evicted.events;
                if evicted.room.phase is WaitForReady {
                    evicted.room.advanced_after(events)
                } else {
                    Step { room: evicted.room, events }
                }
            },
            _ => flushed,
        }
    }

    /// Nothing happens, and there is no answer.
    pub open spec fn ignored(self) -> Outcome {
        Outcome { room: self, resp: None, events: Seq::empty() }
    }

    /// Nothing happens, and this is the answer.
    pub open spec fn answered(self, resp: RoomResponseView) -> Outcome {
        Outcome { room: self, resp: Some(resp), events: Seq::empty() }
    }

    /// Nothing happens: the command is refused.
    pub open spec fn refused(self, code: RoomErrorCode, msg: Seq<char>) -> Outcome {
        self.answered(refusal(code, msg))
    }

    /// `CreateRoom` by a user.
    pub open spec fn created(self, user: i32, name: Seq<char>) -> Outcome {
        Outcome {
            room: RoomView {
                host: Some(user),
                users: self.users.insert(user, UserInfoView { id: user, name, monitor: false }),
                order: self.order.push(user),
                ..self
            },
            resp: Some(RoomResponseView::Done),
            events: seq![RoomEventView::RoomCreated { room_id: self.id, host: user }],
        }
    }

    /// Why a user may not join, if so.
    pub open spec fn join_refusal(self, user: i32, monitor: bool) -> Option<
        (RoomErrorCode, Seq<char>),
    > {
        if self.in_room(user) {
            Some((RoomErrorCode::AlreadyInRoom, "already in room"@))
        } else if self.locked {
            Some((RoomErrorCode::RoomLocked, "room is locked"@))
        } else if !(self.phase is SelectChart) {
            Some((RoomErrorCode::GameOngoing, "game is ongoing"@))
        } else if monitor && !self.allowed.contains(user) {
            Some((RoomErrorCode::CannotMonitor, "no monitor permission"@))
        } else if !monitor && self.users.dom().len() >= ROOM_MAX_USERS {
            Some((RoomErrorCode::RoomFull, "room is full"@))
        } else {
            None
        }
    }

    /// The room with one more user.
    pub open spec fn with_user(self, info: UserInfoView) -> RoomView {
        if info.monitor {
            RoomView { monitors: self.monitors.insert(info.id, info), live: true, ..self }
        } else {
            RoomView {
                users: self.users.insert(info.id, info),
                order: self.order.push(info.id),
                ..self
            }
        }
    }

    /// `JoinRoom` by a user.
    pub open spec fn joined(self, user: i32, monitor: bool, name: Seq<char>) -> Outcome {
        match self.join_refusal(user, monitor) {
            Some((code, msg)) => self.refused(code, msg),
            None => {
                let info = UserInfoView { id: user, name, monitor };
                let room = self.with_user(info);
                Outcome {
                    room,
                    resp: Some(
                        RoomResponseView::JoinRoom(
                            JoinRoomResponseView {
                                state: room.client_state(),
                                users: room.roster(),
                                live: room.live,
                            },
                        ),
                    ),
                    events: seq![RoomEventView::UserJoined { room_id: self.id, user: info }],
                }
            },
        }
    }

    /// `LeaveRoom` by a user, and `AdminKick` of a user.
    pub open spec fn left(self, user: i32, pick: Option<usize>) -> Outcome {
        if !self.in_room(user) {
            self.refused(RoomErrorCode::NotInRoom, "not in room"@)
        } else {
            let evicted = self.evicted(user, pick);
            Outcome {
                room: evicted.room,
                resp: Some(RoomResponseView::Done),
                events: evicted.events,
            }
        }
    }

    /// `Chat` by a user.
    pub open spec fn chatted(self, user: i32, content: Seq<char>) -> Outcome {
        if !self.in_room(user) {
            self.refused(RoomErrorCode::NotInRoom, "not in room"@)
        } else {
            Outcome {
                room: self,
                resp: Some(RoomResponseView::Done),
                events: seq![RoomEventView::Chat { room_id: self.id, user, content }],
            }
        }
    }

    /// Why a user may not select a chart, if so.
    pub open spec fn select_refusal(self, user: i32) -> Option<(RoomErrorCode, Seq<char>)> {
        if !(self.phase is SelectChart) {
            Some((RoomErrorCode::InvalidState, "invalid state"@))
        } else if !self.is_host(user) {
            Some((RoomErrorCode::OnlyHost, "only host can do this"@))
        } else {
            None
        }
    }

    /// `SelectChart` by a user who may, once the chart was fetched or could not be.
    pub open spec fn selected(self, user: i32, id: i32, fetched: Result<Chart, ApiError>) -> Outcome {
        match fetched {
            Ok(chart) => Outcome {
                room: RoomView {
                    chart: Some(ChartView { id: chart.id, name: chart.name@ }),
                    ..self
                },
                resp: Some(RoomResponseView::Done),
                events: seq![
                    RoomEventView::SelectChart { room_id: self.id, user, name: chart.name@, id },
                ],
            },
            Err(ApiError::Internal { msg }) => self.answered(
                RoomResponseView::Failure(RoomErrorView::Internal { msg: msg@ }),
            ),
        }
    }

    /// `RequestStart` by a user. The host is ready at once.
    pub open spec fn start_requested(self, user: i32) -> Outcome {
        match self.select_refusal(user) {
            Some((code, msg)) => self.refused(code, msg),
            None => if self.chart is None {
                self.refused(RoomErrorCode::NoChartSelected, "no chart selected"@)
            } else {
                let waiting = RoomView {
                    phase: PhaseView::WaitForReady {
                        started: Set::empty().insert(user),
                        deadline: None,
                    },
                    game_time: Map::empty(),
                    ..self
                };
                let step = waiting.advanced_after(
                    seq![RoomEventView::GameStart { room_id: self.id, user }],
                );
                Outcome {
                    room: step.room,
                    resp: Some(RoomResponseView::Done),
                    events: step.events,
                }
            },
        }
    }

    /// `Ready` by a user.
    pub open spec fn readied(self, user: i32) -> Outcome {
        match self.phase {
            PhaseView::WaitForReady { started, deadline } => if started.contains(user) {
                self.refused(RoomErrorCode::AlreadyReady, "already ready"@)
            } else {
                let room = RoomView {
                    phase: PhaseView::WaitForReady { started: started.insert(user), deadline },
                    ..self
                };
                let step = room.advanced_after(
                    seq![RoomEventView::Ready { room_id: self.id, user }],
                );
                Outcome {
                    room: step.room,
                    resp: Some(RoomResponseView::Done),
                    events: step.events,
                }
            },
            _ => self.refused(RoomErrorCode::InvalidState, "invalid state"@),
        }
    }

    /// `CancelReady` by a user. If it is the host, the game is called off.
    pub open spec fn ready_cancelled(self, user: i32) -> Outcome {
        match self.phase {
            PhaseView::WaitForReady { started, deadline } => if !started.contains(user) {
                self.refused(RoomErrorCode::NotReady, "not ready"@)
            } else if self.is_host(user) {
                Outcome {
                    room: RoomView {
                        phase: PhaseView::SelectChart,
                        touches: Map::empty(),
                        judges: Map::empty(),
                        ..self
                    },
                    resp: Some(RoomResponseView::Done),
                    events: seq![
                        RoomEventView::CancelGame {
                            room_id: self.id,
                            user,
                            chart: self.chart_id(),
                        },
                    ],
                }
            } else {
                Outcome {
                    room: RoomView {
                        phase: PhaseView::WaitForReady { started: started.remove(user), deadline },
                        ..self
                    },
                    resp: Some(RoomResponseView::Done),
                    events: seq![RoomEventView::CancelReady { room_id: self.id, user }],
                }
            },
            _ => self.refused(RoomErrorCode::InvalidState, "invalid state"@),
        }
    }

    /// `Played` by a user: the record is noted as being fetched. While no one plays it is taken
    /// and forgotten.
    pub open spec fn uploaded(self, user: i32, record: i32) -> Outcome {
        match self.phase {
            PhaseView::Playing { results, aborted } => if results.contains_key(user)
                || aborted.contains(user) || self.inflight.contains_key(user) {
                self.refused(RoomErrorCode::AlreadyUploaded, "already uploaded"@)
            } else {
                Outcome {
                    room: RoomView { inflight: self.inflight.insert(user, record), ..self },
                    resp: Some(RoomResponseView::Done),
                    events: Seq::empty(),
                }
            },
            _ => self.answered(RoomResponseView::Done),
        }
    }

    /// The room after a player has aborted, or counts as such.
    pub open spec fn with_abort(self, user: i32) -> Step {
        match self.phase {
            PhaseView::Playing { results, aborted } => RoomView {
                phase: PhaseView::Playing { results, aborted: aborted.insert(user) },
                ..self.without_play_of(user)
            }.advanced_after(seq![RoomEventView::Abort { room_id: self.id, user }]),
            _ => Step { room: self, events: Seq::empty() },
        }
    }

    /// The room after it turned out that there is no valid record of a player: the player counts
    /// as one who has aborted, so that the game can end.
    pub open spec fn without_record(self, user: i32) -> Step {
        match self.phase {
            PhaseView::Playing { results, aborted } => if results.contains_key(user)
                || aborted.contains(user) {
                Step { room: self, events: Seq::empty() }
            } else {
                self.with_abort(user)
            },
            _ => Step { room: self, events: Seq::empty() },
        }
    }

    /// The room after a record of a player was accepted. The player is told to have played only
    /// where there was no record before; the record that was accepted last is kept.
    pub open spec fn with_record(self, user: i32, record: Record) -> Step {
        match self.phase {
            PhaseView::Playing { results, aborted } => {
                let room = RoomView {
                    phase: PhaseView::Playing { results: results.insert(user, record), aborted },
                    ..self
                };
                if results.contains_key(user) {
                    Step { room, events: Seq::empty() }
                } else {
                    room.advanced_after(
                        seq![
                            RoomEventView::Played {
                                room_id: self.id,
                                user,
                                score: record.score,
                                accuracy: record.accuracy,
                                full_combo: record.full_combo,
                            },
                        ],
                    )
                }
            },
            _ => Step { room: self, events: Seq::empty() },
        }
    }

    /// Whether a record is a valid one of a player: it is the player's own, and it is of the
    /// selected chart, unless it does not say of which chart it is.
    pub open spec fn valid_record(self, user: i32, record: Record) -> bool {
        record.player == user && (record.chart is Some ==> record.chart == self.chart_id())
    }

    /// `RecordFetched`. Only a record that was noted counts, and only once.
    pub open spec fn fetched(
        self,
        user: i32,
        record_id: i32,
        record: Result<Record, ApiError>,
    ) -> Step {
        if !self.inflight.contains_pair(user, record_id) {
            Step { room: self, events: Seq::empty() }
        } else {
            let room = RoomView { inflight: self.inflight.remove(user), ..self };
            match record {
                Ok(record) if room.valid_record(user, record) => room.with_record(user, record),
                _ => room.without_record(user),
            }
        }
    }

    /// `Abort` by a user.
    pub open spec fn aborted(self, user: i32) -> Outcome {
        match self.phase {
            PhaseView::Playing { results, aborted } => if results.contains_key(user)
                || self.inflight.contains_key(user) {
                self.refused(RoomErrorCode::AlreadyUploaded, "already uploaded"@)
            } else if aborted.contains(user) {
                self.refused(RoomErrorCode::AlreadyAborted, "aborted"@)
            } else {
                let step = self.with_abort(user);
                Outcome {
                    room: step.room,
                    resp: Some(RoomResponseView::Done),
                    events: step.events,
                }
            },
            _ => self.refused(RoomErrorCode::InvalidState, "invalid state"@),
        }
    }

    /// `LockRoom` by a user.
    pub open spec fn lock_set(self, user: i32, lock: bool) -> Outcome {
        if !self.is_host(user) {
            self.refused(RoomErrorCode::OnlyHost, "only host can do this"@)
        } else {
            Outcome {
                room: RoomView { locked: lock, ..self },
                resp: Some(RoomResponseView::Done),
                events: seq![RoomEventView::LockRoom { room_id: self.id, lock }],
            }
        }
    }

    /// `CycleRoom` by a user.
    pub open spec fn cycle_set(self, user: i32, cycle: bool) -> Outcome {
        if !self.is_host(user) {
            self.refused(RoomErrorCode::OnlyHost, "only host can do this"@)
        } else {
            Outcome {
                room: RoomView { cycle, ..self },
                resp: Some(RoomResponseView::Done),
                events: seq![RoomEventView::CycleRoom { room_id: self.id, cycle }],
            }
        }
    }

    /// `Touches` by a user: the time of the last frame is noted, and where someone watches the
    /// frames wait to be relayed.
    pub open spec fn touched(self, user: i32, frames: Seq<TouchFrameView>) -> RoomView {
        RoomView {
            game_time: if frames.len() > 0 {
                self.game_time.insert(user, frames.last().time)
            } else {
                self.game_time
            },
            touches: if self.live {
                with_batch(self.touches, user, frames)
            } else {
                self.touches
            },
            ..self
        }
    }

    /// `Judges` by a user: where someone watches they wait to be relayed.
    pub open spec fn judged(self, user: i32, judges: Seq<JudgeEvent>) -> RoomView {
        RoomView {
            judges: if self.live {
                with_batch(self.judges, user, judges)
            } else {
                self.judges
            },
            ..self
        }
    }

    /// `UserDisconnected`: the user keeps the place in the room for now.
    pub open spec fn disconnected(self, user: i32) -> RoomView {
        if self.in_room(user) {
            RoomView { absent: self.absent.insert(user), ..self }
        } else {
            self
        }
    }

    /// `UserReconnected`.
    pub open spec fn reconnected(self, user: i32) -> RoomView {
        RoomView { absent: self.absent.remove(user), ..self }
    }

    /// `UserDangleExpired`: a user who is still away has to leave.
    pub open spec fn dangle_expired(self, user: i32, pick: Option<usize>) -> Step {
        if self.absent.contains(user) {
            self.evicted(user, pick)
        } else {
            Step { room: self, events: Seq::empty() }
        }
    }

    /// `GetClientState`.
    pub open spec fn state_told(self, user: i32) -> Outcome {
        self.answered(
            RoomResponseView::ClientState(
                if self.in_room(user) {
                    Some(self.client_room_state(user))
                } else {
                    None
                },
            ),
        )
    }

    /// What happens without an answer.
    pub open spec fn silently(step: Step) -> Outcome {
        Outcome { room: step.room, resp: None, events: step.events }
    }

    /// What a command of a user does. `SelectChart` is not finished by this: a user who may
    /// select has to wait for the chart.
    pub open spec fn told_by_user(self, user: i32, cmd: RoomCommand, pick: Option<usize>) -> Outcome {
        match cmd {
            RoomCommand::CreateRoom { id: _, name } => self.created(user, name@),
            RoomCommand::JoinRoom { id: _, monitor, name } => self.joined(user, monitor, name@),
            RoomCommand::LeaveRoom => self.left(user, pick),
            RoomCommand::Chat { message } => self.chatted(user, message@),
            RoomCommand::SelectChart { id: _ } => match self.select_refusal(user) {
                Some((code, msg)) => self.refused(code, msg),
                None => self.ignored(),
            },
            RoomCommand::RequestStart => self.start_requested(user),
            RoomCommand::Ready => self.readied(user),
            RoomCommand::CancelReady => self.ready_cancelled(user),
            RoomCommand::Abort => self.aborted(user),
            RoomCommand::Played { id } => self.uploaded(user, id),
            RoomCommand::LockRoom { lock } => self.lock_set(user, lock),
            RoomCommand::CycleRoom { cycle } => self.cycle_set(user, cycle),
            RoomCommand::Touches { frames } => self.touched(user, frames.model()).ignored(),
            RoomCommand::Judges { judges } => self.judged(user, judges.model()).ignored(),
            _ => self.ignored(),
        }
    }

    /// What a command of the server does that no user may give.
    pub open spec fn told_by_system(self, cmd: RoomCommand, pick: Option<usize>) -> Outcome {
        match cmd {
            RoomCommand::RecordFetched { user_id, record_id, record } => Self::silently(
                self.fetched(user_id, record_id, record),
            ),
            RoomCommand::AdminKick { user_id } => self.left(user_id, pick),
            RoomCommand::AdminBroadcast { content } => Outcome {
                room: self,
                resp: Some(RoomResponseView::Done),
                events: seq![
                    RoomEventView::Chat { room_id: self.id, user: 0, content: content@ },
                ],
            },
            _ => self.ignored(),
        }
    }

    /// What a command does, whoever gave it. `picks` holds what is drawn for each user who has to
    /// leave.
    pub open spec fn told(
        self,
        origin: Origin,
        cmd: RoomCommand,
        picks: Seq<Option<usize>>,
    ) -> Outcome {
        match cmd {
            RoomCommand::Tick { now } => Self::silently(self.ticked(now, picks)),
            RoomCommand::UserDisconnected { user_id, epoch: _ } => self.disconnected(
                user_id,
            ).ignored(),
            RoomCommand::UserReconnected { user_id, epoch: _ } => self.reconnected(
                user_id,
            ).ignored(),
            RoomCommand::UserDangleExpired { user_id } => Self::silently(
                self.dangle_expired(user_id, picks[0]),
            ),
            RoomCommand::GetClientState { user_id } => self.state_told(user_id),
            RoomCommand::UpdateConfig { config } => RoomView {
                allowed: config.monitors@,
                ..self
            }.ignored(),
            _ => match origin {
                Origin::Client { user_id } => self.told_by_user(user_id, cmd, picks[0]),
                Origin::System => self.told_by_system(cmd, picks[0]),
            },
        }
    }
}

/// Whether this is what was drawn when a user left a room: where the user was the host, one of
/// the players who stay was picked by their number.
pub open spec fn drew<R: RandomSource>(
    room: RoomView,
    user: i32,
    before: R,
    pick: Option<usize>,
    after: R,
) -> bool {
    if room.is_host(user) {
        before.may_pick(room.without(user).order.len() as usize, pick, after)
    } else {
        pick is None && after == before
    }
}

/// Whether this is what was drawn when several users left a room, one after the other, and how
/// the source of random numbers was before and after each of them.
pub open spec fn drew_all<R: RandomSource>(
    room: RoomView,
    users: Seq<i32>,
    picks: Seq<Option<usize>>,
    sources: Seq<R>,
) -> bool {
    &&& picks.len() == users.len()
    &&& sources.len() == users.len() + 1
    &&& forall|i: int|
        0 <= i < users.len() ==> drew(
            room.evicted_all(users.take(i), picks.take(i)).room,
            users[i],
            sources[i],
            #[trigger] picks[i],
            sources[i + 1],
        )
}

/// One draw.
pub proof fn lemma_drew_one<R: RandomSource>(
    room: RoomView,
    user: i32,
    before: R,
    pick: Option<usize>,
    after: R,
)
    requires
        drew(room, user, before, pick, after),
    ensures
        drew_all(room, seq![user], seq![pick], seq![before, after]),
{
    assert(seq![user].take(0) =~= Seq::<i32>::empty());
    assert(seq![pick].take(0) =~= Seq::<Option<usize>>::empty());
}

/// One more draw.
pub proof fn lemma_drew_more<R: RandomSource>(
    room: RoomView,
    users: Seq<i32>,
    picks: Seq<Option<usize>>,
    sources: Seq<R>,
    user: i32,
    pick: Option<usize>,
    after: R,
)
    requires
        drew_all(room, users, picks, sources),
        drew(room.evicted_all(users, picks).room, user, sources.last(), pick, after),
    ensures
        drew_all(room, users.push(user), picks.push(pick), sources.push(after)),
{
    let more = picks.push(pick);
    let all = users.push(user);
    let states = sources.push(after);
    assert forall|i: int| 0 <= i < all.len() implies drew(
        room.evicted_all(all.take(i), more.take(i)).room,
        all[i],
        states[i],
        #[trigger] more[i],
        states[i + 1],
    ) by {
        assert(all.take(i) =~= users.take(i));
        assert(more.take(i) =~= picks.take(i));
        if i < users.len() {
            assert(more[i] == picks[i]);
        } else {
            assert(users.take(i) =~= users);
            assert(picks.take(i) =~= picks);
        }
    }
}

/// The room that users have to leave because of a command.
pub open spec fn left_room(room: RoomView, cmd: RoomCommand) -> RoomView {
    if cmd is Tick {
        room.flushed().room
    } else {
        room
    }
}

/// The users who have to leave because of a command, in the order in which they do.
pub open spec fn leavers(room: RoomView, origin: Origin, cmd: RoomCommand) -> Seq<i32> {
    match (cmd, origin) {
        (RoomCommand::Tick { now }, _) => match room.phase {
            PhaseView::WaitForReady { started, deadline: Some(deadline) } if now >= deadline =>
                room.flushed().room.not_ready(started),
            _ => Seq::empty(),
        },
        (RoomCommand::UserDangleExpired { user_id }, _) => if room.absent.contains(user_id) {
            seq![user_id]
        } else {
            Seq::empty()
        },
        (RoomCommand::LeaveRoom, Origin::Client { user_id }) => if room.in_room(user_id) {
            seq![user_id]
        } else {
            Seq::empty()
        },
        (RoomCommand::AdminKick { user_id }, Origin::System) => if room.in_room(user_id) {
            seq![user_id]
        } else {
            Seq::empty()
        },
        _ => Seq::empty(),
    }
}

} // verus!
