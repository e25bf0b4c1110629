//! Rooms: who is in them, and how a game goes from selecting a chart to its end.

use std::collections::{HashMap, HashSet};
use std::sync::Arc;

use vstd::prelude::*;
use vstd::std_specs::hash::*;

use crate::binary::map::keys_in_order;
use crate::model::HasModel;
use crate::rooms::{
    business, copy_ids, ApiError, Chart, ClientRoomState, CmdCtx, Float32, JoinRoomResponse,
    JudgeEvent, Origin, RandomSource, Record, RoomCommand, RoomConfig, RoomError, RoomErrorCode,
    RoomEvent, RoomId, RoomResponse, RoomState, Targets, TimeMs, TouchFrame, UserInfo,
};

use state::{Outcome, PhaseView, RoomView, Step, READY_TIMEOUT_MS, ROOM_MAX_USERS};

pub mod effects;
pub mod games;
pub mod laws;
pub mod state;

verus! {

broadcast use {vstd::std_specs::hash::group_hash_axioms, crate::model::group_models};

/// Where a room is in the course of a game.
enum InternalState {
    /// The host selects a chart.
    SelectChart,
    /// The users get ready.
    WaitForReady {
        /// Who is ready.
        started: HashSet<i32>,
        /// When those who are not ready have to leave, once the clock has ticked.
        deadline: Option<TimeMs>,
    },
    /// The players play.
    Playing {
        /// The records of those who have played.
        results: HashMap<i32, Record>,
        /// Those who have aborted.
        aborted: HashSet<i32>,
    },
}

impl InternalState {
    spec fn view(&self) -> PhaseView {
        match self {
            InternalState::SelectChart => PhaseView::SelectChart,
            InternalState::WaitForReady { started, deadline } => PhaseView::WaitForReady {
                started: started@,
                deadline: *deadline,
            },
            InternalState::Playing { results, aborted } => PhaseView::Playing {
                results: results@,
                aborted: aborted@,
            },
        }
    }
}

/// The answer to a command, if it has one, and the events that tell of it.
pub type Reply = (Option<RoomResponse>, Vec<RoomEvent>);

/// A refusal, and no events.
fn refuse(code: RoomErrorCode, msg: &str) -> (reply: Reply)
    ensures
        reply.0.model() == Some(state::refusal(code, msg@)),
        reply.1.model() == Seq::<crate::rooms::RoomEventView>::empty(),
{
    (Some(RoomResponse::Failure(business(code, msg))), Vec::new())
}

/// A room.
pub struct RoomV1 {
    id: RoomId,
    config: RoomConfig,
    state: InternalState,
    host: Option<i32>,
    locked: bool,
    cycle: bool,
    live: bool,
    users: HashMap<i32, UserInfo>,
    monitors: HashMap<i32, UserInfo>,
    user_order: Vec<i32>,
    absent: HashSet<i32>,
    chart: Option<Chart>,
    touch_buf: HashMap<i32, Vec<Arc<Vec<TouchFrame>>>>,
    judge_buf: HashMap<i32, Vec<Arc<Vec<JudgeEvent>>>>,
    inflight: HashMap<i32, i32>,
    game_time: HashMap<i32, Float32>,
}

impl View for RoomV1 {
    type V = RoomView;

    closed spec fn view(&self) -> RoomView {
        RoomView {
            id: self.id@,
            allowed: self.config.monitors@,
            phase: self.state.view(),
            host: self.host,
            locked: self.locked,
            cycle: self.cycle,
            live: self.live,
            users: self.users.model(),
            monitors: self.monitors.model(),
            order: self.user_order@,
            absent: self.absent@,
            chart: self.chart.model(),
            touches: self.touch_buf.model(),
            judges: self.judge_buf.model(),
            inflight: self.inflight@,
            game_time: self.game_time@,
        }
    }
}

/// What a room holds is finite.
proof fn lemma_finite(room: RoomV1)
    ensures
        room@.finite(),
{
    assert(room@.users.dom() =~= room.users@.dom());
    assert(room@.monitors.dom() =~= room.monitors@.dom());
    assert(room@.touches.dom() =~= room.touch_buf@.dom());
    assert(room@.judges.dom() =~= room.judge_buf@.dom());
}

impl RoomV1 {
    /// Creates a room with no one in it.
    pub fn new(id: RoomId, config: RoomConfig) -> (room: Self)
        ensures
            room@ == RoomView::fresh(id@, config.monitors@),
    {
        let room = RoomV1 {
            id,
            config,
            state: InternalState::SelectChart,
            host: None,
            locked: false,
            cycle: false,
            live: false,
            users: HashMap::new(),
            monitors: HashMap::new(),
            user_order: Vec::new(),
            absent: HashSet::new(),
            chart: None,
            touch_buf: HashMap::new(),
            judge_buf: HashMap::new(),
            inflight: HashMap::new(),
            game_time: HashMap::new(),
        };
        assert(room@ =~= RoomView::fresh(id@, config.monitors@));
        room
    }

    /// Whether a user is in the room, to play or to watch.
    pub fn in_room(&self, user_id: i32) -> (res: bool)
        ensures
            res == self@.in_room(user_id),
            self@.finite(),
    {
        proof {
            lemma_finite(*self);
        }
        self.users.contains_key(&user_id) || self.monitors.contains_key(&user_id)
    }

    /// Whether a user is the host.
    pub fn is_host(&self, user_id: i32) -> (res: bool)
        ensures
            res == self@.is_host(user_id),
    {
        match self.host {
            Some(host) => host == user_id,
            None => false,
        }
    }

    fn chart_id(&self) -> (res: Option<i32>)
        ensures
            res == self@.chart_id(),
    {
        match &self.chart {
            Some(chart) => Some(chart.id),
            None => None,
        }
    }

    /// Refuses what only the host may do.
    fn check_host(&self, user_id: i32) -> (res: Result<(), RoomError>)
        ensures
            match res {
                Ok(_) => self@.is_host(user_id),
                Err(err) => !self@.is_host(user_id) && RoomResponse::Failure(err).model()
                    == state::refusal(RoomErrorCode::OnlyHost, "only host can do this"@),
            },
    {
        if self.is_host(user_id) {
            Ok(())
        } else {
            Err(business(RoomErrorCode::OnlyHost, "only host can do this"))
        }
    }

    /// The state of the room as a client sees it.
    fn client_room_state(&self) -> (res: RoomState)
        ensures
            res == self@.client_state(),
    {
        match &self.state {
            InternalState::SelectChart => RoomState::SelectChart(self.chart_id()),
            InternalState::WaitForReady { .. } => RoomState::WaitingForReady,
            InternalState::Playing { .. } => RoomState::Playing,
        }
    }

    /// The room as a user who comes back needs to see it.
    fn to_client_state(&self, user_id: i32) -> (res: ClientRoomState)
        ensures
            res.model() == self@.client_room_state(user_id),
    {
        let is_ready: bool = match &self.state {
            InternalState::WaitForReady { started, .. } => started.contains(&user_id),
            _ => false,
        };
        let mut users: HashMap<i32, UserInfo> = self.users.clone();
        let ids = keys_in_order(&self.monitors);
        proof {
            crate::binary::map::lemma_sorted_keys(self.monitors@.dom());
        }
        let mut i: usize = 0;
        while i < ids.len()
            invariant
                i <= ids.len(),
                ids@.to_set() == self.monitors@.dom(),
                forall|id: i32| #[trigger]
                    users@.contains_key(id) <==> self.users@.contains_key(id) || ids@.take(
                        i as int,
                    ).contains(id),
                forall|id: i32| #[trigger]
                    users@.contains_key(id) ==> users@[id] == if ids@.take(i as int).contains(id) {
                        self.monitors@[id]
                    } else {
                        self.users@[id]
                    },
            decreases ids.len() - i,
        {
            let id: i32 = ids[i];
            assert(ids@.to_set().contains(id)) by {
                assert(ids@.contains(id));
            }
            if let Some(info) = self.monitors.get(&id) {
                users.insert(id, info.clone());
            }
            proof {
                assert(ids@.take(i + 1) =~= ids@.take(i as int).push(id));
                assert forall|other: i32| ids@.take(i + 1).contains(other) <==> (ids@.take(
                    i as int,
                ).contains(other) || other == id) by {
                    if ids@.take(i as int).contains(other) {
                        let j = ids@.take(i as int).index_of(other);
                        assert(ids@.take(i + 1)[j] == other);
                    }
                    assert(ids@.take(i + 1)[i as int] == id);
                }
            }
            i = i + 1;
        }
        let last_game_time: Float32 = match self.game_time.get(&user_id) {
            Some(time) => *time,
            None => Float32::neg_infinity(),
        };
        proof {
            assert(ids@.take(i as int) =~= ids@);
            assert forall|id: i32| ids@.contains(id) == self.monitors@.contains_key(id) by {
                assert(ids@.to_set().contains(id) == self.monitors@.dom().contains(id));
            }
            assert(users.model() =~= self.users.model().union_prefer_right(self.monitors.model()));
        }
        ClientRoomState {
            id: self.id.clone(),
            state: self.client_room_state(),
            live: self.live,
            locked: self.locked,
            cycle: self.cycle,
            is_host: self.is_host(user_id),
            is_ready,
            users,
            last_game_time,
        }
    }

    /// The player who came right after `user_id`; after the last one comes the first one.
    fn next_player(&self, user_id: i32) -> (res: Option<i32>)
        ensures
            res == self@.next_player(user_id),
    {
        let len: usize = self.user_order.len();
        proof {
            self.user_order@.index_of_first_ensures(user_id);
        }
        let mut i: usize = 0;
        while i < len
            invariant
                i <= len,
                len == self.user_order@.len(),
                forall|j: int| 0 <= j < i ==> self.user_order@[j] != user_id,
                match self.user_order@.index_of_first(user_id) {
                    Some(index) => {
                        &&& self.user_order@.contains(user_id)
                        &&& 0 <= index < self.user_order@.len()
                        &&& self.user_order@[index] == user_id
                        &&& forall|j: int|
                            0 <= j < index < self.user_order@.len() ==> self.user_order@[j]
                                != user_id
                    },
                    None => !self.user_order@.contains(user_id),
                },
            decreases len - i,
        {
            if self.user_order[i] == user_id {
                assert(self.user_order@.contains(user_id));
                assert(self.user_order@.index_of_first(user_id)->0 == i);
                return Some(self.user_order[(i + 1) % len]);
            }
            i = i + 1;
        }
        assert(!self.user_order@.contains(user_id));
        if len == 0 {
            None
        } else {
            Some(self.user_order[0])
        }
    }

    /// The player who was drawn.
    fn drawn_player(&self, pick: Option<usize>) -> (res: Option<i32>)
        ensures
            res == self@.drawn_player(pick),
    {
        match pick {
            Some(i) => if i < self.user_order.len() {
                Some(self.user_order[i])
            } else {
                None
            },
            None => None,
        }
    }

    /// Makes another player the host, or no one.
    fn migrate_host(&mut self, old_host: i32, new_host: Option<i32>) -> (events: Vec<RoomEvent>)
        ensures
            (Step { room: final(self)@, events: events.model() }) == old(self)@.with_host(
                old_host,
                new_host,
            ),
    {
        self.host = new_host;
        let mut events: Vec<RoomEvent> = Vec::new();
        if let Some(new_host) = new_host {
            events.push(RoomEvent::NewHost { room_id: self.id.clone(), new_host, old_host });
        }
        assert(events.model() =~= old(self)@.with_host(old_host, new_host).events);
        events
    }

    /// Whether everyone in the room is in the set.
    fn all_in(&self, started: &HashSet<i32>) -> (res: bool)
        ensures
            res == self@.all_ready(started@),
    {
        let players: bool = all_ids_in(&self.users, started);
        let monitors: bool = all_ids_in(&self.monitors, started);
        proof {
            if self@.all_ready(started@) {
                assert forall|user: i32| #[trigger] self.users@.contains_key(
                    user,
                ) implies started@.contains(user) by {
                    assert(self@.in_room(user));
                }
                assert forall|user: i32| #[trigger] self.monitors@.contains_key(
                    user,
                ) implies started@.contains(user) by {
                    assert(self@.in_room(user));
                }
            }
        }
        players && monitors
    }

    /// Whether every player has played or aborted.
    fn all_settled(
        &self,
        results: &HashMap<i32, Record>,
        aborted: &HashSet<i32>,
    ) -> (res: bool)
        ensures
            res == self@.all_settled(results@, aborted@),
    {
        let ids = keys_in_order(&self.users);
        proof {
            crate::binary::map::lemma_sorted_keys(self.users@.dom());
        }
        let mut i: usize = 0;
        while i < ids.len()
            invariant
                i <= ids.len(),
                ids@.to_set() == self.users@.dom(),
                forall|j: int|
                    0 <= j < i ==> results@.contains_key(#[trigger] ids@[j]) || aborted@.contains(
                        ids@[j],
                    ),
            decreases ids.len() - i,
        {
            if !results.contains_key(&ids[i]) && !aborted.contains(&ids[i]) {
                assert(ids@.to_set().contains(ids@[i as int])) by {
                    assert(ids@.contains(ids@[i as int]));
                }
                assert(self@.users.contains_key(ids@[i as int]));
                return false;
            }
            i = i + 1;
        }
        assert forall|user: i32| #[trigger] self@.users.contains_key(user) implies results@.contains_key(
            user,
        ) || aborted@.contains(user) by {
            assert(ids@.to_set().contains(user));
            let j = ids@.index_of(user);
            assert(ids@[j] == user);
        }
        true
    }

    /// Moves on where the room waits for no one.
    fn check_all_ready(&mut self) -> (events: Vec<RoomEvent>)
        ensures
            (Step { room: final(self)@, events: events.model() }) == old(self)@.advanced(),
    {
        let mut events: Vec<RoomEvent> = Vec::new();
        let (start, end): (bool, bool) = match &self.state {
            InternalState::SelectChart => (false, false),
            InternalState::WaitForReady { started, .. } => (self.all_in(started), false),
            InternalState::Playing { results, aborted } => (
                false,
                self.all_settled(results, aborted),
            ),
        };
        if start {
            events.push(RoomEvent::StartPlaying { room_id: self.id.clone() });
            self.state = InternalState::Playing {
                results: HashMap::new(),
                aborted: HashSet::new(),
            };
            self.reset_game_time();
        } else if end {
            events.push(RoomEvent::GameEnd { room_id: self.id.clone(), chart: self.chart_id() });
            self.state = InternalState::SelectChart;
            self.clear_relay_bufs();
            if self.cycle {
                if let Some(old_host) = self.host {
                    let next = self.next_player(old_host);
                    let mut more = self.migrate_host(old_host, next);
                    events.append(&mut more);
                }
            }
        }
        assert(events.model() =~= old(self)@.advanced().events);
        assert(self@ =~= old(self)@.advanced().room);
        events
    }

    /// Makes a user leave: tells everyone, and finds another host and moves on where needed.
    fn evict(&mut self, user_id: i32, pick: Option<usize>) -> (events: Vec<RoomEvent>)
        ensures
            (Step { room: final(self)@, events: events.model() }) == old(self)@.evicted(
                user_id,
                pick,
            ),
    {
        let ghost before = self@;
        let name: String = match self.users.get(&user_id) {
            Some(info) => info.name.clone(),
            None => match self.monitors.get(&user_id) {
                Some(info) => info.name.clone(),
                None => String::new(),
            },
        };
        assert(name@ =~= before.name_of(user_id));
        let mut events: Vec<RoomEvent> = Vec::new();
        events.push(RoomEvent::UserLeft { room_id: self.id.clone(), user: user_id, name });
        let was_host: bool = self.is_host(user_id);
        self.users.remove(&user_id);
        self.monitors.remove(&user_id);
        self.user_order = ids_without(&self.user_order, user_id);
        self.absent.remove(&user_id);
        self.drop_relay_bufs_of(user_id);
        if self.monitors.is_empty() {
            self.live = false;
        }
        proof {
            assert(self.monitors.model().dom() =~= self.monitors@.dom());
            assert(self@ =~= before.without(user_id));
        }
        if was_host {
            let drawn = self.drawn_player(pick);
            let mut more = self.migrate_host(user_id, drawn);
            events.append(&mut more);
        }
        let ghost hosted = if before.is_host(user_id) {
            before.without(user_id).with_host(user_id, before.without(user_id).drawn_player(pick))
        } else {
            Step { room: before.without(user_id), events: Seq::empty() }
        };
        let ghost told = seq![
            crate::rooms::RoomEventView::UserLeft {
                room_id: before.id,
                user: user_id,
                name: before.name_of(user_id),
            },
        ];
        assert(events.model() =~= told + hosted.events);
        assert(self@ == hosted.room);
        assert(self.users.model().dom() =~= self.users@.dom());
        if self.users.is_empty() {
            events.push(RoomEvent::RoomClosed { room_id: self.id.clone() });
        } else {
            let mut more = self.check_all_ready();
            events.append(&mut more);
        }
        assert(events.model() =~= before.evicted(user_id, pick).events);
        events
    }

    /// Draws another host if a user who leaves is the host: one of the players who stay.
    fn draw<R: RandomSource>(&self, user_id: i32, rng: &mut R) -> (pick: Option<usize>)
        ensures
            state::drew(self@, user_id, *old(rng), pick, *final(rng)),
    {
        if self.is_host(user_id) {
            rng.pick_index(ids_without(&self.user_order, user_id).len())
        } else {
            None
        }
    }

    /// Relays what waits to be relayed.
    fn flush_relay_buffers(&mut self) -> (events: Vec<RoomEvent>)
        ensures
            (Step { room: final(self)@, events: events.model() }) == old(self)@.flushed(),
    {
        let ghost before = self@;
        let mut events: Vec<RoomEvent> = Vec::new();
        proof {
            assert(self.monitors.model().dom() =~= self.monitors@.dom());
            assert(self.touch_buf.model().dom() =~= self.touch_buf@.dom());
            assert(self.judge_buf.model().dom() =~= self.judge_buf@.dom());
        }
        if !self.monitors.is_empty() {
            let monitors = keys_in_order(&self.monitors);
            let players = keys_in_order(&self.touch_buf);
            proof {
                crate::binary::map::lemma_sorted_keys(self.touch_buf@.dom());
                crate::binary::map::lemma_sorted_keys(self.judge_buf@.dom());
            }
            let mut i: usize = 0;
            assert(events.model() =~= before.touch_relays().take(0));
            while i < players.len()
                invariant
                    i <= players.len(),
                    self@ == before,
                    monitors@ == state::ids_in_order(before.monitors.dom()),
                    players@ == state::ids_in_order(before.touches.dom()),
                    players@.to_set() == self.touch_buf@.dom(),
                    events.model() == before.touch_relays().take(i as int),
                decreases players.len() - i,
            {
                let player: i32 = players[i];
                assert(players@.to_set().contains(player)) by {
                    assert(players@.contains(player));
                }
                if let Some(batches) = self.touch_buf.get(&player) {
                    events.push(
                        RoomEvent::RelayTouches {
                            room_id: self.id.clone(),
                            targets: Targets::Specific(copy_ids(&monitors)),
                            player,
                            frames: Arc::new(merge_touches(batches)),
                        },
                    );
                }
                assert(events.model() =~= before.touch_relays().take(i + 1));
                i = i + 1;
            }
            let players = keys_in_order(&self.judge_buf);
            let ghost touches = before.touch_relays();
            assert(events.model() =~= touches + before.judge_relays().take(0));
            let mut i: usize = 0;
            while i < players.len()
                invariant
                    i <= players.len(),
                    self@ == before,
                    monitors@ == state::ids_in_order(before.monitors.dom()),
                    players@ == state::ids_in_order(before.judges.dom()),
                    players@.to_set() == self.judge_buf@.dom(),
                    events.model() == touches + before.judge_relays().take(i as int),
                decreases players.len() - i,
            {
                let player: i32 = players[i];
                assert(players@.to_set().contains(player)) by {
                    assert(players@.contains(player));
                }
                if let Some(batches) = self.judge_buf.get(&player) {
                    events.push(
                        RoomEvent::RelayJudges {
                            room_id: self.id.clone(),
                            targets: Targets::Specific(copy_ids(&monitors)),
                            player,
                            judges: Arc::new(merge_judges(batches)),
                        },
                    );
                }
                assert(events.model() =~= touches + before.judge_relays().take(i + 1));
                i = i + 1;
            }
            assert(before.judge_relays().take(i as int) =~= before.judge_relays());
        }
        self.clear_relay_bufs();
        assert(events.model() =~= before.flushed().events);
        events
    }

    /// Forgets the game time of everyone.
    fn reset_game_time(&mut self)
        ensures
            final(self)@ == (RoomView { game_time: Map::empty(), ..old(self)@ }),
    {
        self.game_time = HashMap::new();
    }

    /// Drops what waits to be relayed.
    fn clear_relay_bufs(&mut self)
        ensures
            final(self)@ == (RoomView { touches: Map::empty(), judges: Map::empty(), ..old(self)@ }),
    {
        self.touch_buf = HashMap::new();
        self.judge_buf = HashMap::new();
    }

    /// Drops what the room holds of a user's play.
    fn drop_relay_bufs_of(&mut self, user_id: i32)
        ensures
            final(self)@ == old(self)@.without_play_of(user_id),
    {
        self.touch_buf.remove(&user_id);
        self.judge_buf.remove(&user_id);
        self.game_time.remove(&user_id);
    }
}

impl RoomV1 {
    /// The clock ticks.
    fn handle_tick<R: RandomSource>(&mut self, now: TimeMs, rng: &mut R) -> (events: Vec<
        RoomEvent,
    >)
        ensures
            exists|picks: Seq<Option<usize>>, sources: Seq<R>|
                {
                    &&& (Step { room: final(self)@, events: events.model() }) == #[trigger] old(
                        self,
                    )@.ticked(now, picks)
                    &&& sources.first() == *old(rng)
                    &&& sources.last() == *final(rng)
                    &&& #[trigger] state::drew_all(
                        old(self)@.flushed().room,
                        state::leavers(old(self)@, Origin::System, RoomCommand::Tick { now }),
                        picks,
                        sources,
                    )
                },
    {
        let ghost start = self@;
        let ghost mut sources: Seq<R> = seq![*rng];
        let mut events = self.flush_relay_buffers();
        let ghost flushed = start.flushed();
        let due: bool = match &self.state {
            InternalState::WaitForReady { started: _, deadline: Some(deadline) } => now
                >= *deadline,
            _ => false,
        };
        if due {
            let unready: Vec<i32> = match &self.state {
                InternalState::WaitForReady { started, .. } => {
                    let mut unready = ids_outside(&keys_in_order(&self.users), started);
                    let mut more = ids_outside(&keys_in_order(&self.monitors), started);
                    unready.append(&mut more);
                    unready
                },
                _ => Vec::new(),
            };
            proof {
                assert(self.users.model().dom() =~= self.users@.dom());
                assert(self.monitors.model().dom() =~= self.monitors@.dom());
            }
            let ghost room = self@;
            let ghost mut picks: Seq<Option<usize>> = Seq::empty();
            let mut i: usize = 0;
            assert(events.model() =~= flushed.events + room.evicted_all(
                unready@.take(0),
                picks,
            ).events);
            while i < unready.len()
                invariant
                    i <= unready.len(),
                    picks.len() == i,
                    sources.first() == *old(rng),
                    sources.last() == *rng,
                    state::drew_all(room, unready@.take(i as int), picks, sources),
                    self@ == room.evicted_all(unready@.take(i as int), picks).room,
                    events.model() == flushed.events + room.evicted_all(
                        unready@.take(i as int),
                        picks,
                    ).events,
                decreases unready.len() - i,
            {
                let pick = self.draw(unready[i], rng);
                let mut more = self.evict(unready[i], pick);
                events.append(&mut more);
                proof {
                    state::lemma_drew_more(
                        room,
                        unready@.take(i as int),
                        picks,
                        sources,
                        unready@[i as int],
                        pick,
                        *rng,
                    );
                    assert(unready@.take(i as int).push(unready@[i as int]) =~= unready@.take(
                        i + 1,
                    ));
                    sources = sources.push(*rng);
                    assert(unready@.take(i + 1).drop_last() =~= unready@.take(i as int));
                    assert(picks.push(pick).drop_last() =~= picks);
                    picks = picks.push(pick);
                    assert(events.model() =~= flushed.events + room.evicted_all(
                        unready@.take(i + 1),
                        picks,
                    ).events);
                }
                i = i + 1;
            }
            assert(unready@.take(i as int) =~= unready@);
            let waiting: bool = match &self.state {
                InternalState::WaitForReady { .. } => true,
                _ => false,
            };
            if waiting {
                let mut more = self.check_all_ready();
                events.append(&mut more);
            }
            proof {
                assert(events.model() =~= start.ticked(now, picks).events);
                assert(self@ =~= start.ticked(now, picks).room);
                assert(state::drew_all(
                    start.flushed().room,
                    state::leavers(start, Origin::System, RoomCommand::Tick { now }),
                    picks,
                    sources,
                ));
            }
        } else {
            let mut fresh: bool = false;
            if let InternalState::WaitForReady { started: _, deadline: None } = &self.state {
                fresh = true;
            }
            if fresh {
                let deadline: TimeMs = if now <= u64::MAX - READY_TIMEOUT_MS {
                    now + READY_TIMEOUT_MS
                } else {
                    u64::MAX
                };
                if let InternalState::WaitForReady { started: _, deadline: slot } =
                    &mut self.state {
                    *slot = Some(deadline);
                }
            }
            proof {
                let picks: Seq<Option<usize>> = Seq::empty();
                assert(self@ =~= start.ticked(now, picks).room);
                assert(events.model() =~= start.ticked(now, picks).events);
                assert(state::drew_all(
                    start.flushed().room,
                    state::leavers(start, Origin::System, RoomCommand::Tick { now }),
                    picks,
                    sources,
                ));
            }
        }
        events
    }

    /// A user creates the room.
    fn handle_create(&mut self, user_id: i32, name: String) -> (reply: Reply)
        ensures
            (Outcome { room: final(self)@, resp: reply.0.model(), events: reply.1.model() })
                == old(self)@.created(user_id, name@),
    {
        self.host = Some(user_id);
        self.users.insert(user_id, UserInfo { id: user_id, name, monitor: false });
        self.user_order.push(user_id);
        let mut events: Vec<RoomEvent> = Vec::new();
        events.push(RoomEvent::RoomCreated { room_id: self.id.clone(), host: user_id });
        assert(events.model() =~= old(self)@.created(user_id, name@).events);
        (Some(RoomResponse::Done), events)
    }

    /// Why a user may not join, if so.
    fn check_join(&self, user_id: i32, monitor: bool) -> (res: Option<RoomError>)
        ensures
            match res {
                Some(err) => self@.join_refusal(user_id, monitor) matches Some((code, msg))
                    && RoomResponse::Failure(err).model() == state::refusal(code, msg),
                None => self@.join_refusal(user_id, monitor) is None,
            },
    {
        proof {
            assert(self.users.model().dom() =~= self.users@.dom());
        }
        let selecting: bool = match &self.state {
            InternalState::SelectChart => true,
            _ => false,
        };
        if self.in_room(user_id) {
            Some(business(RoomErrorCode::AlreadyInRoom, "already in room"))
        } else if self.locked {
            Some(business(RoomErrorCode::RoomLocked, "room is locked"))
        } else if !selecting {
            Some(business(RoomErrorCode::GameOngoing, "game is ongoing"))
        } else if monitor && !self.config.may_monitor(user_id) {
            Some(business(RoomErrorCode::CannotMonitor, "no monitor permission"))
        } else if !monitor && self.users.len() >= ROOM_MAX_USERS {
            Some(business(RoomErrorCode::RoomFull, "room is full"))
        } else {
            None
        }
    }

    /// The users in the room, players first.
    fn roster(&self) -> (users: Vec<UserInfo>)
        ensures
            users.model() == self@.roster(),
    {
        let mut users = infos_in_order(&self.users);
        let mut more = infos_in_order(&self.monitors);
        users.append(&mut more);
        assert(users.model() =~= self@.roster());
        users
    }

    /// A user joins the room.
    fn handle_join(&mut self, user_id: i32, monitor: bool, name: String) -> (reply: Reply)
        ensures
            (Outcome { room: final(self)@, resp: reply.0.model(), events: reply.1.model() })
                == old(self)@.joined(user_id, monitor, name@),
    {
        if let Some(err) = self.check_join(user_id, monitor) {
            return (Some(RoomResponse::Failure(err)), Vec::new());
        }
        let info = UserInfo { id: user_id, name, monitor };
        if monitor {
            self.monitors.insert(user_id, info.clone());
            self.live = true;
        } else {
            self.users.insert(user_id, info.clone());
            self.user_order.push(user_id);
        }
        assert(self@ =~= old(self)@.with_user(info.model()));
        let resp = RoomResponse::JoinRoom(
            JoinRoomResponse {
                state: self.client_room_state(),
                users: self.roster(),
                live: self.live,
            },
        );
        let mut events: Vec<RoomEvent> = Vec::new();
        events.push(RoomEvent::UserJoined { room_id: self.id.clone(), user: info });
        assert(events.model() =~= old(self)@.joined(user_id, monitor, name@).events);
        (Some(resp), events)
    }

    /// A user leaves the room, or is kicked out of it.
    fn handle_leave(&mut self, user_id: i32, pick: Option<usize>) -> (reply: Reply)
        ensures
            (Outcome { room: final(self)@, resp: reply.0.model(), events: reply.1.model() })
                == old(self)@.left(user_id, pick),
    {
        if !self.in_room(user_id) {
            return refuse(RoomErrorCode::NotInRoom, "not in room");
        }
        let events = self.evict(user_id, pick);
        (Some(RoomResponse::Done), events)
    }

    /// A user says something.
    fn handle_chat(&mut self, user_id: i32, message: String) -> (reply: Reply)
        ensures
            (Outcome { room: final(self)@, resp: reply.0.model(), events: reply.1.model() })
                == old(self)@.chatted(user_id, message@),
    {
        if !self.in_room(user_id) {
            return refuse(RoomErrorCode::NotInRoom, "not in room");
        }
        let mut events: Vec<RoomEvent> = Vec::new();
        events.push(RoomEvent::Chat { room_id: self.id.clone(), user: user_id, content: message });
        assert(events.model() =~= old(self)@.chatted(user_id, message@).events);
        (Some(RoomResponse::Done), events)
    }

    /// Why a user may not select a chart, if so.
    fn check_select(&self, user_id: i32) -> (res: Option<RoomError>)
        ensures
            match res {
                Some(err) => self@.select_refusal(user_id) matches Some((code, msg))
                    && RoomResponse::Failure(err).model() == state::refusal(code, msg),
                None => self@.select_refusal(user_id) is None,
            },
    {
        match &self.state {
            InternalState::SelectChart => match self.check_host(user_id) {
                Ok(_) => None,
                Err(err) => Some(err),
            },
            _ => Some(business(RoomErrorCode::InvalidState, "invalid state")),
        }
    }

    /// The host asks to start the game.
    fn handle_request_start(&mut self, user_id: i32) -> (reply: Reply)
        ensures
            (Outcome { room: final(self)@, resp: reply.0.model(), events: reply.1.model() })
                == old(self)@.start_requested(user_id),
    {
        if let Some(err) = self.check_select(user_id) {
            return (Some(RoomResponse::Failure(err)), Vec::new());
        }
        if self.chart.is_none() {
            return refuse(RoomErrorCode::NoChartSelected, "no chart selected");
        }
        let mut started: HashSet<i32> = HashSet::new();
        started.insert(user_id);
        self.state = InternalState::WaitForReady { started, deadline: None };
        self.reset_game_time();
        let mut events: Vec<RoomEvent> = Vec::new();
        events.push(RoomEvent::GameStart { room_id: self.id.clone(), user: user_id });
        let mut more = self.check_all_ready();
        events.append(&mut more);
        assert(events.model() =~= old(self)@.start_requested(user_id).events);
        (Some(RoomResponse::Done), events)
    }

    /// A user is ready.
    fn handle_ready(&mut self, user_id: i32) -> (reply: Reply)
        ensures
            (Outcome { room: final(self)@, resp: reply.0.model(), events: reply.1.model() })
                == old(self)@.readied(user_id),
    {
        match &mut self.state {
            InternalState::WaitForReady { started, .. } => {
                if started.contains(&user_id) {
                    return refuse(RoomErrorCode::AlreadyReady, "already ready");
                }
                started.insert(user_id);
            },
            _ => {
                return refuse(RoomErrorCode::InvalidState, "invalid state");
            },
        }
        let mut events: Vec<RoomEvent> = Vec::new();
        events.push(RoomEvent::Ready { room_id: self.id.clone(), user: user_id });
        let mut more = self.check_all_ready();
        events.append(&mut more);
        assert(events.model() =~= old(self)@.readied(user_id).events);
        (Some(RoomResponse::Done), events)
    }
}

impl RoomV1 {
    /// A user is no longer ready. If it is the host, the game is called off.
    fn handle_cancel_ready(&mut self, user_id: i32) -> (reply: Reply)
        ensures
            (Outcome { room: final(self)@, resp: reply.0.model(), events: reply.1.model() })
                == old(self)@.ready_cancelled(user_id),
    {
        let is_host: bool = self.is_host(user_id);
        match &mut self.state {
            InternalState::WaitForReady { started, .. } => {
                if !started.contains(&user_id) {
                    return refuse(RoomErrorCode::NotReady, "not ready");
                }
                if !is_host {
                    started.remove(&user_id);
                }
            },
            _ => {
                return refuse(RoomErrorCode::InvalidState, "invalid state");
            },
        }
        let mut events: Vec<RoomEvent> = Vec::new();
        if is_host {
            self.state = InternalState::SelectChart;
            self.clear_relay_bufs();
            events.push(
                RoomEvent::CancelGame {
                    room_id: self.id.clone(),
                    user: user_id,
                    chart: self.chart_id(),
                },
            );
        } else {
            events.push(RoomEvent::CancelReady { room_id: self.id.clone(), user: user_id });
        }
        assert(events.model() =~= old(self)@.ready_cancelled(user_id).events);
        (Some(RoomResponse::Done), events)
    }

    /// A player uploads a record: it is noted as being fetched.
    fn handle_played(&mut self, user_id: i32, id: i32) -> (reply: Reply)
        ensures
            (Outcome { room: final(self)@, resp: reply.0.model(), events: reply.1.model() })
                == old(self)@.uploaded(user_id, id),
    {
        match &self.state {
            InternalState::Playing { results, aborted } => {
                if results.contains_key(&user_id) || aborted.contains(&user_id)
                    || self.inflight.contains_key(&user_id) {
                    return refuse(RoomErrorCode::AlreadyUploaded, "already uploaded");
                }
            },
            _ => {
                return (Some(RoomResponse::Done), Vec::new());
            },
        }
        self.inflight.insert(user_id, id);
        (Some(RoomResponse::Done), Vec::new())
    }

    /// Whether a record is a valid one of a player in this game.
    fn valid_record(&self, user_id: i32, record: &Record) -> (res: bool)
        ensures
            res == self@.valid_record(user_id, *record),
    {
        record.player == user_id && match (record.chart, self.chart_id()) {
            (None, _) => true,
            (Some(played), Some(selected)) => played == selected,
            (Some(_), None) => false,
        }
    }

    /// A record has been fetched, or could not be.
    fn handle_record_fetched(
        &mut self,
        user_id: i32,
        record_id: i32,
        record: Result<Record, ApiError>,
    ) -> (events: Vec<RoomEvent>)
        ensures
            (Step { room: final(self)@, events: events.model() }) == old(self)@.fetched(
                user_id,
                record_id,
                record,
            ),
    {
        let noted: bool = match self.inflight.get(&user_id) {
            Some(id) => *id == record_id,
            None => false,
        };
        if !noted {
            return Vec::new();
        }
        self.inflight.remove(&user_id);
        match record {
            Ok(record) => if self.valid_record(user_id, &record) {
                self.settle_record(user_id, record)
            } else {
                self.settle_record_failed(user_id)
            },
            Err(_) => self.settle_record_failed(user_id),
        }
    }

    /// A record of a player is accepted.
    fn settle_record(&mut self, user_id: i32, record: Record) -> (events: Vec<RoomEvent>)
        ensures
            (Step { room: final(self)@, events: events.model() }) == old(self)@.with_record(
                user_id,
                record,
            ),
    {
        let mut events: Vec<RoomEvent> = Vec::new();
        match &mut self.state {
            InternalState::Playing { results, .. } => {
                if results.insert(user_id, record).is_some() {
                    return events;
                }
            },
            _ => {
                return events;
            },
        }
        events.push(
            RoomEvent::Played {
                room_id: self.id.clone(),
                user: user_id,
                score: record.score,
                accuracy: record.accuracy,
                full_combo: record.full_combo,
            },
        );
        let mut more = self.check_all_ready();
        events.append(&mut more);
        assert(events.model() =~= old(self)@.with_record(user_id, record).events);
        events
    }

    /// There is no valid record of a player, who then counts as one who has aborted.
    fn settle_record_failed(&mut self, user_id: i32) -> (events: Vec<RoomEvent>)
        ensures
            (Step { room: final(self)@, events: events.model() }) == old(self)@.without_record(
                user_id,
            ),
    {
        match &self.state {
            InternalState::Playing { results, aborted } => {
                if results.contains_key(&user_id) || aborted.contains(&user_id) {
                    return Vec::new();
                }
            },
            _ => {
                return Vec::new();
            },
        }
        self.settle_abort(user_id)
    }

    /// A player has aborted, or counts as such.
    fn settle_abort(&mut self, user_id: i32) -> (events: Vec<RoomEvent>)
        ensures
            (Step { room: final(self)@, events: events.model() }) == old(self)@.with_abort(user_id),
    {
        let mut events: Vec<RoomEvent> = Vec::new();
        match &mut self.state {
            InternalState::Playing { aborted, .. } => {
                aborted.insert(user_id);
            },
            _ => {
                return events;
            },
        }
        events.push(RoomEvent::Abort { room_id: self.id.clone(), user: user_id });
        self.drop_relay_bufs_of(user_id);
        let mut more = self.check_all_ready();
        events.append(&mut more);
        assert(events.model() =~= old(self)@.with_abort(user_id).events);
        events
    }

    /// A player aborts.
    fn handle_abort(&mut self, user_id: i32) -> (reply: Reply)
        ensures
            (Outcome { room: final(self)@, resp: reply.0.model(), events: reply.1.model() })
                == old(self)@.aborted(user_id),
    {
        match &self.state {
            InternalState::Playing { results, aborted } => {
                if results.contains_key(&user_id) || self.inflight.contains_key(&user_id) {
                    return refuse(RoomErrorCode::AlreadyUploaded, "already uploaded");
                }
                if aborted.contains(&user_id) {
                    return refuse(RoomErrorCode::AlreadyAborted, "aborted");
                }
            },
            _ => {
                return refuse(RoomErrorCode::InvalidState, "invalid state");
            },
        }
        let events = self.settle_abort(user_id);
        (Some(RoomResponse::Done), events)
    }

    /// The host locks or unlocks the room.
    fn handle_lock(&mut self, user_id: i32, lock: bool) -> (reply: Reply)
        ensures
            (Outcome { room: final(self)@, resp: reply.0.model(), events: reply.1.model() })
                == old(self)@.lock_set(user_id, lock),
    {
        if let Err(err) = self.check_host(user_id) {
            return (Some(RoomResponse::Failure(err)), Vec::new());
        }
        self.locked = lock;
        let mut events: Vec<RoomEvent> = Vec::new();
        events.push(RoomEvent::LockRoom { room_id: self.id.clone(), lock });
        assert(events.model() =~= old(self)@.lock_set(user_id, lock).events);
        (Some(RoomResponse::Done), events)
    }

    /// The host turns the changing of hosts on or off.
    fn handle_cycle(&mut self, user_id: i32, cycle: bool) -> (reply: Reply)
        ensures
            (Outcome { room: final(self)@, resp: reply.0.model(), events: reply.1.model() })
                == old(self)@.cycle_set(user_id, cycle),
    {
        if let Err(err) = self.check_host(user_id) {
            return (Some(RoomResponse::Failure(err)), Vec::new());
        }
        self.cycle = cycle;
        let mut events: Vec<RoomEvent> = Vec::new();
        events.push(RoomEvent::CycleRoom { room_id: self.id.clone(), cycle });
        assert(events.model() =~= old(self)@.cycle_set(user_id, cycle).events);
        (Some(RoomResponse::Done), events)
    }

    /// A player sends touches.
    fn handle_touches(&mut self, user_id: i32, frames: Arc<Vec<TouchFrame>>)
        ensures
            final(self)@ == old(self)@.touched(user_id, frames.model()),
    {
        let count: usize = frames.len();
        if count > 0 {
            self.game_time.insert(user_id, frames[count - 1].time);
        }
        if self.live {
            let mut batches: Vec<Arc<Vec<TouchFrame>>> = match self.touch_buf.remove(&user_id) {
                Some(batches) => batches,
                None => Vec::new(),
            };
            batches.push(frames);
            self.touch_buf.insert(user_id, batches);
        }
        assert(self@.touches =~= old(self)@.touched(user_id, frames.model()).touches);
        assert(self@ =~= old(self)@.touched(user_id, frames.model()));
    }

    /// A player sends judgements.
    fn handle_judges(&mut self, user_id: i32, judges: Arc<Vec<JudgeEvent>>)
        ensures
            final(self)@ == old(self)@.judged(user_id, judges.model()),
    {
        if self.live {
            let mut batches: Vec<Arc<Vec<JudgeEvent>>> = match self.judge_buf.remove(&user_id) {
                Some(batches) => batches,
                None => Vec::new(),
            };
            batches.push(judges);
            self.judge_buf.insert(user_id, batches);
        }
        assert(self@.judges =~= old(self)@.judged(user_id, judges.model()).judges);
        assert(self@ =~= old(self)@.judged(user_id, judges.model()));
    }

    /// A user's connection is lost. The user keeps the place for now.
    fn handle_user_disconnected(&mut self, user_id: i32)
        ensures
            final(self)@ == old(self)@.disconnected(user_id),
    {
        if self.in_room(user_id) {
            self.absent.insert(user_id);
        }
    }

    /// A user is back.
    fn handle_user_reconnected(&mut self, user_id: i32)
        ensures
            final(self)@ == old(self)@.reconnected(user_id),
    {
        self.absent.remove(&user_id);
    }

    /// A user was away for too long.
    fn handle_user_dangle_expired(&mut self, user_id: i32, pick: Option<usize>) -> (events: Vec<
        RoomEvent,
    >)
        ensures
            (Step { room: final(self)@, events: events.model() }) == old(self)@.dangle_expired(
                user_id,
                pick,
            ),
    {
        if self.absent.contains(&user_id) {
            self.evict(user_id, pick)
        } else {
            Vec::new()
        }
    }

    /// Tells the state of the room for a user.
    fn handle_get_client_state(&self, user_id: i32) -> (resp: RoomResponse)
        ensures
            self@.state_told(user_id) == self@.answered(resp.model()),
    {
        if self.in_room(user_id) {
            RoomResponse::ClientState(Some(self.to_client_state(user_id)))
        } else {
            RoomResponse::ClientState(None)
        }
    }

    /// Uses another configuration.
    fn handle_update_config(&mut self, config: RoomConfig)
        ensures
            final(self)@ == (RoomView { allowed: config.monitors@, ..old(self)@ }),
    {
        self.config = config;
    }
}

/// What a room makes of a command.
#[derive(Debug, PartialEq)]
pub enum RoomStep {
    /// The command was dealt with.
    Done {
        /// The answer, if there is one.
        resp: Option<RoomResponse>,
        /// What happened.
        events: Vec<RoomEvent>,
    },
    /// The command waits for a chart. Once it was fetched or could not be, it goes on with
    /// [`RoomV1::chart_fetched`].
    FetchChart {
        /// The host who selects the chart.
        user_id: i32,
        /// The chart.
        id: i32,
    },
}

/// Whether a command has to wait for a chart.
pub open spec fn needs_chart(room: RoomView, origin: Origin, cmd: RoomCommand) -> bool {
    cmd is SelectChart && (origin matches Origin::Client { user_id } && room.select_refusal(user_id)
        is None)
}

impl RoomV1 {
    /// Deals with a command. What is drawn from `rng` only decides who is the host after a host
    /// has left.
    pub fn handle<R: RandomSource>(&mut self, ctx: CmdCtx, cmd: RoomCommand, rng: &mut R) -> (step:
        RoomStep)
        ensures
            old(self)@.finite(),
            final(self)@.finite(),
            match step {
                RoomStep::FetchChart { user_id, id } => {
                    &&& needs_chart(old(self)@, ctx.origin, cmd)
                    &&& ctx.origin == (Origin::Client { user_id })
                    &&& cmd == (RoomCommand::SelectChart { id })
                    &&& final(self)@ == old(self)@
                    &&& *final(rng) == *old(rng)
                },
                RoomStep::Done { resp, events } => {
                    &&& !needs_chart(old(self)@, ctx.origin, cmd)
                    &&& exists|picks: Seq<Option<usize>>, sources: Seq<R>|
                        {
                            &&& (Outcome {
                                room: final(self)@,
                                resp: resp.model(),
                                events: events.model(),
                            }) == #[trigger] old(self)@.told(ctx.origin, cmd, picks)
                            &&& sources.first() == *old(rng)
                            &&& sources.last() == *final(rng)
                            &&& #[trigger] state::drew_all(
                                state::left_room(old(self)@, cmd),
                                state::leavers(old(self)@, ctx.origin, cmd),
                                picks,
                                sources,
                            )
                        }
                },
            },
    {
        proof {
            lemma_finite(*self);
        }
        let ghost start = self@;
        let ghost mut picks: Seq<Option<usize>> = Seq::empty();
        let ghost mut sources: Seq<R> = seq![*rng];
        let user: Option<i32> = match ctx.origin {
            Origin::Client { user_id } => Some(user_id),
            Origin::System => None,
        };
        let ghost given = cmd;
        let (resp, events): Reply = match cmd {
            RoomCommand::Tick { now } => {
                let events = self.handle_tick(now, rng);
                proof {
                    let drawn = choose|picks: Seq<Option<usize>>, sources: Seq<R>|
                        {
                            &&& (Step { room: self@, events: events.model() })
                                == #[trigger] start.ticked(now, picks)
                            &&& sources.first() == *old(rng)
                            &&& sources.last() == *rng
                            &&& #[trigger] state::drew_all(
                                start.flushed().room,
                                state::leavers(start, Origin::System, RoomCommand::Tick { now }),
                                picks,
                                sources,
                            )
                        };
                    picks = drawn.0;
                    sources = drawn.1;
                }
                (None, events)
            },
            RoomCommand::UserDisconnected { user_id, .. } => {
                self.handle_user_disconnected(user_id);
                (None, Vec::new())
            },
            RoomCommand::UserReconnected { user_id, .. } => {
                self.handle_user_reconnected(user_id);
                (None, Vec::new())
            },
            RoomCommand::UserDangleExpired { user_id } => {
                let mut pick: Option<usize> = None;
                if self.absent.contains(&user_id) {
                    pick = self.draw(user_id, rng);
                    proof {
                        state::lemma_drew_one(start, user_id, sources[0], pick, *rng);
                        picks = seq![pick];
                        sources = seq![sources[0], *rng];
                    }
                }
                (None, self.handle_user_dangle_expired(user_id, pick))
            },
            RoomCommand::GetClientState { user_id } => (
                Some(self.handle_get_client_state(user_id)),
                Vec::new(),
            ),
            RoomCommand::UpdateConfig { config } => {
                self.handle_update_config((*config).clone());
                (None, Vec::new())
            },
            RoomCommand::RecordFetched { user_id, record_id, record } => match user {
                None => (None, self.handle_record_fetched(user_id, record_id, record)),
                Some(_) => (None, Vec::new()),
            },
            RoomCommand::AdminKick { user_id } => match user {
                None => {
                    let mut pick: Option<usize> = None;
                    if self.in_room(user_id) {
                        pick = self.draw(user_id, rng);
                        proof {
                            state::lemma_drew_one(start, user_id, sources[0], pick, *rng);
                            picks = seq![pick];
                            sources = seq![sources[0], *rng];
                        }
                    }
                    self.handle_leave(user_id, pick)
                },
                Some(_) => (None, Vec::new()),
            },
            RoomCommand::AdminBroadcast { content } => match user {
                None => {
                    let mut events: Vec<RoomEvent> = Vec::new();
                    events.push(RoomEvent::Chat { room_id: self.id.clone(), user: 0, content });
                    assert(events.model() =~= start.told_by_system(given, None).events);
                    (Some(RoomResponse::Done), events)
                },
                Some(_) => (None, Vec::new()),
            },
            cmd => match user {
                None => (None, Vec::new()),
                Some(user_id) => {
                    let leaves: bool = match &cmd {
                        RoomCommand::LeaveRoom => self.in_room(user_id),
                        _ => false,
                    };
                    let mut pick: Option<usize> = None;
                    if leaves {
                        pick = self.draw(user_id, rng);
                        proof {
                            state::lemma_drew_one(start, user_id, sources[0], pick, *rng);
                            picks = seq![pick];
                            sources = seq![sources[0], *rng];
                        }
                    }
                    match self.handle_client(user_id, cmd, pick) {
                        RoomStep::Done { resp, events } => (resp, events),
                        RoomStep::FetchChart { user_id, id } => {
                            return RoomStep::FetchChart { user_id, id };
                        },
                    }
                },
            },
        };
        proof {
            assert(events.model() =~= start.told(ctx.origin, given, picks).events);
            assert(self@ =~= start.told(ctx.origin, given, picks).room);
            assert(state::drew_all(
                state::left_room(start, given),
                state::leavers(start, ctx.origin, given),
                picks,
                sources,
            ));
        }
        proof {
            lemma_finite(*self);
        }
        RoomStep::Done { resp, events }
    }

    /// Deals with a command that a user may give.
    fn handle_client(&mut self, user_id: i32, cmd: RoomCommand, pick: Option<usize>) -> (step:
        RoomStep)
        ensures
            match step {
                RoomStep::FetchChart { user_id: user, id } => {
                    &&& needs_chart(old(self)@, Origin::Client { user_id }, cmd)
                    &&& user == user_id
                    &&& cmd == (RoomCommand::SelectChart { id })
                    &&& final(self)@ == old(self)@
                },
                RoomStep::Done { resp, events } => {
                    &&& !needs_chart(old(self)@, Origin::Client { user_id }, cmd)
                    &&& (Outcome {
                        room: final(self)@,
                        resp: resp.model(),
                        events: events.model(),
                    }) == old(self)@.told_by_user(user_id, cmd, pick)
                },
            },
    {
        let (resp, events): Reply = match cmd {
            RoomCommand::CreateRoom { id: _, name } => self.handle_create(user_id, name),
            RoomCommand::JoinRoom { id: _, monitor, name } => self.handle_join(
                user_id,
                monitor,
                name,
            ),
            RoomCommand::LeaveRoom => self.handle_leave(user_id, pick),
            RoomCommand::Chat { message } => self.handle_chat(user_id, message.into_inner()),
            RoomCommand::SelectChart { id } => match self.check_select(user_id) {
                Some(err) => (Some(RoomResponse::Failure(err)), Vec::new()),
                None => {
                    return RoomStep::FetchChart { user_id, id };
                },
            },
            RoomCommand::RequestStart => self.handle_request_start(user_id),
            RoomCommand::Ready => self.handle_ready(user_id),
            RoomCommand::CancelReady => self.handle_cancel_ready(user_id),
            RoomCommand::Abort => self.handle_abort(user_id),
            RoomCommand::Played { id } => self.handle_played(user_id, id),
            RoomCommand::LockRoom { lock } => self.handle_lock(user_id, lock),
            RoomCommand::CycleRoom { cycle } => self.handle_cycle(user_id, cycle),
            RoomCommand::Touches { frames } => {
                self.handle_touches(user_id, frames);
                (None, Vec::new())
            },
            RoomCommand::Judges { judges } => {
                self.handle_judges(user_id, judges);
                (None, Vec::new())
            },
            _ => (None, Vec::new()),
        };
        RoomStep::Done { resp, events }
    }

    /// Goes on with the selection of a chart that has been fetched, or could not be.
    pub fn chart_fetched(
        &mut self,
        user_id: i32,
        id: i32,
        fetched: Result<Chart, ApiError>,
    ) -> (reply: Reply)
        ensures
            old(self)@.finite(),
            final(self)@.finite(),
            (Outcome { room: final(self)@, resp: reply.0.model(), events: reply.1.model() })
                == old(self)@.selected(user_id, id, fetched),
    {
        proof {
            lemma_finite(*self);
        }
        match fetched {
            Ok(chart) => {
                let name: String = chart.name.clone();
                self.chart = Some(chart);
                let mut events: Vec<RoomEvent> = Vec::new();
                events.push(
                    RoomEvent::SelectChart { room_id: self.id.clone(), user: user_id, name, id },
                );
                assert(events.model() =~= old(self)@.selected(user_id, id, fetched).events);
                (Some(RoomResponse::Done), events)
            },
            Err(ApiError::Internal { msg }) => (
                Some(RoomResponse::Failure(RoomError::Internal { msg })),
                Vec::new(),
            ),
        }
    }
}

/// Creates rooms that start with the same configuration.
pub struct RoomsV1 {
    config: RoomConfig,
}

impl RoomsV1 {
    /// The users who may watch in the rooms that are created.
    pub closed spec fn allowed(&self) -> Seq<i32> {
        self.config.monitors@
    }

    /// Makes a factory of rooms.
    pub fn new(config: RoomConfig) -> (res: Self)
        ensures
            res.allowed() == config.monitors@,
    {
        RoomsV1 { config }
    }

    /// Creates a room with no one in it.
    pub fn create(&self, room_id: RoomId) -> (room: RoomV1)
        ensures
            room@ == RoomView::fresh(room_id@, self.allowed()),
    {
        RoomV1::new(room_id, self.config.clone())
    }
}

/// The users of a map in ascending order of their ids.
fn infos_in_order(users: &HashMap<i32, UserInfo>) -> (infos: Vec<UserInfo>)
    ensures
        infos.model() == state::values_in_order(users.model()),
{
    let ids = keys_in_order(users);
    let mut infos: Vec<UserInfo> = Vec::new();
    let mut i: usize = 0;
    proof {
        crate::binary::map::lemma_sorted_keys(users@.dom());
        assert(users.model().dom() =~= users@.dom());
    }
    let ghost all = state::values_in_order(users.model());
    assert(infos.model() =~= all.take(0));
    while i < ids.len()
        invariant
            i <= ids.len(),
            ids@.to_set() == users@.dom(),
            ids@ == state::ids_in_order(users.model().dom()),
            all == state::values_in_order(users.model()),
            infos.model() == all.take(i as int),
        decreases ids.len() - i,
    {
        let id: i32 = ids[i];
        assert(ids@.to_set().contains(id)) by {
            assert(ids@.contains(id));
        }
        if let Some(info) = users.get(&id) {
            infos.push(info.clone());
        }
        assert(infos.model() =~= all.take(i + 1));
        i = i + 1;
    }
    assert(all.take(i as int) =~= all);
    infos
}

/// The ids but one, in the same order.
fn ids_without(ids: &Vec<i32>, id: i32) -> (res: Vec<i32>)
    ensures
        res@ == ids@.filter(state::other_than(id)),
{
    let mut res: Vec<i32> = Vec::new();
    let mut i: usize = 0;
    proof {
        reveal(Seq::filter);
        assert(ids@.take(0) =~= Seq::<i32>::empty());
    }
    while i < ids.len()
        invariant
            i <= ids.len(),
            res@ == ids@.take(i as int).filter(state::other_than(id)),
        decreases ids.len() - i,
    {
        proof {
            reveal(Seq::filter);
            assert(ids@.take(i + 1).drop_last() =~= ids@.take(i as int));
        }
        if ids[i] != id {
            res.push(ids[i]);
        }
        i = i + 1;
    }
    assert(ids@.take(i as int) =~= ids@);
    res
}

/// The ids that are not in the set, in the same order.
fn ids_outside(ids: &Vec<i32>, set: &HashSet<i32>) -> (res: Vec<i32>)
    ensures
        res@ == ids@.filter(state::outside(set@)),
{
    let mut res: Vec<i32> = Vec::new();
    let mut i: usize = 0;
    proof {
        reveal(Seq::filter);
        assert(ids@.take(0) =~= Seq::<i32>::empty());
    }
    while i < ids.len()
        invariant
            i <= ids.len(),
            res@ == ids@.take(i as int).filter(state::outside(set@)),
        decreases ids.len() - i,
    {
        proof {
            reveal(Seq::filter);
            assert(ids@.take(i + 1).drop_last() =~= ids@.take(i as int));
        }
        if !set.contains(&ids[i]) {
            res.push(ids[i]);
        }
        i = i + 1;
    }
    assert(ids@.take(i as int) =~= ids@);
    res
}

/// The frames of all batches, one after the other.
fn merge_touches(batches: &Vec<Arc<Vec<TouchFrame>>>) -> (merged: Vec<TouchFrame>)
    ensures
        merged.model() == state::concat(batches.model()),
{
    let mut merged: Vec<TouchFrame> = Vec::new();
    let mut i: usize = 0;
    let ghost all = batches.model();
    assert(all.take(0) =~= Seq::empty());
    while i < batches.len()
        invariant
            i <= batches.len(),
            all == batches.model(),
            merged.model() == state::concat(all.take(i as int)),
        decreases batches.len() - i,
    {
        let batch: &Vec<TouchFrame> = &batches[i];
        let ghost before = merged.model();
        let mut j: usize = 0;
        assert(before =~= before + batch.model().take(0));
        while j < batch.len()
            invariant
                j <= batch.len(),
                merged.model() == before + batch.model().take(j as int),
            decreases batch.len() - j,
        {
            merged.push(batch[j].clone());
            assert(batch.model().take(j + 1) =~= batch.model().take(j as int).push(
                batch@[j as int].model(),
            ));
            assert(merged.model() =~= before + batch.model().take(j + 1));
            j = j + 1;
        }
        proof {
            assert(batch.model().take(j as int) =~= batch.model());
            assert(all.take(i + 1).drop_last() =~= all.take(i as int));
            assert(all.take(i + 1).last() == batch.model());
        }
        i = i + 1;
    }
    assert(all.take(i as int) =~= all);
    merged
}

/// The judgements of all batches, one after the other.
fn merge_judges(batches: &Vec<Arc<Vec<JudgeEvent>>>) -> (merged: Vec<JudgeEvent>)
    ensures
        merged.model() == state::concat(batches.model()),
{
    let mut merged: Vec<JudgeEvent> = Vec::new();
    let mut i: usize = 0;
    let ghost all = batches.model();
    assert(all.take(0) =~= Seq::empty());
    while i < batches.len()
        invariant
            i <= batches.len(),
            all == batches.model(),
            merged.model() == state::concat(all.take(i as int)),
        decreases batches.len() - i,
    {
        let batch: &Vec<JudgeEvent> = &batches[i];
        let ghost before = merged.model();
        let mut j: usize = 0;
        assert(before =~= before + batch.model().take(0));
        while j < batch.len()
            invariant
                j <= batch.len(),
                merged.model() == before + batch.model().take(j as int),
            decreases batch.len() - j,
        {
            merged.push(batch[j]);
            assert(batch.model().take(j + 1) =~= batch.model().take(j as int).push(
                batch@[j as int].model(),
            ));
            assert(merged.model() =~= before + batch.model().take(j + 1));
            j = j + 1;
        }
        proof {
            assert(batch.model().take(j as int) =~= batch.model());
            assert(all.take(i + 1).drop_last() =~= all.take(i as int));
            assert(all.take(i + 1).last() == batch.model());
        }
        i = i + 1;
    }
    assert(all.take(i as int) =~= all);
    merged
}

/// Whether every key of the map is in the set.
fn all_ids_in(users: &HashMap<i32, UserInfo>, set: &HashSet<i32>) -> (res: bool)
    ensures
        res == (forall|user: i32| #[trigger] users@.contains_key(user) ==> set@.contains(user)),
{
    let ids = keys_in_order(users);
    proof {
        crate::binary::map::lemma_sorted_keys(users@.dom());
    }
    let mut i: usize = 0;
    while i < ids.len()
        invariant
            i <= ids.len(),
            ids@.to_set() == users@.dom(),
            forall|j: int| 0 <= j < i ==> set@.contains(#[trigger] ids@[j]),
        decreases ids.len() - i,
    {
        if !set.contains(&ids[i]) {
            assert(ids@.to_set().contains(ids@[i as int])) by {
                assert(ids@.contains(ids@[i as int]));
            }
            assert(users@.contains_key(ids@[i as int]));
            return false;
        }
        i = i + 1;
    }
    assert forall|user: i32| #[trigger] users@.contains_key(user) implies set@.contains(user) by {
        assert(ids@.to_set().contains(user));
        let j = ids@.index_of(user);
        assert(ids@[j] == user);
    }
    true
}

} // verus!
