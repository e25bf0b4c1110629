//! What every kind of room has to do, tried out on the rooms of the library.

use std::sync::Arc;

use phira_mp::contract::{FakeApi, SeqRng};
use phira_mp::room_v1::{RoomStep, RoomV1, RoomsV1};
use phira_mp::rooms::{
    ApiError, Chart, ClientRoomState, CmdCtx, Float32, Origin, Record, RoomCommand, RoomConfig,
    RoomError, RoomErrorCode, RoomEvent, RoomId, RoomResponse, RoomState, Targets, TouchFrame,
    UserInfo, Varchar,
};

/// A room with what it needs of the outside.
struct Room {
    room: RoomV1,
    rng: SeqRng,
    fetch_chart: fn(i32) -> Result<Chart, ApiError>,
}

impl Room {
    fn handle(
        &mut self,
        ctx: CmdCtx,
        cmd: RoomCommand,
    ) -> (Option<RoomResponse>, Vec<RoomEvent>) {
        match self.room.handle(ctx, cmd, &mut self.rng) {
            RoomStep::Done { resp, events } => (resp, events),
            RoomStep::FetchChart { user_id, id } => {
                let fetched = (self.fetch_chart)(id);
                self.room.chart_fetched(user_id, id, fetched)
            }
        }
    }
}

struct Rooms {
    rooms: RoomsV1,
    fetch_chart: fn(i32) -> Result<Chart, ApiError>,
}

impl Rooms {
    fn create(&self, id: RoomId) -> Room {
        Room {
            room: self.rooms.create(id),
            rng: SeqRng::default(),
            fetch_chart: self.fetch_chart,
        }
    }
}

fn num(x: f32) -> Float32 {
    Float32 { bits: x.to_bits() }
}

#[test]
fn rooms_v1_passes() {
    let rooms = Rooms {
        rooms: RoomsV1::new(RoomConfig::default()),
        fetch_chart: |id| FakeApi.fetch_chart(id),
    };
    room_contract_suite(&rooms);
}

#[test]
fn select_chart_api_failure_maps_to_internal_error() {
    let rooms = Rooms {
        rooms: RoomsV1::new(RoomConfig::default()),
        fetch_chart: |_| {
            Err(ApiError::Internal {
                msg: "upstream down".into(),
            })
        },
    };
    let rid = || RoomId::new("r".to_owned()).unwrap();
    let ctx = |user_id| CmdCtx {
        room_id: rid(),
        origin: Origin::Client { user_id },
    };
    let mut room = rooms.create(rid());
    let (resp, _) = room.handle(
        ctx(1),
        RoomCommand::CreateRoom {
            id: rid(),
            name: "user1".to_owned(),
        },
    );
    assert!(matches!(resp, Some(RoomResponse::Done)));
    let (resp, _) = room.handle(ctx(1), RoomCommand::SelectChart { id: 1 });
    assert!(matches!(
        resp,
        Some(RoomResponse::Failure(RoomError::Internal { .. }))
    ));
}

fn rid() -> RoomId {
    RoomId::new("test".to_owned()).unwrap()
}

fn ctx(user_id: i32) -> CmdCtx {
    CmdCtx {
        origin: Origin::Client { user_id },
        room_id: rid(),
    }
}

fn sys_ctx() -> CmdCtx {
    CmdCtx {
        origin: Origin::System,
        room_id: rid(),
    }
}

/// A record of the player with its id.
fn record_with_chart(id: i32, chart: Option<i32>) -> Result<Record, ApiError> {
    Ok(Record {
        id,
        player: id,
        chart,
        score: 100,
        perfect: 1,
        good: 2,
        bad: 3,
        miss: 4,
        max_combo: 5,
        accuracy: num(0.99),
        full_combo: true,
        std: num(0.1),
        std_score: num(0.9),
    })
}

fn record_ok_fn(id: i32) -> Result<Record, ApiError> {
    record_with_chart(id, Some(1))
}

fn record_mismatch_fn(id: i32) -> Result<Record, ApiError> {
    record_with_chart(id, Some(999))
}

fn record_no_chart_fn(id: i32) -> Result<Record, ApiError> {
    record_with_chart(id, None)
}

/// The answer is a refusal with this code.
fn assert_business(resp: &RoomResponse, code: RoomErrorCode) {
    assert!(
        matches!(
            resp,
            RoomResponse::Failure(RoomError::Business { code: c, .. }) if *c == code
        )
    );
}

/// Creates the room; user 1 is the host.
fn create_room(room: &mut Room) {
    let (resp, events) = room
        .handle(
            ctx(1),
            RoomCommand::CreateRoom {
                id: rid(),
                name: "user1".to_owned(),
            },
        );
    assert!(matches!(resp, Some(RoomResponse::Done)));
    assert_eq!(
        events,
        vec![RoomEvent::RoomCreated {
            room_id: rid(),
            host: 1,
        }]
    );
}

/// A game of users 1, 2 and 3 that has started.
fn setup_playing(room: &mut Room) {
    create_room(room);
    room.handle(
        ctx(2),
        RoomCommand::JoinRoom {
            id: rid(),
            monitor: false,
            name: "user2".to_owned(),
        },
    );
    room.handle(
        ctx(3),
        RoomCommand::JoinRoom {
            id: rid(),
            monitor: false,
            name: "user3".to_owned(),
        },
    );
    room.handle(ctx(1), RoomCommand::SelectChart { id: 1 });
    room.handle(ctx(1), RoomCommand::RequestStart);
    room.handle(ctx(2), RoomCommand::Ready);
    room.handle(ctx(3), RoomCommand::Ready);
}

/// Everything that a room has to do.
fn room_contract_suite(factory: &Rooms) {
    create_and_join_flow(factory);
    permissions_and_state(factory);
    game_flow(factory);
    record_fetch_failure_settles(factory);
    record_chart_mismatch_settles(factory);
    admin_management(factory);
    disconnect_reconnect(factory);
    monitor_and_relay(factory);
    config_and_client_state(factory);
    chat_and_edge_cases(factory);
    monitor_capacity_and_config_hotswap(factory);
    host_leave_migrates(factory);
    playing_leave_triggers_settle(factory);
    join_during_game_rejected(factory);
    ready_countdown_tick(factory);
    relay_aggregation_buffer(factory);
    game_time_tracking(factory);
}

/// The time of the last touch frame is kept for users who come back.
fn game_time_tracking(factory: &Rooms) {
    let frame = |t: f32| TouchFrame {
        time: num(t),
        points: Vec::new(),
    };

    let mut room = factory.create(rid());
    create_room(&mut room);
    room.handle(
        ctx(2),
        RoomCommand::JoinRoom {
            id: rid(),
            monitor: false,
            name: "user2".to_owned(),
        },
    );
    let (resp, _) = room
        .handle(sys_ctx(), RoomCommand::GetClientState { user_id: 2 });
    let Some(RoomResponse::ClientState(Some(state))) = resp else {
        panic!("unexpected: {resp:?}");
    };
    assert!(
        state.last_game_time.bits == f32::NEG_INFINITY.to_bits()
    );

    room.handle(
        ctx(2),
        RoomCommand::Touches {
            frames: Arc::new(vec![frame(3.0), frame(7.5)]),
        },
    );
    room.handle(
        ctx(2),
        RoomCommand::Touches {
            frames: Arc::new(Vec::new()),
        },
    );
    let (resp, _) = room
        .handle(sys_ctx(), RoomCommand::GetClientState { user_id: 2 });
    let Some(RoomResponse::ClientState(Some(state))) = resp else {
        panic!("unexpected: {resp:?}");
    };
    assert_eq!(
        state.last_game_time.bits,
        7.5f32.to_bits()
    );

    room.handle(ctx(1), RoomCommand::SelectChart { id: 1 });
    room.handle(ctx(1), RoomCommand::RequestStart);
    let (resp, _) = room
        .handle(sys_ctx(), RoomCommand::GetClientState { user_id: 2 });
    let Some(RoomResponse::ClientState(Some(state))) = resp else {
        panic!("unexpected: {resp:?}");
    };
    assert!(
        state.last_game_time.bits == f32::NEG_INFINITY.to_bits()
    );

    room.handle(ctx(2), RoomCommand::Ready);
    let (resp, _) = room
        .handle(sys_ctx(), RoomCommand::GetClientState { user_id: 2 });
    let Some(RoomResponse::ClientState(Some(state))) = resp else {
        panic!("unexpected: {resp:?}");
    };
    assert_eq!(state.state, RoomState::Playing);
    assert!(
        state.last_game_time.bits == f32::NEG_INFINITY.to_bits()
    );
    room.handle(
        ctx(2),
        RoomCommand::Touches {
            frames: Arc::new(vec![frame(1.25)]),
        },
    );
    let (resp, _) = room
        .handle(sys_ctx(), RoomCommand::GetClientState { user_id: 2 });
    let Some(RoomResponse::ClientState(Some(state))) = resp else {
        panic!("unexpected: {resp:?}");
    };
    assert_eq!(state.last_game_time.bits, 1.25f32.to_bits());

    let (resp, _) = room
        .handle(sys_ctx(), RoomCommand::GetClientState { user_id: 1 });
    let Some(RoomResponse::ClientState(Some(state))) = resp else {
        panic!("unexpected: {resp:?}");
    };
    assert!(
        state.last_game_time.bits == f32::NEG_INFINITY.to_bits()
    );
}

/// Creating, joining, locking, and closing when empty.
fn create_and_join_flow(factory: &Rooms) {
    let mut room = factory.create(rid());
    create_room(&mut room);

    let (resp, events) = room
        .handle(
            ctx(2),
            RoomCommand::JoinRoom {
                id: rid(),
                monitor: false,
                name: "user2".to_owned(),
            },
        );
    let Some(RoomResponse::JoinRoom(join_resp)) = resp else {
        panic!("unexpected: {resp:?}");
    };
    assert_eq!(join_resp.state, RoomState::SelectChart(None));
    assert_eq!(join_resp.users.len(), 2);
    assert!(!join_resp.live);
    assert_eq!(
        events,
        vec![RoomEvent::UserJoined {
            room_id: rid(),
            user: UserInfo {
                id: 2,
                name: "user2".to_owned(),
                monitor: false,
            },
        }]
    );

    let (resp, _) = room
        .handle(
            ctx(2),
            RoomCommand::JoinRoom {
                id: rid(),
                monitor: false,
                name: "user2".to_owned(),
            },
        );
    assert_business(resp.as_ref().unwrap(), RoomErrorCode::AlreadyInRoom);

    let (resp, _) = room
        .handle(ctx(1), RoomCommand::LockRoom { lock: true });
    assert!(matches!(resp, Some(RoomResponse::Done)));
    let (resp, _) = room
        .handle(
            ctx(3),
            RoomCommand::JoinRoom {
                id: rid(),
                monitor: false,
                name: "user3".to_owned(),
            },
        );
    assert_business(resp.as_ref().unwrap(), RoomErrorCode::RoomLocked);

    let (_, events) = room.handle(ctx(1), RoomCommand::LeaveRoom);
    let (_, events2) = room.handle(ctx(2), RoomCommand::LeaveRoom);
    let mut all = events;
    all.extend(events2);
    assert!(
        all.contains(&RoomEvent::RoomClosed { room_id: rid() })
    );
}

/// What only the host may do, and when.
fn permissions_and_state(factory: &Rooms) {
    let mut room = factory.create(rid());
    create_room(&mut room);
    let (resp, _) = room
        .handle(ctx(2), RoomCommand::SelectChart { id: 1 });
    assert_business(resp.as_ref().unwrap(), RoomErrorCode::OnlyHost);
    let (resp, _) = room
        .handle(ctx(2), RoomCommand::LockRoom { lock: true });
    assert_business(resp.as_ref().unwrap(), RoomErrorCode::OnlyHost);
    let (resp, _) = room
        .handle(ctx(2), RoomCommand::CycleRoom { cycle: true });
    assert_business(resp.as_ref().unwrap(), RoomErrorCode::OnlyHost);

    let (resp, _) = room.handle(ctx(1), RoomCommand::RequestStart);
    assert_business(resp.as_ref().unwrap(), RoomErrorCode::NoChartSelected);

    let (resp, events) = room
        .handle(ctx(1), RoomCommand::SelectChart { id: 1 });
    assert!(matches!(resp, Some(RoomResponse::Done)));
    assert_eq!(
        events,
        vec![RoomEvent::SelectChart {
            room_id: rid(),
            user: 1,
            name: "chart-1".to_owned(),
            id: 1,
        }]
    );

    room.handle(
        ctx(2),
        RoomCommand::JoinRoom {
            id: rid(),
            monitor: false,
            name: "user2".to_owned(),
        },
    );
    let (resp, events) = room.handle(ctx(1), RoomCommand::RequestStart);
    assert!(matches!(resp, Some(RoomResponse::Done)));
    assert_eq!(
        events,
        vec![RoomEvent::GameStart {
            room_id: rid(),
            user: 1,
        }]
    );

    let (resp, events) = room.handle(ctx(1), RoomCommand::CancelReady);
    assert!(matches!(resp, Some(RoomResponse::Done)));
    assert_eq!(
        events,
        vec![RoomEvent::CancelGame {
            room_id: rid(),
            user: 1,
            chart: Some(1),
        }]
    );

    room.handle(
        ctx(3),
        RoomCommand::JoinRoom {
            id: rid(),
            monitor: false,
            name: "user3".to_owned(),
        },
    );
    room.handle(ctx(1), RoomCommand::RequestStart);
    room.handle(ctx(2), RoomCommand::Ready);
    let (resp, events) = room.handle(ctx(2), RoomCommand::CancelReady);
    assert!(matches!(resp, Some(RoomResponse::Done)));
    assert_eq!(
        events,
        vec![RoomEvent::CancelReady {
            room_id: rid(),
            user: 2,
        }]
    );
}

/// From getting ready to the end of a game.
fn game_flow(factory: &Rooms) {
    let mut room = factory.create(rid());
    setup_playing(&mut room);

    let (resp, _) = room.handle(ctx(2), RoomCommand::CancelReady);
    assert_business(resp.as_ref().unwrap(), RoomErrorCode::InvalidState);

    let (resp, events) = room.handle(ctx(1), RoomCommand::Played { id: 1 });
    assert!(matches!(resp, Some(RoomResponse::Done)));
    assert!(events.is_empty());
    let (resp, _) = room.handle(ctx(1), RoomCommand::Played { id: 1 });
    assert_business(resp.as_ref().unwrap(), RoomErrorCode::AlreadyUploaded);

    let (resp, events) = room
        .handle(
            sys_ctx(),
            RoomCommand::RecordFetched {
                user_id: 1,
                record_id: 1,
                record: record_ok_fn(1),
            },
        );
    assert!(resp.is_none());
    assert!(events.contains(&RoomEvent::Played {
        room_id: rid(),
        user: 1,
        score: 100,
        accuracy: num(0.99),
        full_combo: true,
    })
    );

    let (resp, _) = room.handle(ctx(2), RoomCommand::Played { id: 3 });
    assert!(matches!(resp, Some(RoomResponse::Done)));
    let (resp, events) = room
        .handle(
            sys_ctx(),
            RoomCommand::RecordFetched {
                user_id: 2,
                record_id: 3,
                record: record_ok_fn(3),
            },
        );
    assert!(resp.is_none());
    assert!(
        !events
            .iter()
            .any(|e| matches!(e, RoomEvent::Played { user, .. } if *user == 2))
    );
    assert!(
        events.contains(&RoomEvent::Abort {
            room_id: rid(),
            user: 2
        })
    );
    let (resp, _) = room.handle(ctx(2), RoomCommand::Played { id: 2 });
    assert_business(resp.as_ref().unwrap(), RoomErrorCode::AlreadyUploaded);

    let (resp, _) = room.handle(ctx(3), RoomCommand::Played { id: 3 });
    assert!(matches!(resp, Some(RoomResponse::Done)));
    let (_, events) = room
        .handle(
            sys_ctx(),
            RoomCommand::RecordFetched {
                user_id: 3,
                record_id: 3,
                record: record_ok_fn(3),
            },
        );
    assert!(
        events
            .iter()
            .any(|e| matches!(e, RoomEvent::GameEnd { room_id, .. } if room_id == &rid()))
    );
    let (resp, _) = room
        .handle(ctx(1), RoomCommand::SelectChart { id: 1 });
    assert!(matches!(resp, Some(RoomResponse::Done)));

    let mut room = factory.create(rid());
    setup_playing(&mut room);
    let (resp, events) = room.handle(ctx(1), RoomCommand::Abort);
    assert!(matches!(resp, Some(RoomResponse::Done)));
    assert_eq!(
        events,
        vec![RoomEvent::Abort {
            room_id: rid(),
            user: 1,
        }]
    );
    let (resp, _) = room.handle(ctx(1), RoomCommand::Abort);
    assert_business(resp.as_ref().unwrap(), RoomErrorCode::AlreadyAborted);
    room.handle(ctx(2), RoomCommand::Abort);
    let (_, events) = room.handle(ctx(3), RoomCommand::Abort);
    assert!(
        events
            .iter()
            .any(|e| matches!(e, RoomEvent::GameEnd { room_id, .. } if room_id == &rid()))
    );

    let mut room = factory.create(rid());
    create_room(&mut room);
    room.handle(
        ctx(2),
        RoomCommand::JoinRoom {
            id: rid(),
            monitor: false,
            name: "user2".to_owned(),
        },
    );
    room.handle(
        ctx(3),
        RoomCommand::JoinRoom {
            id: rid(),
            monitor: false,
            name: "user3".to_owned(),
        },
    );
    let (_, events) = room
        .handle(ctx(1), RoomCommand::CycleRoom { cycle: true });
    assert!(events.contains(&RoomEvent::CycleRoom {
        room_id: rid(),
        cycle: true
    })
    );
    room.handle(ctx(1), RoomCommand::SelectChart { id: 1 });
    room.handle(ctx(1), RoomCommand::RequestStart);
    room.handle(ctx(2), RoomCommand::Ready);
    room.handle(ctx(3), RoomCommand::Ready);
    for uid in [1, 2] {
        room.handle(ctx(uid), RoomCommand::Played { id: uid });
        room.handle(
            sys_ctx(),
            RoomCommand::RecordFetched {
                user_id: uid,
                record_id: uid,
                record: record_ok_fn(uid),
            },
        );
    }
    room.handle(ctx(3), RoomCommand::Played { id: 3 });
    let (_, events) = room
        .handle(
            sys_ctx(),
            RoomCommand::RecordFetched {
                user_id: 3,
                record_id: 3,
                record: record_ok_fn(3),
            },
        );
    assert!(
        events
            .iter()
            .any(|e| matches!(e, RoomEvent::GameEnd { room_id, .. } if room_id == &rid()))
    );
    assert!(
        events.contains(&RoomEvent::NewHost {
            room_id: rid(),
            new_host: 2,
            old_host: 1,
        })
    );
}

/// A record that cannot be fetched does not keep a game from ending.
fn record_fetch_failure_settles(factory: &Rooms) {
    let mut room = factory.create(rid());
    setup_playing(&mut room);

    let (resp, _) = room.handle(ctx(1), RoomCommand::Played { id: 1 });
    assert!(matches!(resp, Some(RoomResponse::Done)));
    room.handle(
        sys_ctx(),
        RoomCommand::RecordFetched {
            user_id: 1,
            record_id: 1,
            record: record_ok_fn(1),
        },
    );

    let (resp, _) = room.handle(ctx(2), RoomCommand::Played { id: 2 });
    assert!(matches!(resp, Some(RoomResponse::Done)));
    let (resp, events) = room
        .handle(
            sys_ctx(),
            RoomCommand::RecordFetched {
                user_id: 2,
                record_id: 2,
                record: Err(ApiError::Internal {
                    msg: "upstream down".into(),
                }),
            },
        );
    assert!(resp.is_none());
    assert!(
        events.contains(&RoomEvent::Abort {
            room_id: rid(),
            user: 2
        })
    );
    assert!(
        !events
            .iter()
            .any(|e| matches!(e, RoomEvent::Played { user: 2, .. }))
    );

    let (resp, _) = room.handle(ctx(3), RoomCommand::Played { id: 3 });
    assert!(matches!(resp, Some(RoomResponse::Done)));
    let (_, events) = room
        .handle(
            sys_ctx(),
            RoomCommand::RecordFetched {
                user_id: 3,
                record_id: 3,
                record: record_ok_fn(3),
            },
        );
    assert!(
        events
            .iter()
            .any(|e| matches!(e, RoomEvent::GameEnd { room_id, .. } if room_id == &rid()))
    );
}

/// A record of another chart does not count.
fn record_chart_mismatch_settles(factory: &Rooms) {
    let mut room = factory.create(rid());
    setup_playing(&mut room);

    let (resp, _) = room.handle(ctx(1), RoomCommand::Played { id: 1 });
    assert!(matches!(resp, Some(RoomResponse::Done)));
    let (_, events) = room
        .handle(
            sys_ctx(),
            RoomCommand::RecordFetched {
                user_id: 1,
                record_id: 1,
                record: record_ok_fn(1),
            },
        );
    assert!(
        events.contains(&RoomEvent::Played {
            room_id: rid(),
            user: 1,
            score: 100,
            accuracy: num(0.99),
            full_combo: true,
        })
    );

    let (resp, _) = room.handle(ctx(2), RoomCommand::Played { id: 2 });
    assert!(matches!(resp, Some(RoomResponse::Done)));
    let (resp, events) = room
        .handle(
            sys_ctx(),
            RoomCommand::RecordFetched {
                user_id: 2,
                record_id: 2,
                record: record_mismatch_fn(2),
            },
        );
    assert!(resp.is_none());
    assert!(
        events.contains(&RoomEvent::Abort {
            room_id: rid(),
            user: 2
        })
    );
    assert!(
        !events
            .iter()
            .any(|e| matches!(e, RoomEvent::Played { user: 2, .. }))
    );

    let (resp, _) = room.handle(ctx(3), RoomCommand::Played { id: 3 });
    assert!(matches!(resp, Some(RoomResponse::Done)));
    let (_, events) = room
        .handle(
            sys_ctx(),
            RoomCommand::RecordFetched {
                user_id: 3,
                record_id: 3,
                record: record_no_chart_fn(3),
            },
        );
    assert!(
        events
            .iter()
            .any(|e| matches!(e, RoomEvent::GameEnd { room_id, .. } if room_id == &rid()))
    );
}

/// Kicking and announcing by the administration.
fn admin_management(factory: &Rooms) {
    let mut room = factory.create(rid());
    setup_playing(&mut room);

    let (resp, events) = room
        .handle(
            sys_ctx(),
            RoomCommand::AdminBroadcast {
                content: "维护通知".to_owned(),
            },
        );
    assert!(matches!(resp, Some(RoomResponse::Done)));
    assert!(
        events.contains(&RoomEvent::Chat {
            room_id: rid(),
            user: 0,
            content: "维护通知".to_owned(),
        })
    );

    let (resp, events) = room
        .handle(sys_ctx(), RoomCommand::AdminKick { user_id: 2 });
    assert!(matches!(resp, Some(RoomResponse::Done)));
    assert!(
        events.contains(&RoomEvent::UserLeft {
            room_id: rid(),
            user: 2,
            name: "user2".to_owned(),
        })
    );
    let (resp, _) = room
        .handle(sys_ctx(), RoomCommand::GetClientState { user_id: 2 });
    assert!(matches!(resp, Some(RoomResponse::ClientState(None))));

    let (resp, events) = room
        .handle(sys_ctx(), RoomCommand::AdminKick { user_id: 1 });
    assert!(matches!(resp, Some(RoomResponse::Done)));
    assert!(events.iter().any(|e| matches!(
        e,
        RoomEvent::UserLeft {
            room_id,
            user: 1,
            ..
        } if room_id == &rid()
    ))
    );
    assert!(
        events.iter().any(|e| matches!(
            e,
            RoomEvent::NewHost {
                room_id,
                new_host: 3,
                old_host: 1,
            } if room_id == &rid()
        ))
    );

    let (resp, _) = room
        .handle(sys_ctx(), RoomCommand::AdminKick { user_id: 2 });
    assert_business(resp.as_ref().unwrap(), RoomErrorCode::NotInRoom);

    let (resp, events) = room
        .handle(ctx(3), RoomCommand::AdminKick { user_id: 3 });
    assert!(
        resp.is_none() && events.is_empty()
    );
}

/// Losing the connection, and coming back or not.
fn disconnect_reconnect(factory: &Rooms) {
    let mut room = factory.create(rid());
    create_room(&mut room);
    room.handle(
        ctx(2),
        RoomCommand::JoinRoom {
            id: rid(),
            monitor: false,
            name: "user2".to_owned(),
        },
    );
    let (_, events) = room
        .handle(
            sys_ctx(),
            RoomCommand::UserDisconnected {
                user_id: 2,
                epoch: 1,
            },
        );
    assert!(events.is_empty());
    let (_, events) = room
        .handle(
            sys_ctx(),
            RoomCommand::UserReconnected {
                user_id: 2,
                epoch: 2,
            },
        );
    assert!(events.is_empty());
    let (resp, _) = room
        .handle(sys_ctx(), RoomCommand::GetClientState { user_id: 2 });
    assert!(matches!(resp, Some(RoomResponse::ClientState(Some(_)))));

    let mut room = factory.create(rid());
    create_room(&mut room);
    room.handle(
        ctx(2),
        RoomCommand::JoinRoom {
            id: rid(),
            monitor: false,
            name: "user2".to_owned(),
        },
    );
    room.handle(
        sys_ctx(),
        RoomCommand::UserDisconnected {
            user_id: 2,
            epoch: 1,
        },
    );
    let (_, events) = room
        .handle(sys_ctx(), RoomCommand::UserDangleExpired { user_id: 2 });
    assert!(
        events.iter().any(
            |e| matches!(e, RoomEvent::UserLeft { room_id, user: 2, .. } if room_id == &rid())
        )
    );
    assert!(
        !events.contains(&RoomEvent::RoomClosed { room_id: rid() })
    );

    let (_, events) = room
        .handle(sys_ctx(), RoomCommand::UserDangleExpired { user_id: 2 });
    assert!(events.is_empty());

    let mut room = factory.create(rid());
    create_room(&mut room);
    room.handle(
        ctx(2),
        RoomCommand::JoinRoom {
            id: rid(),
            monitor: false,
            name: "user2".to_owned(),
        },
    );
    room.handle(
        sys_ctx(),
        RoomCommand::UserDisconnected {
            user_id: 1,
            epoch: 1,
        },
    );
    let (_, events) = room
        .handle(sys_ctx(), RoomCommand::UserDangleExpired { user_id: 1 });
    assert!(
        events.contains(&RoomEvent::NewHost {
            room_id: rid(),
            new_host: 2,
            old_host: 1,
        })
    );

    let mut room = factory.create(rid());
    setup_playing(&mut room);
    let (_, events) = room
        .handle(
            sys_ctx(),
            RoomCommand::UserDisconnected {
                user_id: 2,
                epoch: 1,
            },
        );
    assert!(
        !events.iter().any(
            |e| matches!(e, RoomEvent::UserLeft { room_id, user: 2, .. } if room_id == &rid())
        )
    );
    let (_, events) = room
        .handle(sys_ctx(), RoomCommand::UserDangleExpired { user_id: 2 });
    assert!(
        events.iter().any(
            |e| matches!(e, RoomEvent::UserLeft { room_id, user: 2, .. } if room_id == &rid())
        )
    );
    let (_, events) = room
        .handle(sys_ctx(), RoomCommand::UserDangleExpired { user_id: 2 });
    assert!(
        events.is_empty()
    );
}

/// Who may watch, and what they get to see.
fn monitor_and_relay(factory: &Rooms) {
    let config = RoomConfig { monitors: vec![9] };
    let mut room = factory.create(rid());
    room.handle(
        sys_ctx(),
        RoomCommand::UpdateConfig {
            config: Arc::new(config),
        },
    );
    create_room(&mut room);

    let (resp, events) = room
        .handle(
            ctx(9),
            RoomCommand::JoinRoom {
                id: rid(),
                monitor: true,
                name: "user9".to_owned(),
            },
        );
    let Some(RoomResponse::JoinRoom(jr)) = resp else {
        panic!("unexpected: {resp:?}");
    };
    assert!(jr.live);
    assert!(events.contains(&RoomEvent::UserJoined {
        room_id: rid(),
        user: UserInfo {
            id: 9,
            name: "user9".to_owned(),
            monitor: true
        },
    })
    );

    let (resp, _) = room
        .handle(
            ctx(5),
            RoomCommand::JoinRoom {
                id: rid(),
                monitor: true,
                name: "user5".to_owned(),
            },
        );
    assert_business(resp.as_ref().unwrap(), RoomErrorCode::CannotMonitor);

    let (resp, events) = room
        .handle(
            ctx(1),
            RoomCommand::Touches {
                frames: Arc::new(vec![]),
            },
        );
    assert!(resp.is_none());
    assert!(events.is_empty());

    let (_, _) = room
        .handle(
            ctx(1),
            RoomCommand::Touches {
                frames: Arc::new(vec![TouchFrame {
                    time: num(0.5),
                    points: Vec::new(),
                }]),
            },
        );
    let (resp, events) = room
        .handle(sys_ctx(), RoomCommand::Tick { now: 1_000 });
    assert!(resp.is_none());
    assert_eq!(events.len(), 1);
    match &events[0] {
        RoomEvent::RelayTouches {
            targets,
            player,
            frames,
            ..
        } => {
            assert_eq!(player, &1);
            assert_eq!(targets, &Targets::Specific(vec![9]));
            assert_eq!(frames.len(), 1);
        }
        other => panic!("unexpected: {other:?}"),
    }

    let mut room = factory.create(rid());
    create_room(&mut room);
    let (_, events) = room
        .handle(
            ctx(1),
            RoomCommand::Touches {
                frames: Arc::new(vec![]),
            },
        );
    assert!(events.is_empty());
    let (_, events) = room
        .handle(sys_ctx(), RoomCommand::Tick { now: 2_000 });
    assert!(events.is_empty());

    let mut room = factory.create(rid());
    create_room(&mut room);
    for u in 2..=8 {
        let (resp, _) = room
            .handle(
                ctx(u),
                RoomCommand::JoinRoom {
                    id: rid(),
                    monitor: false,
                    name: format!("user{u}"),
                },
            );
        assert!(
            matches!(resp, Some(RoomResponse::JoinRoom(_)))
    );
    }
    let (resp, _) = room
        .handle(
            ctx(9),
            RoomCommand::JoinRoom {
                id: rid(),
                monitor: false,
                name: "user9".to_owned(),
            },
        );
    assert_business(resp.as_ref().unwrap(), RoomErrorCode::RoomFull);
}

/// What a user who comes back is told.
fn config_and_client_state(factory: &Rooms) {
    let mut room = factory.create(rid());
    create_room(&mut room);
    room.handle(
        ctx(2),
        RoomCommand::JoinRoom {
            id: rid(),
            monitor: false,
            name: "user2".to_owned(),
        },
    );
    let (resp, _) = room
        .handle(sys_ctx(), RoomCommand::GetClientState { user_id: 2 });
    let Some(RoomResponse::ClientState(Some(state))) = resp else {
        panic!("unexpected: {resp:?}");
    };
    let ClientRoomState {
        state: s,
        users,
        is_host,
        is_ready,
        ..
    } = state;
    assert_eq!(s, RoomState::SelectChart(None));
    assert_eq!(users.len(), 2);
    assert!(!is_host);
    assert!(!is_ready);

    let (resp, _) = room
        .handle(sys_ctx(), RoomCommand::GetClientState { user_id: 99 });
    assert!(matches!(resp, Some(RoomResponse::ClientState(None))));

    let mut room = factory.create(rid());
    setup_playing(&mut room);
    let (resp, _) = room
        .handle(sys_ctx(), RoomCommand::GetClientState { user_id: 2 });
    let Some(RoomResponse::ClientState(Some(state))) = resp else {
        panic!("unexpected: {resp:?}");
    };
    assert_eq!(state.state, RoomState::Playing);
    assert!(
        !state.is_ready
    );
    assert!(!state.live);

    let (resp, events) = room.handle(sys_ctx(), RoomCommand::Tick { now: 999 });
    assert!(resp.is_none());
    assert!(events.is_empty());
}

/// Chatting, and commands at the wrong time.
fn chat_and_edge_cases(factory: &Rooms) {
    let mut room = factory.create(rid());
    create_room(&mut room);
    let (resp, events) = room
        .handle(
            ctx(1),
            RoomCommand::Chat {
                message: Varchar::new("hello phira".to_owned()).unwrap(),
            },
        );
    assert!(matches!(resp, Some(RoomResponse::Done)));
    assert_eq!(
        events,
        vec![RoomEvent::Chat {
            room_id: rid(),
            user: 1,
            content: "hello phira".to_owned(),
        }]
    );

    let (resp, _) = room
        .handle(
            ctx(99),
            RoomCommand::Chat {
                message: Varchar::new("x".to_owned()).unwrap(),
            },
        );
    assert_business(resp.as_ref().unwrap(), RoomErrorCode::NotInRoom);

    let mut room = factory.create(rid());
    create_room(&mut room);
    room.handle(
        ctx(2),
        RoomCommand::JoinRoom {
            id: rid(),
            monitor: false,
            name: "user2".to_owned(),
        },
    );
    room.handle(
        ctx(3),
        RoomCommand::JoinRoom {
            id: rid(),
            monitor: false,
            name: "user3".to_owned(),
        },
    );
    room.handle(ctx(1), RoomCommand::SelectChart { id: 1 });
    room.handle(ctx(1), RoomCommand::RequestStart);
    room.handle(ctx(2), RoomCommand::Ready);
    let (resp, _) = room.handle(ctx(2), RoomCommand::Ready);
    assert_business(resp.as_ref().unwrap(), RoomErrorCode::AlreadyReady);

    let (resp, _) = room.handle(ctx(3), RoomCommand::CancelReady);
    assert_business(resp.as_ref().unwrap(), RoomErrorCode::NotReady);

    let mut room = factory.create(rid());
    create_room(&mut room);
    let (resp, _) = room.handle(ctx(1), RoomCommand::Ready);
    assert_business(resp.as_ref().unwrap(), RoomErrorCode::InvalidState);

    let mut room = factory.create(rid());
    create_room(&mut room);
    room.handle(ctx(1), RoomCommand::SelectChart { id: 1 });
    room.handle(ctx(1), RoomCommand::RequestStart);
    let (resp, _) = room
        .handle(ctx(1), RoomCommand::SelectChart { id: 2 });
    assert_business(resp.as_ref().unwrap(), RoomErrorCode::InvalidState);

    let mut room = factory.create(rid());
    create_room(&mut room);
    let (resp, _) = room.handle(ctx(1), RoomCommand::Played { id: 1 });
    assert!(
        matches!(resp, Some(RoomResponse::Done))
    );

    let mut room = factory.create(rid());
    create_room(&mut room);
    let (resp, _) = room.handle(ctx(1), RoomCommand::Abort);
    assert_business(resp.as_ref().unwrap(), RoomErrorCode::InvalidState);

    let mut room = factory.create(rid());
    let (resp, _) = room.handle(ctx(5), RoomCommand::LeaveRoom);
    assert_business(resp.as_ref().unwrap(), RoomErrorCode::NotInRoom);
}

/// Monitors take no place, and the list of them can change.
fn monitor_capacity_and_config_hotswap(factory: &Rooms) {
    let config = RoomConfig { monitors: vec![99] };
    let mut room = factory.create(rid());
    room.handle(
        sys_ctx(),
        RoomCommand::UpdateConfig {
            config: Arc::new(config),
        },
    );
    create_room(&mut room);
    for u in 2..=8 {
        room.handle(
            ctx(u),
            RoomCommand::JoinRoom {
                id: rid(),
                monitor: false,
                name: format!("user{u}"),
            },
        );
    }
    let (resp, _) = room
        .handle(
            ctx(9),
            RoomCommand::JoinRoom {
                id: rid(),
                monitor: false,
                name: "user9".to_owned(),
            },
        );
    assert_business(resp.as_ref().unwrap(), RoomErrorCode::RoomFull);
    let (resp, _) = room
        .handle(
            ctx(99),
            RoomCommand::JoinRoom {
                id: rid(),
                monitor: true,
                name: "user99".to_owned(),
            },
        );
    assert!(
        matches!(resp, Some(RoomResponse::JoinRoom(_)))
    );

    let mut room = factory.create(rid());
    create_room(&mut room);
    let (resp, _) = room
        .handle(
            ctx(7),
            RoomCommand::JoinRoom {
                id: rid(),
                monitor: true,
                name: "user7".to_owned(),
            },
        );
    assert_business(resp.as_ref().unwrap(), RoomErrorCode::CannotMonitor);
    room.handle(
        sys_ctx(),
        RoomCommand::UpdateConfig {
            config: Arc::new(RoomConfig { monitors: vec![7] }),
        },
    );
    let (resp, _) = room
        .handle(
            ctx(7),
            RoomCommand::JoinRoom {
                id: rid(),
                monitor: true,
                name: "user7".to_owned(),
            },
        );
    assert!(
        matches!(resp, Some(RoomResponse::JoinRoom(_)))
    );
}

/// A host who leaves has a successor.
fn host_leave_migrates(factory: &Rooms) {
    let mut room = factory.create(rid());
    create_room(&mut room);
    room.handle(
        ctx(2),
        RoomCommand::JoinRoom {
            id: rid(),
            monitor: false,
            name: "user2".to_owned(),
        },
    );
    room.handle(
        ctx(3),
        RoomCommand::JoinRoom {
            id: rid(),
            monitor: false,
            name: "user3".to_owned(),
        },
    );
    let (_, events) = room.handle(ctx(1), RoomCommand::LeaveRoom);
    assert!(
        events.contains(&RoomEvent::NewHost {
            room_id: rid(),
            new_host: 2,
            old_host: 1,
        })
    );
    assert!(
        !events.contains(&RoomEvent::RoomClosed { room_id: rid() })
    );

    let (resp, _) = room
        .handle(ctx(2), RoomCommand::CycleRoom { cycle: true });
    assert!(matches!(resp, Some(RoomResponse::Done)));
    let (resp, _) = room
        .handle(ctx(3), RoomCommand::CycleRoom { cycle: false });
    assert_business(resp.as_ref().unwrap(), RoomErrorCode::OnlyHost);

    let (_, e1) = room.handle(ctx(2), RoomCommand::LeaveRoom);
    let (_, e2) = room.handle(ctx(3), RoomCommand::LeaveRoom);
    let mut all = e1;
    all.extend(e2);
    assert!(all.contains(&RoomEvent::RoomClosed { room_id: rid() }));
}

/// A game ends without those who have left.
fn playing_leave_triggers_settle(factory: &Rooms) {
    let mut room = factory.create(rid());
    setup_playing(&mut room);
    let (_, events) = room.handle(ctx(3), RoomCommand::LeaveRoom);
    assert!(events.iter().any(|e| matches!(
        e,
        RoomEvent::UserLeft { room_id, user: 3, .. } if room_id == &rid()
    ))
    );
    let record1 = record_ok_fn(1);
    room.handle(ctx(1), RoomCommand::Played { id: 1 });
    room.handle(
        sys_ctx(),
        RoomCommand::RecordFetched {
            user_id: 1,
            record_id: 1,
            record: record1,
        },
    );
    room.handle(ctx(2), RoomCommand::Played { id: 2 });
    let (_, events) = room
        .handle(
            sys_ctx(),
            RoomCommand::RecordFetched {
                user_id: 2,
                record_id: 2,
                record: record_ok_fn(2),
            },
        );
    assert!(
        events
            .iter()
            .any(|e| matches!(e, RoomEvent::GameEnd { room_id, .. } if room_id == &rid()))
    );
}

/// No one joins during a game.
fn join_during_game_rejected(factory: &Rooms) {
    let mut room = factory.create(rid());
    setup_playing(&mut room);
    let (resp, events) = room
        .handle(
            ctx(4),
            RoomCommand::JoinRoom {
                id: rid(),
                monitor: false,
                name: "user4".to_owned(),
            },
        );
    assert!(events.is_empty());
    let resp = resp.expect("an answer");
    assert_business(&resp, RoomErrorCode::GameOngoing);

    let mut room = factory.create(rid());
    create_room(&mut room);
    room.handle(
        ctx(2),
        RoomCommand::JoinRoom {
            id: rid(),
            monitor: false,
            name: "user2".to_owned(),
        },
    );
    room.handle(ctx(1), RoomCommand::SelectChart { id: 1 });
    room.handle(ctx(1), RoomCommand::RequestStart);
    let (resp, events) = room
        .handle(
            ctx(3),
            RoomCommand::JoinRoom {
                id: rid(),
                monitor: false,
                name: "user3".to_owned(),
            },
        );
    assert!(events.is_empty());
    assert_business(resp.as_ref().unwrap(), RoomErrorCode::GameOngoing);
}

/// Those who do not get ready in time have to leave.
fn ready_countdown_tick(factory: &Rooms) {
    let mut room = factory.create(rid());
    create_room(&mut room);
    room.handle(
        ctx(2),
        RoomCommand::JoinRoom {
            id: rid(),
            monitor: false,
            name: "user2".to_owned(),
        },
    );
    room.handle(ctx(1), RoomCommand::SelectChart { id: 1 });
    let (_, events) = room.handle(ctx(1), RoomCommand::RequestStart);
    assert!(
        events
            .iter()
            .any(|e| matches!(e, RoomEvent::GameStart { .. }))
    );

    let (resp, events) = room
        .handle(sys_ctx(), RoomCommand::Tick { now: 1_000 });
    assert!(resp.is_none());
    assert!(events.is_empty());

    let (_, _) = room.handle(ctx(2), RoomCommand::Ready);
    let (resp, events) = room
        .handle(sys_ctx(), RoomCommand::Tick { now: 70_000 });
    assert!(resp.is_none());
    assert!(events.is_empty());

    let mut room = factory.create(rid());
    create_room(&mut room);
    for (uid, name) in [(2, "user2"), (3, "user3")] {
        room.handle(
            ctx(uid),
            RoomCommand::JoinRoom {
                id: rid(),
                monitor: false,
                name: name.to_owned(),
            },
        );
    }
    room.handle(ctx(1), RoomCommand::SelectChart { id: 1 });
    let (_, _) = room.handle(ctx(1), RoomCommand::RequestStart);
    let (_, _) = room.handle(ctx(2), RoomCommand::Ready);

    let (_, _) = room
        .handle(sys_ctx(), RoomCommand::Tick { now: 1_000 });
    let (resp, events) = room
        .handle(sys_ctx(), RoomCommand::Tick { now: 61_500 });
    assert!(resp.is_none());
    assert!(
        events
            .iter()
            .any(|e| matches!(e, RoomEvent::UserLeft { user: 3, .. }))
    );
    assert!(
        events
            .iter()
            .any(|e| matches!(e, RoomEvent::StartPlaying { .. }))
    );

    let (resp, _) = room
        .handle(sys_ctx(), RoomCommand::GetClientState { user_id: 1 });
    let Some(RoomResponse::ClientState(Some(state))) = resp else {
        panic!("unexpected: {resp:?}");
    };
    assert_eq!(state.state, RoomState::Playing);

    let mut room = factory.create(rid());
    room.handle(
        sys_ctx(),
        RoomCommand::UpdateConfig {
            config: Arc::new(RoomConfig { monitors: vec![9] }),
        },
    );
    create_room(&mut room);
    room.handle(
        ctx(9),
        RoomCommand::JoinRoom {
            id: rid(),
            monitor: true,
            name: "watcher".to_owned(),
        },
    );
    room.handle(ctx(1), RoomCommand::SelectChart { id: 1 });
    let (_, _) = room.handle(ctx(1), RoomCommand::RequestStart);
    let (_, _) = room
        .handle(sys_ctx(), RoomCommand::Tick { now: 1_000 });
    let (resp, events) = room
        .handle(sys_ctx(), RoomCommand::Tick { now: 62_000 });
    assert!(resp.is_none());
    assert!(
        events
            .iter()
            .any(|e| matches!(e, RoomEvent::UserLeft { user: 9, .. }))
    );
}

/// What is relayed is put together by player.
fn relay_aggregation_buffer(factory: &Rooms) {
    let frame = |t: f32| TouchFrame {
        time: num(t),
        points: Vec::new(),
    };
    let mut room = factory.create(rid());
    room.handle(
        sys_ctx(),
        RoomCommand::UpdateConfig {
            config: Arc::new(RoomConfig { monitors: vec![9] }),
        },
    );
    create_room(&mut room);
    for uid in [2, 3] {
        room.handle(
            ctx(uid),
            RoomCommand::JoinRoom {
                id: rid(),
                monitor: false,
                name: format!("user{uid}"),
            },
        );
    }
    room.handle(
        ctx(9),
        RoomCommand::JoinRoom {
            id: rid(),
            monitor: true,
            name: "mon".to_owned(),
        },
    );
    room.handle(ctx(1), RoomCommand::SelectChart { id: 1 });
    let (_, _) = room.handle(ctx(1), RoomCommand::RequestStart);
    let (_, _) = room.handle(ctx(2), RoomCommand::Ready);
    let (_, _) = room.handle(ctx(3), RoomCommand::Ready);
    let (_, events) = room.handle(ctx(9), RoomCommand::Ready);
    assert!(
        events
            .iter()
            .any(|e| matches!(e, RoomEvent::StartPlaying { .. }))
    );

    let (_, _) = room
        .handle(
            ctx(2),
            RoomCommand::Touches {
                frames: Arc::new(vec![frame(1.0)]),
            },
        );
    let (_, _) = room
        .handle(
            ctx(3),
            RoomCommand::Touches {
                frames: Arc::new(vec![frame(2.0), frame(2.5)]),
            },
        );
    let (_, _) = room
        .handle(
            ctx(2),
            RoomCommand::Judges {
                judges: Arc::new(vec![]),
            },
        );
    let (_, _) = room
        .handle(
            ctx(3),
            RoomCommand::Touches {
                frames: Arc::new(vec![frame(3.0)]),
            },
        );
    let (resp, events) = room
        .handle(sys_ctx(), RoomCommand::Tick { now: 10_000 });
    assert!(resp.is_none());
    let mut touch_players = std::collections::HashMap::new();
    let mut judge_count = 0usize;
    let mut judge_frames = 0usize;
    for ev in &events {
        match ev {
            RoomEvent::RelayTouches { player, frames, .. } => {
                *touch_players.entry(*player).or_insert(0) += frames.len();
            }
            RoomEvent::RelayJudges { player, judges, .. } => {
                if *player == 2 {
                    judge_count += 1;
                    judge_frames += judges.len();
                }
            }
            _ => panic!("unexpected: {ev:?}"),
        }
    }
    assert_eq!(
        touch_players.get(&2),
        Some(&1)
    );
    assert_eq!(
        touch_players.get(&3),
        Some(&3)
    );
    assert_eq!(judge_count, 1);
    assert_eq!(judge_frames, 0);

    let (_, _) = room
        .handle(
            ctx(2),
            RoomCommand::Touches {
                frames: Arc::new(vec![frame(4.0)]),
            },
        );
    let (_, _) = room.handle(ctx(2), RoomCommand::Abort);
    let (_, events) = room
        .handle(sys_ctx(), RoomCommand::Tick { now: 11_000 });
    assert!(
        !events.iter().any(|e| matches!(
            e,
            RoomEvent::RelayTouches { player: 2, .. } | RoomEvent::RelayJudges { player: 2, .. }
        ))
    );

    let (_, _) = room.handle(ctx(9), RoomCommand::LeaveRoom);
    let (_, _) = room
        .handle(
            ctx(3),
            RoomCommand::Touches {
                frames: Arc::new(vec![frame(5.0)]),
            },
        );
    let (_, events) = room
        .handle(sys_ctx(), RoomCommand::Tick { now: 12_000 });
    assert!(events.is_empty());
    let (resp, _) = room
        .handle(sys_ctx(), RoomCommand::GetClientState { user_id: 1 });
    let Some(RoomResponse::ClientState(Some(state))) = resp else {
        panic!("unexpected: {resp:?}");
    };
    assert!(!state.live);

    let (_, _) = room.handle(ctx(3), RoomCommand::Abort);
    let (_, events) = room.handle(ctx(1), RoomCommand::Abort);
    assert!(
        events
            .iter()
            .any(|e| matches!(e, RoomEvent::GameEnd { .. }))
    );
    let (_, _) = room
        .handle(
            ctx(9),
            RoomCommand::JoinRoom {
                id: rid(),
                monitor: true,
                name: "mon".to_owned(),
            },
        );
    let (_, _) = room
        .handle(
            ctx(3),
            RoomCommand::Touches {
                frames: Arc::new(vec![frame(6.0)]),
            },
        );
    let (_, events) = room
        .handle(sys_ctx(), RoomCommand::Tick { now: 13_000 });
    assert!(
        events
            .iter()
            .any(|e| matches!(e, RoomEvent::RelayTouches { player: 3, .. }))
    );
}
