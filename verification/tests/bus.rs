//! Commands on their way to rooms, and what comes back.

use std::collections::{HashMap, VecDeque};
use std::sync::Arc;

use phira_mp::bus::metrics::{command_name, command_row, verdict, CommandStats, Metrics, HOT_ROW};
use phira_mp::bus::observers::Observers;
use phira_mp::bus::policy::{
    after_answer, after_enqueue, after_fetch, after_observer, command_needs_response,
    config_changed, interceptable, queue_policy, record_to_fetch, Answer, Enqueued, FetchStep,
    InterceptStep, QueuePolicy, RoomTask, TaskEvent,
};
use phira_mp::bus::routes::{Route, RouteTable};
use phira_mp::bus::watch::{ConfigWatch, FileRead, WatchStep};
use phira_mp::config::{ConfigError, ListenText, YamlConfig};
use phira_mp::rooms::{
    CmdCtx, JoinRoomResponse, Origin, RoomCommand, RoomConfig, RoomError, RoomErrorCode, RoomEvent,
    RoomId, RoomResponse, RoomState, Targets, UserInfo, Varchar,
};

type ScriptItem = (Option<RoomResponse>, Vec<RoomEvent>);

/// A server whose rooms answer what they were told to.
struct Bus {
    table: RouteTable<usize>,
    scripts: HashMap<String, VecDeque<Vec<ScriptItem>>>,
    rooms: Vec<VecDeque<ScriptItem>>,
    received: Vec<RoomCommand>,
    deliveries: Vec<(i32, RoomEvent)>,
    observed: Vec<RoomEvent>,
    metrics: Metrics,
}

impl Bus {
    fn new() -> Self {
        Bus {
            table: RouteTable::new(),
            scripts: HashMap::new(),
            rooms: Vec::new(),
            received: Vec::new(),
            deliveries: Vec::new(),
            observed: Vec::new(),
            metrics: Metrics::new(),
        }
    }

    fn push(&mut self, room_id: &RoomId, script: Vec<ScriptItem>) {
        self.scripts
            .entry(room_id.to_text())
            .or_default()
            .push_back(script);
    }

    fn dispatch(&mut self, ctx: CmdCtx, cmd: RoomCommand) -> Result<RoomResponse, RoomError> {
        let row = command_row(&cmd);
        let result = self.route(ctx, cmd);
        self.metrics.record(row, verdict(&result));
        result
    }

    fn dispatch_system(
        &mut self,
        room_id: RoomId,
        cmd: RoomCommand,
    ) -> Result<RoomResponse, RoomError> {
        self.dispatch(
            CmdCtx {
                origin: Origin::System,
                room_id,
            },
            cmd,
        )
    }

    fn route(&mut self, ctx: CmdCtx, cmd: RoomCommand) -> Result<RoomResponse, RoomError> {
        let room_id = match self.table.route(ctx.origin, &ctx.room_id, &cmd)? {
            Route::Create(id) => {
                let script = self
                    .scripts
                    .get_mut(id.as_str())
                    .and_then(VecDeque::pop_front)
                    .unwrap_or_default();
                self.rooms.push(script.into());
                assert!(self.table.open(id.clone(), self.rooms.len() - 1));
                id
            }
            Route::Existing(id) => id,
        };
        let room = *self.table.handle_of(&room_id).unwrap();
        let awaited = command_needs_response(&cmd);
        self.received.push(cmd);
        let (resp, events) = self.rooms[room].pop_front().unwrap_or((None, Vec::new()));
        let plan = self.table.process_events(&room_id, &events);
        for (user, i) in &plan.deliveries {
            self.deliveries.push((*user, events[*i].clone()));
        }
        for i in &plan.observed {
            self.observed.push(events[*i].clone());
        }
        if plan.closed {
            self.deliveries.push((0, RoomEvent::RoomClosed { room_id }));
        }
        after_answer(match (awaited, resp) {
            (true, Some(resp)) => Answer::Received(resp),
            (true, None) => Answer::Lost,
            (false, _) => Answer::NotAwaited,
        })
    }
}

fn rid() -> RoomId {
    RoomId::new("test".to_owned()).unwrap()
}

fn client_ctx(user_id: i32) -> CmdCtx {
    CmdCtx {
        origin: Origin::Client { user_id },
        room_id: rid(),
    }
}

fn create(id: RoomId, name: &str) -> RoomCommand {
    RoomCommand::CreateRoom {
        id,
        name: name.to_owned(),
    }
}

fn join(id: RoomId, name: &str) -> RoomCommand {
    RoomCommand::JoinRoom {
        id,
        monitor: false,
        name: name.to_owned(),
    }
}

fn created(room_id: RoomId, host: i32) -> ScriptItem {
    (
        Some(RoomResponse::Done),
        vec![RoomEvent::RoomCreated { room_id, host }],
    )
}

fn joined(room_id: RoomId, id: i32) -> ScriptItem {
    (
        Some(RoomResponse::JoinRoom(JoinRoomResponse {
            state: RoomState::SelectChart(None),
            users: vec![],
            live: false,
        })),
        vec![RoomEvent::UserJoined {
            room_id,
            user: UserInfo {
                id,
                name: "b".to_owned(),
                monitor: false,
            },
        }],
    )
}

fn ok() -> Option<RoomResponse> {
    Some(RoomResponse::Done)
}

fn refused(resp: &Result<RoomResponse, RoomError>, code: RoomErrorCode) -> bool {
    matches!(resp, Err(RoomError::Business { code: c, .. }) if *c == code)
}

#[test]
fn create_room_registers_route() {
    let mut bus = Bus::new();
    bus.push(&rid(), vec![created(rid(), 1), (ok(), vec![])]);
    let resp = bus.dispatch(client_ctx(1), create(rid(), "user1")).unwrap();
    assert!(matches!(resp, RoomResponse::Done));
    let resp = bus.dispatch(client_ctx(1), RoomCommand::LeaveRoom);
    assert!(resp.is_ok());
}

#[test]
fn join_then_select_chart_pipeline() {
    let mut bus = Bus::new();
    bus.push(
        &rid(),
        vec![created(rid(), 1), joined(rid(), 2), (ok(), vec![])],
    );
    bus.dispatch(client_ctx(1), create(rid(), "user1")).unwrap();
    let resp = bus.dispatch(client_ctx(2), join(rid(), "user2")).unwrap();
    assert!(matches!(resp, RoomResponse::JoinRoom(_)));
    let resp = bus.dispatch(client_ctx(2), RoomCommand::SelectChart { id: 7 });
    assert!(resp.is_ok());
}

#[test]
fn leaver_receives_own_leave_room() {
    let left = RoomEvent::UserLeft {
        room_id: rid(),
        user: 2,
        name: "u2".to_owned(),
    };
    let mut bus = Bus::new();
    bus.push(
        &rid(),
        vec![
            created(rid(), 1),
            joined(rid(), 2),
            (ok(), vec![left.clone()]),
        ],
    );
    bus.dispatch(client_ctx(1), create(rid(), "user1")).unwrap();
    bus.dispatch(client_ctx(2), join(rid(), "user2")).unwrap();
    bus.dispatch(client_ctx(2), RoomCommand::LeaveRoom).unwrap();
    assert!(bus.deliveries.contains(&(2, left.clone())));
    assert!(bus.deliveries.contains(&(1, left)));
    assert_eq!(bus.table.room_of(2), None);
    assert_eq!(bus.table.room_of(1), Some(rid()));
}

#[test]
fn room_closed_cleans_up() {
    let mut bus = Bus::new();
    bus.push(
        &rid(),
        vec![
            created(rid(), 1),
            (
                ok(),
                vec![
                    RoomEvent::UserLeft {
                        room_id: rid(),
                        user: 1,
                        name: "user1".to_owned(),
                    },
                    RoomEvent::RoomClosed { room_id: rid() },
                ],
            ),
        ],
    );
    bus.dispatch(client_ctx(1), create(rid(), "user1")).unwrap();
    bus.dispatch(client_ctx(1), RoomCommand::LeaveRoom).unwrap();
    let closed_idx = bus
        .deliveries
        .iter()
        .position(|(uid, ev)| *uid == 0 && matches!(ev, RoomEvent::RoomClosed { .. }));
    assert!(closed_idx.is_some());
    let left_idx = bus
        .deliveries
        .iter()
        .position(|(_, ev)| matches!(ev, RoomEvent::UserLeft { .. }));
    assert!(left_idx.is_some_and(|l| closed_idx.is_some_and(|c| l < c)));
    let resp = bus.dispatch(client_ctx(9), join(rid(), "user2"));
    assert!(refused(&resp, RoomErrorCode::RoomNotFound));
    bus.push(&rid(), vec![(ok(), vec![])]);
    let resp = bus.dispatch(client_ctx(1), create(rid(), "user1"));
    assert!(resp.is_ok());
}

#[test]
fn not_in_room_returns_error() {
    let mut bus = Bus::new();
    let resp = bus.dispatch(client_ctx(5), RoomCommand::LeaveRoom);
    assert!(refused(&resp, RoomErrorCode::NotInRoom));
}

#[test]
fn relay_specific_targets_only() {
    let mut bus = Bus::new();
    bus.push(
        &rid(),
        vec![
            created(rid(), 1),
            (
                None,
                vec![RoomEvent::RelayTouches {
                    room_id: rid(),
                    targets: Targets::Specific(vec![9]),
                    player: 1,
                    frames: Arc::new(vec![]),
                }],
            ),
        ],
    );
    bus.dispatch(client_ctx(1), create(rid(), "user1")).unwrap();
    bus.dispatch(
        client_ctx(1),
        RoomCommand::Touches {
            frames: Arc::new(vec![]),
        },
    )
    .unwrap();
    let relay: Vec<_> = bus
        .deliveries
        .iter()
        .filter(|(_, ev)| matches!(ev, RoomEvent::RelayTouches { .. }))
        .collect();
    assert_eq!(relay.len(), 1);
    assert_eq!(relay[0].0, 9);
    assert!(matches!(relay[0].1, RoomEvent::RelayTouches { .. }));
    assert!(!bus
        .observed
        .iter()
        .any(|ev| matches!(ev, RoomEvent::RelayTouches { .. })));
}

#[test]
fn system_command_routes_by_ctx_room_id() {
    let mut bus = Bus::new();
    bus.push(&rid(), vec![created(rid(), 1), (None, vec![])]);
    bus.dispatch(client_ctx(1), create(rid(), "user1")).unwrap();
    let resp = bus.dispatch_system(rid(), RoomCommand::Tick { now: 12345 });
    assert!(resp.is_ok());
    assert!(bus
        .received
        .iter()
        .any(|c| matches!(c, RoomCommand::Tick { now: 12345 })));
    let nowhere = RoomId::new("nowhere".to_owned()).unwrap();
    let resp = bus.dispatch_system(nowhere, RoomCommand::Tick { now: 1 });
    assert_eq!(resp.unwrap_err().message(), "internal error: room not found");
}

#[test]
fn get_client_state_returns_response() {
    let mut bus = Bus::new();
    bus.push(
        &rid(),
        vec![
            created(rid(), 1),
            (Some(RoomResponse::ClientState(None)), vec![]),
        ],
    );
    bus.dispatch(client_ctx(1), create(rid(), "user1")).unwrap();
    let resp = bus
        .dispatch_system(rid(), RoomCommand::GetClientState { user_id: 1 })
        .unwrap();
    assert!(matches!(resp, RoomResponse::ClientState(None)));
}

#[test]
fn duplicate_create_room_rejected() {
    let mut bus = Bus::new();
    bus.push(&rid(), vec![created(rid(), 1), (ok(), vec![])]);
    bus.dispatch(client_ctx(1), create(rid(), "user1")).unwrap();
    let resp = bus.dispatch(client_ctx(2), create(rid(), "user1"));
    assert!(refused(&resp, RoomErrorCode::RoomIdOccupied));
}

#[test]
fn metrics_track_internal_only() {
    let mut bus = Bus::new();
    let _ = bus.dispatch(client_ctx(1), RoomCommand::LeaveRoom);
    let metrics = bus.metrics.snapshot();
    let leave = metrics
        .iter()
        .find(|(k, _)| *k == "leave_room")
        .map(|(_, s)| *s)
        .unwrap();
    assert_eq!(leave.calls, 1);
    assert_eq!(leave.business, 1);
    assert_eq!(leave.internal, 0);
    assert_eq!(bus.metrics.internal_errors(), 0);
}

#[test]
fn cross_room_duplicate_join_rejected() {
    let mut bus = Bus::new();
    bus.push(&rid(), vec![created(rid(), 1), joined(rid(), 2)]);
    let room_b = RoomId::new("b".to_owned()).unwrap();
    bus.push(&room_b, vec![(ok(), vec![])]);
    bus.dispatch(client_ctx(1), create(rid(), "user1")).unwrap();
    bus.dispatch(client_ctx(2), join(rid(), "user2")).unwrap();
    let resp = bus.dispatch(client_ctx(2), join(room_b.clone(), "user2"));
    assert!(refused(&resp, RoomErrorCode::AlreadyInRoom));
    let resp = bus.dispatch(client_ctx(2), create(room_b.clone(), "user2"));
    assert!(refused(&resp, RoomErrorCode::AlreadyInRoom));
    let resp = bus.dispatch(client_ctx(3), join(room_b, "user2"));
    assert!(refused(&resp, RoomErrorCode::RoomNotFound));
}

#[test]
fn rooms_are_isolated() {
    let mut bus = Bus::new();
    let room_a = RoomId::new("a".to_owned()).unwrap();
    let room_b = RoomId::new("b".to_owned()).unwrap();
    bus.push(&room_a, vec![created(room_a.clone(), 1), (ok(), vec![])]);
    bus.push(&room_b, vec![created(room_b.clone(), 2), (ok(), vec![])]);
    let ra = bus.dispatch(client_ctx(1), create(room_a.clone(), "user1"));
    let rb = bus.dispatch(client_ctx(2), create(room_b.clone(), "user2"));
    assert!(ra.is_ok());
    assert!(rb.is_ok());
    let mut active = bus
        .table
        .active_rooms()
        .iter()
        .map(RoomId::to_text)
        .collect::<Vec<_>>();
    active.sort();
    assert_eq!(active, vec!["a".to_owned(), "b".to_owned()]);
    let la = bus.dispatch(client_ctx(1), RoomCommand::LeaveRoom);
    let lb = bus.dispatch(client_ctx(2), RoomCommand::LeaveRoom);
    assert!(la.is_ok());
    assert!(lb.is_ok());
}

#[test]
fn closing_a_room_forgets_its_users() {
    let mut table: RouteTable<u8> = RouteTable::new();
    assert!(table.open(rid(), 7));
    assert!(!table.open(rid(), 8));
    assert_eq!(table.handle_of(&rid()), Some(&7));
    table.process_events(
        &rid(),
        &vec![RoomEvent::RoomCreated {
            room_id: rid(),
            host: 1,
        }],
    );
    assert_eq!(table.rooms().len(), 1);
    assert_eq!(table.active_rooms(), vec![rid()]);
    table.close(&rid());
    assert!(!table.has_room(&rid()));
    assert_eq!(table.room_of(1), None);
    assert!(table.active_rooms().is_empty());
}

#[test]
fn newcomers_and_members_hear_of_a_newcomer() {
    let mut table: RouteTable<u8> = RouteTable::new();
    table.open(rid(), 0);
    table.process_events(
        &rid(),
        &vec![RoomEvent::RoomCreated {
            room_id: rid(),
            host: 1,
        }],
    );
    let (_, events) = joined(rid(), 2);
    let plan = table.process_events(&rid(), &events);
    assert_eq!(plan.deliveries, vec![(1, 0), (2, 0)]);
    assert_eq!(plan.observed, vec![0]);
    assert!(!plan.closed);
    assert_eq!(table.room_of(2), Some(rid()));
}

#[test]
fn each_command_has_its_queue_policy() {
    let frames = RoomCommand::Touches {
        frames: Arc::new(vec![]),
    };
    let judges = RoomCommand::Judges {
        judges: Arc::new(vec![]),
    };
    for cmd in [&frames, &judges, &RoomCommand::Tick { now: 0 }] {
        assert_eq!(queue_policy(cmd), QueuePolicy::DropIfFull);
        assert!(!command_needs_response(cmd));
    }
    for cmd in [
        RoomCommand::UserDisconnected {
            user_id: 1,
            epoch: 1,
        },
        RoomCommand::UserDangleExpired { user_id: 1 },
        RoomCommand::AdminKick { user_id: 1 },
    ] {
        assert_eq!(queue_policy(&cmd), QueuePolicy::Wait);
    }
    for cmd in [
        RoomCommand::Ready,
        RoomCommand::UpdateConfig {
            config: Arc::new(RoomConfig::default()),
        },
    ] {
        assert_eq!(queue_policy(&cmd), QueuePolicy::Reject);
    }
    assert!(command_needs_response(&RoomCommand::GetClientState {
        user_id: 1
    }));
    assert!(!command_needs_response(&RoomCommand::UserDangleExpired {
        user_id: 1
    }));
}

#[test]
fn full_queues_are_told_by_policy() {
    for outcome in [Enqueued::Accepted, Enqueued::Full, Enqueued::Gone] {
        assert!(after_enqueue(QueuePolicy::DropIfFull, outcome).is_ok());
    }
    assert!(after_enqueue(QueuePolicy::Wait, Enqueued::Accepted).is_ok());
    assert!(after_enqueue(QueuePolicy::Reject, Enqueued::Accepted).is_ok());
    assert_eq!(
        after_enqueue(QueuePolicy::Wait, Enqueued::Gone)
            .unwrap_err()
            .message(),
        "internal error: room closed while enqueueing"
    );
    assert_eq!(
        after_enqueue(QueuePolicy::Reject, Enqueued::Full)
            .unwrap_err()
            .message(),
        "internal error: room command queue full"
    );
    assert_eq!(
        after_answer(Answer::Lost).unwrap_err().message(),
        "internal error: room closed before response"
    );
    assert_eq!(after_answer(Answer::NotAwaited), Ok(RoomResponse::Done));
}

#[test]
fn tasks_of_closed_rooms_drain_their_queue() {
    let task = RoomTask::Serving;
    let task = task.next(TaskEvent::Handled { closed: false });
    assert_eq!(task, RoomTask::Serving);
    assert_eq!(task.next(TaskEvent::Empty), RoomTask::Serving);
    assert_eq!(task.next(TaskEvent::Ended), RoomTask::Over);
    let task = task.next(TaskEvent::Handled { closed: true });
    assert_eq!(task, RoomTask::Draining);
    let task = task.next(TaskEvent::Handled { closed: false });
    assert_eq!(task, RoomTask::Draining);
    assert_eq!(task.next(TaskEvent::Empty), RoomTask::Over);
}

#[test]
fn observers_are_asked_about_what_users_do() {
    let user = Origin::Client { user_id: 1 };
    assert!(interceptable(user, &RoomCommand::Ready));
    assert!(!interceptable(Origin::System, &RoomCommand::Ready));
    assert!(!interceptable(
        user,
        &RoomCommand::Touches {
            frames: Arc::new(vec![])
        }
    ));
    assert_eq!(after_observer(0, 2, Ok(())), InterceptStep::Ask(0));
    assert_eq!(after_observer(2, 2, Ok(())), InterceptStep::Pass);
    let no = RoomError::Business {
        code: RoomErrorCode::TooManyRequests,
        msg: "slow down".to_owned(),
    };
    assert_eq!(
        after_observer(1, 2, Err(no.clone())),
        InterceptStep::Refuse(no)
    );
}

#[test]
fn observers_are_added_once_and_removed_by_kind() {
    let mut observers: Observers<u8> = Observers::new();
    observers.add_moderator("a".to_owned(), 1);
    observers.add_moderator("b".to_owned(), 2);
    observers.add_moderator("a".to_owned(), 3);
    assert_eq!(observers.len(), 2);
    assert_eq!(*observers.get(0), 1);
    assert_eq!(*observers.get(1), 2);
    assert!(observers.remove_moderator(&"a".to_owned()));
    assert!(!observers.remove_moderator(&"a".to_owned()));
    assert_eq!(observers.len(), 1);
    assert_eq!(*observers.get(0), 2);
    let observers = Observers::with_moderators(vec![("x".to_owned(), 9)]);
    assert_eq!(*observers.get(0), 9);
}

#[test]
fn records_are_fetched_up_to_three_times() {
    let user = Origin::Client { user_id: 4 };
    assert_eq!(
        record_to_fetch(user, &RoomCommand::Played { id: 8 }),
        Some((4, 8))
    );
    assert_eq!(
        record_to_fetch(Origin::System, &RoomCommand::Played { id: 8 }),
        None
    );
    assert_eq!(record_to_fetch(user, &RoomCommand::Abort), None);
    assert_eq!(after_fetch(0, true), FetchStep::Deliver);
    assert_eq!(after_fetch(0, false), FetchStep::Retry);
    assert_eq!(after_fetch(1, false), FetchStep::Retry);
    assert_eq!(after_fetch(2, false), FetchStep::Deliver);
}

#[test]
fn rooms_are_told_of_changed_configurations_only() {
    let one = RoomConfig { monitors: vec![1] };
    let two = RoomConfig {
        monitors: vec![1, 2],
    };
    assert!(config_changed(None, &one));
    assert!(!config_changed(Some(&one), &RoomConfig { monitors: vec![1] }));
    assert!(config_changed(Some(&one), &two));
    assert!(config_changed(Some(&one), &RoomConfig { monitors: vec![3] }));
}

#[test]
fn watched_files_are_told_when_they_change() {
    let says = |monitors: &[i32]| {
        let mut file = YamlConfig::empty();
        file.monitors = Some(monitors.to_vec());
        FileRead::Text(Ok(file))
    };
    let tell = |monitors: &[i32]| {
        WatchStep::Tell(RoomConfig {
            monitors: monitors.to_vec(),
        })
    };
    let mut watch = ConfigWatch::new();
    assert_eq!(watch.poll(FileRead::Missing, "f"), WatchStep::NeverFound);
    assert_eq!(watch.poll(FileRead::Unreadable, "f"), WatchStep::Keep);
    assert_eq!(watch.poll(says(&[1]), "f"), tell(&[1]));
    assert_eq!(watch.poll(says(&[1]), "f"), WatchStep::Keep);
    assert_eq!(watch.poll(FileRead::Missing, "f"), WatchStep::Keep);
    assert_eq!(
        watch.poll(FileRead::Text(Err("bad".to_owned())), "f"),
        WatchStep::Refuse(ConfigError::InvalidYaml {
            path: "f".to_owned(),
            msg: "bad".to_owned()
        })
    );
    let mut nowhere = YamlConfig::empty();
    nowhere.monitors = Some(vec![7]);
    nowhere.listen = Some(ListenText {
        text: "nowhere".to_owned(),
        addr: None,
    });
    assert_eq!(
        watch.poll(FileRead::Text(Ok(nowhere)), "f"),
        WatchStep::Refuse(ConfigError::InvalidYaml {
            path: "f".to_owned(),
            msg: "invalid listen address: nowhere".to_owned()
        })
    );
    assert_eq!(watch.poll(says(&[1]), "f"), WatchStep::Keep);
    assert_eq!(watch.poll(says(&[1, 2]), "f"), tell(&[1, 2]));
    let empty = FileRead::Text(Ok(YamlConfig::empty()));
    assert_eq!(watch.poll(empty, "f"), tell(&[2]));
}

#[test]
fn metrics_are_listed_by_name() {
    let mut metrics = Metrics::new();
    assert!(metrics.snapshot().is_empty());
    let touches = RoomCommand::Touches {
        frames: Arc::new(vec![]),
    };
    let done = Ok(RoomResponse::Done);
    let failed = Err(RoomError::Internal {
        msg: "boom".to_owned(),
    });
    let refused = Ok(RoomResponse::Failure(RoomError::Business {
        code: RoomErrorCode::RoomFull,
        msg: "full".to_owned(),
    }));
    let count = |metrics: &mut Metrics, cmd: &RoomCommand, res: &Result<_, _>| {
        metrics.record(command_row(cmd), verdict(res));
    };
    count(&mut metrics, &RoomCommand::Ready, &done);
    count(&mut metrics, &RoomCommand::Tick { now: 1 }, &done);
    count(&mut metrics, &touches, &failed);
    count(&mut metrics, &touches, &done);
    count(&mut metrics, &RoomCommand::Abort, &failed);
    count(&mut metrics, &RoomCommand::Abort, &refused);
    let stats = |calls, ok, business, internal| CommandStats {
        calls,
        ok,
        business,
        internal,
    };
    assert_eq!(
        metrics.snapshot(),
        vec![
            ("abort", stats(2, 0, 1, 1)),
            ("ready", stats(1, 1, 0, 0)),
            ("tick", stats(1, 1, 0, 0)),
            ("touches.judges.hot", stats(2, 0, 0, 0)),
        ]
    );
    assert_eq!(metrics.internal_errors(), 1);
    assert_eq!(metrics.stats(HOT_ROW).calls, 2);
}

#[test]
fn commands_have_names() {
    let chat = RoomCommand::Chat {
        message: Varchar::new("hi".to_owned()).unwrap(),
    };
    assert_eq!(command_name(&chat), "chat");
    assert_eq!(command_name(&create(rid(), "a")), "create_room");
    assert_eq!(
        command_name(&RoomCommand::UserDangleExpired { user_id: 1 }),
        "user_dangle_expired"
    );
    assert_eq!(
        command_name(&RoomCommand::Judges {
            judges: Arc::new(vec![])
        }),
        "judges"
    );
}
