//! What holds of the library as a whole, on some values.

use std::collections::HashMap;
use std::sync::Arc;

use phira_mp::binary::{decode_packet, encode_packet, BinaryReader, BinaryWriter, DecodeError};
use phira_mp::contract::{FakeApi, SeqRng};
use phira_mp::convert::event_to_server;
use phira_mp::proto::{ClientCommand, Message, ServerCommand};
use phira_mp::room_v1::{RoomStep, RoomV1, RoomsV1};
use phira_mp::rooms::{
    ApiError, ClientRoomState, CmdCtx, Float32, JudgeEvent, Judgement, Origin, RandomSource,
    RoomCommand, RoomConfig, RoomError, RoomErrorCode, RoomEvent, RoomId, RoomResponse, RoomState,
    Targets, TouchFrame, UserInfo, Varchar,
};

fn rid() -> RoomId {
    RoomId::new("law".to_owned()).unwrap()
}

fn num(x: f32) -> Float32 {
    Float32 { bits: x.to_bits() }
}

/// A room, and what a client in it knows by what it is told.
struct Watched {
    room: RoomV1,
    rng: SeqRng,
    state: RoomState,
    locked: bool,
    cycle: bool,
    users: HashMap<i32, UserInfo>,
    hosts: HashMap<i32, bool>,
}

impl Watched {
    /// A room that user 1 has created.
    fn new(monitors: Vec<i32>) -> Self {
        let rooms = RoomsV1::new(RoomConfig { monitors });
        let mut watched = Watched {
            room: rooms.create(rid()),
            rng: SeqRng::default(),
            state: RoomState::SelectChart(None),
            locked: false,
            cycle: false,
            users: HashMap::new(),
            hosts: HashMap::from([(1, true)]),
        };
        let cmd = RoomCommand::CreateRoom {
            id: rid(),
            name: "u1".to_owned(),
        };
        let (resp, events) = watched.told(Origin::Client { user_id: 1 }, cmd);
        assert_eq!(resp, Some(RoomResponse::Done));
        assert_eq!(
            events,
            vec![RoomEvent::RoomCreated {
                room_id: rid(),
                host: 1
            }]
        );
        watched.users.insert(
            1,
            UserInfo {
                id: 1,
                name: "u1".to_owned(),
                monitor: false,
            },
        );
        watched
    }

    fn told(
        &mut self,
        origin: Origin,
        cmd: RoomCommand,
    ) -> (Option<RoomResponse>, Vec<RoomEvent>) {
        let ctx = CmdCtx {
            origin,
            room_id: rid(),
        };
        match self.room.handle(ctx, cmd, &mut self.rng) {
            RoomStep::Done { resp, events } => (resp, events),
            RoomStep::FetchChart { user_id, id } => {
                self.room
                    .chart_fetched(user_id, id, FakeApi.fetch_chart(id))
            }
        }
    }

    /// Gives a command, follows what clients are told, and holds it against the room.
    fn give(&mut self, origin: Origin, cmd: RoomCommand) -> (Option<RoomResponse>, Vec<RoomEvent>) {
        let (resp, events) = self.told(origin, cmd);
        for event in &events {
            for (targets, cmd) in event_to_server(event.clone()) {
                self.follow(targets, cmd);
            }
        }
        for user in 1..=12 {
            let Some(state) = self.state_for(user) else {
                continue;
            };
            assert_eq!(state.state, self.state);
            assert_eq!(state.locked, self.locked);
            assert_eq!(state.cycle, self.cycle);
            assert_eq!(state.users, self.users);
            assert_eq!(
                state.is_host,
                self.hosts.get(&user).copied().unwrap_or(false)
            );
        }
        (resp, events)
    }

    fn follow(&mut self, targets: Targets, cmd: ServerCommand) {
        match (targets, cmd) {
            (Targets::All, ServerCommand::ChangeState(state)) => self.state = state,
            (Targets::All, ServerCommand::OnJoinRoom(user)) => {
                self.users.insert(user.id, user);
            }
            (Targets::All, ServerCommand::Message(Message::LeaveRoom { user, .. })) => {
                self.users.remove(&user);
                self.hosts.remove(&user);
            }
            (Targets::All, ServerCommand::Message(Message::LockRoom { lock })) => {
                self.locked = lock;
            }
            (Targets::All, ServerCommand::Message(Message::CycleRoom { cycle })) => {
                self.cycle = cycle;
            }
            (Targets::Specific(users), ServerCommand::ChangeHost(is_host)) => {
                for user in users {
                    self.hosts.insert(user, is_host);
                }
            }
            _ => {}
        }
    }

    fn state_for(&mut self, user_id: i32) -> Option<ClientRoomState> {
        let cmd = RoomCommand::GetClientState { user_id };
        match self.told(Origin::System, cmd) {
            (Some(RoomResponse::ClientState(state)), events) => {
                assert!(events.is_empty());
                state
            }
            other => panic!("unexpected: {other:?}"),
        }
    }

    fn user(&mut self, user_id: i32, cmd: RoomCommand) -> (Option<RoomResponse>, Vec<RoomEvent>) {
        self.give(Origin::Client { user_id }, cmd)
    }

    fn system(&mut self, cmd: RoomCommand) -> (Option<RoomResponse>, Vec<RoomEvent>) {
        self.give(Origin::System, cmd)
    }

    fn join(&mut self, user: i32, monitor: bool) -> Option<RoomResponse> {
        let cmd = RoomCommand::JoinRoom {
            id: rid(),
            monitor,
            name: format!("u{user}"),
        };
        self.user(user, cmd).0
    }

    fn start(&mut self, others: &[i32]) {
        self.user(1, RoomCommand::SelectChart { id: 1 });
        self.user(1, RoomCommand::RequestStart);
        for user in others {
            self.user(*user, RoomCommand::Ready);
        }
        assert_eq!(self.state, RoomState::Playing);
    }
}

fn failure(resp: Option<RoomResponse>) -> RoomErrorCode {
    match resp {
        Some(RoomResponse::Failure(RoomError::Business { code, .. })) => code,
        other => panic!("unexpected: {other:?}"),
    }
}

#[test]
fn clients_know_the_room_through_a_game() {
    let mut room = Watched::new(vec![9]);
    room.join(2, false);
    room.join(3, false);
    room.join(9, true);
    room.user(1, RoomCommand::LockRoom { lock: true });
    room.user(1, RoomCommand::CycleRoom { cycle: true });
    room.start(&[2, 3, 9]);
    room.user(2, RoomCommand::Abort);
    room.user(1, RoomCommand::Abort);
    room.user(3, RoomCommand::LeaveRoom);
    assert_eq!(room.state, RoomState::SelectChart(Some(1)));
    assert_eq!(room.hosts.get(&2), Some(&true));
    assert_eq!(room.hosts.get(&1), Some(&false));
    room.user(2, RoomCommand::LeaveRoom);
    assert_eq!(room.hosts.get(&1), Some(&true));
    let (_, events) = room.user(1, RoomCommand::LeaveRoom);
    assert!(events.contains(&RoomEvent::RoomClosed { room_id: rid() }));
}

#[test]
fn clients_know_the_room_when_games_are_called_off() {
    let mut room = Watched::new(vec![]);
    room.join(2, false);
    room.user(1, RoomCommand::SelectChart { id: 7 });
    assert_eq!(room.state, RoomState::SelectChart(Some(7)));
    room.user(1, RoomCommand::RequestStart);
    assert_eq!(room.state, RoomState::WaitingForReady);
    room.user(1, RoomCommand::CancelReady);
    assert_eq!(room.state, RoomState::SelectChart(Some(7)));
    room.user(1, RoomCommand::RequestStart);
    room.system(RoomCommand::Tick { now: 5 });
    room.system(RoomCommand::Tick { now: 60_004 });
    assert_eq!(room.users.len(), 2);
    room.system(RoomCommand::Tick { now: 60_005 });
    assert_eq!(room.users.len(), 1);
    assert_eq!(room.state, RoomState::Playing);
}

#[test]
fn refusals_change_nothing() {
    let mut room = Watched::new(vec![]);
    room.join(2, false);
    let before = room.state_for(1);
    for cmd in [
        RoomCommand::SelectChart { id: 1 },
        RoomCommand::LockRoom { lock: true },
        RoomCommand::CycleRoom { cycle: true },
        RoomCommand::RequestStart,
        RoomCommand::Ready,
        RoomCommand::CancelReady,
        RoomCommand::Abort,
    ] {
        let (resp, events) = room.user(2, cmd);
        failure(resp);
        assert!(events.is_empty());
    }
    assert_eq!(room.state_for(1), before);
}

#[test]
fn each_refusal_has_its_code() {
    let mut room = Watched::new(vec![9]);
    assert_eq!(failure(room.join(1, false)), RoomErrorCode::AlreadyInRoom);
    assert_eq!(failure(room.join(5, true)), RoomErrorCode::CannotMonitor);
    assert_eq!(
        failure(room.user(1, RoomCommand::RequestStart).0),
        RoomErrorCode::NoChartSelected
    );
    assert_eq!(
        failure(room.user(7, RoomCommand::LeaveRoom).0),
        RoomErrorCode::NotInRoom
    );
    room.join(2, false);
    room.user(1, RoomCommand::SelectChart { id: 1 });
    room.user(1, RoomCommand::RequestStart);
    assert_eq!(
        failure(room.user(1, RoomCommand::Ready).0),
        RoomErrorCode::AlreadyReady
    );
    assert_eq!(
        failure(room.user(2, RoomCommand::CancelReady).0),
        RoomErrorCode::NotReady
    );
    assert_eq!(failure(room.join(3, false)), RoomErrorCode::GameOngoing);
    room.user(2, RoomCommand::Ready);
    room.user(1, RoomCommand::Played { id: 1 });
    assert_eq!(
        failure(room.user(1, RoomCommand::Abort).0),
        RoomErrorCode::AlreadyUploaded
    );
    room.user(2, RoomCommand::Abort);
    assert_eq!(
        failure(room.user(2, RoomCommand::Abort).0),
        RoomErrorCode::AlreadyAborted
    );
    assert_eq!(
        failure(room.user(2, RoomCommand::Played { id: 2 }).0),
        RoomErrorCode::AlreadyUploaded
    );
}

#[test]
fn records_count_once_and_only_if_they_were_announced() {
    let mut room = Watched::new(vec![]);
    room.join(2, false);
    room.start(&[2]);
    let fetched = |user_id: i32, record_id: i32| RoomCommand::RecordFetched {
        user_id,
        record_id,
        record: FakeApi.fetch_record(record_id),
    };
    let (_, events) = room.system(fetched(1, 1));
    assert!(events.is_empty());
    room.user(1, RoomCommand::Played { id: 1 });
    let (_, events) = room.system(fetched(1, 5));
    assert!(events.is_empty());
    let (_, events) = room.user(2, fetched(1, 1));
    assert!(events.is_empty());
    let (_, events) = room.system(fetched(1, 1));
    assert_eq!(
        events,
        vec![RoomEvent::Played {
            room_id: rid(),
            user: 1,
            score: 100,
            accuracy: num(0.99),
            full_combo: true
        }]
    );
    let (_, events) = room.system(fetched(1, 1));
    assert!(events.is_empty());
    room.user(2, RoomCommand::Played { id: 2 });
    let (_, events) = room.system(RoomCommand::RecordFetched {
        user_id: 2,
        record_id: 2,
        record: Err(ApiError::Internal {
            msg: "down".to_owned(),
        }),
    });
    assert_eq!(
        events,
        vec![
            RoomEvent::Abort {
                room_id: rid(),
                user: 2
            },
            RoomEvent::GameEnd {
                room_id: rid(),
                chart: Some(1)
            }
        ]
    );
}

#[test]
fn drawn_players_become_hosts() {
    let mut room = Watched::new(vec![]);
    room.join(2, false);
    room.join(3, false);
    room.rng.push(1);
    let (_, events) = room.user(1, RoomCommand::LeaveRoom);
    assert!(events.contains(&RoomEvent::NewHost {
        room_id: rid(),
        new_host: 3,
        old_host: 1
    }));
    room.rng.push(5);
    let (_, events) = room.user(3, RoomCommand::LeaveRoom);
    assert_eq!(
        events,
        vec![RoomEvent::UserLeft {
            room_id: rid(),
            user: 3,
            name: "u3".to_owned()
        }]
    );
}

#[test]
fn scripted_picks_come_in_order() {
    let mut rng = SeqRng::default();
    assert_eq!(rng.pick_index(0), None);
    assert_eq!(rng.pick_index(3), Some(0));
    rng.push(2);
    rng.push(7);
    assert_eq!(rng.pick_index(3), Some(2));
    assert_eq!(rng.pick_index(0), Some(7));
    assert_eq!(rng.pick_index(1), Some(0));
}

#[test]
fn fake_api_has_everything() {
    assert_eq!(FakeApi.fetch_chart(12).unwrap().name, "chart-12");
    assert_eq!(FakeApi.fetch_chart(-3).unwrap().name, "chart--3");
    assert_eq!(
        FakeApi.fetch_chart(i32::MIN).unwrap().name,
        "chart--2147483648"
    );
    let record = FakeApi.fetch_record(4).unwrap();
    assert_eq!(record.player, 4);
    assert_eq!(record.accuracy, num(0.99));
    assert_eq!(record.std, num(0.1));
    assert_eq!(record.std_score, num(0.9));
}

#[test]
fn judgements_are_relayed_together() {
    let mut room = Watched::new(vec![9]);
    room.join(9, true);
    let judge = |t: f32| JudgeEvent {
        time: num(t),
        line_id: 1,
        note_id: 2,
        judgement: Judgement::Good,
    };
    for t in [1.0, 2.0] {
        let judges = Arc::new(vec![judge(t)]);
        room.user(1, RoomCommand::Judges { judges });
    }
    let frames = Arc::new(vec![TouchFrame {
        time: num(3.0),
        points: vec![],
    }]);
    room.user(
        1,
        RoomCommand::Touches {
            frames: Arc::clone(&frames),
        },
    );
    let (_, events) = room.system(RoomCommand::Tick { now: 1 });
    assert_eq!(
        events,
        vec![
            RoomEvent::RelayTouches {
                room_id: rid(),
                targets: Targets::Specific(vec![9]),
                player: 1,
                frames
            },
            RoomEvent::RelayJudges {
                room_id: rid(),
                targets: Targets::Specific(vec![9]),
                player: 1,
                judges: Arc::new(vec![judge(1.0), judge(2.0)])
            }
        ]
    );
    let (_, events) = room.system(RoomCommand::Tick { now: 2 });
    assert!(events.is_empty());
}

#[test]
fn text_that_is_not_utf8_is_replaced() {
    let decoded: ClientCommand = decode_packet(&[0x02, 0x03, 0x68, 0xFF, 0x69]).unwrap();
    assert_eq!(
        decoded,
        ClientCommand::Chat {
            message: Varchar::new("h\u{FFFD}i".to_owned()).unwrap()
        }
    );
    let decoded: String = decode_packet(&[0x02, 0xC3, 0x28]).unwrap();
    assert_eq!(decoded, "\u{FFFD}(");
    let decoded: String = decode_packet("\u{3}中".as_bytes()).unwrap();
    assert_eq!(decoded, "中");
}

#[test]
fn bounded_texts_stay_within_the_bound() {
    assert_eq!(
        decode_packet::<Varchar<1>>(&[0x01, 0xFF]),
        Err(DecodeError::StringTooLong { max: 1, len: 3 })
    );
    let read: Varchar<3> = decode_packet(&[0x01, 0xFF]).unwrap();
    assert_eq!(read.as_str(), "\u{FFFD}");
    let mut buf = Vec::new();
    encode_packet(&read, &mut buf);
    assert_eq!(decode_packet::<Varchar<3>>(&buf), Ok(read));
    let mut id = vec![0x05, 20];
    id.extend([0xFF; 20]);
    assert_eq!(
        decode_packet::<ClientCommand>(&id),
        Err(DecodeError::StringTooLong { max: 20, len: 60 })
    );
    assert_eq!(
        decode_packet::<ClientCommand>(&[0x05, 0x02, 0x61, 0xFF]),
        Err(DecodeError::InvalidRoomId("a\u{FFFD}".to_owned()))
    );
}

#[test]
fn numbers_of_more_than_64_bits_are_refused() {
    let groups = |last: u8| {
        let mut bytes = [0x80; 10];
        bytes[9] = last;
        bytes
    };
    for last in 2..=255 {
        let bytes = groups(last);
        let mut r = BinaryReader::new(&bytes);
        assert_eq!(r.uleb(), Err(DecodeError::UlebOverflow));
    }
    assert_eq!(BinaryReader::new(&groups(0)).uleb(), Ok(0));
    assert_eq!(BinaryReader::new(&groups(1)).uleb(), Ok(1 << 63));
    assert_eq!(BinaryReader::new(&[0x80; 9]).uleb(), Err(DecodeError::Eof));
}

#[test]
fn cut_off_packets_lack_data() {
    let cmd = ServerCommand::Touches {
        player: 3,
        frames: Arc::new(vec![
            TouchFrame {
                time: num(1.5),
                points: vec![],
            };
            2
        ]),
    };
    let mut buf = Vec::new();
    encode_packet(&cmd, &mut buf);
    for len in 0..buf.len() {
        match decode_packet::<ServerCommand>(&buf[..len]) {
            Err(DecodeError::Eof | DecodeError::ArrayTooLarge { .. }) => {}
            other => panic!("unexpected: {other:?}"),
        }
    }
    let chat = ClientCommand::Chat {
        message: Varchar::new("hello".to_owned()).unwrap(),
    };
    let mut buf = Vec::new();
    encode_packet(&chat, &mut buf);
    for len in 0..buf.len() {
        assert_eq!(
            decode_packet::<ClientCommand>(&buf[..len]),
            Err(DecodeError::Eof)
        );
    }
}

#[test]
fn losses_are_told_at_the_end() {
    let mut room = Watched::new(vec![]);
    room.join(2, false);
    room.start(&[2]);
    let lost = RoomCommand::UserDisconnected {
        user_id: 2,
        epoch: 1,
    };
    assert_eq!(room.system(lost), (None, vec![]));
    let expired = || RoomCommand::UserDangleExpired { user_id: 2 };
    assert_eq!(
        room.system(expired()),
        (
            None,
            vec![RoomEvent::UserLeft {
                room_id: rid(),
                user: 2,
                name: "u2".to_owned()
            }]
        )
    );
    assert_eq!(room.system(expired()), (None, vec![]));
}

#[test]
fn unready_users_leave_once_at_the_deadline() {
    let mut room = Watched::new(vec![9]);
    room.join(2, false);
    room.join(3, false);
    room.join(9, true);
    room.user(1, RoomCommand::SelectChart { id: 1 });
    room.user(1, RoomCommand::RequestStart);
    room.user(2, RoomCommand::Ready);
    assert_eq!(room.system(RoomCommand::Tick { now: 7 }), (None, vec![]));
    assert_eq!(
        room.system(RoomCommand::Tick { now: 60_006 }),
        (None, vec![])
    );
    let left = |user: i32| RoomEvent::UserLeft {
        room_id: rid(),
        user,
        name: format!("u{user}"),
    };
    assert_eq!(
        room.system(RoomCommand::Tick { now: 90_000 }),
        (
            None,
            vec![
                left(3),
                left(9),
                RoomEvent::StartPlaying { room_id: rid() }
            ]
        )
    );
    assert_eq!(room.state, RoomState::Playing);
}

#[test]
fn copies_are_equal() {
    let frames = Arc::new(vec![TouchFrame {
        time: num(1.0),
        points: vec![],
    }]);
    let cmd = RoomCommand::Touches {
        frames: Arc::clone(&frames),
    };
    assert_eq!(cmd.clone(), cmd);
    let told = ServerCommand::Touches { player: 1, frames };
    assert_eq!(told.clone(), told);
    let mut room = Watched::new(vec![]);
    room.join(2, false);
    let resp = RoomResponse::ClientState(room.state_for(2));
    assert_eq!(resp.clone(), resp);
}

#[test]
fn no_packet_begins_another() {
    let enc = |cmd: &Message| {
        let mut buf = Vec::new();
        encode_packet(cmd, &mut buf);
        buf
    };
    let packets = [
        enc(&Message::Chat {
            user: 1,
            content: "a".to_owned(),
        }),
        enc(&Message::Chat {
            user: 1,
            content: "ab".to_owned(),
        }),
        enc(&Message::Chat {
            user: 2,
            content: "a".to_owned(),
        }),
        enc(&Message::GameEnd),
        enc(&Message::StartPlaying),
    ];
    for (i, a) in packets.iter().enumerate() {
        for (j, b) in packets.iter().enumerate() {
            assert_eq!(b.starts_with(a), i == j);
        }
    }
}

#[test]
fn packets_can_be_read_one_after_the_other() {
    let mut buf = Vec::new();
    {
        let mut w = BinaryWriter::new(&mut buf);
        w.write(&Message::GameEnd).unwrap();
        w.write_val(300u16).unwrap();
        w.array(&[1u8, 2, 3]).unwrap();
        w.uleb(u64::MAX).unwrap();
        w.write_raw(&[9, 8]).unwrap();
    }
    let mut r = BinaryReader::new(&buf);
    assert_eq!(r.read::<Message>(), Ok(Message::GameEnd));
    assert_eq!(r.read::<u16>(), Ok(300));
    assert_eq!(r.array::<u8>(), Ok(vec![1, 2, 3]));
    assert_eq!(r.uleb(), Ok(u64::MAX));
    assert_eq!(r.byte(), Ok(9));
    assert_eq!(r.take(2), Err(DecodeError::Eof));
    assert_eq!(r.take(1).unwrap(), &[8]);
    assert_eq!(r.byte(), Err(DecodeError::Eof));
}

#[test]
fn maps_are_written_in_order_and_the_last_entry_counts() {
    let map = HashMap::from([(3u8, 30u8), (1, 10), (2, 20)]);
    let mut buf = Vec::new();
    encode_packet(&map, &mut buf);
    assert_eq!(buf, vec![3, 1, 10, 2, 20, 3, 30]);
    assert_eq!(decode_packet::<HashMap<u8, u8>>(&buf), Ok(map));
    assert_eq!(
        decode_packet::<HashMap<u8, u8>>(&[2, 5, 1, 5, 2]),
        Ok(HashMap::from([(5, 2)]))
    );
    let negative = HashMap::from([(-1i32, true), (1, false)]);
    let mut buf = Vec::new();
    encode_packet(&negative, &mut buf);
    assert_eq!(buf, vec![2, 255, 255, 255, 255, 1, 1, 0, 0, 0, 0]);
}

#[test]
fn decode_errors_in_words() {
    let words = |err: DecodeError| err.message();
    assert_eq!(words(DecodeError::Eof), "unexpected EOF");
    assert_eq!(words(DecodeError::InvalidTag(200)), "invalid enum tag: 200");
    assert_eq!(
        words(DecodeError::StringTooLong { max: 32, len: 33 }),
        "string too long: 33 > 32"
    );
    assert_eq!(
        words(DecodeError::InvalidRoomId("a b".to_owned())),
        "invalid room id: a b"
    );
    assert_eq!(words(DecodeError::UlebOverflow), "ULEB128 overflow");
    assert_eq!(
        words(DecodeError::ArrayTooLarge {
            len: 1000,
            remaining: 0
        }),
        "array length 1000 exceeds remaining 0 bytes"
    );
    assert_eq!(
        decode_packet::<ClientCommand>(&[0x05, 0x01, 0x2A]),
        Err(DecodeError::InvalidRoomId("*".to_owned()))
    );
}

#[test]
fn bounded_texts_say_why_they_are_refused() {
    assert_eq!(
        RoomId::new("a b".to_owned()).unwrap_err(),
        "invalid room id"
    );
    assert_eq!(
        RoomId::new("x".repeat(21)).unwrap_err(),
        "string too long: 21 > 20"
    );
    assert_eq!(
        Varchar::<3>::new("four".to_owned()).unwrap_err(),
        "string too long: 4 > 3"
    );
    let api = ApiError::Internal {
        msg: "down".to_owned(),
    };
    assert_eq!(api.message(), "api error: down");
}
