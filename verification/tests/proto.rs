//! The bytes of the protocol: what values are written as, that they are read back, and what is
//! refused.

use std::collections::HashMap;
use std::sync::Arc;

use phira_mp::binary::{decode_packet, encode_packet, BinaryData, DecodeError};
use phira_mp::proto::{ClientCommand, Message, ServerCommand};
use phira_mp::rooms::{
    ClientRoomState, CompactPos, Float32, JoinRoomResponse, JudgeEvent, Judgement, RoomId,
    RoomState, TouchFrame, UserInfo, Varchar,
};

fn num(x: f32) -> Float32 {
    Float32 { bits: x.to_bits() }
}

fn pos(x: f32, y: f32) -> CompactPos {
    CompactPos::new(
        half::f16::from_f32(x).to_bits(),
        half::f16::from_f32(y).to_bits(),
    )
}

fn enc<T: BinaryData>(v: &T) -> Vec<u8> {
    let mut buf = Vec::new();
    encode_packet(v, &mut buf);
    buf
}

#[test]
fn golden_client_ping() {
    assert_eq!(enc(&ClientCommand::Ping), vec![0x00]);
}

#[test]
fn golden_client_authenticate() {
    let cmd = ClientCommand::Authenticate {
        token: Varchar::new("abc".into()).unwrap(),
    };
    assert_eq!(enc(&cmd), vec![0x01, 0x03, 0x61, 0x62, 0x63]);
}

#[test]
fn golden_client_chat() {
    let cmd = ClientCommand::Chat {
        message: Varchar::new("hi".into()).unwrap(),
    };
    assert_eq!(enc(&cmd), vec![0x02, 0x02, 0x68, 0x69]);
}

#[test]
fn golden_client_touches_empty() {
    assert_eq!(
        enc(&ClientCommand::Touches {
            frames: Arc::new(Vec::new()),
        }),
        vec![0x03, 0x00]
    );
}

#[test]
fn golden_client_touches_frame() {
    let cmd = ClientCommand::Touches {
        frames: Arc::new(vec![TouchFrame {
            time: num(1.5),
            points: vec![(1, pos(2.0, 3.0))],
        }]),
    };
    assert_eq!(
        enc(&cmd),
        vec![
            0x03, 0x01, 0x00, 0x00, 0xC0, 0x3F, 0x01, 0x01, 0x00, 0x40, 0x00, 0x42
        ]
    );
}

#[test]
fn golden_client_judges() {
    let cmd = ClientCommand::Judges {
        judges: Arc::new(vec![JudgeEvent {
            time: num(0.25),
            line_id: 2,
            note_id: 3,
            judgement: Judgement::Perfect,
        }]),
    };
    assert_eq!(
        enc(&cmd),
        vec![
            0x04, 0x01, 0x00, 0x00, 0x80, 0x3E, 0x02, 0x00, 0x00, 0x00, 0x03, 0x00, 0x00, 0x00,
            0x00
        ]
    );
}

#[test]
fn golden_client_create_room() {
    let cmd = ClientCommand::CreateRoom {
        id: RoomId::new("room1".into()).unwrap(),
    };
    assert_eq!(enc(&cmd), vec![0x05, 0x05, 0x72, 0x6F, 0x6F, 0x6D, 0x31]);
}

#[test]
fn golden_client_join_room() {
    let cmd = ClientCommand::JoinRoom {
        id: RoomId::new("ab".into()).unwrap(),
        monitor: true,
    };
    assert_eq!(enc(&cmd), vec![0x06, 0x02, 0x61, 0x62, 0x01]);
}

#[test]
fn golden_client_simple_commands() {
    assert_eq!(enc(&ClientCommand::LeaveRoom), vec![0x07]);
    assert_eq!(
        enc(&ClientCommand::LockRoom { lock: false }),
        vec![0x08, 0x00]
    );
    assert_eq!(
        enc(&ClientCommand::CycleRoom { cycle: true }),
        vec![0x09, 0x01]
    );
    assert_eq!(
        enc(&ClientCommand::SelectChart { id: 7 }),
        vec![0x0A, 0x07, 0x00, 0x00, 0x00]
    );
    assert_eq!(enc(&ClientCommand::RequestStart), vec![0x0B]);
    assert_eq!(enc(&ClientCommand::Ready), vec![0x0C]);
    assert_eq!(enc(&ClientCommand::CancelReady), vec![0x0D]);
    assert_eq!(
        enc(&ClientCommand::Played { id: 42 }),
        vec![0x0E, 0x2A, 0x00, 0x00, 0x00]
    );
    assert_eq!(enc(&ClientCommand::Abort), vec![0x0F]);
}

#[test]
fn golden_server_commands() {
    assert_eq!(enc(&ServerCommand::Pong), vec![0x00]);
    assert_eq!(enc(&ServerCommand::Chat(Ok(()))), vec![0x02, 0x01]);
    assert_eq!(
        enc(&ServerCommand::Chat(Err("bad".to_owned()))),
        vec![0x02, 0x00, 0x03, 0x62, 0x61, 0x64]
    );
    assert_eq!(
        enc(&ServerCommand::ChangeState(RoomState::WaitingForReady)),
        vec![0x06, 0x01]
    );
    assert_eq!(
        enc(&ServerCommand::ChangeState(RoomState::SelectChart(Some(5)))),
        vec![0x06, 0x00, 0x01, 0x05, 0x00, 0x00, 0x00]
    );
    assert_eq!(enc(&ServerCommand::ChangeHost(true)), vec![0x07, 0x01]);
}

#[test]
fn golden_server_message() {
    assert_eq!(
        enc(&ServerCommand::Message(Message::GameEnd)),
        vec![0x05, 0x0C]
    );
    assert_eq!(
        enc(&ServerCommand::Message(Message::Chat {
            user: 1,
            content: "yo".to_owned(),
        })),
        vec![0x05, 0x00, 0x01, 0x00, 0x00, 0x00, 0x02, 0x79, 0x6F]
    );
}

#[test]
fn golden_authenticate_response() {
    let resp = ServerCommand::Authenticate(Ok((
        UserInfo {
            id: 100,
            name: "p1".to_owned(),
            monitor: false,
        },
        Some(ClientRoomState {
            id: RoomId::new("ab".into()).unwrap(),
            state: RoomState::SelectChart(None),
            live: false,
            locked: false,
            cycle: false,
            is_host: true,
            is_ready: false,
            users: HashMap::from([(
                100,
                UserInfo {
                    id: 100,
                    name: "p1".to_owned(),
                    monitor: false,
                },
            )]),
            last_game_time: num(f32::NEG_INFINITY),
        }),
    )));
    let expected = vec![
        0x01,
        0x01,
        0x64, 0x00, 0x00, 0x00,
        0x02, 0x70, 0x31, // name "p1"
        0x00,
        0x01,
        0x02, 0x61, 0x62, // room id "ab"
        0x00,
        0x00,
        0x00, 0x00, 0x00, 0x01, 0x00,
        0x01,
        0x64, 0x00, 0x00, 0x00,
        0x64, 0x00, 0x00, 0x00,
        0x02, 0x70, 0x31, // name "p1"
        0x00,
        0x00, 0x00, 0x80,
        0xFF,
    ];
    assert_eq!(enc(&resp), expected);
}

#[test]
fn roundtrip_all_client_commands() {
    let cases = vec![
        ClientCommand::Ping,
        ClientCommand::Authenticate {
            token: Varchar::new("tok123".into()).unwrap(),
        },
        ClientCommand::Chat {
            message: Varchar::new("你好 hello".into()).unwrap(),
        },
        ClientCommand::Touches {
            frames: Arc::new(vec![TouchFrame {
                time: num(1.25),
                points: vec![(0, pos(-1.5, 2.75))],
            }]),
        },
        ClientCommand::Judges {
            judges: Arc::new(vec![JudgeEvent {
                time: num(0.5),
                line_id: 7,
                note_id: 8,
                judgement: Judgement::HoldGood,
            }]),
        },
        ClientCommand::CreateRoom {
            id: RoomId::new("a-b_c9".into()).unwrap(),
        },
        ClientCommand::JoinRoom {
            id: RoomId::new("x".into()).unwrap(),
            monitor: true,
        },
        ClientCommand::LeaveRoom,
        ClientCommand::LockRoom { lock: true },
        ClientCommand::CycleRoom { cycle: false },
        ClientCommand::SelectChart { id: -3 },
        ClientCommand::RequestStart,
        ClientCommand::Ready,
        ClientCommand::CancelReady,
        ClientCommand::Played { id: 0 },
        ClientCommand::Abort,
    ];
    for cmd in cases {
        let bytes = enc(&cmd);
        let decoded: ClientCommand = decode_packet(&bytes).unwrap();
        assert_eq!(decoded, cmd);
    }
}

#[test]
fn roundtrip_all_server_commands() {
    let ui = UserInfo {
        id: 1,
        name: "n".into(),
        monitor: true,
    };
    let state = ClientRoomState {
        id: RoomId::new("r".into()).unwrap(),
        state: RoomState::Playing,
        live: true,
        locked: true,
        cycle: true,
        is_host: false,
        is_ready: true,
        users: HashMap::new(),
        last_game_time: num(12.5),
    };
    let cases = vec![
        ServerCommand::Pong,
        ServerCommand::Authenticate(Ok((ui.clone(), Some(state.clone())))),
        ServerCommand::Authenticate(Err("token invalid".into())),
        ServerCommand::Chat(Ok(())),
        ServerCommand::Chat(Err("no room".into())),
        ServerCommand::Touches {
            player: 2,
            frames: Arc::new(vec![]),
        },
        ServerCommand::Judges {
            player: 3,
            judges: Arc::new(vec![]),
        },
        ServerCommand::Message(Message::StartPlaying),
        ServerCommand::Message(Message::Played {
            user: 9,
            score: 1000000,
            accuracy: num(0.99),
            full_combo: true,
        }),
        ServerCommand::ChangeState(RoomState::Playing),
        ServerCommand::ChangeHost(false),
        ServerCommand::CreateRoom(Ok(())),
        ServerCommand::JoinRoom(Ok(JoinRoomResponse {
            state: RoomState::SelectChart(Some(1)),
            users: vec![ui.clone()],
            live: false,
        })),
        ServerCommand::OnJoinRoom(ui.clone()),
        ServerCommand::LeaveRoom(Ok(())),
        ServerCommand::LockRoom(Err("not host".into())),
        ServerCommand::CycleRoom(Ok(())),
        ServerCommand::SelectChart(Ok(())),
        ServerCommand::RequestStart(Err("no chart".into())),
        ServerCommand::Ready(Ok(())),
        ServerCommand::CancelReady(Ok(())),
        ServerCommand::Played(Ok(())),
        ServerCommand::Abort(Ok(())),
    ];
    for cmd in cases {
        let bytes = enc(&cmd);
        let decoded: ServerCommand = decode_packet(&bytes).unwrap();
        assert_eq!(decoded, cmd);
    }
}

#[test]
fn roundtrip_all_messages() {
    let cases = vec![
        Message::Chat {
            user: 1,
            content: "hi".into(),
        },
        Message::CreateRoom { user: 2 },
        Message::JoinRoom {
            user: 3,
            name: "a".into(),
        },
        Message::LeaveRoom {
            user: 4,
            name: "b".into(),
        },
        Message::NewHost { user: 5 },
        Message::SelectChart {
            user: 6,
            name: "c".into(),
            id: 7,
        },
        Message::GameStart { user: 8 },
        Message::Ready { user: 9 },
        Message::CancelReady { user: 10 },
        Message::CancelGame { user: 11 },
        Message::StartPlaying,
        Message::Played {
            user: 12,
            score: 100,
            accuracy: num(0.5),
            full_combo: false,
        },
        Message::GameEnd,
        Message::Abort { user: 13 },
        Message::LockRoom { lock: true },
        Message::CycleRoom { cycle: false },
    ];
    for msg in cases {
        let bytes = enc(&msg);
        let decoded: Message = decode_packet(&bytes).unwrap();
        assert_eq!(decoded, msg);
    }
}

#[test]
fn roundtrip_uleb_multi_byte() {
    let msg = "x".repeat(128);
    let cmd = ClientCommand::Chat {
        message: Varchar::new(msg.clone()).unwrap(),
    };
    let bytes = enc(&cmd);
    assert_eq!(&bytes[..3], &[0x02, 0x80, 0x01]);
    assert_eq!(bytes.len(), 3 + 128);
    let decoded: ClientCommand = decode_packet(&bytes).unwrap();
    assert_eq!(decoded, cmd);

    let msg = "y".repeat(127);
    let cmd = ClientCommand::Chat {
        message: Varchar::new(msg).unwrap(),
    };
    let bytes = enc(&cmd);
    assert_eq!(&bytes[..2], &[0x02, 0x7F]);
    assert_eq!(bytes.len(), 2 + 127);
}

#[test]
fn err_truncated_packet() {
    let bytes = [0x01, 0x05, 0x61, 0x62];
    assert_eq!(
        decode_packet::<ClientCommand>(&bytes),
        Err(DecodeError::Eof)
    );
    assert_eq!(decode_packet::<ClientCommand>(&[]), Err(DecodeError::Eof));
}

#[test]
fn err_unknown_tag() {
    assert_eq!(
        decode_packet::<ClientCommand>(&[0x10]),
        Err(DecodeError::InvalidTag(16))
    );
    assert_eq!(
        decode_packet::<ServerCommand>(&[0x14]),
        Err(DecodeError::InvalidTag(20))
    );
    assert_eq!(
        decode_packet::<Message>(&[0x10]),
        Err(DecodeError::InvalidTag(16))
    );
    assert_eq!(
        decode_packet::<Judgement>(&[0x06]),
        Err(DecodeError::InvalidTag(6))
    );
}

#[test]
fn err_chat_message_too_long() {
    let mut bytes = vec![0x02, 0xC9, 0x01];
    bytes.extend(std::iter::repeat_n(b'a', 201));
    assert_eq!(
        decode_packet::<ClientCommand>(&bytes),
        Err(DecodeError::StringTooLong { max: 200, len: 201 })
    );
}

#[test]
fn err_varchar_too_long() {
    let mut bytes = vec![0x01, 0x21];
    bytes.extend(std::iter::repeat_n(b'a', 33));
    assert_eq!(
        decode_packet::<ClientCommand>(&bytes),
        Err(DecodeError::StringTooLong { max: 32, len: 33 })
    );
}

#[test]
fn err_uleb_overflow() {
    let bytes = [
        0x03u8, 0x80, 0x80, 0x80, 0x80, 0x80, 0x80, 0x80, 0x80, 0x80, 0x80,
    ];
    assert_eq!(
        decode_packet::<ClientCommand>(&bytes),
        Err(DecodeError::UlebOverflow)
    );
}

#[test]
fn err_array_too_large() {
    let bytes = [0x04u8, 0xE8, 0x07];
    assert_eq!(
        decode_packet::<ClientCommand>(&bytes),
        Err(DecodeError::ArrayTooLarge {
            len: 1000,
            remaining: 0
        })
    );
}

#[test]
fn err_invalid_room_id_chars() {
    let bytes = vec![0x05u8, 0x01, 0x2A]; // tag=5, uleb(1), "*"=0x2A
    assert!(matches!(
        decode_packet::<ClientCommand>(&bytes),
        Err(DecodeError::InvalidRoomId(_))
    )
    );
}

#[test]
fn err_empty_room_id() {
    let bytes = vec![0x05u8, 0x00];
    assert!(matches!(
        decode_packet::<ClientCommand>(&bytes),
        Err(DecodeError::InvalidRoomId(_))
    )
    );
}

#[test]
fn trailing_bytes_after_struct_fields_tolerated() {
    let mut bytes = vec![
        0x01u8,
        0x01,
        0x01, 0x00, 0x00, 0x00, 0x01, b'p', 0x00,
        0x00,
        0xDE, 0xAD, 0xBE, 0xEF, 0x01, 0x02,
    ];
    let decoded: ServerCommand = decode_packet(&bytes).unwrap();
    match decoded {
        ServerCommand::Authenticate(Ok((ui, None))) => {
            assert_eq!(ui.id, 1);
            assert_eq!(ui.name, "p");
        }
        other => panic!("unexpected: {other:?}"),
    }

    bytes = vec![0x09, 0x01, 0x02, 0x00, 0x01, 0xFF, 0xEE];
    let decoded: ServerCommand = decode_packet(&bytes).unwrap();
    assert!(matches!(
        decoded,
        ServerCommand::JoinRoom(Ok(JoinRoomResponse {
            state: RoomState::Playing,
            live: true,
            ..
        }))
    )
    );
}

#[test]
fn unknown_enum_tag_still_rejected() {
    let bytes = vec![0xC8u8];
    assert!(decode_packet::<ServerCommand>(&bytes).is_err());
}
