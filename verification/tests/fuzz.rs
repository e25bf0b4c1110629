//! Decoders return whatever they are given: packets that were cut off, and packets with bytes that
//! were put in or changed.

use phira_mp::binary::{decode_packet, encode_packet};
use phira_mp::proto::{ClientCommand, Message, ServerCommand};
use phira_mp::rooms::{
    CompactPos, Float32, JudgeEvent, Judgement, RoomId, RoomState, TouchFrame, UserInfo, Varchar,
};

fn num(x: f32) -> Float32 {
    Float32 { bits: x.to_bits() }
}

fn pos(x: f32, y: f32) -> CompactPos {
    CompactPos::new(
        half::f16::from_f32(x).to_bits(),
        half::f16::from_f32(y).to_bits(),
    )
}

fn base_client_commands() -> Vec<Vec<u8>> {
    let cmds = [
        ClientCommand::Ping,
        ClientCommand::CreateRoom {
            id: RoomId::new("abc123_-".to_owned()).unwrap(),
        },
        ClientCommand::JoinRoom {
            id: RoomId::new("abc".to_owned()).unwrap(),
            monitor: true,
        },
        ClientCommand::Authenticate {
            token: Varchar::new("t".repeat(32)).unwrap(),
        },
        ClientCommand::Chat {
            message: Varchar::new("hello".to_owned()).unwrap(),
        },
        ClientCommand::Touches {
            frames: std::sync::Arc::new(vec![TouchFrame {
                time: num(1.5),
                points: vec![
                    (1i8, pos(0.5, -0.25)),
                    (2i8, pos(100.0, -100.0)),
                ],
            }]),
        },
        ClientCommand::Judges {
            judges: std::sync::Arc::new(vec![JudgeEvent {
                time: num(0.0),
                line_id: 1,
                note_id: 2,
                judgement: Judgement::Perfect,
            }]),
        },
        ClientCommand::SelectChart { id: i32::MAX },
        ClientCommand::Played { id: i32::MIN },
        ClientCommand::LeaveRoom,
        ClientCommand::LockRoom { lock: true },
        ClientCommand::CycleRoom { cycle: false },
        ClientCommand::RequestStart,
        ClientCommand::Ready,
        ClientCommand::CancelReady,
        ClientCommand::Abort,
    ];
    cmds.iter()
        .map(|c| {
            let mut buf = Vec::new();
            encode_packet(c, &mut buf);
            buf
        })
        .collect()
}

fn base_server_commands() -> Vec<Vec<u8>> {
    let cmds = [
        ServerCommand::Pong,
        ServerCommand::Authenticate(Ok((
            UserInfo {
                id: 1,
                name: "u".to_owned(),
                monitor: false,
            },
            None,
        ))),
        ServerCommand::Message(Message::Chat {
            user: 1,
            content: "hi".to_owned(),
        }),
        ServerCommand::Message(Message::Played {
            user: 2,
            score: 1_000_000,
            accuracy: num(f32::NAN),
            full_combo: true,
        }),
        ServerCommand::ChangeState(RoomState::SelectChart(Some(42))),
        ServerCommand::ChangeHost(true),
        ServerCommand::Touches {
            player: 3,
            frames: std::sync::Arc::new(vec![TouchFrame {
                time: num(-0.0),
                points: vec![],
            }]),
        },
    ];
    cmds.iter()
        .map(|c| {
            let mut buf = Vec::new();
            encode_packet(c, &mut buf);
            buf
        })
        .collect()
}

#[test]
fn truncated_client_packets_never_panic() {
    for base in base_client_commands() {
        for cut in 0..=base.len() {
            let _ = decode_packet::<ClientCommand>(&base[..cut]);
        }
    }
}

#[test]
fn truncated_server_packets_never_panic() {
    for base in base_server_commands() {
        for cut in 0..=base.len() {
            let _ = decode_packet::<ServerCommand>(&base[..cut]);
        }
    }
}

#[test]
fn cut_off_packets_are_errors() {
    for base in base_client_commands() {
        for cut in 0..base.len() {
            assert!(decode_packet::<ClientCommand>(&base[..cut]).is_err());
        }
    }
    for base in base_server_commands() {
        for cut in 0..base.len() {
            assert!(decode_packet::<ServerCommand>(&base[..cut]).is_err());
        }
    }
}

#[test]
fn changed_client_packets_never_panic() {
    for base in base_client_commands() {
        for at in 0..=base.len() {
            for byte in 0..=255u8 {
                let mut data = base.clone();
                data.insert(at, byte);
                let _ = decode_packet::<ClientCommand>(&data);
            }
        }
    }
}

#[test]
fn changed_server_packets_never_panic() {
    for base in base_server_commands() {
        for at in 0..base.len() {
            for byte in 0..=255u8 {
                let mut data = base.clone();
                data[at] = byte;
                let _ = decode_packet::<ServerCommand>(&data);
            }
        }
    }
}

#[test]
fn arbitrary_bytes_never_panic() {
    let mut seed: u32 = 12345;
    for len in 0..512usize {
        let mut data = Vec::new();
        for _ in 0..len {
            seed = seed.wrapping_mul(1664525).wrapping_add(1013904223);
            data.push((seed >> 24) as u8);
        }
        let _ = decode_packet::<ClientCommand>(&data);
        let _ = decode_packet::<ServerCommand>(&data);
        let _ = decode_packet::<Message>(&data);
        let _ = decode_packet::<RoomId>(&data);
    }
}
