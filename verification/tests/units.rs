//! The small types of the library.

use std::collections::HashMap;

use phira_mp::auth::{AuthError, AuthErrorCode, UserIdentity};
use phira_mp::binary::{decode_packet, DecodeError};
use phira_mp::rooms::{
    ClientRoomState, CmdCtx, CompactPos, Float32, JudgeEvent, Judgement, Origin, RoomConfig,
    RoomError, RoomErrorCode, RoomId, RoomState, Targets, TouchFrame, UserInfo, Varchar,
};

fn num(x: f32) -> Float32 {
    Float32 { bits: x.to_bits() }
}

fn pos(x: f32, y: f32) -> CompactPos {
    CompactPos::new(
        half::f16::from_f32(x).to_bits(),
        half::f16::from_f32(y).to_bits(),
    )
}

#[test]
fn room_id_accepts_valid_chars() {
    for id in [
        "a",
        "A",
        "0",
        "-",
        "_",
        "a-b_c",
        "ABC-123_xyz",
        "___",
        "----",
    ] {
        assert!(RoomId::new(id.to_owned()).is_ok());
    }
}

#[test]
fn room_id_rejects_invalid() {
    for id in ["", " ", "a b", "a/b", "a.b", "中文", "a@b", "a\nb"] {
        assert!(RoomId::new(id.to_owned()).is_err());
    }
}

#[test]
fn room_id_rejects_too_long() {
    let ok = "a".repeat(20);
    assert!(RoomId::new(ok).is_ok());
    let too_long = "a".repeat(21);
    assert!(RoomId::new(too_long).is_err());
}

#[test]
fn room_id_display_and_eq() {
    let a = RoomId::new("room-1".to_owned()).unwrap();
    let b = RoomId::new("room-1".to_owned()).unwrap();
    let c = RoomId::new("room-2".to_owned()).unwrap();
    assert_eq!(a, b);
    assert_ne!(a, c);
    assert_eq!(a.to_text(), "room-1");
    assert_eq!(a.as_str(), "room-1");
}

#[test]
fn varchar_length_boundary() {
    let ok = Varchar::<32>::new("t".repeat(32)).unwrap();
    assert_eq!(ok.as_str(), &"t".repeat(32));
    assert!(Varchar::<32>::new("t".repeat(33)).is_err());
    assert!(Varchar::<32>::new(String::new()).is_ok());
}

#[test]
fn varchar_byte_len_not_char_len() {
    let three_chinese = "哈哈哈";
    assert_eq!(three_chinese.len(), 9);
    assert!(Varchar::<8>::new(three_chinese.to_owned()).is_err());
    assert!(Varchar::<9>::new(three_chinese.to_owned()).is_ok());
}

#[test]
fn varchar_into_inner() {
    let v = Varchar::<200>::new("hello".to_owned()).unwrap();
    assert_eq!(v.into_inner(), "hello");
}

#[test]
fn compact_pos_f16_roundtrip() {
    let p = pos(1.5, -2.25);
    assert_eq!(half::f16::from_bits(p.x()).to_f32(), 1.5);
    assert_eq!(half::f16::from_bits(p.y()).to_f32(), -2.25);
}

#[test]
fn compact_pos_clamps_to_f16_precision() {
    let p = pos(0.0001, 0.1);
    assert!(half::f16::from_bits(p.x()).to_f32().is_finite());
    assert!(half::f16::from_bits(p.y()).to_f32().is_finite());
}

#[test]
fn numbers_are_compared_as_numbers() {
    let patterns = [
        0,
        1,
        0x007F_FFFF,
        0x3F80_0000,
        0x7F7F_FFFF,
        0x7F80_0000,
        0x7F80_0001,
        0x7FC0_0000,
        0x7FFF_FFFF,
    ];
    let signed = patterns.iter().flat_map(|bits| [*bits, *bits | 0x8000_0000]);
    for a in signed.clone() {
        for b in signed.clone() {
            assert_eq!(
                Float32 { bits: a } == Float32 { bits: b },
                f32::from_bits(a) == f32::from_bits(b)
            );
        }
    }
    assert_eq!(num(0.0), num(-0.0));
    assert_ne!(num(f32::NAN), num(f32::NAN));
}

#[test]
fn positions_are_compared_as_numbers() {
    for bits in 0..=u16::MAX {
        for other in [bits, bits ^ 0x8000, bits ^ 1, 0, 0x8000, 0x7C00, 0x7E00] {
            let same = half::f16::from_bits(bits) == half::f16::from_bits(other);
            assert_eq!(CompactPos::new(bits, 0) == CompactPos::new(other, 0), same);
            assert_eq!(
                CompactPos::new(1, bits) == CompactPos::new(1, other),
                same
            );
        }
    }
    assert_ne!(pos(1.0, f32::NAN), pos(1.0, f32::NAN));
    assert_eq!(pos(0.0, 1.0), pos(-0.0, 1.0));
}

#[test]
fn room_error_two_classes_display() {
    let business = RoomError::Business {
        code: RoomErrorCode::RoomFull,
        msg: "room is full".to_owned(),
    };
    let internal = RoomError::Internal {
        msg: "boom".to_owned(),
    };
    assert_eq!(business.message(), "room is full");
    assert_eq!(internal.message(), "internal error: boom");
}

#[test]
fn room_error_code_exhaustive_values() {
    let codes = [
        RoomErrorCode::AlreadyInRoom,
        RoomErrorCode::RoomIdOccupied,
        RoomErrorCode::RoomNotFound,
        RoomErrorCode::RoomLocked,
        RoomErrorCode::GameOngoing,
        RoomErrorCode::CannotMonitor,
        RoomErrorCode::RoomFull,
        RoomErrorCode::OnlyHost,
        RoomErrorCode::NotInRoom,
        RoomErrorCode::InvalidState,
        RoomErrorCode::NoChartSelected,
        RoomErrorCode::AlreadyReady,
        RoomErrorCode::NotReady,
        RoomErrorCode::InvalidRecord,
        RoomErrorCode::AlreadyUploaded,
        RoomErrorCode::AlreadyAborted,
        RoomErrorCode::TooManyRequests,
    ];
    let mut seen = std::collections::HashSet::new();
    for c in codes {
        assert!(seen.insert(c));
    }
    assert_eq!(seen.len(), codes.len());
}

#[test]
fn cmd_ctx_and_origin_construct() {
    let ctx = CmdCtx {
        origin: Origin::Client { user_id: 42 },
        room_id: RoomId::new("r".to_owned()).unwrap(),
    };
    assert!(matches!(ctx.origin, Origin::Client { user_id: 42 }));
    assert_eq!(ctx.room_id.as_str(), "r");
}

#[test]
fn room_event_targets_construct() {
    let all = Targets::All;
    let specific = Targets::Specific(vec![1, 2]);
    assert_ne!(all, specific);
}

#[test]
fn client_room_state_construct() {
    let users = HashMap::from([(
        1,
        UserInfo {
            id: 1,
            name: "u1".to_owned(),
            monitor: false,
        },
    )]);
    let state = ClientRoomState {
        id: RoomId::new("r".to_owned()).unwrap(),
        state: RoomState::WaitingForReady,
        live: true,
        locked: false,
        cycle: true,
        is_host: true,
        is_ready: false,
        users,
        last_game_time: num(f32::NEG_INFINITY),
    };
    assert!(state.is_host);
    assert!(state.live);
    assert!(state.cycle);
}

#[test]
fn room_config_default_is_empty() {
    let cfg = RoomConfig::default();
    assert!(cfg.monitors.is_empty());
}

#[test]
fn touch_frame_and_judge_event_construct() {
    let frame = TouchFrame {
        time: num(1.5),
        points: vec![(0, pos(0.0, 0.0))],
    };
    assert_eq!(frame.points.len(), 1);

    let judge = JudgeEvent {
        time: num(2.0),
        line_id: 3,
        note_id: 4,
        judgement: Judgement::Perfect,
    };
    assert_eq!(judge.judgement, Judgement::Perfect);
}

#[test]
fn auth_error_classes() {
    let business = AuthError::Business {
        code: AuthErrorCode::InvalidToken,
        msg: "bad token".to_owned(),
    };
    let internal = AuthError::Internal {
        msg: "api down".to_owned(),
    };
    assert_eq!(business.message(), "bad token");
    assert_eq!(internal.message(), "internal error: api down");
}

#[test]
fn user_identity_construct() {
    let id = UserIdentity {
        user_id: 7,
        name: "phira".to_owned(),
        lang: "zh".to_owned(),
    };
    assert_eq!(id.user_id, 7);
}

#[test]
fn hashmap_declared_len_too_large_rejected() {
    let data = [0x02, 0x2a];
    let err = decode_packet::<HashMap<u8, ()>>(&data).unwrap_err();
    assert!(
        matches!(err, DecodeError::ArrayTooLarge { .. })
    );
}

#[test]
fn hashmap_exact_remaining_boundary_ok() {
    let data = [0x01, 0x2a];
    let map = decode_packet::<HashMap<u8, ()>>(&data).unwrap();
    assert_eq!(map.get(&42), Some(&()));
}
