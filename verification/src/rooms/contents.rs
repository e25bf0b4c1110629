//! Laws of contents: what the mathematical content of a value is, field by field, and when two
//! numbers are equal.

use std::collections::HashMap;
use std::sync::Arc;

use vstd::prelude::*;
use vstd::std_specs::cmp::PartialEqSpec;

use crate::binary::DecodeFailure;
use crate::model::HasModel;
use crate::proto::{
    ClientCommand, ClientCommandView, Message, MessageView, ServerCommand, ServerCommandView,
};

use super::{
    Chart, ClientRoomState, CompactPos, Float32, JoinRoomResponse, RoomConfig, RoomError,
    RoomErrorView, RoomEvent, RoomEventView, RoomResponse, RoomResponseView, Targets, TargetsView,
    TouchFrame, UserInfo, Varchar,
};

verus! {

/// The content of a container is the contents of its items, each in its place.
pub proof fn containers_hold_the_contents_of_their_items<T: HasModel>(
    items: Vec<T>,
    map: HashMap<i32, T>,
    some: T,
    i: int,
    k: i32,
)
    ensures
        items.model().len() == items@.len(),
        0 <= i < items@.len() ==> items.model()[i] == items@[i].model(),
        map.model().contains_key(k) == map@.contains_key(k),
        map@.contains_key(k) ==> map.model()[k] == map@[k].model(),
        Some(some).model() == Some(some.model()),
        None::<T>.model() is None,
        Arc::new(some).model() == some.model(),
{
}

/// The content of a pair or a result is the contents of its parts.
pub proof fn pairs_and_results_hold_the_contents_of_their_parts<A: HasModel, B: HasModel>(
    a: A,
    b: B,
)
    ensures
        (a, b).model() == (a.model(), b.model()),
        Ok::<A, B>(a).model() == Ok::<A::Model, B::Model>(a.model()),
        Err::<A, B>(b).model() == Err::<A::Model, B::Model>(b.model()),
{
}

/// The content of what rooms are made of, field by field.
pub proof fn things_hold_the_contents_of_their_fields(
    user: UserInfo,
    chart: Chart,
    frame: TouchFrame,
    joined: JoinRoomResponse,
    state: ClientRoomState,
    config: RoomConfig,
)
    ensures
        user.model().id == user.id,
        user.model().name == user.name@,
        user.model().monitor == user.monitor,
        chart.model().id == chart.id,
        chart.model().name == chart.name@,
        frame.model().time == frame.time,
        frame.model().points == frame.points@,
        joined.model().state == joined.state,
        joined.model().users == joined.users.model(),
        joined.model().live == joined.live,
        state.model().id == state.id@,
        state.model().state == state.state,
        state.model().live == state.live,
        state.model().locked == state.locked,
        state.model().cycle == state.cycle,
        state.model().is_host == state.is_host,
        state.model().is_ready == state.is_ready,
        state.model().users == state.users.model(),
        state.model().last_game_time == state.last_game_time,
        config.model() == config.monitors@,
{
    assert(frame.points.model() =~= frame.points@);
}

/// The content of answers and of their receivers, case by case.
pub proof fn answers_hold_their_contents(resp: RoomResponse, err: RoomError, targets: Targets)
    ensures
        resp.model() == match resp {
            RoomResponse::Done => RoomResponseView::Done,
            RoomResponse::Failure(err) => RoomResponseView::Failure(err.model()),
            RoomResponse::JoinRoom(joined) => RoomResponseView::JoinRoom(joined.model()),
            RoomResponse::ClientState(state) => RoomResponseView::ClientState(state.model()),
        },
        err.model() == match err {
            RoomError::Business { code, msg } => RoomErrorView::Business { code, msg: msg@ },
            RoomError::Internal { msg } => RoomErrorView::Internal { msg: msg@ },
        },
        targets.model() == match targets {
            Targets::All => TargetsView::All,
            Targets::Specific(ids) => TargetsView::Specific(ids@),
        },
{
}

/// The content of events, case by case.
pub proof fn events_hold_their_contents(event: RoomEvent)
    ensures
        event.model() == match event {
            RoomEvent::Chat { room_id, user, content } => RoomEventView::Chat {
                room_id: room_id@,
                user,
                content: content@,
            },
            RoomEvent::RoomCreated { room_id, host } => RoomEventView::RoomCreated {
                room_id: room_id@,
                host,
            },
            RoomEvent::UserJoined { room_id, user } => RoomEventView::UserJoined {
                room_id: room_id@,
                user: user.model(),
            },
            RoomEvent::UserLeft { room_id, user, name } => RoomEventView::UserLeft {
                room_id: room_id@,
                user,
                name: name@,
            },
            RoomEvent::NewHost { room_id, new_host, old_host } => RoomEventView::NewHost {
                room_id: room_id@,
                new_host,
                old_host,
            },
            RoomEvent::SelectChart { room_id, user, name, id } => RoomEventView::SelectChart {
                room_id: room_id@,
                user,
                name: name@,
                id,
            },
            RoomEvent::GameStart { room_id, user } => RoomEventView::GameStart {
                room_id: room_id@,
                user,
            },
            RoomEvent::Ready { room_id, user } => RoomEventView::Ready {
                room_id: room_id@,
                user,
            },
            RoomEvent::CancelReady { room_id, user } => RoomEventView::CancelReady {
                room_id: room_id@,
                user,
            },
            RoomEvent::CancelGame { room_id, user, chart } => RoomEventView::CancelGame {
                room_id: room_id@,
                user,
                chart,
            },
            RoomEvent::StartPlaying { room_id } => RoomEventView::StartPlaying {
                room_id: room_id@,
            },
            RoomEvent::Played { room_id, user, score, accuracy, full_combo } => RoomEventView::Played {
                room_id: room_id@,
                user,
                score,
                accuracy,
                full_combo,
            },
            RoomEvent::GameEnd { room_id, chart } => RoomEventView::GameEnd {
                room_id: room_id@,
                chart,
            },
            RoomEvent::Abort { room_id, user } => RoomEventView::Abort {
                room_id: room_id@,
                user,
            },
            RoomEvent::LockRoom { room_id, lock } => RoomEventView::LockRoom {
                room_id: room_id@,
                lock,
            },
            RoomEvent::CycleRoom { room_id, cycle } => RoomEventView::CycleRoom {
                room_id: room_id@,
                cycle,
            },
            RoomEvent::RelayTouches { room_id, targets, player, frames } => RoomEventView::RelayTouches {
                room_id: room_id@,
                targets: targets.model(),
                player,
                frames: frames.model(),
            },
            RoomEvent::RelayJudges { room_id, targets, player, judges } => RoomEventView::RelayJudges {
                room_id: room_id@,
                targets: targets.model(),
                player,
                judges: judges.model(),
            },
            RoomEvent::RoomClosed { room_id } => RoomEventView::RoomClosed {
                room_id: room_id@,
            },
        },
{
}

/// The content of commands of clients, case by case.
pub proof fn client_commands_hold_their_contents(cmd: ClientCommand)
    ensures
        cmd.model() == match cmd {
            ClientCommand::Ping => ClientCommandView::Ping,
            ClientCommand::Authenticate { token } => ClientCommandView::Authenticate {
                token: token@,
            },
            ClientCommand::Chat { message } => ClientCommandView::Chat {
                message: message@,
            },
            ClientCommand::Touches { frames } => ClientCommandView::Touches {
                frames: frames.model(),
            },
            ClientCommand::Judges { judges } => ClientCommandView::Judges {
                judges: judges.model(),
            },
            ClientCommand::CreateRoom { id } => ClientCommandView::CreateRoom {
                id: id@,
            },
            ClientCommand::JoinRoom { id, monitor } => ClientCommandView::JoinRoom {
                id: id@,
                monitor,
            },
            ClientCommand::LeaveRoom => ClientCommandView::LeaveRoom,
            ClientCommand::LockRoom { lock } => ClientCommandView::LockRoom {
                lock,
            },
            ClientCommand::CycleRoom { cycle } => ClientCommandView::CycleRoom {
                cycle,
            },
            ClientCommand::SelectChart { id } => ClientCommandView::SelectChart {
                id,
            },
            ClientCommand::RequestStart => ClientCommandView::RequestStart,
            ClientCommand::Ready => ClientCommandView::Ready,
            ClientCommand::CancelReady => ClientCommandView::CancelReady,
            ClientCommand::Played { id } => ClientCommandView::Played {
                id,
            },
            ClientCommand::Abort => ClientCommandView::Abort,
        },
{
}

/// The content of messages, case by case.
pub proof fn messages_hold_their_contents(message: Message)
    ensures
        message.model() == match message {
            Message::Chat { user, content } => MessageView::Chat {
                user,
                content: content@,
            },
            Message::CreateRoom { user } => MessageView::CreateRoom {
                user,
            },
            Message::JoinRoom { user, name } => MessageView::JoinRoom {
                user,
                name: name@,
            },
            Message::LeaveRoom { user, name } => MessageView::LeaveRoom {
                user,
                name: name@,
            },
            Message::NewHost { user } => MessageView::NewHost {
                user,
            },
            Message::SelectChart { user, name, id } => MessageView::SelectChart {
                user,
                name: name@,
                id,
            },
            Message::GameStart { user } => MessageView::GameStart {
                user,
            },
            Message::Ready { user } => MessageView::Ready {
                user,
            },
            Message::CancelReady { user } => MessageView::CancelReady {
                user,
            },
            Message::CancelGame { user } => MessageView::CancelGame {
                user,
            },
            Message::StartPlaying => MessageView::StartPlaying,
            Message::Played { user, score, accuracy, full_combo } => MessageView::Played {
                user,
                score,
                accuracy,
                full_combo,
            },
            Message::GameEnd => MessageView::GameEnd,
            Message::Abort { user } => MessageView::Abort {
                user,
            },
            Message::LockRoom { lock } => MessageView::LockRoom {
                lock,
            },
            Message::CycleRoom { cycle } => MessageView::CycleRoom {
                cycle,
            },
        },
{
}

/// The content of commands of the server, case by case.
pub proof fn server_commands_hold_their_contents(cmd: ServerCommand)
    ensures
        cmd.model() == match cmd {
            ServerCommand::Pong => ServerCommandView::Pong,
            ServerCommand::Authenticate(v) => ServerCommandView::Authenticate(v.model()),
            ServerCommand::Chat(v) => ServerCommandView::Chat(v.model()),
            ServerCommand::Touches { player, frames } => ServerCommandView::Touches {
                player,
                frames: frames.model(),
            },
            ServerCommand::Judges { player, judges } => ServerCommandView::Judges {
                player,
                judges: judges.model(),
            },
            ServerCommand::Message(v) => ServerCommandView::Message(v.model()),
            ServerCommand::ChangeState(v) => ServerCommandView::ChangeState(v),
            ServerCommand::ChangeHost(v) => ServerCommandView::ChangeHost(v),
            ServerCommand::CreateRoom(v) => ServerCommandView::CreateRoom(v.model()),
            ServerCommand::JoinRoom(v) => ServerCommandView::JoinRoom(v.model()),
            ServerCommand::OnJoinRoom(v) => ServerCommandView::OnJoinRoom(v.model()),
            ServerCommand::LeaveRoom(v) => ServerCommandView::LeaveRoom(v.model()),
            ServerCommand::LockRoom(v) => ServerCommandView::LockRoom(v.model()),
            ServerCommand::CycleRoom(v) => ServerCommandView::CycleRoom(v.model()),
            ServerCommand::SelectChart(v) => ServerCommandView::SelectChart(v.model()),
            ServerCommand::RequestStart(v) => ServerCommandView::RequestStart(v.model()),
            ServerCommand::Ready(v) => ServerCommandView::Ready(v.model()),
            ServerCommand::CancelReady(v) => ServerCommandView::CancelReady(v.model()),
            ServerCommand::Played(v) => ServerCommandView::Played(v.model()),
            ServerCommand::Abort(v) => ServerCommandView::Abort(v.model()),
        },
{
}

/// Two numbers in single precision are equal if they have the same bits or are both zero, whatever
/// the sign. What is not a number, with all bits of the exponent set and a fraction that is not
/// zero, equals nothing.
pub proof fn numbers_are_equal_as_numbers(a: Float32, b: Float32)
    ensures
        a.eq_spec(&b) <==> {
            &&& !(a.bits / 0x80_0000 % 0x100 == 0xFF && a.bits % 0x80_0000 != 0)
            &&& !(b.bits / 0x80_0000 % 0x100 == 0xFF && b.bits % 0x80_0000 != 0)
            &&& a.bits == b.bits || ((a.bits == 0 || a.bits == 0x8000_0000) && (b.bits == 0
                || b.bits == 0x8000_0000))
        },
{
    lemma_nan32(a.bits);
    lemma_nan32(b.bits);
}

proof fn lemma_nan32(bits: u32)
    ensures
        (bits % 0x8000_0000 > 0x7F80_0000) == (bits / 0x80_0000 % 0x100 == 0xFF && bits % 0x80_0000
            != 0),
        (bits % 0x8000_0000 == 0) == (bits == 0 || bits == 0x8000_0000),
{
    assert((bits % 0x8000_0000 > 0x7F80_0000) == (bits / 0x80_0000 % 0x100 == 0xFF && bits
        % 0x80_0000 != 0)) by (bit_vector);
    assert((bits % 0x8000_0000 == 0) == (bits == 0 || bits == 0x8000_0000)) by (bit_vector);
}

/// Two positions are equal if their coordinates are equal as numbers in half precision.
pub proof fn positions_are_equal_as_numbers(a: CompactPos, b: CompactPos)
    ensures
        a.eq_spec(&b) <==> equal_halves(a.x, b.x) && equal_halves(a.y, b.y),
{
    lemma_nan16(a.x);
    lemma_nan16(a.y);
    lemma_nan16(b.x);
    lemma_nan16(b.y);
}

/// Two numbers in half precision are equal if they have the same bits or are both zero, and are
/// numbers.
pub open spec fn equal_halves(a: u16, b: u16) -> bool {
    &&& !(a / 0x400 % 0x20 == 0x1F && a % 0x400 != 0)
    &&& !(b / 0x400 % 0x20 == 0x1F && b % 0x400 != 0)
    &&& a == b || ((a == 0 || a == 0x8000) && (b == 0 || b == 0x8000))
}

proof fn lemma_nan16(bits: u16)
    ensures
        (bits % 0x8000 > 0x7C00) == (bits / 0x400 % 0x20 == 0x1F && bits % 0x400 != 0),
        (bits % 0x8000 == 0) == (bits == 0 || bits == 0x8000),
{
    assert((bits % 0x8000 > 0x7C00) == (bits / 0x400 % 0x20 == 0x1F && bits % 0x400 != 0))
        by (bit_vector);
    assert((bits % 0x8000 == 0) == (bits == 0 || bits == 0x8000)) by (bit_vector);
}

/// Who has not started playing has played for minus infinity.
pub proof fn no_time_is_minus_infinity()
    ensures
        super::not_started() == (Float32 { bits: 0xFF80_0000 }),
{
}

/// The id of a room is one to twenty letters, digits, hyphens and underscores.
pub proof fn room_ids_are_short_names(text: Seq<char>)
    ensures
        super::room_id_ok(text) <==> 1 <= text.len() <= 20 && forall|i: int|
            0 <= i < text.len() ==> {
                let c = #[trigger] text[i];
                c == '-' || c == '_' || ('0' <= c && c <= '9') || ('A' <= c && c <= 'Z') || ('a' <= c
                    && c <= 'z')
            },
{
    if super::room_id_ok(text) {
        assert forall|i: int| 0 <= i < text.len() implies {
            let c = #[trigger] text[i];
            c == '-' || c == '_' || ('0' <= c && c <= '9') || ('A' <= c && c <= 'Z') || ('a' <= c
                && c <= 'z')
        } by {
            assert(super::room_id_char(text[i]));
        }
    }
    if forall|i: int|
        0 <= i < text.len() ==> {
            let c = #[trigger] text[i];
            c == '-' || c == '_' || ('0' <= c && c <= '9') || ('A' <= c && c <= 'Z') || ('a' <= c
                && c <= 'z')
        } {
        assert forall|i: int| 0 <= i < text.len() implies super::room_id_char(
            #[trigger] text[i],
        ) by {
        }
    }
}

/// A text of limited length is within its bound if its bytes in UTF-8 are.
pub proof fn texts_fit_by_their_bytes<const N: usize>(text: Varchar<N>)
    ensures
        text.fits() <==> vstd::utf8::encode_utf8(text@).len() <= N,
{
}

/// Why a text or a packet is refused, in words.
pub proof fn refusals_have_words(tag: u8, max: usize, len: usize, n: u64, rest: u64, id: Seq<char>)
    ensures
        super::too_long_message(len as nat, max as nat) == "string too long: "@
            + crate::text::decimal(len as nat) + " > "@ + crate::text::decimal(max as nat),
        DecodeFailure::Eof.words() == "unexpected EOF"@,
        DecodeFailure::InvalidTag(tag).words() == "invalid enum tag: "@ + crate::text::decimal(
            tag as nat,
        ),
        (DecodeFailure::StringTooLong { max, len }).words() == "string too long: "@
            + crate::text::decimal(len as nat) + " > "@ + crate::text::decimal(max as nat),
        DecodeFailure::InvalidRoomId(id).words() == "invalid room id: "@ + id,
        DecodeFailure::UlebOverflow.words() == "ULEB128 overflow"@,
        (DecodeFailure::ArrayTooLarge { len: n, remaining: rest }).words() == "array length "@
            + crate::text::decimal(n as nat) + " exceeds remaining "@ + crate::text::decimal(
            rest as nat,
        ) + " bytes"@,
{
}

} // verus!
