//! Laws of the protocol: the number and the fields of each command, message and state.

use std::sync::Arc;

use vstd::prelude::*;
use vstd::utf8::*;

use crate::binary;
use crate::binary::{BinaryData, DecodeFailure};
use crate::rooms::{
    ClientRoomState, ClientRoomStateView, CompactPos, Float32, JoinRoomResponse,
    JoinRoomResponseView, JudgeEvent, Judgement, RoomId, RoomState, TouchFrame, TouchFrameView,
    UserInfo, UserInfoView, Varchar,
};

use super::{
    ClientCommand, ClientCommandView, Message, MessageView, SResult, ServerCommand,
    ServerCommandView,
};

verus! {

/// The four bytes of a number, least significant first; a negative one in two's complement.
pub open spec fn four_bytes(v: i32) -> Seq<u8> {
    let n: int = if v < 0 {
        v + 0x1_0000_0000
    } else {
        v as int
    };
    seq![
        (n % 0x100) as u8,
        (n / 0x100 % 0x100) as u8,
        (n / 0x1_0000 % 0x100) as u8,
        (n / 0x100_0000 % 0x100) as u8,
    ]
}

/// The byte of a truth value.
pub open spec fn truth(v: bool) -> Seq<u8> {
    seq![if v { 1u8 } else { 0u8 }]
}

proof fn lemma_four_bytes()
    ensures
        forall|v: i32| #[trigger] v.encoding() == four_bytes(v),
{
    assert forall|v: i32| #[trigger] v.encoding() == four_bytes(v) by {
        binary::format::user_ids_are_four_bytes(v);
    }
}

/// A message is its number in the protocol, and then its fields.
pub proof fn messages_are_numbered(message: Message)
    ensures
        message.encoding() == match message {
            Message::Chat { user, content } => seq![0u8] + four_bytes(user) + content.encoding(),
            Message::CreateRoom { user } => seq![1u8] + four_bytes(user),
            Message::JoinRoom { user, name } => seq![2u8] + four_bytes(user) + name.encoding(),
            Message::LeaveRoom { user, name } => seq![3u8] + four_bytes(user) + name.encoding(),
            Message::NewHost { user } => seq![4u8] + four_bytes(user),
            Message::SelectChart { user, name, id } => seq![5u8] + four_bytes(user) + name.encoding() + four_bytes(id),
            Message::GameStart { user } => seq![6u8] + four_bytes(user),
            Message::Ready { user } => seq![7u8] + four_bytes(user),
            Message::CancelReady { user } => seq![8u8] + four_bytes(user),
            Message::CancelGame { user } => seq![9u8] + four_bytes(user),
            Message::StartPlaying => seq![10u8],
            Message::Played { user, score, accuracy, full_combo } => seq![11u8] + four_bytes(user) + four_bytes(score) + accuracy.encoding() + truth(full_combo),
            Message::GameEnd => seq![12u8],
            Message::Abort { user } => seq![13u8] + four_bytes(user),
            Message::LockRoom { lock } => seq![14u8] + truth(lock),
            Message::CycleRoom { cycle } => seq![15u8] + truth(cycle),
        },
{
    lemma_four_bytes();
}

/// A command of a client is its number in the protocol, and then its fields.
pub proof fn client_commands_are_numbered(cmd: ClientCommand)
    ensures
        cmd.encoding() == match cmd {
            ClientCommand::Ping => seq![0u8],
            ClientCommand::Authenticate { token } => seq![1u8] + token.encoding(),
            ClientCommand::Chat { message } => seq![2u8] + message.encoding(),
            ClientCommand::Touches { frames } => seq![3u8] + frames.encoding(),
            ClientCommand::Judges { judges } => seq![4u8] + judges.encoding(),
            ClientCommand::CreateRoom { id } => seq![5u8] + id.encoding(),
            ClientCommand::JoinRoom { id, monitor } => seq![6u8] + id.encoding() + truth(monitor),
            ClientCommand::LeaveRoom => seq![7u8],
            ClientCommand::LockRoom { lock } => seq![8u8] + truth(lock),
            ClientCommand::CycleRoom { cycle } => seq![9u8] + truth(cycle),
            ClientCommand::SelectChart { id } => seq![10u8] + four_bytes(id),
            ClientCommand::RequestStart => seq![11u8],
            ClientCommand::Ready => seq![12u8],
            ClientCommand::CancelReady => seq![13u8],
            ClientCommand::Played { id } => seq![14u8] + four_bytes(id),
            ClientCommand::Abort => seq![15u8],
        },
{
    lemma_four_bytes();
}

/// A command of the server is its number in the protocol, and then its fields.
pub proof fn server_commands_are_numbered(cmd: ServerCommand)
    ensures
        cmd.encoding() == match cmd {
            ServerCommand::Pong => seq![0u8],
            ServerCommand::Authenticate(v) => seq![1u8] + v.encoding(),
            ServerCommand::Chat(v) => seq![2u8] + v.encoding(),
            ServerCommand::Touches { player, frames } => seq![3u8] + four_bytes(player) + frames.encoding(),
            ServerCommand::Judges { player, judges } => seq![4u8] + four_bytes(player) + judges.encoding(),
            ServerCommand::Message(v) => seq![5u8] + v.encoding(),
            ServerCommand::ChangeState(v) => seq![6u8] + v.encoding(),
            ServerCommand::ChangeHost(v) => seq![7u8] + truth(v),
            ServerCommand::CreateRoom(v) => seq![8u8] + v.encoding(),
            ServerCommand::JoinRoom(v) => seq![9u8] + v.encoding(),
            ServerCommand::OnJoinRoom(v) => seq![10u8] + v.encoding(),
            ServerCommand::LeaveRoom(v) => seq![11u8] + v.encoding(),
            ServerCommand::LockRoom(v) => seq![12u8] + v.encoding(),
            ServerCommand::CycleRoom(v) => seq![13u8] + v.encoding(),
            ServerCommand::SelectChart(v) => seq![14u8] + v.encoding(),
            ServerCommand::RequestStart(v) => seq![15u8] + v.encoding(),
            ServerCommand::Ready(v) => seq![16u8] + v.encoding(),
            ServerCommand::CancelReady(v) => seq![17u8] + v.encoding(),
            ServerCommand::Played(v) => seq![18u8] + v.encoding(),
            ServerCommand::Abort(v) => seq![19u8] + v.encoding(),
        },
{
    lemma_four_bytes();
}

/// A state of a room is its number, and the first one has the selected chart behind it.
pub proof fn room_states_are_numbered(chart: i32)
    ensures
        RoomState::SelectChart(None).encoding() == seq![0u8, 0u8],
        RoomState::SelectChart(Some(chart)).encoding() == seq![0u8, 1u8] + four_bytes(chart),
        RoomState::WaitingForReady.encoding() == seq![1u8],
        RoomState::Playing.encoding() == seq![2u8],
{
    lemma_four_bytes();
    assert(seq![0u8] + seq![0u8] =~= seq![0u8, 0u8]);
    assert(seq![0u8] + (seq![1u8] + four_bytes(chart)) =~= seq![0u8, 1u8] + four_bytes(chart));
}

/// A judgement is its number.
pub proof fn judgements_are_numbered()
    ensures
        Judgement::Perfect.encoding() == seq![0u8],
        Judgement::Good.encoding() == seq![1u8],
        Judgement::Bad.encoding() == seq![2u8],
        Judgement::Miss.encoding() == seq![3u8],
        Judgement::HoldPerfect.encoding() == seq![4u8],
        Judgement::HoldGood.encoding() == seq![5u8],
{
}

/// The fields of users and of what is relayed of them, in the order in which they are written.
pub proof fn fields_are_written_in_order(
    user: UserInfo,
    joined: JoinRoomResponse,
    frame: TouchFrame,
    event: JudgeEvent,
    at: CompactPos,
    number: Float32,
)
    ensures
        user.encoding() == four_bytes(user.id) + user.name.encoding() + truth(user.monitor),
        joined.encoding() == joined.state.encoding() + joined.users.encoding() + truth(joined.live),
        frame.encoding() == frame.time.encoding() + frame.points.encoding(),
        event.encoding() == event.time.encoding() + event.line_id.encoding()
            + event.note_id.encoding() + event.judgement.encoding(),
        at.encoding() == at.x.encoding() + at.y.encoding(),
        number.encoding() == number.bits.encoding(),
{
    binary::format::user_ids_are_four_bytes(user.id);
}

/// The fields of what a user is told of a room, in the order in which they are written.
#[verifier::spinoff_prover]
pub proof fn room_states_are_written_in_order(state: ClientRoomState)
    ensures
        state.encoding() == state.id.encoding() + state.state.encoding() + seq![
            if state.live { 1u8 } else { 0u8 },
            if state.locked { 1u8 } else { 0u8 },
            if state.cycle { 1u8 } else { 0u8 },
            if state.is_host { 1u8 } else { 0u8 },
            if state.is_ready { 1u8 } else { 0u8 },
        ] + state.users.encoding() + state.last_game_time.encoding(),
{
    let flags = state.wire().1.0;
    let f = flags.encoding();
    assert(f =~= seq![
        if state.live { 1u8 } else { 0u8 },
        if state.locked { 1u8 } else { 0u8 },
        if state.cycle { 1u8 } else { 0u8 },
        if state.is_host { 1u8 } else { 0u8 },
        if state.is_ready { 1u8 } else { 0u8 },
    ]);
    let a = state.id.encoding();
    let b = state.state.encoding();
    let c = state.users.encoding();
    let d = state.last_game_time.encoding();
    assert(state.encoding() == (a + b) + (f + (c + d)));
    assert((a + b) + (f + (c + d)) =~= a + b + f + c + d);
}

/// Texts of limited length and ids of rooms are written as texts.
pub proof fn bounded_texts_are_texts<const N: usize>(text: Varchar<N>, id: RoomId)
    ensures
        text.encoding() == binary::uleb::uleb_encoding(encode_utf8(text@).len()) + encode_utf8(
            text@,
        ),
        id.encoding() == binary::uleb::uleb_encoding(encode_utf8(id@).len()) + encode_utf8(id@),
{
}

/// What is read as a message, by its number.
pub proof fn messages_are_read_by_number(data: Seq<u8>, pos: int)
    requires
        0 <= pos < data.len(),
    ensures
        data[pos] == 0 ==> Message::parse(data, pos) == binary::map_parsed(
            <(i32, String)>::parse(data, pos + 1),
            |v: (i32, Seq<char>)| MessageView::Chat { user: v.0, content: v.1 },
        ),
        data[pos] == 1 ==> Message::parse(data, pos) == binary::map_parsed(
            <i32>::parse(data, pos + 1),
            |v: i32| MessageView::CreateRoom { user: v },
        ),
        data[pos] == 2 ==> Message::parse(data, pos) == binary::map_parsed(
            <(i32, String)>::parse(data, pos + 1),
            |v: (i32, Seq<char>)| MessageView::JoinRoom { user: v.0, name: v.1 },
        ),
        data[pos] == 3 ==> Message::parse(data, pos) == binary::map_parsed(
            <(i32, String)>::parse(data, pos + 1),
            |v: (i32, Seq<char>)| MessageView::LeaveRoom { user: v.0, name: v.1 },
        ),
        data[pos] == 4 ==> Message::parse(data, pos) == binary::map_parsed(
            <i32>::parse(data, pos + 1),
            |v: i32| MessageView::NewHost { user: v },
        ),
        data[pos] == 5 ==> Message::parse(data, pos) == binary::map_parsed(
            <(i32, (String, i32))>::parse(data, pos + 1),
            |v: (i32, (Seq<char>, i32))| MessageView::SelectChart { user: v.0, name: v.1.0, id: v.1.1 },
        ),
        data[pos] == 6 ==> Message::parse(data, pos) == binary::map_parsed(
            <i32>::parse(data, pos + 1),
            |v: i32| MessageView::GameStart { user: v },
        ),
        data[pos] == 7 ==> Message::parse(data, pos) == binary::map_parsed(
            <i32>::parse(data, pos + 1),
            |v: i32| MessageView::Ready { user: v },
        ),
        data[pos] == 8 ==> Message::parse(data, pos) == binary::map_parsed(
            <i32>::parse(data, pos + 1),
            |v: i32| MessageView::CancelReady { user: v },
        ),
        data[pos] == 9 ==> Message::parse(data, pos) == binary::map_parsed(
            <i32>::parse(data, pos + 1),
            |v: i32| MessageView::CancelGame { user: v },
        ),
        data[pos] == 10 ==> Message::parse(data, pos) == (Ok::<_, DecodeFailure>(MessageView::StartPlaying), pos + 1),
        data[pos] == 11 ==> Message::parse(data, pos) == binary::map_parsed(
            <(i32, (i32, (Float32, bool)))>::parse(data, pos + 1),
            |v: (i32, (i32, (Float32, bool)))| MessageView::Played { user: v.0, score: v.1.0, accuracy: v.1.1.0, full_combo: v.1.1.1 },
        ),
        data[pos] == 12 ==> Message::parse(data, pos) == (Ok::<_, DecodeFailure>(MessageView::GameEnd), pos + 1),
        data[pos] == 13 ==> Message::parse(data, pos) == binary::map_parsed(
            <i32>::parse(data, pos + 1),
            |v: i32| MessageView::Abort { user: v },
        ),
        data[pos] == 14 ==> Message::parse(data, pos) == binary::map_parsed(
            <bool>::parse(data, pos + 1),
            |v: bool| MessageView::LockRoom { lock: v },
        ),
        data[pos] == 15 ==> Message::parse(data, pos) == binary::map_parsed(
            <bool>::parse(data, pos + 1),
            |v: bool| MessageView::CycleRoom { cycle: v },
        ),
        data[pos] >= 16 ==> Message::parse(data, pos) == (
            Err::<MessageView, _>(DecodeFailure::InvalidTag(data[pos])),
            pos + 1,
        ),
{
}

/// What is read as a command of a client, by its number.
pub proof fn client_commands_are_read_by_number(data: Seq<u8>, pos: int)
    requires
        0 <= pos < data.len(),
    ensures
        data[pos] == 0 ==> ClientCommand::parse(data, pos) == (Ok::<_, DecodeFailure>(ClientCommandView::Ping), pos + 1),
        data[pos] == 1 ==> ClientCommand::parse(data, pos) == binary::map_parsed(
            <Varchar<32>>::parse(data, pos + 1),
            |v: Seq<char>| ClientCommandView::Authenticate { token: v },
        ),
        data[pos] == 2 ==> ClientCommand::parse(data, pos) == binary::map_parsed(
            <Varchar<200>>::parse(data, pos + 1),
            |v: Seq<char>| ClientCommandView::Chat { message: v },
        ),
        data[pos] == 3 ==> ClientCommand::parse(data, pos) == binary::map_parsed(
            <Arc<Vec<TouchFrame>>>::parse(data, pos + 1),
            |v: Seq<TouchFrameView>| ClientCommandView::Touches { frames: v },
        ),
        data[pos] == 4 ==> ClientCommand::parse(data, pos) == binary::map_parsed(
            <Arc<Vec<JudgeEvent>>>::parse(data, pos + 1),
            |v: Seq<JudgeEvent>| ClientCommandView::Judges { judges: v },
        ),
        data[pos] == 5 ==> ClientCommand::parse(data, pos) == binary::map_parsed(
            <RoomId>::parse(data, pos + 1),
            |v: Seq<char>| ClientCommandView::CreateRoom { id: v },
        ),
        data[pos] == 6 ==> ClientCommand::parse(data, pos) == binary::map_parsed(
            <(RoomId, bool)>::parse(data, pos + 1),
            |v: (Seq<char>, bool)| ClientCommandView::JoinRoom { id: v.0, monitor: v.1 },
        ),
        data[pos] == 7 ==> ClientCommand::parse(data, pos) == (Ok::<_, DecodeFailure>(ClientCommandView::LeaveRoom), pos + 1),
        data[pos] == 8 ==> ClientCommand::parse(data, pos) == binary::map_parsed(
            <bool>::parse(data, pos + 1),
            |v: bool| ClientCommandView::LockRoom { lock: v },
        ),
        data[pos] == 9 ==> ClientCommand::parse(data, pos) == binary::map_parsed(
            <bool>::parse(data, pos + 1),
            |v: bool| ClientCommandView::CycleRoom { cycle: v },
        ),
        data[pos] == 10 ==> ClientCommand::parse(data, pos) == binary::map_parsed(
            <i32>::parse(data, pos + 1),
            |v: i32| ClientCommandView::SelectChart { id: v },
        ),
        data[pos] == 11 ==> ClientCommand::parse(data, pos) == (Ok::<_, DecodeFailure>(ClientCommandView::RequestStart), pos + 1),
        data[pos] == 12 ==> ClientCommand::parse(data, pos) == (Ok::<_, DecodeFailure>(ClientCommandView::Ready), pos + 1),
        data[pos] == 13 ==> ClientCommand::parse(data, pos) == (Ok::<_, DecodeFailure>(ClientCommandView::CancelReady), pos + 1),
        data[pos] == 14 ==> ClientCommand::parse(data, pos) == binary::map_parsed(
            <i32>::parse(data, pos + 1),
            |v: i32| ClientCommandView::Played { id: v },
        ),
        data[pos] == 15 ==> ClientCommand::parse(data, pos) == (Ok::<_, DecodeFailure>(ClientCommandView::Abort), pos + 1),
        data[pos] >= 16 ==> ClientCommand::parse(data, pos) == (
            Err::<ClientCommandView, _>(DecodeFailure::InvalidTag(data[pos])),
            pos + 1,
        ),
{
}

/// What is read as a command of the server, by its number.
pub proof fn server_commands_are_read_by_number(data: Seq<u8>, pos: int)
    requires
        0 <= pos < data.len(),
    ensures
        data[pos] == 0 ==> ServerCommand::parse(data, pos) == (Ok::<_, DecodeFailure>(ServerCommandView::Pong), pos + 1),
        data[pos] == 1 ==> ServerCommand::parse(data, pos) == binary::map_parsed(
            <SResult<(UserInfo, Option<ClientRoomState>)>>::parse(data, pos + 1),
            |v: Result<(UserInfoView, Option<ClientRoomStateView>), Seq<char>>| ServerCommandView::Authenticate(v),
        ),
        data[pos] == 2 ==> ServerCommand::parse(data, pos) == binary::map_parsed(
            <SResult<()>>::parse(data, pos + 1),
            |v: Result<(), Seq<char>>| ServerCommandView::Chat(v),
        ),
        data[pos] == 3 ==> ServerCommand::parse(data, pos) == binary::map_parsed(
            <(i32, Arc<Vec<TouchFrame>>)>::parse(data, pos + 1),
            |v: (i32, Seq<TouchFrameView>)| ServerCommandView::Touches { player: v.0, frames: v.1 },
        ),
        data[pos] == 4 ==> ServerCommand::parse(data, pos) == binary::map_parsed(
            <(i32, Arc<Vec<JudgeEvent>>)>::parse(data, pos + 1),
            |v: (i32, Seq<JudgeEvent>)| ServerCommandView::Judges { player: v.0, judges: v.1 },
        ),
        data[pos] == 5 ==> ServerCommand::parse(data, pos) == binary::map_parsed(
            <Message>::parse(data, pos + 1),
            |v: MessageView| ServerCommandView::Message(v),
        ),
        data[pos] == 6 ==> ServerCommand::parse(data, pos) == binary::map_parsed(
            <RoomState>::parse(data, pos + 1),
            |v: RoomState| ServerCommandView::ChangeState(v),
        ),
        data[pos] == 7 ==> ServerCommand::parse(data, pos) == binary::map_parsed(
            <bool>::parse(data, pos + 1),
            |v: bool| ServerCommandView::ChangeHost(v),
        ),
        data[pos] == 8 ==> ServerCommand::parse(data, pos) == binary::map_parsed(
            <SResult<()>>::parse(data, pos + 1),
            |v: Result<(), Seq<char>>| ServerCommandView::CreateRoom(v),
        ),
        data[pos] == 9 ==> ServerCommand::parse(data, pos) == binary::map_parsed(
            <SResult<JoinRoomResponse>>::parse(data, pos + 1),
            |v: Result<JoinRoomResponseView, Seq<char>>| ServerCommandView::JoinRoom(v),
        ),
        data[pos] == 10 ==> ServerCommand::parse(data, pos) == binary::map_parsed(
            <UserInfo>::parse(data, pos + 1),
            |v: UserInfoView| ServerCommandView::OnJoinRoom(v),
        ),
        data[pos] == 11 ==> ServerCommand::parse(data, pos) == binary::map_parsed(
            <SResult<()>>::parse(data, pos + 1),
            |v: Result<(), Seq<char>>| ServerCommandView::LeaveRoom(v),
        ),
        data[pos] == 12 ==> ServerCommand::parse(data, pos) == binary::map_parsed(
            <SResult<()>>::parse(data, pos + 1),
            |v: Result<(), Seq<char>>| ServerCommandView::LockRoom(v),
        ),
        data[pos] == 13 ==> ServerCommand::parse(data, pos) == binary::map_parsed(
            <SResult<()>>::parse(data, pos + 1),
            |v: Result<(), Seq<char>>| ServerCommandView::CycleRoom(v),
        ),
        data[pos] == 14 ==> ServerCommand::parse(data, pos) == binary::map_parsed(
            <SResult<()>>::parse(data, pos + 1),
            |v: Result<(), Seq<char>>| ServerCommandView::SelectChart(v),
        ),
        data[pos] == 15 ==> ServerCommand::parse(data, pos) == binary::map_parsed(
            <SResult<()>>::parse(data, pos + 1),
            |v: Result<(), Seq<char>>| ServerCommandView::RequestStart(v),
        ),
        data[pos] == 16 ==> ServerCommand::parse(data, pos) == binary::map_parsed(
            <SResult<()>>::parse(data, pos + 1),
            |v: Result<(), Seq<char>>| ServerCommandView::Ready(v),
        ),
        data[pos] == 17 ==> ServerCommand::parse(data, pos) == binary::map_parsed(
            <SResult<()>>::parse(data, pos + 1),
            |v: Result<(), Seq<char>>| ServerCommandView::CancelReady(v),
        ),
        data[pos] == 18 ==> ServerCommand::parse(data, pos) == binary::map_parsed(
            <SResult<()>>::parse(data, pos + 1),
            |v: Result<(), Seq<char>>| ServerCommandView::Played(v),
        ),
        data[pos] == 19 ==> ServerCommand::parse(data, pos) == binary::map_parsed(
            <SResult<()>>::parse(data, pos + 1),
            |v: Result<(), Seq<char>>| ServerCommandView::Abort(v),
        ),
        data[pos] >= 20 ==> ServerCommand::parse(data, pos) == (
            Err::<ServerCommandView, _>(DecodeFailure::InvalidTag(data[pos])),
            pos + 1,
        ),
{
}

/// What is read as a state of a room, by its number.
pub proof fn room_states_are_read_by_number(data: Seq<u8>, pos: int)
    requires
        0 <= pos < data.len(),
    ensures
        data[pos] == 0 ==> RoomState::parse(data, pos) == binary::map_parsed(
            <Option<i32>>::parse(data, pos + 1),
            |v: Option<i32>| RoomState::SelectChart(v),
        ),
        data[pos] == 1 ==> RoomState::parse(data, pos) == (
            Ok::<_, DecodeFailure>(RoomState::WaitingForReady),
            pos + 1,
        ),
        data[pos] == 2 ==> RoomState::parse(data, pos) == (
            Ok::<_, DecodeFailure>(RoomState::Playing),
            pos + 1,
        ),
        data[pos] >= 3 ==> RoomState::parse(data, pos) == (
            Err::<RoomState, _>(DecodeFailure::InvalidTag(data[pos])),
            pos + 1,
        ),
{
}

/// What is read as a judgement, by its number.
pub proof fn judgements_are_read_by_number(data: Seq<u8>, pos: int)
    requires
        0 <= pos < data.len(),
    ensures
        Judgement::parse(data, pos) == (
            match data[pos] {
                0 => Ok(Judgement::Perfect),
                1 => Ok(Judgement::Good),
                2 => Ok(Judgement::Bad),
                3 => Ok(Judgement::Miss),
                4 => Ok(Judgement::HoldPerfect),
                5 => Ok(Judgement::HoldGood),
                tag => Err(DecodeFailure::InvalidTag(tag)),
            },
            pos + 1,
        ),
{
}

/// Where there is no byte left, nothing that is numbered is there.
pub proof fn numbers_need_a_byte(data: Seq<u8>)
    ensures
        ({
            let end = data.len() as int;
            &&& Message::parse(data, end) == (Err::<MessageView, _>(DecodeFailure::Eof), end)
            &&& ClientCommand::parse(data, end) == (
                Err::<ClientCommandView, _>(DecodeFailure::Eof),
                end,
            )
            &&& ServerCommand::parse(data, end) == (
                Err::<ServerCommandView, _>(DecodeFailure::Eof),
                end,
            )
            &&& RoomState::parse(data, end) == (Err::<RoomState, _>(DecodeFailure::Eof), end)
            &&& Judgement::parse(data, end) == (Err::<Judgement, _>(DecodeFailure::Eof), end)
        }),
{
}

/// What is not numbered is read field by field, in the order in which it is written.
pub proof fn fields_are_read_in_order(data: Seq<u8>, pos: int)
    ensures
        UserInfo::parse(data, pos) == binary::map_parsed(
            <(i32, (String, bool))>::parse(data, pos),
            |v: (i32, (Seq<char>, bool))| UserInfoView { id: v.0, name: v.1.0, monitor: v.1.1 },
        ),
        JoinRoomResponse::parse(data, pos) == binary::map_parsed(
            <(RoomState, (Vec<UserInfo>, bool))>::parse(data, pos),
            |v: (RoomState, (Seq<UserInfoView>, bool))|
                JoinRoomResponseView { state: v.0, users: v.1.0, live: v.1.1 },
        ),
        TouchFrame::parse(data, pos) == binary::map_parsed(
            <(Float32, Vec<(i8, CompactPos)>)>::parse(data, pos),
            |v: (Float32, Seq<(i8, CompactPos)>)| TouchFrameView { time: v.0, points: v.1 },
        ),
        JudgeEvent::parse(data, pos) == binary::map_parsed(
            <(Float32, (u32, (u32, Judgement)))>::parse(data, pos),
            |v: (Float32, (u32, (u32, Judgement)))|
                JudgeEvent {
                    time: v.0,
                    line_id: v.1.0,
                    note_id: v.1.1.0,
                    judgement: v.1.1.1,
                },
        ),
        CompactPos::parse(data, pos) == binary::map_parsed(
            <(u16, u16)>::parse(data, pos),
            |v: (u16, u16)| CompactPos { x: v.0, y: v.1 },
        ),
        Float32::parse(data, pos) == binary::map_parsed(
            u32::parse(data, pos),
            |bits: u32| Float32 { bits },
        ),
{
}

/// What a user is told of a room is read field by field, in the order in which it is written.
pub proof fn room_states_are_read_in_order(data: Seq<u8>, pos: int)
    ensures
        ({
            let read = ClientRoomState::parse(data, pos);
            match RoomId::parse(data, pos) {
                (Err(e), p) => read == (Err::<ClientRoomStateView, _>(e), p),
                (Ok(id), p) => match RoomState::parse(data, p) {
                    (Err(e), q) => read == (Err::<ClientRoomStateView, _>(e), q),
                    (Ok(state), q) => match <(bool, (bool, (bool, (bool, bool))))>::parse(
                        data,
                        q,
                    ) {
                        (Err(e), r) => read == (Err::<ClientRoomStateView, _>(e), r),
                        (Ok(flags), r) => match <std::collections::HashMap<
                            i32,
                            UserInfo,
                        >>::parse(data, r) {
                            (Err(e), s) => read == (Err::<ClientRoomStateView, _>(e), s),
                            (Ok(users), s) => read == binary::map_parsed(
                                Float32::parse(data, s),
                                |last_game_time: Float32|
                                    ClientRoomStateView {
                                        id,
                                        state,
                                        live: flags.0,
                                        locked: flags.1.0,
                                        cycle: flags.1.1.0,
                                        is_host: flags.1.1.1.0,
                                        is_ready: flags.1.1.1.1,
                                        users,
                                        last_game_time,
                                    },
                            ),
                        },
                    },
                },
            }
        }),
{
}

/// A text of limited length is read as a text, and refused where its length field or the text
/// itself exceeds the limit.
pub proof fn bounded_texts_are_held_to_their_bound<const N: usize>(data: Seq<u8>, pos: int)
    ensures
        match binary::uleb::parse_uleb(data, pos) {
            (Err(e), p) => <Varchar<N>>::parse(data, pos) == (Err::<Seq<char>, _>(e), p),
            (Ok(len), p) => if (len as usize) > N {
                <Varchar<N>>::parse(data, pos) == (
                    Err::<Seq<char>, _>(
                        DecodeFailure::StringTooLong { max: N, len: len as usize },
                    ),
                    p,
                )
            } else {
                match String::parse(data, pos) {
                    (Err(e), q) => <Varchar<N>>::parse(data, pos) == (Err::<Seq<char>, _>(e), q),
                    (Ok(text), q) => if encode_utf8(text).len() > N {
                        <Varchar<N>>::parse(data, pos) == (
                            Err::<Seq<char>, _>(
                                DecodeFailure::StringTooLong {
                                    max: N,
                                    len: encode_utf8(text).len() as usize,
                                },
                            ),
                            q,
                        )
                    } else {
                        <Varchar<N>>::parse(data, pos) == (Ok::<_, DecodeFailure>(text), q)
                    },
                }
            },
        },
{
}

/// Whether every character of a text may stand in the id of a room.
pub open spec fn names_a_room(text: Seq<char>) -> bool {
    &&& text.len() > 0
    &&& forall|i: int|
        0 <= i < text.len() ==> {
            let c = #[trigger] text[i];
            c == '-' || c == '_' || '0' <= c <= '9' || 'A' <= c <= 'Z' || 'a' <= c <= 'z'
        }
}

/// The id of a room is read as a text of at most twenty bytes, and refused unless it is made of
/// letters, digits, hyphens and underscores, and of at least one of them.
pub proof fn room_ids_are_held_to_their_letters(data: Seq<u8>, pos: int)
    ensures
        match <Varchar<20>>::parse(data, pos) {
            (Err(e), p) => RoomId::parse(data, pos) == (Err::<Seq<char>, _>(e), p),
            (Ok(text), p) => if names_a_room(text) {
                RoomId::parse(data, pos) == (Ok::<_, DecodeFailure>(text), p)
            } else {
                RoomId::parse(data, pos) == (
                    Err::<Seq<char>, _>(DecodeFailure::InvalidRoomId(text)),
                    p,
                )
            },
        },
{
    if let (Ok(text), p) = <Varchar<20>>::parse(data, pos) {
        lemma_names_a_room(text);
    }
}

proof fn lemma_names_a_room(text: Seq<char>)
    ensures
        names_a_room(text) == crate::rooms::room_id_chars(text),
{
    if names_a_room(text) {
        assert forall|i: int| 0 <= i < text.len() implies crate::rooms::room_id_char(
            #[trigger] text[i],
        ) by {
        }
    }
    if crate::rooms::room_id_chars(text) {
        assert forall|i: int| 0 <= i < text.len() implies ({
            let c = #[trigger] text[i];
            c == '-' || c == '_' || '0' <= c <= '9' || 'A' <= c <= 'Z' || 'a' <= c <= 'z'
        }) by {
            assert(crate::rooms::room_id_char(text[i]));
        }
    }
}

/// Whether a text has a length that a machine can hold.
pub open spec fn is_short(text: Seq<char>) -> bool {
    encode_utf8(text).len() <= usize::MAX
}

/// Whether touches have lengths that can be written.
pub open spec fn are_short(frames: Seq<TouchFrame>) -> bool {
    &&& frames.len() <= u64::MAX
    &&& forall|i: int| 0 <= i < frames.len() ==> (#[trigger] frames[i]).points@.len() <= u64::MAX
}

proof fn lemma_frames_can_be_read(frames: Seq<TouchFrame>)
    requires
        are_short(frames),
    ensures
        binary::array_readable(frames),
{
    assert forall|i: int| 0 <= i < frames.len() implies (#[trigger] frames[i]).readable() by {
        let points = frames[i].points@;
        assert forall|j: int| 0 <= j < points.len() implies (#[trigger] points[j]).readable() by {
        }
    }
}

/// Every message can be read back.
pub proof fn messages_can_be_read_back(message: Message)
    requires
        message matches Message::Chat { content, .. } ==> is_short(content@),
        message matches Message::JoinRoom { name, .. } ==> is_short(name@),
        message matches Message::LeaveRoom { name, .. } ==> is_short(name@),
        message matches Message::SelectChart { name, .. } ==> is_short(name@),
    ensures
        message.readable(),
{
}

/// Every command of a client can be read back.
pub proof fn client_commands_can_be_read_back(cmd: ClientCommand)
    requires
        cmd matches ClientCommand::Authenticate { token } ==> encode_utf8(token@).len() <= 32,
        cmd matches ClientCommand::Chat { message } ==> encode_utf8(message@).len() <= 200,
        cmd matches ClientCommand::Touches { frames } ==> are_short(frames@),
        cmd matches ClientCommand::Judges { judges } ==> judges@.len() <= u64::MAX,
        cmd matches ClientCommand::CreateRoom { id } ==> names_a_room(id@) && id@.len() <= 20,
        cmd matches ClientCommand::JoinRoom { id, .. } ==> names_a_room(id@) && id@.len() <= 20,
    ensures
        cmd.readable(),
{
    match cmd {
        ClientCommand::Touches { frames } => {
            lemma_frames_can_be_read(frames@);
        },
        ClientCommand::Judges { judges } => {
            assert forall|i: int| 0 <= i < judges@.len() implies (
            #[trigger] judges@[i]).readable() by {
            }
        },
        ClientCommand::CreateRoom { id } => {
            lemma_names_a_room(id@);
        },
        ClientCommand::JoinRoom { id, .. } => {
            lemma_names_a_room(id@);
        },
        _ => {},
    }
}

/// Users can be read back, alone, in a list and in a map.
pub proof fn users_can_be_read_back(
    user: UserInfo,
    users: Vec<UserInfo>,
    map: std::collections::HashMap<i32, UserInfo>,
)
    requires
        is_short(user.name@),
        users@.len() <= u64::MAX,
        forall|i: int| 0 <= i < users@.len() ==> is_short((#[trigger] users@[i]).name@),
        map@.dom().len() <= u64::MAX,
        forall|id: i32| #[trigger] map@.contains_key(id) ==> is_short(map@[id].name@),
    ensures
        user.readable(),
        users.readable(),
        map.readable(),
{
    broadcast use vstd::std_specs::hash::group_hash_axioms;

    assert forall|i: int| 0 <= i < users@.len() implies (#[trigger] users@[i]).readable() by {
    }
    let keys = binary::map::sorted_keys(map@.dom());
    let entries = binary::map::entries(map@);
    binary::map::lemma_sorted_keys(map@.dom());
    assert(keys.no_duplicates()) by {
        assert forall|i: int, j: int| 0 <= i < keys.len() && 0 <= j < keys.len() && i
            != j implies keys[i] != keys[j] by {
            if i < j {
                assert(binary::map::MapKey::rank(&keys[i]) < binary::map::MapKey::rank(&keys[j]));
            } else {
                assert(binary::map::MapKey::rank(&keys[j]) < binary::map::MapKey::rank(&keys[i]));
            }
        }
    }
    keys.unique_seq_to_set();
    assert forall|i: int| 0 <= i < entries.len() implies (#[trigger] entries[i]).readable() by {
        assert(keys.contains(keys[i]));
        assert(keys.to_set().contains(keys[i]));
        assert(map@.contains_key(keys[i]));
    }
}

/// Every command of the server can be read back.
pub proof fn server_commands_can_be_read_back(cmd: ServerCommand)
    requires
        match cmd {
            ServerCommand::Pong => true,
            ServerCommand::Authenticate(Ok((user, room))) => user.readable() && (
            room matches Some(state) ==> names_a_room(state.id@) && state.id@.len() <= 20
                && state.users.readable()),
            ServerCommand::Authenticate(Err(msg)) => is_short(msg@),
            ServerCommand::Touches { frames, .. } => are_short(frames@),
            ServerCommand::Judges { judges, .. } => judges@.len() <= u64::MAX,
            ServerCommand::Message(message) => message.readable(),
            ServerCommand::ChangeState(_) => true,
            ServerCommand::ChangeHost(_) => true,
            ServerCommand::JoinRoom(Ok(joined)) => joined.users.readable(),
            ServerCommand::JoinRoom(Err(msg)) => is_short(msg@),
            ServerCommand::OnJoinRoom(user) => user.readable(),
            ServerCommand::Chat(v) => v matches Err(msg) ==> is_short(msg@),
            ServerCommand::CreateRoom(v) => v matches Err(msg) ==> is_short(msg@),
            ServerCommand::LeaveRoom(v) => v matches Err(msg) ==> is_short(msg@),
            ServerCommand::LockRoom(v) => v matches Err(msg) ==> is_short(msg@),
            ServerCommand::CycleRoom(v) => v matches Err(msg) ==> is_short(msg@),
            ServerCommand::SelectChart(v) => v matches Err(msg) ==> is_short(msg@),
            ServerCommand::RequestStart(v) => v matches Err(msg) ==> is_short(msg@),
            ServerCommand::Ready(v) => v matches Err(msg) ==> is_short(msg@),
            ServerCommand::CancelReady(v) => v matches Err(msg) ==> is_short(msg@),
            ServerCommand::Played(v) => v matches Err(msg) ==> is_short(msg@),
            ServerCommand::Abort(v) => v matches Err(msg) ==> is_short(msg@),
        },
    ensures
        cmd.readable(),
{
    match cmd {
        ServerCommand::Authenticate(Ok((user, Some(state)))) => {
            lemma_names_a_room(state.id@);
        },
        ServerCommand::Touches { frames, .. } => {
            lemma_frames_can_be_read(frames@);
        },
        ServerCommand::Judges { judges, .. } => {
            assert forall|i: int| 0 <= i < judges@.len() implies (
            #[trigger] judges@[i]).readable() by {
            }
        },
        _ => {},
    }
}

/// How often a client gives a sign of life and how long it waits for the answer, and how long a
/// server waits, in seconds.
pub proof fn signs_of_life_are_timed()
    ensures
        super::HEARTBEAT_INTERVAL == 3,
        super::HEARTBEAT_TIMEOUT == 2,
        super::HEARTBEAT_DISCONNECT_TIMEOUT == 10,
{
}

} // verus!
