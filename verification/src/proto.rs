//! The commands of the protocol and their encodings.
//!
//! A command is a tag byte followed by its fields. The tags are the positions of the variants in
//! their enums: a new variant goes to the end, so that the tags of the others stay.

use std::collections::HashMap;
use std::sync::Arc;

use vstd::prelude::*;
use vstd::utf8::*;

use crate::binary;
use crate::binary::container::decode_lossy;
use crate::binary::{
    BinaryData, BinaryReader, BinaryWriter, DecodeError, DecodeFailure, Parsed, ProtoResult,
};
use crate::model::{share, HasModel};
use crate::rooms::{
    is_room_id_text, ClientRoomState, ClientRoomStateView, CompactPos, Float32, JoinRoomResponse,
    JoinRoomResponseView, JudgeEvent, Judgement, RoomId, RoomState, TouchFrame, TouchFrameView,
    UserInfo, UserInfoView, Varchar,
};

pub mod layout;

verus! {

/// How often a client sends [`ClientCommand::Ping`], in seconds.
pub const HEARTBEAT_INTERVAL: u64 = 3;

/// How long a client waits for [`ServerCommand::Pong`], in seconds.
pub const HEARTBEAT_TIMEOUT: u64 = 2;

/// How long a server waits for any packet before it takes the connection for lost, in seconds.
pub const HEARTBEAT_DISCONNECT_TIMEOUT: u64 = 10;

/// The result of a command as a client sees it: a value, or an error in words.
pub type SResult<T> = Result<T, String>;

/// What a client tells the server.
#[allow(inconsistent_fields)]
#[derive(Debug, PartialEq)]
pub enum ClientCommand {
    /// A sign of life.
    Ping,
    /// Log in.
    Authenticate { token: Varchar<32> },
    /// Say something.
    Chat { message: Varchar<200> },
    /// Touches of the player.
    Touches { frames: Arc<Vec<TouchFrame>> },
    /// Judgements of the player.
    Judges { judges: Arc<Vec<JudgeEvent>> },
    /// Create a room.
    CreateRoom { id: RoomId },
    /// Join a room, to play or to watch.
    JoinRoom { id: RoomId, monitor: bool },
    /// Leave the room.
    LeaveRoom,
    /// Lock or unlock the room.
    LockRoom { lock: bool },
    /// Turn the changing of hosts on or off.
    CycleRoom { cycle: bool },
    /// Select a chart.
    SelectChart { id: i32 },
    /// Start the game.
    RequestStart,
    /// Be ready.
    Ready,
    /// Be no longer ready.
    CancelReady,
    /// Upload a record.
    Played { id: i32 },
    /// Abort playing.
    Abort,
}

/// The mathematical content of a [`ClientCommand`].
#[allow(inconsistent_fields)]
#[verifier::ext_equal]
pub enum ClientCommandView {
    Ping,
    Authenticate { token: Seq<char> },
    Chat { message: Seq<char> },
    Touches { frames: Seq<TouchFrameView> },
    Judges { judges: Seq<JudgeEvent> },
    CreateRoom { id: Seq<char> },
    JoinRoom { id: Seq<char>, monitor: bool },
    LeaveRoom,
    LockRoom { lock: bool },
    CycleRoom { cycle: bool },
    SelectChart { id: i32 },
    RequestStart,
    Ready,
    CancelReady,
    Played { id: i32 },
    Abort,
}

impl HasModel for ClientCommand {
    type Model = ClientCommandView;

    open spec fn model(&self) -> ClientCommandView {
        match self {
            ClientCommand::Ping => ClientCommandView::Ping,
            ClientCommand::Authenticate { token } => ClientCommandView::Authenticate { token: token@ },
            ClientCommand::Chat { message } => ClientCommandView::Chat { message: message@ },
            ClientCommand::Touches { frames } => ClientCommandView::Touches { frames: frames.model() },
            ClientCommand::Judges { judges } => ClientCommandView::Judges { judges: judges.model() },
            ClientCommand::CreateRoom { id } => ClientCommandView::CreateRoom { id: id@ },
            ClientCommand::JoinRoom { id, monitor } => ClientCommandView::JoinRoom { id: id@, monitor: *monitor },
            ClientCommand::LeaveRoom => ClientCommandView::LeaveRoom,
            ClientCommand::LockRoom { lock } => ClientCommandView::LockRoom { lock: *lock },
            ClientCommand::CycleRoom { cycle } => ClientCommandView::CycleRoom { cycle: *cycle },
            ClientCommand::SelectChart { id } => ClientCommandView::SelectChart { id: *id },
            ClientCommand::RequestStart => ClientCommandView::RequestStart,
            ClientCommand::Ready => ClientCommandView::Ready,
            ClientCommand::CancelReady => ClientCommandView::CancelReady,
            ClientCommand::Played { id } => ClientCommandView::Played { id: *id },
            ClientCommand::Abort => ClientCommandView::Abort,
        }
    }
}

impl Clone for ClientCommand {
    fn clone(&self) -> (res: Self)
        ensures
            res.model() == self.model(),
    {
        match self {
            ClientCommand::Ping => ClientCommand::Ping,
            ClientCommand::Authenticate { token } => ClientCommand::Authenticate {
                token: token.clone(),
            },
            ClientCommand::Chat { message } => ClientCommand::Chat { message: message.clone() },
            ClientCommand::Touches { frames } => ClientCommand::Touches { frames: share(frames) },
            ClientCommand::Judges { judges } => ClientCommand::Judges { judges: share(judges) },
            ClientCommand::CreateRoom { id } => ClientCommand::CreateRoom { id: id.clone() },
            ClientCommand::JoinRoom { id, monitor } => ClientCommand::JoinRoom {
                id: id.clone(),
                monitor: *monitor,
            },
            ClientCommand::LeaveRoom => ClientCommand::LeaveRoom,
            ClientCommand::LockRoom { lock } => ClientCommand::LockRoom { lock: *lock },
            ClientCommand::CycleRoom { cycle } => ClientCommand::CycleRoom { cycle: *cycle },
            ClientCommand::SelectChart { id } => ClientCommand::SelectChart { id: *id },
            ClientCommand::RequestStart => ClientCommand::RequestStart,
            ClientCommand::Ready => ClientCommand::Ready,
            ClientCommand::CancelReady => ClientCommand::CancelReady,
            ClientCommand::Played { id } => ClientCommand::Played { id: *id },
            ClientCommand::Abort => ClientCommand::Abort,
        }
    }
}

/// What the server tells a client.
#[allow(inconsistent_fields)]
#[derive(Debug, PartialEq)]
pub enum ServerCommand {
    /// The answer to a sign of life.
    Pong,
    /// The user, and the room the user is still in.
    Authenticate(SResult<(UserInfo, Option<ClientRoomState>)>),
    /// Whether something could be said.
    Chat(SResult<()>),
    /// Touches of a player who is watched.
    Touches { player: i32, frames: Arc<Vec<TouchFrame>> },
    /// Judgements of a player who is watched.
    Judges { player: i32, judges: Arc<Vec<JudgeEvent>> },
    /// Something that happened in the room.
    Message(Message),
    /// The room is in another state.
    ChangeState(RoomState),
    /// Whether the user is the host now.
    ChangeHost(bool),
    /// Whether the room was created.
    CreateRoom(SResult<()>),
    /// The room that was joined.
    JoinRoom(SResult<JoinRoomResponse>),
    /// A user who joined the room.
    OnJoinRoom(UserInfo),
    /// Whether the room was left.
    LeaveRoom(SResult<()>),
    /// Whether the room was locked or unlocked.
    LockRoom(SResult<()>),
    /// Whether the changing of hosts was turned on or off.
    CycleRoom(SResult<()>),
    /// Whether the chart was selected.
    SelectChart(SResult<()>),
    /// Whether the game starts.
    RequestStart(SResult<()>),
    /// Whether the user is ready.
    Ready(SResult<()>),
    /// Whether the user is no longer ready.
    CancelReady(SResult<()>),
    /// Whether the record was taken.
    Played(SResult<()>),
    /// Whether playing was aborted.
    Abort(SResult<()>),
}

/// The mathematical content of a [`ServerCommand`].
#[allow(inconsistent_fields)]
#[verifier::ext_equal]
pub enum ServerCommandView {
    Pong,
    Authenticate(Result<(UserInfoView, Option<ClientRoomStateView>), Seq<char>>),
    Chat(Result<(), Seq<char>>),
    Touches { player: i32, frames: Seq<TouchFrameView> },
    Judges { player: i32, judges: Seq<JudgeEvent> },
    Message(MessageView),
    ChangeState(RoomState),
    ChangeHost(bool),
    CreateRoom(Result<(), Seq<char>>),
    JoinRoom(Result<JoinRoomResponseView, Seq<char>>),
    OnJoinRoom(UserInfoView),
    LeaveRoom(Result<(), Seq<char>>),
    LockRoom(Result<(), Seq<char>>),
    CycleRoom(Result<(), Seq<char>>),
    SelectChart(Result<(), Seq<char>>),
    RequestStart(Result<(), Seq<char>>),
    Ready(Result<(), Seq<char>>),
    CancelReady(Result<(), Seq<char>>),
    Played(Result<(), Seq<char>>),
    Abort(Result<(), Seq<char>>),
}

impl HasModel for ServerCommand {
    type Model = ServerCommandView;

    open spec fn model(&self) -> ServerCommandView {
        match self {
            ServerCommand::Pong => ServerCommandView::Pong,
            ServerCommand::Authenticate(v) => ServerCommandView::Authenticate(v.model()),
            ServerCommand::Chat(v) => ServerCommandView::Chat(v.model()),
            ServerCommand::Touches { player, frames } => ServerCommandView::Touches { player: *player, frames: frames.model() },
            ServerCommand::Judges { player, judges } => ServerCommandView::Judges { player: *player, judges: judges.model() },
            ServerCommand::Message(v) => ServerCommandView::Message(v.model()),
            ServerCommand::ChangeState(v) => ServerCommandView::ChangeState(*v),
            ServerCommand::ChangeHost(v) => ServerCommandView::ChangeHost(*v),
            ServerCommand::CreateRoom(v) => ServerCommandView::CreateRoom(v.model()),
            ServerCommand::JoinRoom(v) => ServerCommandView::JoinRoom(v.model()),
            ServerCommand::OnJoinRoom(v) => ServerCommandView::OnJoinRoom(v.model()),
            ServerCommand::LeaveRoom(v) => ServerCommandView::LeaveRoom(v.model()),
            ServerCommand::LockRoom(v) => ServerCommandView::LockRoom(v.model()),
            ServerCommand::CycleRoom(v) => ServerCommandView::CycleRoom(v.model()),
            ServerCommand::SelectChart(v) => ServerCommandView::SelectChart(v.model()),
            ServerCommand::RequestStart(v) => ServerCommandView::RequestStart(v.model()),
            ServerCommand::Ready(v) => ServerCommandView::Ready(v.model()),
            ServerCommand::CancelReady(v) => ServerCommandView::CancelReady(v.model()),
            ServerCommand::Played(v) => ServerCommandView::Played(v.model()),
            ServerCommand::Abort(v) => ServerCommandView::Abort(v.model()),
        }
    }
}

/// A copy of a result.
fn copy_result(res: &SResult<()>) -> (copy: SResult<()>)
    ensures
        copy.model() == res.model(),
{
    match res {
        Ok(()) => Ok(()),
        Err(msg) => Err(msg.clone()),
    }
}

impl Clone for ServerCommand {
    fn clone(&self) -> (res: Self)
        ensures
            res.model() == self.model(),
    {
        match self {
            ServerCommand::Pong => ServerCommand::Pong,
            ServerCommand::Authenticate(Ok((user, Some(room)))) => ServerCommand::Authenticate(
                Ok((user.clone(), Some(room.clone()))),
            ),
            ServerCommand::Authenticate(Ok((user, None))) => ServerCommand::Authenticate(
                Ok((user.clone(), None)),
            ),
            ServerCommand::Authenticate(Err(msg)) => ServerCommand::Authenticate(
                Err(msg.clone()),
            ),
            ServerCommand::Touches { player, frames } => ServerCommand::Touches {
                player: *player,
                frames: share(frames),
            },
            ServerCommand::Judges { player, judges } => ServerCommand::Judges {
                player: *player,
                judges: share(judges),
            },
            ServerCommand::Message(message) => ServerCommand::Message(message.clone()),
            ServerCommand::ChangeState(state) => ServerCommand::ChangeState(*state),
            ServerCommand::ChangeHost(is_host) => ServerCommand::ChangeHost(*is_host),
            ServerCommand::JoinRoom(Ok(joined)) => ServerCommand::JoinRoom(Ok(joined.clone())),
            ServerCommand::JoinRoom(Err(msg)) => ServerCommand::JoinRoom(Err(msg.clone())),
            ServerCommand::OnJoinRoom(user) => ServerCommand::OnJoinRoom(user.clone()),
            ServerCommand::Chat(v) => ServerCommand::Chat(copy_result(v)),
            ServerCommand::CreateRoom(v) => ServerCommand::CreateRoom(copy_result(v)),
            ServerCommand::LeaveRoom(v) => ServerCommand::LeaveRoom(copy_result(v)),
            ServerCommand::LockRoom(v) => ServerCommand::LockRoom(copy_result(v)),
            ServerCommand::CycleRoom(v) => ServerCommand::CycleRoom(copy_result(v)),
            ServerCommand::SelectChart(v) => ServerCommand::SelectChart(copy_result(v)),
            ServerCommand::RequestStart(v) => ServerCommand::RequestStart(copy_result(v)),
            ServerCommand::Ready(v) => ServerCommand::Ready(copy_result(v)),
            ServerCommand::CancelReady(v) => ServerCommand::CancelReady(copy_result(v)),
            ServerCommand::Played(v) => ServerCommand::Played(copy_result(v)),
            ServerCommand::Abort(v) => ServerCommand::Abort(copy_result(v)),
        }
    }
}

/// Something that happened in a room, as a client sees it.
#[allow(inconsistent_fields)]
#[derive(Debug, PartialEq)]
pub enum Message {
    /// A user said something.
    Chat { user: i32, content: String },
    /// The room was created.
    CreateRoom { user: i32 },
    /// A user joined.
    JoinRoom { user: i32, name: String },
    /// A user left.
    LeaveRoom { user: i32, name: String },
    /// The host changed.
    NewHost { user: i32 },
    /// A chart was selected.
    SelectChart { user: i32, name: String, id: i32 },
    /// The host asked to start.
    GameStart { user: i32 },
    /// A user is ready.
    Ready { user: i32 },
    /// A user is no longer ready.
    CancelReady { user: i32 },
    /// The host called the game off.
    CancelGame { user: i32 },
    /// The game starts.
    StartPlaying,
    /// A player's record was accepted.
    Played { user: i32, score: i32, accuracy: Float32, full_combo: bool },
    /// The game is over.
    GameEnd,
    /// A player aborted.
    Abort { user: i32 },
    /// The room was locked or unlocked.
    LockRoom { lock: bool },
    /// The changing of hosts was turned on or off.
    CycleRoom { cycle: bool },
}

/// The mathematical content of a [`Message`].
#[allow(inconsistent_fields)]
#[verifier::ext_equal]
pub enum MessageView {
    Chat { user: i32, content: Seq<char> },
    CreateRoom { user: i32 },
    JoinRoom { user: i32, name: Seq<char> },
    LeaveRoom { user: i32, name: Seq<char> },
    NewHost { user: i32 },
    SelectChart { user: i32, name: Seq<char>, id: i32 },
    GameStart { user: i32 },
    Ready { user: i32 },
    CancelReady { user: i32 },
    CancelGame { user: i32 },
    StartPlaying,
    Played { user: i32, score: i32, accuracy: Float32, full_combo: bool },
    GameEnd,
    Abort { user: i32 },
    LockRoom { lock: bool },
    CycleRoom { cycle: bool },
}

impl HasModel for Message {
    type Model = MessageView;

    open spec fn model(&self) -> MessageView {
        match self {
            Message::Chat { user, content } => MessageView::Chat { user: *user, content: content@ },
            Message::CreateRoom { user } => MessageView::CreateRoom { user: *user },
            Message::JoinRoom { user, name } => MessageView::JoinRoom { user: *user, name: name@ },
            Message::LeaveRoom { user, name } => MessageView::LeaveRoom { user: *user, name: name@ },
            Message::NewHost { user } => MessageView::NewHost { user: *user },
            Message::SelectChart { user, name, id } => MessageView::SelectChart { user: *user, name: name@, id: *id },
            Message::GameStart { user } => MessageView::GameStart { user: *user },
            Message::Ready { user } => MessageView::Ready { user: *user },
            Message::CancelReady { user } => MessageView::CancelReady { user: *user },
            Message::CancelGame { user } => MessageView::CancelGame { user: *user },
            Message::StartPlaying => MessageView::StartPlaying,
            Message::Played { user, score, accuracy, full_combo } => MessageView::Played { user: *user, score: *score, accuracy: *accuracy, full_combo: *full_combo },
            Message::GameEnd => MessageView::GameEnd,
            Message::Abort { user } => MessageView::Abort { user: *user },
            Message::LockRoom { lock } => MessageView::LockRoom { lock: *lock },
            Message::CycleRoom { cycle } => MessageView::CycleRoom { cycle: *cycle },
        }
    }
}

impl Clone for Message {
    fn clone(&self) -> (res: Self)
        ensures
            res == *self,
    {
        match self {
            Message::Chat { user, content } => Message::Chat {
                user: *user,
                content: content.clone(),
            },
            Message::CreateRoom { user } => Message::CreateRoom { user: *user },
            Message::JoinRoom { user, name } => Message::JoinRoom {
                user: *user,
                name: name.clone(),
            },
            Message::LeaveRoom { user, name } => Message::LeaveRoom {
                user: *user,
                name: name.clone(),
            },
            Message::NewHost { user } => Message::NewHost { user: *user },
            Message::SelectChart { user, name, id } => Message::SelectChart {
                user: *user,
                name: name.clone(),
                id: *id,
            },
            Message::GameStart { user } => Message::GameStart { user: *user },
            Message::Ready { user } => Message::Ready { user: *user },
            Message::CancelReady { user } => Message::CancelReady { user: *user },
            Message::CancelGame { user } => Message::CancelGame { user: *user },
            Message::StartPlaying => Message::StartPlaying,
            Message::Played { user, score, accuracy, full_combo } => Message::Played {
                user: *user,
                score: *score,
                accuracy: *accuracy,
                full_combo: *full_combo,
            },
            Message::GameEnd => Message::GameEnd,
            Message::Abort { user } => Message::Abort { user: *user },
            Message::LockRoom { lock } => Message::LockRoom { lock: *lock },
            Message::CycleRoom { cycle } => Message::CycleRoom { cycle: *cycle },
        }
    }
}

/// A tag and what follows it stand in the data one after the other.
proof fn lemma_tag(data: Seq<u8>, pos: int, tag: u8, rest: Seq<u8>)
    requires
        0 <= pos,
        pos + 1 + rest.len() <= data.len(),
        data.subrange(pos, pos + 1 + rest.len()) == seq![tag] + rest,
    ensures
        data[pos] == tag,
        data.subrange(pos + 1, pos + 1 + rest.len()) == rest,
{
    binary::lemma_split(data, pos, seq![tag], rest);
    assert(data[pos] == data.subrange(pos, pos + 1)[0]);
}

impl BinaryData for Float32 {
    open spec fn encoding(&self) -> Seq<u8> {
        self.bits.encoding()
    }

    open spec fn parse(data: Seq<u8>, pos: int) -> Parsed<Float32> {
        binary::map_parsed(u32::parse(data, pos), |bits: u32| Float32 { bits })
    }

    open spec fn takes_space() -> bool {
        true
    }

    open spec fn readable(&self) -> bool {
        true
    }

    proof fn parse_advances(data: Seq<u8>, pos: int) {
        u32::parse_advances(data, pos);
    }

    proof fn parse_extends(data: Seq<u8>, more: Seq<u8>, pos: int) {
        u32::parse_advances(data, pos);
        u32::parse_extends(data, more, pos);
    }

    proof fn encoding_takes_space(&self) {
        self.bits.encoding_takes_space();
    }

    proof fn parse_inverts(&self, data: Seq<u8>, pos: int) {
        self.bits.parse_inverts(data, pos);
    }

    fn read_binary(r: &mut BinaryReader<'_>) -> (res: ProtoResult<Self>) {
        match r.read::<u32>() {
            Ok(bits) => Ok(Float32 { bits }),
            Err(e) => Err(e),
        }
    }

    fn write_binary(&self, w: &mut BinaryWriter<'_>) -> (res: ProtoResult<()>) {
        w.write(&self.bits)
    }
}

/// A length field of at most `max`, and then that many bytes.
pub open spec fn parse_bounded(data: Seq<u8>, pos: int, max: usize) -> Parsed<Seq<u8>> {
    match binary::uleb::parse_uleb(data, pos) {
        (Err(e), p) => (Err(e), p),
        (Ok(len), p) => if (len as usize) > max {
            (Err(DecodeFailure::StringTooLong { max, len: len as usize }), p)
        } else {
            binary::parse_bytes(data, p, (len as usize) as int)
        },
    }
}

proof fn lemma_bounded_extends(data: Seq<u8>, more: Seq<u8>, pos: int, max: usize)
    requires
        0 <= pos <= data.len(),
    ensures
        binary::ran_out(parse_bounded(data, pos, max).0) || parse_bounded(data + more, pos, max)
            == parse_bounded(data, pos, max),
{
    binary::uleb::lemma_uleb_advances(data, pos);
    binary::uleb::lemma_uleb_extends(data, more, pos);
    if let (Ok(len), p) = binary::uleb::parse_uleb(data, pos) {
        binary::lemma_bytes_extend(data, more, p, (len as usize) as int);
    }
}

/// A string of at most `max` bytes. Both its length field and the text that its bytes stand for
/// are held to the bound: where bytes had to be replaced, the text may be longer than they are.
pub open spec fn parse_varchar(data: Seq<u8>, pos: int, max: usize) -> Parsed<Seq<char>> {
    match parse_bounded(data, pos, max) {
        (Err(e), p) => (Err(e), p),
        (Ok(bytes), p) => {
            let text = binary::container::text_of(bytes);
            let len = encode_utf8(text).len();
            if len > max {
                (Err(DecodeFailure::StringTooLong { max, len: len as usize }), p)
            } else {
                (Ok(text), p)
            }
        },
    }
}

/// Reads the text of a bounded string.
fn read_bounded(r: &mut BinaryReader<'_>, max: usize) -> (res: ProtoResult<String>)
    ensures
        final(r).data() == old(r).data(),
        (binary::result_model(res), final(r).pos()) == parse_varchar(
            old(r).data(),
            old(r).pos(),
            max,
        ),
{
    let len: usize = match r.uleb() {
        Ok(len) => len as usize,
        Err(e) => {
            return Err(e);
        },
    };
    if len > max {
        return Err(DecodeError::StringTooLong { max, len });
    }
    let text: String = match r.take(len) {
        Ok(bytes) => decode_lossy(bytes),
        Err(e) => {
            return Err(e);
        },
    };
    let size: usize = text.as_str().as_bytes().len();
    if size > max {
        return Err(DecodeError::StringTooLong { max, len: size });
    }
    Ok(text)
}

/// What is read as a string of at most `max` bytes has at most `max` bytes.
pub proof fn parsed_varchar_fits(data: Seq<u8>, pos: int, max: usize)
    ensures
        parse_varchar(data, pos, max).0 matches Ok(text) ==> encode_utf8(text).len() <= max,
{
}

impl<const N: usize> BinaryData for Varchar<N> {
    open spec fn encoding(&self) -> Seq<u8> {
        binary::container::text_encoding(self@)
    }

    open spec fn parse(data: Seq<u8>, pos: int) -> Parsed<Seq<char>> {
        parse_varchar(data, pos, N)
    }

    open spec fn takes_space() -> bool {
        true
    }

    open spec fn readable(&self) -> bool {
        self.fits()
    }

    proof fn parse_advances(data: Seq<u8>, pos: int) {
        binary::uleb::lemma_uleb_advances(data, pos);
    }

    proof fn parse_extends(data: Seq<u8>, more: Seq<u8>, pos: int) {
        lemma_bounded_extends(data, more, pos, N);
    }

    proof fn encoding_takes_space(&self) {
        binary::uleb::lemma_uleb_takes_space(encode_utf8(self@).len());
    }

    proof fn parse_inverts(&self, data: Seq<u8>, pos: int) {
        binary::container::lemma_text_inverts(self@, data, pos);
    }

    fn read_binary(r: &mut BinaryReader<'_>) -> (res: ProtoResult<Self>)
        ensures
            res matches Ok(v) ==> v.fits(),
    {
        match read_bounded(r, N) {
            Ok(text) => Ok(Varchar::from_checked(text)),
            Err(e) => Err(e),
        }
    }

    fn write_binary(&self, w: &mut BinaryWriter<'_>) -> (res: ProtoResult<()>)
        ensures
            self.readable(),
    {
        let bytes = self.as_str().as_bytes();
        let ghost start = w.0@;
        let _ = w.uleb(bytes.len() as u64);
        let _ = w.write_raw(bytes);
        assert(w.0@ =~= start + self.encoding());
        Ok(())
    }
}

impl BinaryData for RoomId {
    open spec fn encoding(&self) -> Seq<u8> {
        binary::container::text_encoding(self@)
    }

    open spec fn parse(data: Seq<u8>, pos: int) -> Parsed<Seq<char>> {
        match parse_varchar(data, pos, 20) {
            (Err(e), p) => (Err(e), p),
            (Ok(text), p) => if crate::rooms::room_id_chars(text) {
                (Ok(text), p)
            } else {
                (Err(DecodeFailure::InvalidRoomId(text)), p)
            },
        }
    }

    open spec fn takes_space() -> bool {
        true
    }

    open spec fn readable(&self) -> bool {
        crate::rooms::room_id_ok(self@)
    }

    proof fn parse_advances(data: Seq<u8>, pos: int) {
        binary::uleb::lemma_uleb_advances(data, pos);
    }

    proof fn parse_extends(data: Seq<u8>, more: Seq<u8>, pos: int) {
        lemma_bounded_extends(data, more, pos, 20);
    }

    proof fn encoding_takes_space(&self) {
        binary::uleb::lemma_uleb_takes_space(encode_utf8(self@).len());
    }

    proof fn parse_inverts(&self, data: Seq<u8>, pos: int) {
        crate::rooms::room_id_bytes(self@);
        binary::container::lemma_text_inverts(self@, data, pos);
        binary::lemma_split(
            data,
            pos,
            binary::uleb::uleb_encoding(encode_utf8(self@).len()),
            encode_utf8(self@),
        );
        encode_utf8_valid_utf8(self@);
        encode_utf8_decode_utf8(self@);
    }

    fn read_binary(r: &mut BinaryReader<'_>) -> (res: ProtoResult<Self>) {
        let v: Varchar<20> = match Varchar::read_binary(r) {
            Ok(v) => v,
            Err(e) => {
                return Err(e);
            },
        };
        if is_room_id_text(v.as_str()) {
            proof {
                crate::rooms::room_id_bytes(v@);
            }
            Ok(RoomId::from_checked(v))
        } else {
            Err(DecodeError::InvalidRoomId(v.into_inner()))
        }
    }

    fn write_binary(&self, w: &mut BinaryWriter<'_>) -> (res: ProtoResult<()>)
        ensures
            self.readable(),
    {
        let bytes = self.as_str().as_bytes();
        let ghost start = w.0@;
        let _ = w.uleb(bytes.len() as u64);
        let _ = w.write_raw(bytes);
        assert(w.0@ =~= start + self.encoding());
        Ok(())
    }
}

/// Only room ids come over the wire as room ids.
pub proof fn parsed_room_id_is_ok(data: Seq<u8>, pos: int)
    ensures
        RoomId::parse(data, pos).0 matches Ok(id) ==> crate::rooms::room_id_ok(id),
{
    if let (Ok(text), _) = parse_varchar(data, pos, 20) {
        if crate::rooms::room_id_chars(text) {
            crate::rooms::room_id_bytes(text);
        }
    }
}

/// The fields of a [`CompactPos`], in the order in which they are written.
pub type CompactPosWire = (u16, u16);

impl CompactPos {
    /// The fields, in the order in which they are written.
    pub open spec fn wire(&self) -> CompactPosWire {
        (self.x, self.y)
    }
}

impl BinaryData for CompactPos {
    open spec fn encoding(&self) -> Seq<u8> {
        self.wire().encoding()
    }

    open spec fn parse(data: Seq<u8>, pos: int) -> Parsed<CompactPos> {
        binary::map_parsed(
            CompactPosWire::parse(data, pos),
            |m: (u16, u16)|
                CompactPos {
                    x: m.0,
                    y: m.1,
                },
        )
    }

    open spec fn takes_space() -> bool {
        true
    }

    open spec fn readable(&self) -> bool {
        self.wire().readable()
    }

    proof fn parse_advances(data: Seq<u8>, pos: int) {
        CompactPosWire::parse_advances(data, pos);
    }

    proof fn parse_extends(data: Seq<u8>, more: Seq<u8>, pos: int) {
        CompactPosWire::parse_advances(data, pos);
        CompactPosWire::parse_extends(data, more, pos);
    }

    proof fn encoding_takes_space(&self) {
        self.wire().encoding_takes_space();
    }

    proof fn parse_inverts(&self, data: Seq<u8>, pos: int) {
        self.wire().parse_inverts(data, pos);
    }

    fn read_binary(r: &mut BinaryReader<'_>) -> (res: ProtoResult<Self>) {
        match r.read::<CompactPosWire>() {
            Ok((x, y)) => Ok(CompactPos { x, y }),
            Err(e) => Err(e),
        }
    }

    fn write_binary(&self, w: &mut BinaryWriter<'_>) -> (res: ProtoResult<()>) {
        let ghost start = w.0@;
        let _ = w.write(&self.x);
        let _ = w.write(&self.y);
        assert(w.0@ =~= start + self.encoding());
        Ok(())
    }
}

/// The fields of a [`TouchFrame`], in the order in which they are written.
pub type TouchFrameWire = (Float32, Vec<(i8, CompactPos)>);

impl TouchFrame {
    /// The fields, in the order in which they are written.
    pub open spec fn wire(&self) -> TouchFrameWire {
        (self.time, self.points)
    }
}

impl BinaryData for TouchFrame {
    open spec fn encoding(&self) -> Seq<u8> {
        self.wire().encoding()
    }

    open spec fn parse(data: Seq<u8>, pos: int) -> Parsed<TouchFrameView> {
        binary::map_parsed(
            TouchFrameWire::parse(data, pos),
            |m: (Float32, Seq<(i8, CompactPos)>)|
                TouchFrameView {
                    time: m.0,
                    points: m.1,
                },
        )
    }

    open spec fn takes_space() -> bool {
        true
    }

    open spec fn readable(&self) -> bool {
        self.wire().readable()
    }

    proof fn parse_advances(data: Seq<u8>, pos: int) {
        TouchFrameWire::parse_advances(data, pos);
    }

    proof fn parse_extends(data: Seq<u8>, more: Seq<u8>, pos: int) {
        TouchFrameWire::parse_advances(data, pos);
        TouchFrameWire::parse_extends(data, more, pos);
    }

    proof fn encoding_takes_space(&self) {
        self.wire().encoding_takes_space();
    }

    proof fn parse_inverts(&self, data: Seq<u8>, pos: int) {
        self.wire().parse_inverts(data, pos);
    }

    fn read_binary(r: &mut BinaryReader<'_>) -> (res: ProtoResult<Self>) {
        match r.read::<TouchFrameWire>() {
            Ok((time, points)) => Ok(TouchFrame { time, points }),
            Err(e) => Err(e),
        }
    }

    fn write_binary(&self, w: &mut BinaryWriter<'_>) -> (res: ProtoResult<()>) {
        let ghost start = w.0@;
        let _ = w.write(&self.time);
        let _ = w.write(&self.points);
        assert(w.0@ =~= start + self.encoding());
        Ok(())
    }
}

impl BinaryData for Judgement {
    open spec fn encoding(&self) -> Seq<u8> {
        match self {
            Judgement::Perfect => seq![0u8],
            Judgement::Good => seq![1u8],
            Judgement::Bad => seq![2u8],
            Judgement::Miss => seq![3u8],
            Judgement::HoldPerfect => seq![4u8],
            Judgement::HoldGood => seq![5u8],
        }
    }

    open spec fn parse(data: Seq<u8>, pos: int) -> Parsed<Judgement> {
        match binary::parse_byte(data, pos) {
            (Err(e), p) => (Err(e), p),
            (Ok(tag), p) => match tag {
                0 => (Ok(Judgement::Perfect), p),
                1 => (Ok(Judgement::Good), p),
                2 => (Ok(Judgement::Bad), p),
                3 => (Ok(Judgement::Miss), p),
                4 => (Ok(Judgement::HoldPerfect), p),
                5 => (Ok(Judgement::HoldGood), p),
                _ => (Err(DecodeFailure::InvalidTag(tag)), p),
            },
        }
    }

    open spec fn takes_space() -> bool {
        true
    }

    open spec fn readable(&self) -> bool {
        true
    }

    proof fn parse_advances(data: Seq<u8>, pos: int) {
    }

    proof fn parse_extends(data: Seq<u8>, more: Seq<u8>, pos: int) {
    }

    proof fn encoding_takes_space(&self) {
    }

    proof fn parse_inverts(&self, data: Seq<u8>, pos: int) {
        assert(data[pos] == data.subrange(pos, pos + 1)[0]);
    }

    fn read_binary(r: &mut BinaryReader<'_>) -> (res: ProtoResult<Self>) {
        let tag: u8 = match r.byte() {
            Ok(tag) => tag,
            Err(e) => {
                return Err(e);
            },
        };
        match tag {
            0 => Ok(Judgement::Perfect),
            1 => Ok(Judgement::Good),
            2 => Ok(Judgement::Bad),
            3 => Ok(Judgement::Miss),
            4 => Ok(Judgement::HoldPerfect),
            5 => Ok(Judgement::HoldGood),
            _ => Err(DecodeError::InvalidTag(tag)),
        }
    }

    fn write_binary(&self, w: &mut BinaryWriter<'_>) -> (res: ProtoResult<()>) {
        let ghost start = w.0@;
        match self {
            Judgement::Perfect => {
                let _ = w.write_val(0u8);
            },
            Judgement::Good => {
                let _ = w.write_val(1u8);
            },
            Judgement::Bad => {
                let _ = w.write_val(2u8);
            },
            Judgement::Miss => {
                let _ = w.write_val(3u8);
            },
            Judgement::HoldPerfect => {
                let _ = w.write_val(4u8);
            },
            Judgement::HoldGood => {
                let _ = w.write_val(5u8);
            },
        }
        assert(w.0@ =~= start + self.encoding());
        Ok(())
    }
}

/// The fields of a [`JudgeEvent`], in the order in which they are written.
pub type JudgeEventWire = (Float32, (u32, (u32, Judgement)));

impl JudgeEvent {
    /// The fields, in the order in which they are written.
    pub open spec fn wire(&self) -> JudgeEventWire {
        (self.time, (self.line_id, (self.note_id, self.judgement)))
    }
}

impl BinaryData for JudgeEvent {
    open spec fn encoding(&self) -> Seq<u8> {
        self.wire().encoding()
    }

    open spec fn parse(data: Seq<u8>, pos: int) -> Parsed<JudgeEvent> {
        binary::map_parsed(
            JudgeEventWire::parse(data, pos),
            |m: (Float32, (u32, (u32, Judgement)))|
                JudgeEvent {
                    time: m.0,
                    line_id: m.1.0,
                    note_id: m.1.1.0,
                    judgement: m.1.1.1,
                },
        )
    }

    open spec fn takes_space() -> bool {
        true
    }

    open spec fn readable(&self) -> bool {
        self.wire().readable()
    }

    proof fn parse_advances(data: Seq<u8>, pos: int) {
        JudgeEventWire::parse_advances(data, pos);
    }

    proof fn parse_extends(data: Seq<u8>, more: Seq<u8>, pos: int) {
        JudgeEventWire::parse_advances(data, pos);
        JudgeEventWire::parse_extends(data, more, pos);
    }

    proof fn encoding_takes_space(&self) {
        self.wire().encoding_takes_space();
    }

    proof fn parse_inverts(&self, data: Seq<u8>, pos: int) {
        self.wire().parse_inverts(data, pos);
    }

    fn read_binary(r: &mut BinaryReader<'_>) -> (res: ProtoResult<Self>) {
        match r.read::<JudgeEventWire>() {
            Ok((time, (line_id, (note_id, judgement)))) => Ok(JudgeEvent { time, line_id, note_id, judgement }),
            Err(e) => Err(e),
        }
    }

    fn write_binary(&self, w: &mut BinaryWriter<'_>) -> (res: ProtoResult<()>) {
        let ghost start = w.0@;
        let _ = w.write(&self.time);
        let _ = w.write(&self.line_id);
        let _ = w.write(&self.note_id);
        let _ = w.write(&self.judgement);
        assert(w.0@ =~= start + self.encoding());
        Ok(())
    }
}

impl BinaryData for RoomState {
    open spec fn encoding(&self) -> Seq<u8> {
        match self {
            RoomState::SelectChart(v) => seq![0u8] + v.encoding(),
            RoomState::WaitingForReady => seq![1u8],
            RoomState::Playing => seq![2u8],
        }
    }

    open spec fn parse(data: Seq<u8>, pos: int) -> Parsed<RoomState> {
        match binary::parse_byte(data, pos) {
            (Err(e), p) => (Err(e), p),
            (Ok(tag), p) => match tag {
                0 => binary::map_parsed(
                    <Option<i32>>::parse(data, p),
                    |m: Option<i32>| RoomState::SelectChart(m),
                ),
                1 => (Ok(RoomState::WaitingForReady), p),
                2 => (Ok(RoomState::Playing), p),
                _ => (Err(DecodeFailure::InvalidTag(tag)), p),
            },
        }
    }

    open spec fn takes_space() -> bool {
        true
    }

    open spec fn readable(&self) -> bool {
        match self {
            RoomState::SelectChart(v) => v.readable(),
            RoomState::WaitingForReady => true,
            RoomState::Playing => true,
        }
    }

    proof fn parse_advances(data: Seq<u8>, pos: int) {
        if pos < data.len() {
            <Option<i32>>::parse_advances(data, pos + 1);
        }
    }

    proof fn parse_extends(data: Seq<u8>, more: Seq<u8>, pos: int) {
        if pos < data.len() {
            <Option<i32>>::parse_advances(data, pos + 1);
            <Option<i32>>::parse_extends(data, more, pos + 1);
        }
    }

    proof fn encoding_takes_space(&self) {
    }

    proof fn parse_inverts(&self, data: Seq<u8>, pos: int) {
        match self {
            RoomState::SelectChart(v) => {
                lemma_tag(data, pos, 0, v.encoding());
                v.parse_inverts(data, pos + 1);
            },
            RoomState::WaitingForReady => {
                lemma_tag(data, pos, 1, Seq::empty());
            },
            RoomState::Playing => {
                lemma_tag(data, pos, 2, Seq::empty());
            },
        }
    }

    fn read_binary(r: &mut BinaryReader<'_>) -> (res: ProtoResult<Self>) {
        let tag: u8 = match r.byte() {
            Ok(tag) => tag,
            Err(e) => {
                return Err(e);
            },
        };
        match tag {
            0 => match r.read::<Option<i32>>() {
                Ok(v) => Ok(RoomState::SelectChart(v)),
                Err(e) => Err(e),
            },
            1 => Ok(RoomState::WaitingForReady),
            2 => Ok(RoomState::Playing),
            _ => Err(DecodeError::InvalidTag(tag)),
        }
    }

    fn write_binary(&self, w: &mut BinaryWriter<'_>) -> (res: ProtoResult<()>) {
        let ghost start = w.0@;
        match self {
            RoomState::SelectChart(v) => {
                let _ = w.write_val(0u8);
                let _ = w.write(v);
            },
            RoomState::WaitingForReady => {
                let _ = w.write_val(1u8);
            },
            RoomState::Playing => {
                let _ = w.write_val(2u8);
            },
        }
        assert(w.0@ =~= start + self.encoding());
        Ok(())
    }
}

/// The fields of a [`UserInfo`], in the order in which they are written.
pub type UserInfoWire = (i32, (String, bool));

impl UserInfo {
    /// The fields, in the order in which they are written.
    pub open spec fn wire(&self) -> UserInfoWire {
        (self.id, (self.name, self.monitor))
    }
}

impl BinaryData for UserInfo {
    open spec fn encoding(&self) -> Seq<u8> {
        self.wire().encoding()
    }

    open spec fn parse(data: Seq<u8>, pos: int) -> Parsed<UserInfoView> {
        binary::map_parsed(
            UserInfoWire::parse(data, pos),
            |m: (i32, (Seq<char>, bool))|
                UserInfoView {
                    id: m.0,
                    name: m.1.0,
                    monitor: m.1.1,
                },
        )
    }

    open spec fn takes_space() -> bool {
        true
    }

    open spec fn readable(&self) -> bool {
        self.wire().readable()
    }

    proof fn parse_advances(data: Seq<u8>, pos: int) {
        UserInfoWire::parse_advances(data, pos);
    }

    proof fn parse_extends(data: Seq<u8>, more: Seq<u8>, pos: int) {
        UserInfoWire::parse_advances(data, pos);
        UserInfoWire::parse_extends(data, more, pos);
    }

    proof fn encoding_takes_space(&self) {
        self.wire().encoding_takes_space();
    }

    proof fn parse_inverts(&self, data: Seq<u8>, pos: int) {
        self.wire().parse_inverts(data, pos);
    }

    fn read_binary(r: &mut BinaryReader<'_>) -> (res: ProtoResult<Self>) {
        match r.read::<UserInfoWire>() {
            Ok((id, (name, monitor))) => Ok(UserInfo { id, name, monitor }),
            Err(e) => Err(e),
        }
    }

    fn write_binary(&self, w: &mut BinaryWriter<'_>) -> (res: ProtoResult<()>) {
        let ghost start = w.0@;
        let _ = w.write(&self.id);
        let _ = w.write(&self.name);
        let _ = w.write(&self.monitor);
        assert(w.0@ =~= start + self.encoding());
        Ok(())
    }
}

/// The fields of a [`ClientRoomState`], in the order in which they are written: the room, the
/// flags, and the rest.
pub type ClientRoomStateWire = (
    (RoomId, RoomState),
    ((bool, (bool, (bool, (bool, bool)))), (HashMap<i32, UserInfo>, Float32)),
);

impl ClientRoomState {
    /// The fields, in the order in which they are written.
    pub open spec fn wire(&self) -> ClientRoomStateWire {
        (
            (self.id, self.state),
            (
                (self.live, (self.locked, (self.cycle, (self.is_host, self.is_ready)))),
                (self.users, self.last_game_time),
            ),
        )
    }
}

impl BinaryData for ClientRoomState {
    open spec fn encoding(&self) -> Seq<u8> {
        self.wire().encoding()
    }

    open spec fn parse(data: Seq<u8>, pos: int) -> Parsed<ClientRoomStateView> {
        binary::map_parsed(
            ClientRoomStateWire::parse(data, pos),
            |m:
                (
                    (Seq<char>, RoomState),
                    ((bool, (bool, (bool, (bool, bool)))), (Map<i32, UserInfoView>, Float32)),
                )|
                ClientRoomStateView {
                    id: m.0.0,
                    state: m.0.1,
                    live: m.1.0.0,
                    locked: m.1.0.1.0,
                    cycle: m.1.0.1.1.0,
                    is_host: m.1.0.1.1.1.0,
                    is_ready: m.1.0.1.1.1.1,
                    users: m.1.1.0,
                    last_game_time: m.1.1.1,
                },
        )
    }

    open spec fn takes_space() -> bool {
        true
    }

    open spec fn readable(&self) -> bool {
        self.wire().readable()
    }

    proof fn parse_advances(data: Seq<u8>, pos: int) {
        ClientRoomStateWire::parse_advances(data, pos);
    }

    proof fn parse_extends(data: Seq<u8>, more: Seq<u8>, pos: int) {
        ClientRoomStateWire::parse_advances(data, pos);
        ClientRoomStateWire::parse_extends(data, more, pos);
    }

    proof fn encoding_takes_space(&self) {
        self.wire().encoding_takes_space();
    }

    proof fn parse_inverts(&self, data: Seq<u8>, pos: int) {
        self.wire().parse_inverts(data, pos);
    }

    fn read_binary(r: &mut BinaryReader<'_>) -> (res: ProtoResult<Self>) {
        match r.read::<ClientRoomStateWire>() {
            Ok(
                (
                    (id, state),
                    ((live, (locked, (cycle, (is_host, is_ready)))), (users, last_game_time)),
                ),
            ) => Ok(
                ClientRoomState {
                    id,
                    state,
                    live,
                    locked,
                    cycle,
                    is_host,
                    is_ready,
                    users,
                    last_game_time,
                },
            ),
            Err(e) => Err(e),
        }
    }

    fn write_binary(&self, w: &mut BinaryWriter<'_>) -> (res: ProtoResult<()>) {
        let ghost start = w.0@;
        let _ = w.write(&self.id);
        let _ = w.write(&self.state);
        let ghost room = w.0@;
        assert(room =~= start + self.wire().0.encoding());
        let _ = w.write(&self.live);
        let _ = w.write(&self.locked);
        let _ = w.write(&self.cycle);
        let _ = w.write(&self.is_host);
        let _ = w.write(&self.is_ready);
        let ghost flags = w.0@;
        assert(flags =~= room + self.wire().1.0.encoding());
        let _ = w.write(&self.users);
        let _ = w.write(&self.last_game_time);
        assert(w.0@ =~= flags + self.wire().1.1.encoding());
        assert(w.0@ =~= start + self.encoding());
        Ok(())
    }
}

/// The fields of a [`JoinRoomResponse`], in the order in which they are written.
pub type JoinRoomResponseWire = (RoomState, (Vec<UserInfo>, bool));

impl JoinRoomResponse {
    /// The fields, in the order in which they are written.
    pub open spec fn wire(&self) -> JoinRoomResponseWire {
        (self.state, (self.users, self.live))
    }
}

impl BinaryData for JoinRoomResponse {
    open spec fn encoding(&self) -> Seq<u8> {
        self.wire().encoding()
    }

    open spec fn parse(data: Seq<u8>, pos: int) -> Parsed<JoinRoomResponseView> {
        binary::map_parsed(
            JoinRoomResponseWire::parse(data, pos),
            |m: (RoomState, (Seq<UserInfoView>, bool))|
                JoinRoomResponseView {
                    state: m.0,
                    users: m.1.0,
                    live: m.1.1,
                },
        )
    }

    open spec fn takes_space() -> bool {
        true
    }

    open spec fn readable(&self) -> bool {
        self.wire().readable()
    }

    proof fn parse_advances(data: Seq<u8>, pos: int) {
        JoinRoomResponseWire::parse_advances(data, pos);
    }

    proof fn parse_extends(data: Seq<u8>, more: Seq<u8>, pos: int) {
        JoinRoomResponseWire::parse_advances(data, pos);
        JoinRoomResponseWire::parse_extends(data, more, pos);
    }

    proof fn encoding_takes_space(&self) {
        self.wire().encoding_takes_space();
    }

    proof fn parse_inverts(&self, data: Seq<u8>, pos: int) {
        self.wire().parse_inverts(data, pos);
    }

    fn read_binary(r: &mut BinaryReader<'_>) -> (res: ProtoResult<Self>) {
        match r.read::<JoinRoomResponseWire>() {
            Ok((state, (users, live))) => Ok(JoinRoomResponse { state, users, live }),
            Err(e) => Err(e),
        }
    }

    fn write_binary(&self, w: &mut BinaryWriter<'_>) -> (res: ProtoResult<()>) {
        let ghost start = w.0@;
        let _ = w.write(&self.state);
        let _ = w.write(&self.users);
        let _ = w.write(&self.live);
        assert(w.0@ =~= start + self.encoding());
        Ok(())
    }
}

impl BinaryData for ClientCommand {
    open spec fn encoding(&self) -> Seq<u8> {
        match self {
            ClientCommand::Ping => seq![0u8],
            ClientCommand::Authenticate { token } => seq![1u8] + token.encoding(),
            ClientCommand::Chat { message } => seq![2u8] + message.encoding(),
            ClientCommand::Touches { frames } => seq![3u8] + frames.encoding(),
            ClientCommand::Judges { judges } => seq![4u8] + judges.encoding(),
            ClientCommand::CreateRoom { id } => seq![5u8] + id.encoding(),
            ClientCommand::JoinRoom { id, monitor } => seq![6u8] + (*id, *monitor).encoding(),
            ClientCommand::LeaveRoom => seq![7u8],
            ClientCommand::LockRoom { lock } => seq![8u8] + lock.encoding(),
            ClientCommand::CycleRoom { cycle } => seq![9u8] + cycle.encoding(),
            ClientCommand::SelectChart { id } => seq![10u8] + id.encoding(),
            ClientCommand::RequestStart => seq![11u8],
            ClientCommand::Ready => seq![12u8],
            ClientCommand::CancelReady => seq![13u8],
            ClientCommand::Played { id } => seq![14u8] + id.encoding(),
            ClientCommand::Abort => seq![15u8],
        }
    }

    open spec fn parse(data: Seq<u8>, pos: int) -> Parsed<ClientCommandView> {
        match binary::parse_byte(data, pos) {
            (Err(e), p) => (Err(e), p),
            (Ok(tag), p) => match tag {
                0 => (Ok(ClientCommandView::Ping), p),
                1 => binary::map_parsed(
                    <Varchar<32>>::parse(data, p),
                    |m: Seq<char>| ClientCommandView::Authenticate { token: m },
                ),
                2 => binary::map_parsed(
                    <Varchar<200>>::parse(data, p),
                    |m: Seq<char>| ClientCommandView::Chat { message: m },
                ),
                3 => binary::map_parsed(
                    <Arc<Vec<TouchFrame>>>::parse(data, p),
                    |m: Seq<TouchFrameView>| ClientCommandView::Touches { frames: m },
                ),
                4 => binary::map_parsed(
                    <Arc<Vec<JudgeEvent>>>::parse(data, p),
                    |m: Seq<JudgeEvent>| ClientCommandView::Judges { judges: m },
                ),
                5 => binary::map_parsed(
                    RoomId::parse(data, p),
                    |m: Seq<char>| ClientCommandView::CreateRoom { id: m },
                ),
                6 => binary::map_parsed(
                    <(RoomId, bool)>::parse(data, p),
                    |m: (Seq<char>, bool)| ClientCommandView::JoinRoom { id: m.0, monitor: m.1 },
                ),
                7 => (Ok(ClientCommandView::LeaveRoom), p),
                8 => binary::map_parsed(
                    bool::parse(data, p),
                    |m: bool| ClientCommandView::LockRoom { lock: m },
                ),
                9 => binary::map_parsed(
                    bool::parse(data, p),
                    |m: bool| ClientCommandView::CycleRoom { cycle: m },
                ),
                10 => binary::map_parsed(
                    i32::parse(data, p),
                    |m: i32| ClientCommandView::SelectChart { id: m },
                ),
                11 => (Ok(ClientCommandView::RequestStart), p),
                12 => (Ok(ClientCommandView::Ready), p),
                13 => (Ok(ClientCommandView::CancelReady), p),
                14 => binary::map_parsed(
                    i32::parse(data, p),
                    |m: i32| ClientCommandView::Played { id: m },
                ),
                15 => (Ok(ClientCommandView::Abort), p),
                _ => (Err(DecodeFailure::InvalidTag(tag)), p),
            },
        }
    }

    open spec fn takes_space() -> bool {
        true
    }

    open spec fn readable(&self) -> bool {
        match self {
            ClientCommand::Ping => true,
            ClientCommand::Authenticate { token } => token.readable(),
            ClientCommand::Chat { message } => message.readable(),
            ClientCommand::Touches { frames } => frames.readable(),
            ClientCommand::Judges { judges } => judges.readable(),
            ClientCommand::CreateRoom { id } => id.readable(),
            ClientCommand::JoinRoom { id, monitor } => id.readable() && monitor.readable(),
            ClientCommand::LeaveRoom => true,
            ClientCommand::LockRoom { lock } => lock.readable(),
            ClientCommand::CycleRoom { cycle } => cycle.readable(),
            ClientCommand::SelectChart { id } => id.readable(),
            ClientCommand::RequestStart => true,
            ClientCommand::Ready => true,
            ClientCommand::CancelReady => true,
            ClientCommand::Played { id } => id.readable(),
            ClientCommand::Abort => true,
        }
    }

    proof fn parse_advances(data: Seq<u8>, pos: int) {
        if pos < data.len() {
            <Varchar<32>>::parse_advances(data, pos + 1);
            <Varchar<200>>::parse_advances(data, pos + 1);
            <Arc<Vec<TouchFrame>>>::parse_advances(data, pos + 1);
            <Arc<Vec<JudgeEvent>>>::parse_advances(data, pos + 1);
            RoomId::parse_advances(data, pos + 1);
            <(RoomId, bool)>::parse_advances(data, pos + 1);
            bool::parse_advances(data, pos + 1);
            i32::parse_advances(data, pos + 1);
        }
    }

    proof fn parse_extends(data: Seq<u8>, more: Seq<u8>, pos: int) {
        if pos < data.len() {
            <Varchar<32>>::parse_advances(data, pos + 1);
            <Varchar<32>>::parse_extends(data, more, pos + 1);
            <Varchar<200>>::parse_advances(data, pos + 1);
            <Varchar<200>>::parse_extends(data, more, pos + 1);
            <Arc<Vec<TouchFrame>>>::parse_advances(data, pos + 1);
            <Arc<Vec<TouchFrame>>>::parse_extends(data, more, pos + 1);
            <Arc<Vec<JudgeEvent>>>::parse_advances(data, pos + 1);
            <Arc<Vec<JudgeEvent>>>::parse_extends(data, more, pos + 1);
            RoomId::parse_advances(data, pos + 1);
            RoomId::parse_extends(data, more, pos + 1);
            <(RoomId, bool)>::parse_advances(data, pos + 1);
            <(RoomId, bool)>::parse_extends(data, more, pos + 1);
            bool::parse_advances(data, pos + 1);
            bool::parse_extends(data, more, pos + 1);
            i32::parse_advances(data, pos + 1);
            i32::parse_extends(data, more, pos + 1);
        }
    }

    proof fn encoding_takes_space(&self) {
    }

    proof fn parse_inverts(&self, data: Seq<u8>, pos: int) {
        match self {
            ClientCommand::Ping => {
                lemma_tag(data, pos, 0, Seq::empty());
            },
            ClientCommand::Authenticate { token } => {
                lemma_tag(data, pos, 1, token.encoding());
                token.parse_inverts(data, pos + 1);
            },
            ClientCommand::Chat { message } => {
                lemma_tag(data, pos, 2, message.encoding());
                message.parse_inverts(data, pos + 1);
            },
            ClientCommand::Touches { frames } => {
                lemma_tag(data, pos, 3, frames.encoding());
                frames.parse_inverts(data, pos + 1);
            },
            ClientCommand::Judges { judges } => {
                lemma_tag(data, pos, 4, judges.encoding());
                judges.parse_inverts(data, pos + 1);
            },
            ClientCommand::CreateRoom { id } => {
                lemma_tag(data, pos, 5, id.encoding());
                id.parse_inverts(data, pos + 1);
            },
            ClientCommand::JoinRoom { id, monitor } => {
                lemma_tag(data, pos, 6, (*id, *monitor).encoding());
                (*id, *monitor).parse_inverts(data, pos + 1);
            },
            ClientCommand::LeaveRoom => {
                lemma_tag(data, pos, 7, Seq::empty());
            },
            ClientCommand::LockRoom { lock } => {
                lemma_tag(data, pos, 8, lock.encoding());
                lock.parse_inverts(data, pos + 1);
            },
            ClientCommand::CycleRoom { cycle } => {
                lemma_tag(data, pos, 9, cycle.encoding());
                cycle.parse_inverts(data, pos + 1);
            },
            ClientCommand::SelectChart { id } => {
                lemma_tag(data, pos, 10, id.encoding());
                id.parse_inverts(data, pos + 1);
            },
            ClientCommand::RequestStart => {
                lemma_tag(data, pos, 11, Seq::empty());
            },
            ClientCommand::Ready => {
                lemma_tag(data, pos, 12, Seq::empty());
            },
            ClientCommand::CancelReady => {
                lemma_tag(data, pos, 13, Seq::empty());
            },
            ClientCommand::Played { id } => {
                lemma_tag(data, pos, 14, id.encoding());
                id.parse_inverts(data, pos + 1);
            },
            ClientCommand::Abort => {
                lemma_tag(data, pos, 15, Seq::empty());
            },
        }
    }

    fn read_binary(r: &mut BinaryReader<'_>) -> (res: ProtoResult<Self>) {
        let tag: u8 = match r.byte() {
            Ok(tag) => tag,
            Err(e) => {
                return Err(e);
            },
        };
        match tag {
            0 => Ok(ClientCommand::Ping),
            1 => match r.read::<Varchar<32>>() {
                Ok(token) => Ok(ClientCommand::Authenticate { token }),
                Err(e) => Err(e),
            },
            2 => match r.read::<Varchar<200>>() {
                Ok(message) => Ok(ClientCommand::Chat { message }),
                Err(e) => Err(e),
            },
            3 => match r.read::<Arc<Vec<TouchFrame>>>() {
                Ok(frames) => Ok(ClientCommand::Touches { frames }),
                Err(e) => Err(e),
            },
            4 => match r.read::<Arc<Vec<JudgeEvent>>>() {
                Ok(judges) => Ok(ClientCommand::Judges { judges }),
                Err(e) => Err(e),
            },
            5 => match r.read::<RoomId>() {
                Ok(id) => Ok(ClientCommand::CreateRoom { id }),
                Err(e) => Err(e),
            },
            6 => match r.read::<(RoomId, bool)>() {
                Ok((id, monitor)) => Ok(ClientCommand::JoinRoom { id, monitor }),
                Err(e) => Err(e),
            },
            7 => Ok(ClientCommand::LeaveRoom),
            8 => match r.read::<bool>() {
                Ok(lock) => Ok(ClientCommand::LockRoom { lock }),
                Err(e) => Err(e),
            },
            9 => match r.read::<bool>() {
                Ok(cycle) => Ok(ClientCommand::CycleRoom { cycle }),
                Err(e) => Err(e),
            },
            10 => match r.read::<i32>() {
                Ok(id) => Ok(ClientCommand::SelectChart { id }),
                Err(e) => Err(e),
            },
            11 => Ok(ClientCommand::RequestStart),
            12 => Ok(ClientCommand::Ready),
            13 => Ok(ClientCommand::CancelReady),
            14 => match r.read::<i32>() {
                Ok(id) => Ok(ClientCommand::Played { id }),
                Err(e) => Err(e),
            },
            15 => Ok(ClientCommand::Abort),
            _ => Err(DecodeError::InvalidTag(tag)),
        }
    }

    fn write_binary(&self, w: &mut BinaryWriter<'_>) -> (res: ProtoResult<()>) {
        let ghost start = w.0@;
        match self {
            ClientCommand::Ping => {
                let _ = w.write_val(0u8);
            },
            ClientCommand::Authenticate { token } => {
                let _ = w.write_val(1u8);
                let _ = w.write(token);
            },
            ClientCommand::Chat { message } => {
                let _ = w.write_val(2u8);
                let _ = w.write(message);
            },
            ClientCommand::Touches { frames } => {
                let _ = w.write_val(3u8);
                let _ = w.write(frames);
            },
            ClientCommand::Judges { judges } => {
                let _ = w.write_val(4u8);
                let _ = w.write(judges);
            },
            ClientCommand::CreateRoom { id } => {
                let _ = w.write_val(5u8);
                let _ = w.write(id);
            },
            ClientCommand::JoinRoom { id, monitor } => {
                let _ = w.write_val(6u8);
                let _ = w.write(id);
                let _ = w.write(monitor);
            },
            ClientCommand::LeaveRoom => {
                let _ = w.write_val(7u8);
            },
            ClientCommand::LockRoom { lock } => {
                let _ = w.write_val(8u8);
                let _ = w.write(lock);
            },
            ClientCommand::CycleRoom { cycle } => {
                let _ = w.write_val(9u8);
                let _ = w.write(cycle);
            },
            ClientCommand::SelectChart { id } => {
                let _ = w.write_val(10u8);
                let _ = w.write(id);
            },
            ClientCommand::RequestStart => {
                let _ = w.write_val(11u8);
            },
            ClientCommand::Ready => {
                let _ = w.write_val(12u8);
            },
            ClientCommand::CancelReady => {
                let _ = w.write_val(13u8);
            },
            ClientCommand::Played { id } => {
                let _ = w.write_val(14u8);
                let _ = w.write(id);
            },
            ClientCommand::Abort => {
                let _ = w.write_val(15u8);
            },
        }
        assert(w.0@ =~= start + self.encoding());
        Ok(())
    }
}

impl BinaryData for ServerCommand {
    open spec fn encoding(&self) -> Seq<u8> {
        match self {
            ServerCommand::Pong => seq![0u8],
            ServerCommand::Authenticate(v) => seq![1u8] + v.encoding(),
            ServerCommand::Chat(v) => seq![2u8] + v.encoding(),
            ServerCommand::Touches { player, frames } => seq![3u8] + (*player, *frames).encoding(),
            ServerCommand::Judges { player, judges } => seq![4u8] + (*player, *judges).encoding(),
            ServerCommand::Message(v) => seq![5u8] + v.encoding(),
            ServerCommand::ChangeState(v) => seq![6u8] + v.encoding(),
            ServerCommand::ChangeHost(v) => seq![7u8] + v.encoding(),
            ServerCommand::CreateRoom(v) => seq![8u8] + v.encoding(),
            ServerCommand::JoinRoom(v) => seq![9u8] + v.encoding(),
            ServerCommand::OnJoinRoom(v) => seq![10u8] + v.encoding(),
            ServerCommand::LeaveRoom(v) => seq![11u8] + v.encoding(),
            ServerCommand::LockRoom(v) => seq![12u8] + v.encoding(),
            ServerCommand::CycleRoom(v) => seq![13u8] + v.encoding(),
            ServerCommand::SelectChart(v) => seq![14u8] + v.encoding(),
            ServerCommand::RequestStart(v) => seq![15u8] + v.encoding(),
            ServerCommand::Ready(v) => seq![16u8] + v.encoding(),
            ServerCommand::CancelReady(v) => seq![17u8] + v.encoding(),
            ServerCommand::Played(v) => seq![18u8] + v.encoding(),
            ServerCommand::Abort(v) => seq![19u8] + v.encoding(),
        }
    }

    open spec fn parse(data: Seq<u8>, pos: int) -> Parsed<ServerCommandView> {
        match binary::parse_byte(data, pos) {
            (Err(e), p) => (Err(e), p),
            (Ok(tag), p) => match tag {
                0 => (Ok(ServerCommandView::Pong), p),
                1 => binary::map_parsed(
                    <SResult<(UserInfo, Option<ClientRoomState>)>>::parse(data, p),
                    |m: Result<(UserInfoView, Option<ClientRoomStateView>), Seq<char>>| ServerCommandView::Authenticate(m),
                ),
                2 => binary::map_parsed(
                    <SResult<()>>::parse(data, p),
                    |m: Result<(), Seq<char>>| ServerCommandView::Chat(m),
                ),
                3 => binary::map_parsed(
                    <(i32, Arc<Vec<TouchFrame>>)>::parse(data, p),
                    |m: (i32, Seq<TouchFrameView>)| ServerCommandView::Touches { player: m.0, frames: m.1 },
                ),
                4 => binary::map_parsed(
                    <(i32, Arc<Vec<JudgeEvent>>)>::parse(data, p),
                    |m: (i32, Seq<JudgeEvent>)| ServerCommandView::Judges { player: m.0, judges: m.1 },
                ),
                5 => binary::map_parsed(
                    Message::parse(data, p),
                    |m: MessageView| ServerCommandView::Message(m),
                ),
                6 => binary::map_parsed(
                    RoomState::parse(data, p),
                    |m: RoomState| ServerCommandView::ChangeState(m),
                ),
                7 => binary::map_parsed(
                    bool::parse(data, p),
                    |m: bool| ServerCommandView::ChangeHost(m),
                ),
                8 => binary::map_parsed(
                    <SResult<()>>::parse(data, p),
                    |m: Result<(), Seq<char>>| ServerCommandView::CreateRoom(m),
                ),
                9 => binary::map_parsed(
                    <SResult<JoinRoomResponse>>::parse(data, p),
                    |m: Result<JoinRoomResponseView, Seq<char>>| ServerCommandView::JoinRoom(m),
                ),
                10 => binary::map_parsed(
                    UserInfo::parse(data, p),
                    |m: UserInfoView| ServerCommandView::OnJoinRoom(m),
                ),
                11 => binary::map_parsed(
                    <SResult<()>>::parse(data, p),
                    |m: Result<(), Seq<char>>| ServerCommandView::LeaveRoom(m),
                ),
                12 => binary::map_parsed(
                    <SResult<()>>::parse(data, p),
                    |m: Result<(), Seq<char>>| ServerCommandView::LockRoom(m),
                ),
                13 => binary::map_parsed(
                    <SResult<()>>::parse(data, p),
                    |m: Result<(), Seq<char>>| ServerCommandView::CycleRoom(m),
                ),
                14 => binary::map_parsed(
                    <SResult<()>>::parse(data, p),
                    |m: Result<(), Seq<char>>| ServerCommandView::SelectChart(m),
                ),
                15 => binary::map_parsed(
                    <SResult<()>>::parse(data, p),
                    |m: Result<(), Seq<char>>| ServerCommandView::RequestStart(m),
                ),
                16 => binary::map_parsed(
                    <SResult<()>>::parse(data, p),
                    |m: Result<(), Seq<char>>| ServerCommandView::Ready(m),
                ),
                17 => binary::map_parsed(
                    <SResult<()>>::parse(data, p),
                    |m: Result<(), Seq<char>>| ServerCommandView::CancelReady(m),
                ),
                18 => binary::map_parsed(
                    <SResult<()>>::parse(data, p),
                    |m: Result<(), Seq<char>>| ServerCommandView::Played(m),
                ),
                19 => binary::map_parsed(
                    <SResult<()>>::parse(data, p),
                    |m: Result<(), Seq<char>>| ServerCommandView::Abort(m),
                ),
                _ => (Err(DecodeFailure::InvalidTag(tag)), p),
            },
        }
    }

    open spec fn takes_space() -> bool {
        true
    }

    open spec fn readable(&self) -> bool {
        match self {
            ServerCommand::Pong => true,
            ServerCommand::Authenticate(v) => v.readable(),
            ServerCommand::Chat(v) => v.readable(),
            ServerCommand::Touches { player, frames } => player.readable() && frames.readable(),
            ServerCommand::Judges { player, judges } => player.readable() && judges.readable(),
            ServerCommand::Message(v) => v.readable(),
            ServerCommand::ChangeState(v) => v.readable(),
            ServerCommand::ChangeHost(v) => v.readable(),
            ServerCommand::CreateRoom(v) => v.readable(),
            ServerCommand::JoinRoom(v) => v.readable(),
            ServerCommand::OnJoinRoom(v) => v.readable(),
            ServerCommand::LeaveRoom(v) => v.readable(),
            ServerCommand::LockRoom(v) => v.readable(),
            ServerCommand::CycleRoom(v) => v.readable(),
            ServerCommand::SelectChart(v) => v.readable(),
            ServerCommand::RequestStart(v) => v.readable(),
            ServerCommand::Ready(v) => v.readable(),
            ServerCommand::CancelReady(v) => v.readable(),
            ServerCommand::Played(v) => v.readable(),
            ServerCommand::Abort(v) => v.readable(),
        }
    }

    proof fn parse_advances(data: Seq<u8>, pos: int) {
        if pos < data.len() {
            <SResult<(UserInfo, Option<ClientRoomState>)>>::parse_advances(data, pos + 1);
            <SResult<()>>::parse_advances(data, pos + 1);
            <(i32, Arc<Vec<TouchFrame>>)>::parse_advances(data, pos + 1);
            <(i32, Arc<Vec<JudgeEvent>>)>::parse_advances(data, pos + 1);
            Message::parse_advances(data, pos + 1);
            RoomState::parse_advances(data, pos + 1);
            bool::parse_advances(data, pos + 1);
            <SResult<JoinRoomResponse>>::parse_advances(data, pos + 1);
            UserInfo::parse_advances(data, pos + 1);
        }
    }

    proof fn parse_extends(data: Seq<u8>, more: Seq<u8>, pos: int) {
        if pos < data.len() {
            <SResult<(UserInfo, Option<ClientRoomState>)>>::parse_advances(data, pos + 1);
            <SResult<(UserInfo, Option<ClientRoomState>)>>::parse_extends(data, more, pos + 1);
            <SResult<()>>::parse_advances(data, pos + 1);
            <SResult<()>>::parse_extends(data, more, pos + 1);
            <(i32, Arc<Vec<TouchFrame>>)>::parse_advances(data, pos + 1);
            <(i32, Arc<Vec<TouchFrame>>)>::parse_extends(data, more, pos + 1);
            <(i32, Arc<Vec<JudgeEvent>>)>::parse_advances(data, pos + 1);
            <(i32, Arc<Vec<JudgeEvent>>)>::parse_extends(data, more, pos + 1);
            Message::parse_advances(data, pos + 1);
            Message::parse_extends(data, more, pos + 1);
            RoomState::parse_advances(data, pos + 1);
            RoomState::parse_extends(data, more, pos + 1);
            bool::parse_advances(data, pos + 1);
            bool::parse_extends(data, more, pos + 1);
            <SResult<JoinRoomResponse>>::parse_advances(data, pos + 1);
            <SResult<JoinRoomResponse>>::parse_extends(data, more, pos + 1);
            UserInfo::parse_advances(data, pos + 1);
            UserInfo::parse_extends(data, more, pos + 1);
        }
    }

    proof fn encoding_takes_space(&self) {
    }

    proof fn parse_inverts(&self, data: Seq<u8>, pos: int) {
        match self {
            ServerCommand::Pong => {
                lemma_tag(data, pos, 0, Seq::empty());
            },
            ServerCommand::Authenticate(v) => {
                lemma_tag(data, pos, 1, v.encoding());
                v.parse_inverts(data, pos + 1);
            },
            ServerCommand::Chat(v) => {
                lemma_tag(data, pos, 2, v.encoding());
                v.parse_inverts(data, pos + 1);
            },
            ServerCommand::Touches { player, frames } => {
                lemma_tag(data, pos, 3, (*player, *frames).encoding());
                (*player, *frames).parse_inverts(data, pos + 1);
            },
            ServerCommand::Judges { player, judges } => {
                lemma_tag(data, pos, 4, (*player, *judges).encoding());
                (*player, *judges).parse_inverts(data, pos + 1);
            },
            ServerCommand::Message(v) => {
                lemma_tag(data, pos, 5, v.encoding());
                v.parse_inverts(data, pos + 1);
            },
            ServerCommand::ChangeState(v) => {
                lemma_tag(data, pos, 6, v.encoding());
                v.parse_inverts(data, pos + 1);
            },
            ServerCommand::ChangeHost(v) => {
                lemma_tag(data, pos, 7, v.encoding());
                v.parse_inverts(data, pos + 1);
            },
            ServerCommand::CreateRoom(v) => {
                lemma_tag(data, pos, 8, v.encoding());
                v.parse_inverts(data, pos + 1);
            },
            ServerCommand::JoinRoom(v) => {
                lemma_tag(data, pos, 9, v.encoding());
                v.parse_inverts(data, pos + 1);
            },
            ServerCommand::OnJoinRoom(v) => {
                lemma_tag(data, pos, 10, v.encoding());
                v.parse_inverts(data, pos + 1);
            },
            ServerCommand::LeaveRoom(v) => {
                lemma_tag(data, pos, 11, v.encoding());
                v.parse_inverts(data, pos + 1);
            },
            ServerCommand::LockRoom(v) => {
                lemma_tag(data, pos, 12, v.encoding());
                v.parse_inverts(data, pos + 1);
            },
            ServerCommand::CycleRoom(v) => {
                lemma_tag(data, pos, 13, v.encoding());
                v.parse_inverts(data, pos + 1);
            },
            ServerCommand::SelectChart(v) => {
                lemma_tag(data, pos, 14, v.encoding());
                v.parse_inverts(data, pos + 1);
            },
            ServerCommand::RequestStart(v) => {
                lemma_tag(data, pos, 15, v.encoding());
                v.parse_inverts(data, pos + 1);
            },
            ServerCommand::Ready(v) => {
                lemma_tag(data, pos, 16, v.encoding());
                v.parse_inverts(data, pos + 1);
            },
            ServerCommand::CancelReady(v) => {
                lemma_tag(data, pos, 17, v.encoding());
                v.parse_inverts(data, pos + 1);
            },
            ServerCommand::Played(v) => {
                lemma_tag(data, pos, 18, v.encoding());
                v.parse_inverts(data, pos + 1);
            },
            ServerCommand::Abort(v) => {
                lemma_tag(data, pos, 19, v.encoding());
                v.parse_inverts(data, pos + 1);
            },
        }
    }

    fn read_binary(r: &mut BinaryReader<'_>) -> (res: ProtoResult<Self>) {
        let tag: u8 = match r.byte() {
            Ok(tag) => tag,
            Err(e) => {
                return Err(e);
            },
        };
        match tag {
            0 => Ok(ServerCommand::Pong),
            1 => match r.read::<SResult<(UserInfo, Option<ClientRoomState>)>>() {
                Ok(v) => Ok(ServerCommand::Authenticate(v)),
                Err(e) => Err(e),
            },
            2 => match r.read::<SResult<()>>() {
                Ok(v) => Ok(ServerCommand::Chat(v)),
                Err(e) => Err(e),
            },
            3 => match r.read::<(i32, Arc<Vec<TouchFrame>>)>() {
                Ok((player, frames)) => Ok(ServerCommand::Touches { player, frames }),
                Err(e) => Err(e),
            },
            4 => match r.read::<(i32, Arc<Vec<JudgeEvent>>)>() {
                Ok((player, judges)) => Ok(ServerCommand::Judges { player, judges }),
                Err(e) => Err(e),
            },
            5 => match r.read::<Message>() {
                Ok(v) => Ok(ServerCommand::Message(v)),
                Err(e) => Err(e),
            },
            6 => match r.read::<RoomState>() {
                Ok(v) => Ok(ServerCommand::ChangeState(v)),
                Err(e) => Err(e),
            },
            7 => match r.read::<bool>() {
                Ok(v) => Ok(ServerCommand::ChangeHost(v)),
                Err(e) => Err(e),
            },
            8 => match r.read::<SResult<()>>() {
                Ok(v) => Ok(ServerCommand::CreateRoom(v)),
                Err(e) => Err(e),
            },
            9 => match r.read::<SResult<JoinRoomResponse>>() {
                Ok(v) => Ok(ServerCommand::JoinRoom(v)),
                Err(e) => Err(e),
            },
            10 => match r.read::<UserInfo>() {
                Ok(v) => Ok(ServerCommand::OnJoinRoom(v)),
                Err(e) => Err(e),
            },
            11 => match r.read::<SResult<()>>() {
                Ok(v) => Ok(ServerCommand::LeaveRoom(v)),
                Err(e) => Err(e),
            },
            12 => match r.read::<SResult<()>>() {
                Ok(v) => Ok(ServerCommand::LockRoom(v)),
                Err(e) => Err(e),
            },
            13 => match r.read::<SResult<()>>() {
                Ok(v) => Ok(ServerCommand::CycleRoom(v)),
                Err(e) => Err(e),
            },
            14 => match r.read::<SResult<()>>() {
                Ok(v) => Ok(ServerCommand::SelectChart(v)),
                Err(e) => Err(e),
            },
            15 => match r.read::<SResult<()>>() {
                Ok(v) => Ok(ServerCommand::RequestStart(v)),
                Err(e) => Err(e),
            },
            16 => match r.read::<SResult<()>>() {
                Ok(v) => Ok(ServerCommand::Ready(v)),
                Err(e) => Err(e),
            },
            17 => match r.read::<SResult<()>>() {
                Ok(v) => Ok(ServerCommand::CancelReady(v)),
                Err(e) => Err(e),
            },
            18 => match r.read::<SResult<()>>() {
                Ok(v) => Ok(ServerCommand::Played(v)),
                Err(e) => Err(e),
            },
            19 => match r.read::<SResult<()>>() {
                Ok(v) => Ok(ServerCommand::Abort(v)),
                Err(e) => Err(e),
            },
            _ => Err(DecodeError::InvalidTag(tag)),
        }
    }

    fn write_binary(&self, w: &mut BinaryWriter<'_>) -> (res: ProtoResult<()>) {
        let ghost start = w.0@;
        match self {
            ServerCommand::Pong => {
                let _ = w.write_val(0u8);
            },
            ServerCommand::Authenticate(v) => {
                let _ = w.write_val(1u8);
                let _ = w.write(v);
            },
            ServerCommand::Chat(v) => {
                let _ = w.write_val(2u8);
                let _ = w.write(v);
            },
            ServerCommand::Touches { player, frames } => {
                let _ = w.write_val(3u8);
                let _ = w.write(player);
                let _ = w.write(frames);
            },
            ServerCommand::Judges { player, judges } => {
                let _ = w.write_val(4u8);
                let _ = w.write(player);
                let _ = w.write(judges);
            },
            ServerCommand::Message(v) => {
                let _ = w.write_val(5u8);
                let _ = w.write(v);
            },
            ServerCommand::ChangeState(v) => {
                let _ = w.write_val(6u8);
                let _ = w.write(v);
            },
            ServerCommand::ChangeHost(v) => {
                let _ = w.write_val(7u8);
                let _ = w.write(v);
            },
            ServerCommand::CreateRoom(v) => {
                let _ = w.write_val(8u8);
                let _ = w.write(v);
            },
            ServerCommand::JoinRoom(v) => {
                let _ = w.write_val(9u8);
                let _ = w.write(v);
            },
            ServerCommand::OnJoinRoom(v) => {
                let _ = w.write_val(10u8);
                let _ = w.write(v);
            },
            ServerCommand::LeaveRoom(v) => {
                let _ = w.write_val(11u8);
                let _ = w.write(v);
            },
            ServerCommand::LockRoom(v) => {
                let _ = w.write_val(12u8);
                let _ = w.write(v);
            },
            ServerCommand::CycleRoom(v) => {
                let _ = w.write_val(13u8);
                let _ = w.write(v);
            },
            ServerCommand::SelectChart(v) => {
                let _ = w.write_val(14u8);
                let _ = w.write(v);
            },
            ServerCommand::RequestStart(v) => {
                let _ = w.write_val(15u8);
                let _ = w.write(v);
            },
            ServerCommand::Ready(v) => {
                let _ = w.write_val(16u8);
                let _ = w.write(v);
            },
            ServerCommand::CancelReady(v) => {
                let _ = w.write_val(17u8);
                let _ = w.write(v);
            },
            ServerCommand::Played(v) => {
                let _ = w.write_val(18u8);
                let _ = w.write(v);
            },
            ServerCommand::Abort(v) => {
                let _ = w.write_val(19u8);
                let _ = w.write(v);
            },
        }
        assert(w.0@ =~= start + self.encoding());
        Ok(())
    }
}

impl BinaryData for Message {
    open spec fn encoding(&self) -> Seq<u8> {
        match self {
            Message::Chat { user, content } => seq![0u8] + (*user, *content).encoding(),
            Message::CreateRoom { user } => seq![1u8] + user.encoding(),
            Message::JoinRoom { user, name } => seq![2u8] + (*user, *name).encoding(),
            Message::LeaveRoom { user, name } => seq![3u8] + (*user, *name).encoding(),
            Message::NewHost { user } => seq![4u8] + user.encoding(),
            Message::SelectChart { user, name, id } => seq![5u8] + (*user, (*name, *id)).encoding(),
            Message::GameStart { user } => seq![6u8] + user.encoding(),
            Message::Ready { user } => seq![7u8] + user.encoding(),
            Message::CancelReady { user } => seq![8u8] + user.encoding(),
            Message::CancelGame { user } => seq![9u8] + user.encoding(),
            Message::StartPlaying => seq![10u8],
            Message::Played { user, score, accuracy, full_combo } => seq![11u8] + (*user, (*score, (*accuracy, *full_combo))).encoding(),
            Message::GameEnd => seq![12u8],
            Message::Abort { user } => seq![13u8] + user.encoding(),
            Message::LockRoom { lock } => seq![14u8] + lock.encoding(),
            Message::CycleRoom { cycle } => seq![15u8] + cycle.encoding(),
        }
    }

    open spec fn parse(data: Seq<u8>, pos: int) -> Parsed<MessageView> {
        match binary::parse_byte(data, pos) {
            (Err(e), p) => (Err(e), p),
            (Ok(tag), p) => match tag {
                0 => binary::map_parsed(
                    <(i32, String)>::parse(data, p),
                    |m: (i32, Seq<char>)| MessageView::Chat { user: m.0, content: m.1 },
                ),
                1 => binary::map_parsed(
                    i32::parse(data, p),
                    |m: i32| MessageView::CreateRoom { user: m },
                ),
                2 => binary::map_parsed(
                    <(i32, String)>::parse(data, p),
                    |m: (i32, Seq<char>)| MessageView::JoinRoom { user: m.0, name: m.1 },
                ),
                3 => binary::map_parsed(
                    <(i32, String)>::parse(data, p),
                    |m: (i32, Seq<char>)| MessageView::LeaveRoom { user: m.0, name: m.1 },
                ),
                4 => binary::map_parsed(
                    i32::parse(data, p),
                    |m: i32| MessageView::NewHost { user: m },
                ),
                5 => binary::map_parsed(
                    <(i32, (String, i32))>::parse(data, p),
                    |m: (i32, (Seq<char>, i32))| MessageView::SelectChart { user: m.0, name: m.1.0, id: m.1.1 },
                ),
                6 => binary::map_parsed(
                    i32::parse(data, p),
                    |m: i32| MessageView::GameStart { user: m },
                ),
                7 => binary::map_parsed(
                    i32::parse(data, p),
                    |m: i32| MessageView::Ready { user: m },
                ),
                8 => binary::map_parsed(
                    i32::parse(data, p),
                    |m: i32| MessageView::CancelReady { user: m },
                ),
                9 => binary::map_parsed(
                    i32::parse(data, p),
                    |m: i32| MessageView::CancelGame { user: m },
                ),
                10 => (Ok(MessageView::StartPlaying), p),
                11 => binary::map_parsed(
                    <(i32, (i32, (Float32, bool)))>::parse(data, p),
                    |m: (i32, (i32, (Float32, bool)))| MessageView::Played { user: m.0, score: m.1.0, accuracy: m.1.1.0, full_combo: m.1.1.1 },
                ),
                12 => (Ok(MessageView::GameEnd), p),
                13 => binary::map_parsed(
                    i32::parse(data, p),
                    |m: i32| MessageView::Abort { user: m },
                ),
                14 => binary::map_parsed(
                    bool::parse(data, p),
                    |m: bool| MessageView::LockRoom { lock: m },
                ),
                15 => binary::map_parsed(
                    bool::parse(data, p),
                    |m: bool| MessageView::CycleRoom { cycle: m },
                ),
                _ => (Err(DecodeFailure::InvalidTag(tag)), p),
            },
        }
    }

    open spec fn takes_space() -> bool {
        true
    }

    open spec fn readable(&self) -> bool {
        match self {
            Message::Chat { user, content } => user.readable() && content.readable(),
            Message::CreateRoom { user } => user.readable(),
            Message::JoinRoom { user, name } => user.readable() && name.readable(),
            Message::LeaveRoom { user, name } => user.readable() && name.readable(),
            Message::NewHost { user } => user.readable(),
            Message::SelectChart { user, name, id } => user.readable() && name.readable() && id.readable(),
            Message::GameStart { user } => user.readable(),
            Message::Ready { user } => user.readable(),
            Message::CancelReady { user } => user.readable(),
            Message::CancelGame { user } => user.readable(),
            Message::StartPlaying => true,
            Message::Played { user, score, accuracy, full_combo } => user.readable() && score.readable() && accuracy.readable() && full_combo.readable(),
            Message::GameEnd => true,
            Message::Abort { user } => user.readable(),
            Message::LockRoom { lock } => lock.readable(),
            Message::CycleRoom { cycle } => cycle.readable(),
        }
    }

    proof fn parse_advances(data: Seq<u8>, pos: int) {
        if pos < data.len() {
            <(i32, String)>::parse_advances(data, pos + 1);
            i32::parse_advances(data, pos + 1);
            <(i32, (String, i32))>::parse_advances(data, pos + 1);
            <(i32, (i32, (Float32, bool)))>::parse_advances(data, pos + 1);
            bool::parse_advances(data, pos + 1);
        }
    }

    proof fn parse_extends(data: Seq<u8>, more: Seq<u8>, pos: int) {
        if pos < data.len() {
            <(i32, String)>::parse_advances(data, pos + 1);
            <(i32, String)>::parse_extends(data, more, pos + 1);
            i32::parse_advances(data, pos + 1);
            i32::parse_extends(data, more, pos + 1);
            <(i32, (String, i32))>::parse_advances(data, pos + 1);
            <(i32, (String, i32))>::parse_extends(data, more, pos + 1);
            <(i32, (i32, (Float32, bool)))>::parse_advances(data, pos + 1);
            <(i32, (i32, (Float32, bool)))>::parse_extends(data, more, pos + 1);
            bool::parse_advances(data, pos + 1);
            bool::parse_extends(data, more, pos + 1);
        }
    }

    proof fn encoding_takes_space(&self) {
    }

    proof fn parse_inverts(&self, data: Seq<u8>, pos: int) {
        match self {
            Message::Chat { user, content } => {
                lemma_tag(data, pos, 0, (*user, *content).encoding());
                (*user, *content).parse_inverts(data, pos + 1);
            },
            Message::CreateRoom { user } => {
                lemma_tag(data, pos, 1, user.encoding());
                user.parse_inverts(data, pos + 1);
            },
            Message::JoinRoom { user, name } => {
                lemma_tag(data, pos, 2, (*user, *name).encoding());
                (*user, *name).parse_inverts(data, pos + 1);
            },
            Message::LeaveRoom { user, name } => {
                lemma_tag(data, pos, 3, (*user, *name).encoding());
                (*user, *name).parse_inverts(data, pos + 1);
            },
            Message::NewHost { user } => {
                lemma_tag(data, pos, 4, user.encoding());
                user.parse_inverts(data, pos + 1);
            },
            Message::SelectChart { user, name, id } => {
                lemma_tag(data, pos, 5, (*user, (*name, *id)).encoding());
                (*user, (*name, *id)).parse_inverts(data, pos + 1);
            },
            Message::GameStart { user } => {
                lemma_tag(data, pos, 6, user.encoding());
                user.parse_inverts(data, pos + 1);
            },
            Message::Ready { user } => {
                lemma_tag(data, pos, 7, user.encoding());
                user.parse_inverts(data, pos + 1);
            },
            Message::CancelReady { user } => {
                lemma_tag(data, pos, 8, user.encoding());
                user.parse_inverts(data, pos + 1);
            },
            Message::CancelGame { user } => {
                lemma_tag(data, pos, 9, user.encoding());
                user.parse_inverts(data, pos + 1);
            },
            Message::StartPlaying => {
                lemma_tag(data, pos, 10, Seq::empty());
            },
            Message::Played { user, score, accuracy, full_combo } => {
                lemma_tag(data, pos, 11, (*user, (*score, (*accuracy, *full_combo))).encoding());
                (*user, (*score, (*accuracy, *full_combo))).parse_inverts(data, pos + 1);
            },
            Message::GameEnd => {
                lemma_tag(data, pos, 12, Seq::empty());
            },
            Message::Abort { user } => {
                lemma_tag(data, pos, 13, user.encoding());
                user.parse_inverts(data, pos + 1);
            },
            Message::LockRoom { lock } => {
                lemma_tag(data, pos, 14, lock.encoding());
                lock.parse_inverts(data, pos + 1);
            },
            Message::CycleRoom { cycle } => {
                lemma_tag(data, pos, 15, cycle.encoding());
                cycle.parse_inverts(data, pos + 1);
            },
        }
    }

    fn read_binary(r: &mut BinaryReader<'_>) -> (res: ProtoResult<Self>) {
        let tag: u8 = match r.byte() {
            Ok(tag) => tag,
            Err(e) => {
                return Err(e);
            },
        };
        match tag {
            0 => match r.read::<(i32, String)>() {
                Ok((user, content)) => Ok(Message::Chat { user, content }),
                Err(e) => Err(e),
            },
            1 => match r.read::<i32>() {
                Ok(user) => Ok(Message::CreateRoom { user }),
                Err(e) => Err(e),
            },
            2 => match r.read::<(i32, String)>() {
                Ok((user, name)) => Ok(Message::JoinRoom { user, name }),
                Err(e) => Err(e),
            },
            3 => match r.read::<(i32, String)>() {
                Ok((user, name)) => Ok(Message::LeaveRoom { user, name }),
                Err(e) => Err(e),
            },
            4 => match r.read::<i32>() {
                Ok(user) => Ok(Message::NewHost { user }),
                Err(e) => Err(e),
            },
            5 => match r.read::<(i32, (String, i32))>() {
                Ok((user, (name, id))) => Ok(Message::SelectChart { user, name, id }),
                Err(e) => Err(e),
            },
            6 => match r.read::<i32>() {
                Ok(user) => Ok(Message::GameStart { user }),
                Err(e) => Err(e),
            },
            7 => match r.read::<i32>() {
                Ok(user) => Ok(Message::Ready { user }),
                Err(e) => Err(e),
            },
            8 => match r.read::<i32>() {
                Ok(user) => Ok(Message::CancelReady { user }),
                Err(e) => Err(e),
            },
            9 => match r.read::<i32>() {
                Ok(user) => Ok(Message::CancelGame { user }),
                Err(e) => Err(e),
            },
            10 => Ok(Message::StartPlaying),
            11 => match r.read::<(i32, (i32, (Float32, bool)))>() {
                Ok((user, (score, (accuracy, full_combo)))) => Ok(Message::Played { user, score, accuracy, full_combo }),
                Err(e) => Err(e),
            },
            12 => Ok(Message::GameEnd),
            13 => match r.read::<i32>() {
                Ok(user) => Ok(Message::Abort { user }),
                Err(e) => Err(e),
            },
            14 => match r.read::<bool>() {
                Ok(lock) => Ok(Message::LockRoom { lock }),
                Err(e) => Err(e),
            },
            15 => match r.read::<bool>() {
                Ok(cycle) => Ok(Message::CycleRoom { cycle }),
                Err(e) => Err(e),
            },
            _ => Err(DecodeError::InvalidTag(tag)),
        }
    }

    fn write_binary(&self, w: &mut BinaryWriter<'_>) -> (res: ProtoResult<()>) {
        let ghost start = w.0@;
        match self {
            Message::Chat { user, content } => {
                let _ = w.write_val(0u8);
                let _ = w.write(user);
                let _ = w.write(content);
            },
            Message::CreateRoom { user } => {
                let _ = w.write_val(1u8);
                let _ = w.write(user);
            },
            Message::JoinRoom { user, name } => {
                let _ = w.write_val(2u8);
                let _ = w.write(user);
                let _ = w.write(name);
            },
            Message::LeaveRoom { user, name } => {
                let _ = w.write_val(3u8);
                let _ = w.write(user);
                let _ = w.write(name);
            },
            Message::NewHost { user } => {
                let _ = w.write_val(4u8);
                let _ = w.write(user);
            },
            Message::SelectChart { user, name, id } => {
                let _ = w.write_val(5u8);
                let _ = w.write(user);
                let _ = w.write(name);
                let _ = w.write(id);
            },
            Message::GameStart { user } => {
                let _ = w.write_val(6u8);
                let _ = w.write(user);
            },
            Message::Ready { user } => {
                let _ = w.write_val(7u8);
                let _ = w.write(user);
            },
            Message::CancelReady { user } => {
                let _ = w.write_val(8u8);
                let _ = w.write(user);
            },
            Message::CancelGame { user } => {
                let _ = w.write_val(9u8);
                let _ = w.write(user);
            },
            Message::StartPlaying => {
                let _ = w.write_val(10u8);
            },
            Message::Played { user, score, accuracy, full_combo } => {
                let _ = w.write_val(11u8);
                let _ = w.write(user);
                let _ = w.write(score);
                let _ = w.write(accuracy);
                let _ = w.write(full_combo);
            },
            Message::GameEnd => {
                let _ = w.write_val(12u8);
            },
            Message::Abort { user } => {
                let _ = w.write_val(13u8);
                let _ = w.write(user);
            },
            Message::LockRoom { lock } => {
                let _ = w.write_val(14u8);
                let _ = w.write(lock);
            },
            Message::CycleRoom { cycle } => {
                let _ = w.write_val(15u8);
                let _ = w.write(cycle);
            },
        }
        assert(w.0@ =~= start + self.encoding());
        Ok(())
    }
}

/// A command of a client that no version knows is refused, and so are a command of the server, a
/// message, a state and a judgement.
pub proof fn unknown_tags_are_refused(data: Seq<u8>)
    requires
        data.len() > 0,
    ensures
        data[0] >= 16 ==> ClientCommand::parse(data, 0).0 == Err::<ClientCommandView, _>(
            DecodeFailure::InvalidTag(data[0]),
        ),
        data[0] >= 20 ==> ServerCommand::parse(data, 0).0 == Err::<ServerCommandView, _>(
            DecodeFailure::InvalidTag(data[0]),
        ),
        data[0] >= 16 ==> Message::parse(data, 0).0 == Err::<MessageView, _>(
            DecodeFailure::InvalidTag(data[0]),
        ),
        data[0] >= 3 ==> RoomState::parse(data, 0).0 == Err::<RoomState, _>(
            DecodeFailure::InvalidTag(data[0]),
        ),
        data[0] >= 6 ==> Judgement::parse(data, 0).0 == Err::<Judgement, _>(
            DecodeFailure::InvalidTag(data[0]),
        ),
{
}

} // verus!
