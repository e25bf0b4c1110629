//! The vocabulary of rooms: identifiers, users, charts and records, and the commands, responses
//! and events that rooms and the rest of the server exchange.

use std::collections::HashMap;
use std::sync::Arc;

use vstd::prelude::*;
use vstd::string::*;
use vstd::utf8::*;

use crate::binary::map::keys_in_order;
use crate::model::{share, HasModel};
use crate::text;

pub mod contents;

verus! {

/// A monotonic clock in milliseconds. Its only source in a room is [`RoomCommand::Tick`].
pub type TimeMs = u64;

/// A single-precision floating-point number, held as its bit pattern. Numbers are compared by `==`
/// as such numbers are: zero equals minus zero, and what is not a number equals nothing.
#[derive(Debug, Clone, Copy)]
pub struct Float32 {
    /// The bit pattern.
    pub bits: u32,
}

/// Whether a bit pattern in single precision, whatever its sign, stands for no number: all bits of
/// the exponent are set, and one of the fraction.
pub open spec fn is_nan32(bits: u32) -> bool {
    bits % 0x8000_0000 > 0x7F80_0000
}

/// Whether two bit patterns in single precision stand for equal numbers.
pub open spec fn equal32(a: u32, b: u32) -> bool {
    &&& !is_nan32(a)
    &&& !is_nan32(b)
    &&& a == b || (a % 0x8000_0000 == 0 && b % 0x8000_0000 == 0)
}

impl PartialEq for Float32 {
    fn eq(&self, other: &Self) -> (res: bool) {
        let a: u32 = self.bits % 0x8000_0000;
        let b: u32 = other.bits % 0x8000_0000;
        a <= 0x7F80_0000 && b <= 0x7F80_0000 && (self.bits == other.bits || (a == 0 && b == 0))
    }
}

impl vstd::std_specs::cmp::PartialEqSpecImpl for Float32 {
    open spec fn obeys_eq_spec() -> bool {
        true
    }

    open spec fn eq_spec(&self, other: &Self) -> bool {
        equal32(self.bits, other.bits)
    }
}

impl Float32 {
    /// Minus infinity: the game time of a player who has not started playing.
    pub fn neg_infinity() -> (v: Self)
        ensures
            v == not_started(),
    {
        Self { bits: 0xFF80_0000 }
    }
}

/// Minus infinity: the game time of a player who has not started playing.
pub open spec fn not_started() -> Float32 {
    Float32 { bits: 0xFF80_0000 }
}

impl HasModel for Float32 {
    type Model = Float32;

    open spec fn model(&self) -> Float32 {
        *self
    }
}

/// A string of at most `N` bytes.
#[derive(Debug, PartialEq, Eq, Hash)]
pub struct Varchar<const N: usize>(String);

/// The message that refuses a string of `len` bytes where `max` bytes are allowed.
pub open spec fn too_long_message(len: nat, max: nat) -> Seq<char> {
    "string too long: "@ + text::decimal(len) + " > "@ + text::decimal(max)
}

impl<const N: usize> View for Varchar<N> {
    type V = Seq<char>;

    closed spec fn view(&self) -> Seq<char> {
        self.0@
    }
}

impl<const N: usize> HasModel for Varchar<N> {
    type Model = Seq<char>;

    open spec fn model(&self) -> Seq<char> {
        self@
    }
}

impl<const N: usize> Varchar<N> {
    #[verifier::type_invariant]
    spec fn valid(&self) -> bool {
        encode_utf8(self.0@).len() <= N
    }

    /// Whether the string is within the bound.
    pub open spec fn fits(&self) -> bool {
        encode_utf8(self@).len() <= N
    }

    /// Accepts a string within the bound, and refuses a longer one.
    pub fn new(value: String) -> (res: Result<Self, String>)
        ensures
            match res {
                Ok(v) => encode_utf8(value@).len() <= N && v@ == value@ && v.fits(),
                Err(msg) => encode_utf8(value@).len() > N && msg@ == too_long_message(
                    encode_utf8(value@).len(),
                    N as nat,
                ),
            },
    {
        let len: usize = value.as_str().as_bytes().len();
        if len > N {
            let mut msg: String = "string too long: ".to_owned();
            text::push_decimal(&mut msg, len as u64);
            msg.append(" > ");
            text::push_decimal(&mut msg, N as u64);
            return Err(msg);
        }
        Ok(Self(value))
    }

    /// Wraps text that was found to be within the bound.
    pub(crate) fn from_checked(value: String) -> (v: Self)
        requires
            encode_utf8(value@).len() <= N,
        ensures
            v@ == value@,
    {
        Self(value)
    }

    /// The string.
    pub fn as_str(&self) -> (s: &str)
        ensures
            s@ == self@,
            self.fits(),
    {
        proof {
            use_type_invariant(self);
        }
        self.0.as_str()
    }

    /// The string, taken out.
    pub fn into_inner(self) -> (s: String)
        ensures
            s@ == self@,
            self.fits(),
    {
        proof {
            use_type_invariant(&self);
        }
        self.0
    }

    /// A copy of the string.
    pub fn to_text(&self) -> (s: String)
        ensures
            s@ == self@,
            self.fits(),
    {
        proof {
            use_type_invariant(self);
        }
        self.0.clone()
    }
}

impl<const N: usize> Clone for Varchar<N> {
    fn clone(&self) -> (res: Self)
        ensures
            res == *self,
    {
        proof {
            use_type_invariant(self);
        }
        Self(self.0.clone())
    }
}

/// Whether a character may stand in a room id.
pub open spec fn room_id_char(c: char) -> bool {
    ||| c == '-'
    ||| c == '_'
    ||| '0' <= c <= '9'
    ||| 'A' <= c <= 'Z'
    ||| 'a' <= c <= 'z'
}

/// Whether the characters of a text make a room id: there is at least one, and each may stand in
/// a room id.
pub open spec fn room_id_chars(text: Seq<char>) -> bool {
    text.len() > 0 && forall|i: int| 0 <= i < text.len() ==> room_id_char(#[trigger] text[i])
}

/// Whether a text is a room id.
pub open spec fn room_id_ok(text: Seq<char>) -> bool {
    room_id_chars(text) && text.len() <= 20
}

/// A room id takes as many bytes as it has characters.
pub proof fn room_id_bytes(text: Seq<char>)
    requires
        room_id_chars(text),
    ensures
        encode_utf8(text).len() == text.len(),
{
    assert(is_ascii_chars(text)) by {
        assert forall|i: int| 0 <= i < text.len() implies '\u{0}' <= #[trigger] text[i]
            <= '\u{7f}' by {
            assert(room_id_char(text[i]));
        }
    }
    is_ascii_chars_encode_utf8(text);
}

/// Whether every character of a text may stand in a room id, and there is at least one.
pub fn is_room_id_text(s: &str) -> (res: bool)
    ensures
        res == room_id_chars(s@),
{
    let mut empty: bool = true;
    for c in walk: s.chars()
        invariant
            walk.seq() == s@,
            empty == (walk.index() == 0),
            forall|i: int| 0 <= i < walk.index() ==> room_id_char(#[trigger] s@[i]),
    {
        empty = false;
        let allowed: bool = c == '-' || c == '_' || ('0' <= c && c <= '9') || ('A' <= c && c
            <= 'Z') || ('a' <= c && c <= 'z');
        if !allowed {
            assert(!room_id_char(s@[walk.index()]));
            return false;
        }
    }
    !empty
}

/// The name of a room: one to twenty characters out of letters, digits, `-` and `_`.
#[derive(Debug, PartialEq, Eq, Hash)]
pub struct RoomId(Varchar<20>);

impl View for RoomId {
    type V = Seq<char>;

    closed spec fn view(&self) -> Seq<char> {
        self.0@
    }
}

impl HasModel for RoomId {
    type Model = Seq<char>;

    open spec fn model(&self) -> Seq<char> {
        self@
    }
}

impl RoomId {
    #[verifier::type_invariant]
    spec fn valid(&self) -> bool {
        room_id_ok(self.0@)
    }

    /// Accepts a room id. A text of more than twenty bytes is refused for its length, any other
    /// text that is no room id for its characters.
    pub fn new(id: String) -> (res: Result<Self, String>)
        ensures
            match res {
                Ok(v) => room_id_ok(id@) && v@ == id@,
                Err(msg) => !room_id_ok(id@) && if encode_utf8(id@).len() > 20 {
                    msg@ == too_long_message(encode_utf8(id@).len(), 20)
                } else {
                    msg@ == "invalid room id"@
                },
            },
    {
        proof {
            if room_id_chars(id@) {
                room_id_bytes(id@);
            }
        }
        let v: Varchar<20> = match Varchar::new(id) {
            Ok(v) => v,
            Err(msg) => {
                return Err(msg);
            },
        };
        if !is_room_id_text(v.as_str()) {
            return Err("invalid room id".to_owned());
        }
        Ok(Self(v))
    }

    /// Wraps text that was found to be a room id.
    pub(crate) fn from_checked(v: Varchar<20>) -> (id: Self)
        requires
            room_id_ok(v@),
        ensures
            id@ == v@,
    {
        Self(v)
    }

    /// The id as a string.
    pub fn as_str(&self) -> (s: &str)
        ensures
            s@ == self@,
            room_id_ok(s@),
    {
        proof {
            use_type_invariant(self);
        }
        self.0.as_str()
    }

    /// A copy of the id as a string.
    pub fn to_text(&self) -> (s: String)
        ensures
            s@ == self@,
    {
        self.0.to_text()
    }

    /// Whether this is the same room.
    pub fn same(&self, other: &RoomId) -> (res: bool)
        ensures
            res == (self@ == other@),
    {
        text::same_text(&self.0.0, &other.0.0)
    }
}

impl Clone for RoomId {
    fn clone(&self) -> (res: Self)
        ensures
            res == *self,
    {
        proof {
            use_type_invariant(self);
        }
        Self(self.0.clone())
    }
}

/// A position in half precision, held as the bit patterns of its coordinates. Coordinates are
/// compared by `==` as floating-point numbers are.
#[derive(Debug, Clone, Copy)]
pub struct CompactPos {
    /// The bit pattern of the x coordinate.
    pub x: u16,
    /// The bit pattern of the y coordinate.
    pub y: u16,
}

/// Whether a bit pattern in half precision, whatever its sign, stands for no number.
pub open spec fn is_nan16(bits: u16) -> bool {
    bits % 0x8000 > 0x7C00
}

/// Whether two bit patterns in half precision stand for equal numbers.
pub open spec fn equal16(a: u16, b: u16) -> bool {
    &&& !is_nan16(a)
    &&& !is_nan16(b)
    &&& a == b || (a % 0x8000 == 0 && b % 0x8000 == 0)
}

/// Whether two bit patterns in half precision stand for equal numbers.
fn same_half(a: u16, b: u16) -> (res: bool)
    ensures
        res == equal16(a, b),
{
    let x: u16 = a % 0x8000;
    let y: u16 = b % 0x8000;
    x <= 0x7C00 && y <= 0x7C00 && (a == b || (x == 0 && y == 0))
}

impl PartialEq for CompactPos {
    fn eq(&self, other: &Self) -> (res: bool) {
        same_half(self.x, other.x) && same_half(self.y, other.y)
    }
}

impl vstd::std_specs::cmp::PartialEqSpecImpl for CompactPos {
    open spec fn obeys_eq_spec() -> bool {
        true
    }

    open spec fn eq_spec(&self, other: &Self) -> bool {
        equal16(self.x, other.x) && equal16(self.y, other.y)
    }
}

impl CompactPos {
    /// Makes a position out of the bit patterns of its coordinates.
    pub fn new(x: u16, y: u16) -> (pos: Self)
        ensures
            pos == (CompactPos { x, y }),
    {
        Self { x, y }
    }

    /// The bit pattern of the x coordinate.
    pub fn x(&self) -> (x: u16)
        ensures
            x == self.x,
    {
        self.x
    }

    /// The bit pattern of the y coordinate.
    pub fn y(&self) -> (y: u16)
        ensures
            y == self.y,
    {
        self.y
    }
}

impl HasModel for CompactPos {
    type Model = CompactPos;

    open spec fn model(&self) -> CompactPos {
        *self
    }
}

/// The touches of one frame: a time, and for each finger a position.
#[derive(Debug, PartialEq)]
pub struct TouchFrame {
    /// The time in the chart, in seconds.
    pub time: Float32,
    /// The finger and the position of each touch.
    pub points: Vec<(i8, CompactPos)>,
}

/// The mathematical content of a [`TouchFrame`].
#[verifier::ext_equal]
pub struct TouchFrameView {
    pub time: Float32,
    pub points: Seq<(i8, CompactPos)>,
}

impl HasModel for TouchFrame {
    type Model = TouchFrameView;

    open spec fn model(&self) -> TouchFrameView {
        TouchFrameView { time: self.time, points: self.points.model() }
    }
}

impl Clone for TouchFrame {
    fn clone(&self) -> (res: Self)
        ensures
            res.model() == self.model(),
    {
        let mut points: Vec<(i8, CompactPos)> = Vec::new();
        let mut i: usize = 0;
        while i < self.points.len()
            invariant
                i <= self.points.len(),
                points@ == self.points@.take(i as int),
            decreases self.points.len() - i,
        {
            points.push(self.points[i]);
            i = i + 1;
        }
        assert(points@ =~= self.points@);
        TouchFrame { time: self.time, points }
    }
}

/// How well a note was hit.
#[derive(Debug, Clone, Copy, PartialEq, Eq, Hash, Structural)]
pub enum Judgement {
    Perfect,
    Good,
    Bad,
    Miss,
    HoldPerfect,
    HoldGood,
}

impl HasModel for Judgement {
    type Model = Judgement;

    open spec fn model(&self) -> Judgement {
        *self
    }
}

/// The judgement of one note.
#[derive(Debug, Clone, Copy, PartialEq)]
pub struct JudgeEvent {
    /// The time in the chart, in seconds.
    pub time: Float32,
    /// The judge line.
    pub line_id: u32,
    /// The note.
    pub note_id: u32,
    /// The judgement.
    pub judgement: Judgement,
}

impl HasModel for JudgeEvent {
    type Model = JudgeEvent;

    open spec fn model(&self) -> JudgeEvent {
        *self
    }
}

/// The state of a room as a client sees it.
#[derive(Debug, Clone, Copy, PartialEq, Eq, Structural)]
pub enum RoomState {
    /// A chart is being selected; the one selected so far.
    SelectChart(Option<i32>),
    /// The players get ready.
    WaitingForReady,
    /// The players play.
    Playing,
}

impl HasModel for RoomState {
    type Model = RoomState;

    open spec fn model(&self) -> RoomState {
        *self
    }
}

/// A user in a room.
#[derive(Debug, PartialEq, Eq)]
pub struct UserInfo {
    /// The user's id.
    pub id: i32,
    /// The user's name.
    pub name: String,
    /// Whether the user watches rather than plays.
    pub monitor: bool,
}

/// The mathematical content of a [`UserInfo`].
#[verifier::ext_equal]
pub struct UserInfoView {
    pub id: i32,
    pub name: Seq<char>,
    pub monitor: bool,
}

impl HasModel for UserInfo {
    type Model = UserInfoView;

    open spec fn model(&self) -> UserInfoView {
        UserInfoView { id: self.id, name: self.name@, monitor: self.monitor }
    }
}

impl Clone for UserInfo {
    fn clone(&self) -> (res: Self)
        ensures
            res == *self,
    {
        UserInfo { id: self.id, name: self.name.clone(), monitor: self.monitor }
    }
}

/// What a client needs to show a room it comes back to.
#[derive(Debug, PartialEq)]
pub struct ClientRoomState {
    /// The room.
    pub id: RoomId,
    /// Its state.
    pub state: RoomState,
    /// Whether someone watches.
    pub live: bool,
    /// Whether the room is locked.
    pub locked: bool,
    /// Whether the host changes after each game.
    pub cycle: bool,
    /// Whether the user is the host.
    pub is_host: bool,
    /// Whether the user is ready.
    pub is_ready: bool,
    /// The users in the room, players and monitors.
    pub users: HashMap<i32, UserInfo>,
    /// The time of the last touch frame that the user sent in the current game, minus infinity
    /// if there is none.
    pub last_game_time: Float32,
}

/// The mathematical content of a [`ClientRoomState`].
#[verifier::ext_equal]
pub struct ClientRoomStateView {
    pub id: Seq<char>,
    pub state: RoomState,
    pub live: bool,
    pub locked: bool,
    pub cycle: bool,
    pub is_host: bool,
    pub is_ready: bool,
    pub users: Map<i32, UserInfoView>,
    pub last_game_time: Float32,
}

impl HasModel for ClientRoomState {
    type Model = ClientRoomStateView;

    open spec fn model(&self) -> ClientRoomStateView {
        ClientRoomStateView {
            id: self.id@,
            state: self.state,
            live: self.live,
            locked: self.locked,
            cycle: self.cycle,
            is_host: self.is_host,
            is_ready: self.is_ready,
            users: self.users.model(),
            last_game_time: self.last_game_time,
        }
    }
}

/// A copy of the users in a room.
fn copy_user_map(users: &HashMap<i32, UserInfo>) -> (res: HashMap<i32, UserInfo>)
    ensures
        res.model() == users.model(),
{
    broadcast use {vstd::std_specs::hash::group_hash_axioms, crate::model::group_models};

    let ids: Vec<i32> = keys_in_order(users);
    let mut res: HashMap<i32, UserInfo> = HashMap::new();
    let mut i: usize = 0;
    proof {
        crate::binary::map::lemma_sorted_keys(users@.dom());
    }
    assert(res.model() =~= users.model().restrict(ids@.take(0).to_set()));
    while i < ids.len()
        invariant
            i <= ids.len(),
            forall|j: int| 0 <= j < ids.len() ==> users@.contains_key(#[trigger] ids@[j]),
            res.model() == users.model().restrict(ids@.take(i as int).to_set()),
        decreases ids.len() - i,
    {
        broadcast use {vstd::std_specs::hash::group_hash_axioms, crate::model::group_models};

        if let Some(info) = users.get(&ids[i]) {
            res.insert(ids[i], info.clone());
        }
        assert(ids@.take(i + 1) =~= ids@.take(i as int).push(ids@[i as int]));
        proof {
            ids@.take(i as int).lemma_push_to_set_commute(ids@[i as int]);
        }
        assert(res.model() =~= users.model().restrict(ids@.take(i + 1).to_set()));
        i = i + 1;
    }
    assert(ids@.take(i as int) =~= ids@);
    assert(res.model() =~= users.model());
    res
}

impl Clone for ClientRoomState {
    fn clone(&self) -> (res: Self)
        ensures
            res.model() == self.model(),
    {
        ClientRoomState {
            id: self.id.clone(),
            state: self.state,
            live: self.live,
            locked: self.locked,
            cycle: self.cycle,
            is_host: self.is_host,
            is_ready: self.is_ready,
            users: copy_user_map(&self.users),
            last_game_time: self.last_game_time,
        }
    }
}

/// What a user gets who joins a room.
#[derive(Debug, PartialEq, Eq)]
pub struct JoinRoomResponse {
    /// The state of the room.
    pub state: RoomState,
    /// The users in the room, players first.
    pub users: Vec<UserInfo>,
    /// Whether someone watches.
    pub live: bool,
}

/// The mathematical content of a [`JoinRoomResponse`].
#[verifier::ext_equal]
pub struct JoinRoomResponseView {
    pub state: RoomState,
    pub users: Seq<UserInfoView>,
    pub live: bool,
}

impl HasModel for JoinRoomResponse {
    type Model = JoinRoomResponseView;

    open spec fn model(&self) -> JoinRoomResponseView {
        JoinRoomResponseView { state: self.state, users: self.users.model(), live: self.live }
    }
}

impl Clone for JoinRoomResponse {
    fn clone(&self) -> (res: Self)
        ensures
            res.model() == self.model(),
    {
        broadcast use crate::model::group_models;

        let mut users: Vec<UserInfo> = Vec::new();
        let mut i: usize = 0;
        while i < self.users.len()
            invariant
                i <= self.users.len(),
                crate::model::models(users@) == crate::model::models(self.users@.take(i as int)),
            decreases self.users.len() - i,
        {
            broadcast use crate::model::group_models;

            users.push(self.users[i].clone());
            assert(self.users@.take(i + 1) =~= self.users@.take(i as int).push(
                self.users@[i as int],
            ));
            i = i + 1;
        }
        assert(self.users@.take(i as int) =~= self.users@);
        JoinRoomResponse { state: self.state, users, live: self.live }
    }
}

/// A chart.
#[derive(Debug, PartialEq, Eq)]
pub struct Chart {
    /// The chart's id.
    pub id: i32,
    /// The chart's name.
    pub name: String,
}

/// The mathematical content of a [`Chart`].
#[verifier::ext_equal]
pub struct ChartView {
    pub id: i32,
    pub name: Seq<char>,
}

impl HasModel for Chart {
    type Model = ChartView;

    open spec fn model(&self) -> ChartView {
        ChartView { id: self.id, name: self.name@ }
    }
}

impl Clone for Chart {
    fn clone(&self) -> (res: Self)
        ensures
            res == *self,
    {
        Chart { id: self.id, name: self.name.clone() }
    }
}

/// The record of a play.
#[derive(Debug, Clone, Copy, PartialEq)]
pub struct Record {
    /// The record's id.
    pub id: i32,
    /// Who played.
    pub player: i32,
    /// The chart that was played, where the record says so.
    pub chart: Option<i32>,
    /// The score.
    pub score: i32,
    /// The number of notes judged perfect.
    pub perfect: i32,
    /// The number of notes judged good.
    pub good: i32,
    /// The number of notes judged bad.
    pub bad: i32,
    /// The number of notes missed.
    pub miss: i32,
    /// The longest combo.
    pub max_combo: i32,
    /// The accuracy.
    pub accuracy: Float32,
    /// Whether no combo was broken.
    pub full_combo: bool,
    /// The standard deviation.
    pub std: Float32,
    /// The score of the standard deviation.
    pub std_score: Float32,
}

impl HasModel for Record {
    type Model = Record;

    open spec fn model(&self) -> Record {
        *self
    }
}

/// The configuration of a room.
#[derive(Debug, PartialEq, Eq)]
pub struct RoomConfig {
    /// The users who may watch.
    pub monitors: Vec<i32>,
}

impl Default for RoomConfig {
    fn default() -> (res: Self)
        ensures
            res.monitors@ == Seq::<i32>::empty(),
    {
        RoomConfig { monitors: Vec::new() }
    }
}

impl HasModel for RoomConfig {
    type Model = Seq<i32>;

    open spec fn model(&self) -> Seq<i32> {
        self.monitors@
    }
}

impl Clone for RoomConfig {
    fn clone(&self) -> (res: Self)
        ensures
            res.model() == self.model(),
    {
        RoomConfig { monitors: copy_ids(&self.monitors) }
    }
}

impl RoomConfig {
    /// Whether a user may watch.
    pub fn may_monitor(&self, user_id: i32) -> (res: bool)
        ensures
            res == self.monitors@.contains(user_id),
    {
        let mut i: usize = 0;
        while i < self.monitors.len()
            invariant
                i <= self.monitors.len(),
                forall|j: int| 0 <= j < i ==> self.monitors@[j] != user_id,
            decreases self.monitors.len() - i,
        {
            if self.monitors[i] == user_id {
                return true;
            }
            i = i + 1;
        }
        false
    }
}

/// Where a command comes from.
#[derive(Debug, Clone, Copy, PartialEq, Eq, Structural)]
pub enum Origin {
    /// The connection of a user.
    Client {
        /// The user.
        user_id: i32,
    },
    /// The server itself.
    System,
}

/// The context of a command.
#[derive(Debug, PartialEq, Eq)]
pub struct CmdCtx {
    /// Where the command comes from.
    pub origin: Origin,
    /// The room the command goes to.
    pub room_id: RoomId,
}

impl Clone for CmdCtx {
    fn clone(&self) -> (res: Self)
        ensures
            res == *self,
    {
        CmdCtx { origin: self.origin, room_id: self.room_id.clone() }
    }
}

/// Why a command was refused.
#[derive(Debug, Clone, Copy, PartialEq, Eq, Hash, Structural)]
pub enum RoomErrorCode {
    /// The user is in a room already.
    AlreadyInRoom,
    /// There is a room with this id.
    RoomIdOccupied,
    /// There is no room with this id.
    RoomNotFound,
    /// The room is locked.
    RoomLocked,
    /// A game is going on in the room.
    GameOngoing,
    /// The user may not watch.
    CannotMonitor,
    /// The room has its eight players.
    RoomFull,
    /// Only the host may do this.
    OnlyHost,
    /// The user is in no room.
    NotInRoom,
    /// The room is not in the state for this.
    InvalidState,
    /// No chart was selected.
    NoChartSelected,
    /// The user is ready already.
    AlreadyReady,
    /// The user is not ready.
    NotReady,
    /// The record is not a valid one.
    InvalidRecord,
    /// The user has uploaded a record already.
    AlreadyUploaded,
    /// The user has aborted already.
    AlreadyAborted,
    /// The user sends commands too fast.
    TooManyRequests,
}

/// Why a command failed: it was refused, or something broke. Only the latter counts as an error
/// of the server.
#[allow(inconsistent_fields)]
#[derive(Debug, PartialEq, Eq)]
pub enum RoomError {
    /// The command was refused.
    Business {
        /// The reason.
        code: RoomErrorCode,
        /// The reason in words, for the client.
        msg: String,
    },
    /// Something broke.
    Internal {
        /// What broke, for the log.
        msg: String,
    },
}

/// The mathematical content of a [`RoomError`].
#[verifier::ext_equal]
pub enum RoomErrorView {
    Business { code: RoomErrorCode, msg: Seq<char> },
    Internal { msg: Seq<char> },
}

impl HasModel for RoomError {
    type Model = RoomErrorView;

    open spec fn model(&self) -> RoomErrorView {
        match self {
            RoomError::Business { code, msg } => RoomErrorView::Business { code: *code, msg: msg@ },
            RoomError::Internal { msg } => RoomErrorView::Internal { msg: msg@ },
        }
    }
}

impl Clone for RoomError {
    fn clone(&self) -> (res: Self)
        ensures
            res == *self,
    {
        match self {
            RoomError::Business { code, msg } => RoomError::Business {
                code: *code,
                msg: msg.clone(),
            },
            RoomError::Internal { msg } => RoomError::Internal { msg: msg.clone() },
        }
    }
}

impl RoomError {
    /// The error in words: a refusal as it is, a failure marked as internal.
    pub fn message(&self) -> (res: String)
        ensures
            res@ == match self.model() {
                RoomErrorView::Business { code, msg } => msg,
                RoomErrorView::Internal { msg } => "internal error: "@ + msg,
            },
    {
        match self {
            RoomError::Business { code: _, msg } => msg.clone(),
            RoomError::Internal { msg } => text::join("internal error: ", msg.as_str()),
        }
    }
}

/// A refusal.
pub fn business(code: RoomErrorCode, msg: &str) -> (err: RoomError)
    ensures
        err.model() == (RoomErrorView::Business { code, msg: msg@ }),
{
    RoomError::Business { code, msg: msg.to_owned() }
}

/// A failure.
pub fn internal(msg: &str) -> (err: RoomError)
    ensures
        err.model() == (RoomErrorView::Internal { msg: msg@ }),
{
    RoomError::Internal { msg: msg.to_owned() }
}

/// The answer to a command.
#[derive(Debug, PartialEq)]
pub enum RoomResponse {
    /// The command was carried out.
    Done,
    /// The command failed.
    Failure(RoomError),
    /// The user has joined.
    JoinRoom(JoinRoomResponse),
    /// The state of the room for a user, if the user is in the room.
    ClientState(Option<ClientRoomState>),
}

/// The mathematical content of a [`RoomResponse`].
#[verifier::ext_equal]
pub enum RoomResponseView {
    Done,
    Failure(RoomErrorView),
    JoinRoom(JoinRoomResponseView),
    ClientState(Option<ClientRoomStateView>),
}

impl HasModel for RoomResponse {
    type Model = RoomResponseView;

    open spec fn model(&self) -> RoomResponseView {
        match self {
            RoomResponse::Done => RoomResponseView::Done,
            RoomResponse::Failure(err) => RoomResponseView::Failure(err.model()),
            RoomResponse::JoinRoom(joined) => RoomResponseView::JoinRoom(joined.model()),
            RoomResponse::ClientState(state) => RoomResponseView::ClientState(state.model()),
        }
    }
}

impl Clone for RoomResponse {
    fn clone(&self) -> (res: Self)
        ensures
            res.model() == self.model(),
    {
        match self {
            RoomResponse::Done => RoomResponse::Done,
            RoomResponse::Failure(err) => RoomResponse::Failure(err.clone()),
            RoomResponse::JoinRoom(joined) => RoomResponse::JoinRoom(joined.clone()),
            RoomResponse::ClientState(Some(state)) => RoomResponse::ClientState(
                Some(state.clone()),
            ),
            RoomResponse::ClientState(None) => RoomResponse::ClientState(None),
        }
    }
}

/// Who gets an event.
#[derive(Debug, PartialEq, Eq)]
pub enum Targets {
    /// Everyone in the room.
    All,
    /// These users.
    Specific(Vec<i32>),
}

/// The mathematical content of [`Targets`].
#[verifier::ext_equal]
pub enum TargetsView {
    All,
    Specific(Seq<i32>),
}

impl HasModel for Targets {
    type Model = TargetsView;

    open spec fn model(&self) -> TargetsView {
        match self {
            Targets::All => TargetsView::All,
            Targets::Specific(ids) => TargetsView::Specific(ids@),
        }
    }
}

/// A copy of a list of users.
pub fn copy_ids(ids: &Vec<i32>) -> (res: Vec<i32>)
    ensures
        res@ == ids@,
{
    let mut res: Vec<i32> = Vec::new();
    let mut i: usize = 0;
    while i < ids.len()
        invariant
            i <= ids.len(),
            res@ == ids@.take(i as int),
        decreases ids.len() - i,
    {
        res.push(ids[i]);
        i = i + 1;
    }
    assert(res@ =~= ids@);
    res
}

impl Clone for Targets {
    fn clone(&self) -> (res: Self)
        ensures
            res.model() == self.model(),
    {
        match self {
            Targets::All => Targets::All,
            Targets::Specific(ids) => Targets::Specific(copy_ids(ids)),
        }
    }
}

/// Something that happened in a room.
///
/// Most events are told to everyone in the room. The two relays are told to the users they name,
/// and that a room closes is told to no user.
#[allow(inconsistent_fields)]
#[derive(Debug, PartialEq)]
#[non_exhaustive]
pub enum RoomEvent {
    /// A user said something.
    Chat {
        /// The room.
        room_id: RoomId,
        /// Who.
        user: i32,
        /// What.
        content: String,
    },
    /// The room was created.
    RoomCreated {
        /// The room.
        room_id: RoomId,
        /// The host.
        host: i32,
    },
    /// A user joined.
    UserJoined {
        /// The room.
        room_id: RoomId,
        /// Who.
        user: UserInfo,
    },
    /// A user left, or was made to leave.
    UserLeft {
        /// The room.
        room_id: RoomId,
        /// Who.
        user: i32,
        /// The user's name.
        name: String,
    },
    /// The host changed.
    NewHost {
        /// The room.
        room_id: RoomId,
        /// The new host.
        new_host: i32,
        /// The old host.
        old_host: i32,
    },
    /// A chart was selected.
    SelectChart {
        /// The room.
        room_id: RoomId,
        /// By whom.
        user: i32,
        /// The chart's name.
        name: String,
        /// The chart's id.
        id: i32,
    },
    /// The host asked to start.
    GameStart {
        /// The room.
        room_id: RoomId,
        /// The host.
        user: i32,
    },
    /// A user is ready.
    Ready {
        /// The room.
        room_id: RoomId,
        /// Who.
        user: i32,
    },
    /// A user is no longer ready.
    CancelReady {
        /// The room.
        room_id: RoomId,
        /// Who.
        user: i32,
    },
    /// The host called the game off.
    CancelGame {
        /// The room.
        room_id: RoomId,
        /// The host.
        user: i32,
        /// The selected chart, which stays selected.
        chart: Option<i32>,
    },
    /// Everyone is ready, and the game starts.
    StartPlaying {
        /// The room.
        room_id: RoomId,
    },
    /// A player's record was accepted.
    Played {
        /// The room.
        room_id: RoomId,
        /// Who.
        user: i32,
        /// The score.
        score: i32,
        /// The accuracy.
        accuracy: Float32,
        /// Whether no combo was broken.
        full_combo: bool,
    },
    /// Everyone has played or aborted.
    GameEnd {
        /// The room.
        room_id: RoomId,
        /// The selected chart, which stays selected.
        chart: Option<i32>,
    },
    /// A player aborted.
    Abort {
        /// The room.
        room_id: RoomId,
        /// Who.
        user: i32,
    },
    /// The room was locked or unlocked.
    LockRoom {
        /// The room.
        room_id: RoomId,
        /// Whether the room is locked now.
        lock: bool,
    },
    /// The changing of hosts was turned on or off.
    CycleRoom {
        /// The room.
        room_id: RoomId,
        /// Whether the host changes after each game now.
        cycle: bool,
    },
    /// Touches to be relayed to the monitors.
    RelayTouches {
        /// The room.
        room_id: RoomId,
        /// To whom.
        targets: Targets,
        /// Whose touches.
        player: i32,
        /// The touches.
        frames: Arc<Vec<TouchFrame>>,
    },
    /// Judgements to be relayed to the monitors.
    RelayJudges {
        /// The room.
        room_id: RoomId,
        /// To whom.
        targets: Targets,
        /// Whose judgements.
        player: i32,
        /// The judgements.
        judges: Arc<Vec<JudgeEvent>>,
    },
    /// The room is empty and closes.
    RoomClosed {
        /// The room.
        room_id: RoomId,
    },
}

/// The mathematical content of a [`RoomEvent`].
#[allow(inconsistent_fields)]
#[verifier::ext_equal]
pub enum RoomEventView {
    Chat { room_id: Seq<char>, user: i32, content: Seq<char> },
    RoomCreated { room_id: Seq<char>, host: i32 },
    UserJoined { room_id: Seq<char>, user: UserInfoView },
    UserLeft { room_id: Seq<char>, user: i32, name: Seq<char> },
    NewHost { room_id: Seq<char>, new_host: i32, old_host: i32 },
    SelectChart { room_id: Seq<char>, user: i32, name: Seq<char>, id: i32 },
    GameStart { room_id: Seq<char>, user: i32 },
    Ready { room_id: Seq<char>, user: i32 },
    CancelReady { room_id: Seq<char>, user: i32 },
    CancelGame { room_id: Seq<char>, user: i32, chart: Option<i32> },
    StartPlaying { room_id: Seq<char> },
    Played { room_id: Seq<char>, user: i32, score: i32, accuracy: Float32, full_combo: bool },
    GameEnd { room_id: Seq<char>, chart: Option<i32> },
    Abort { room_id: Seq<char>, user: i32 },
    LockRoom { room_id: Seq<char>, lock: bool },
    CycleRoom { room_id: Seq<char>, cycle: bool },
    RelayTouches { room_id: Seq<char>, targets: TargetsView, player: i32, frames: Seq<TouchFrameView> },
    RelayJudges { room_id: Seq<char>, targets: TargetsView, player: i32, judges: Seq<JudgeEvent> },
    RoomClosed { room_id: Seq<char> },
}

impl HasModel for RoomEvent {
    type Model = RoomEventView;

    open spec fn model(&self) -> RoomEventView {
        match self {
            RoomEvent::Chat { room_id, user, content } => RoomEventView::Chat {
                room_id: room_id@,
                user: *user,
                content: content@,
            },
            RoomEvent::RoomCreated { room_id, host } => RoomEventView::RoomCreated {
                room_id: room_id@,
                host: *host,
            },
            RoomEvent::UserJoined { room_id, user } => RoomEventView::UserJoined {
                room_id: room_id@,
                user: user.model(),
            },
            RoomEvent::UserLeft { room_id, user, name } => RoomEventView::UserLeft {
                room_id: room_id@,
                user: *user,
                name: name@,
            },
            RoomEvent::NewHost { room_id, new_host, old_host } => RoomEventView::NewHost {
                room_id: room_id@,
                new_host: *new_host,
                old_host: *old_host,
            },
            RoomEvent::SelectChart { room_id, user, name, id } => RoomEventView::SelectChart {
                room_id: room_id@,
                user: *user,
                name: name@,
                id: *id,
            },
            RoomEvent::GameStart { room_id, user } => RoomEventView::GameStart {
                room_id: room_id@,
                user: *user,
            },
            RoomEvent::Ready { room_id, user } => RoomEventView::Ready {
                room_id: room_id@,
                user: *user,
            },
            RoomEvent::CancelReady { room_id, user } => RoomEventView::CancelReady {
                room_id: room_id@,
                user: *user,
            },
            RoomEvent::CancelGame { room_id, user, chart } => RoomEventView::CancelGame {
                room_id: room_id@,
                user: *user,
                chart: *chart,
            },
            RoomEvent::StartPlaying { room_id } => RoomEventView::StartPlaying {
                room_id: room_id@,
            },
            RoomEvent::Played { room_id, user, score, accuracy, full_combo } => RoomEventView::Played {
                room_id: room_id@,
                user: *user,
                score: *score,
                accuracy: *accuracy,
                full_combo: *full_combo,
            },
            RoomEvent::GameEnd { room_id, chart } => RoomEventView::GameEnd {
                room_id: room_id@,
                chart: *chart,
            },
            RoomEvent::Abort { room_id, user } => RoomEventView::Abort {
                room_id: room_id@,
                user: *user,
            },
            RoomEvent::LockRoom { room_id, lock } => RoomEventView::LockRoom {
                room_id: room_id@,
                lock: *lock,
            },
            RoomEvent::CycleRoom { room_id, cycle } => RoomEventView::CycleRoom {
                room_id: room_id@,
                cycle: *cycle,
            },
            RoomEvent::RelayTouches { room_id, targets, player, frames } => RoomEventView::RelayTouches {
                room_id: room_id@,
                targets: targets.model(),
                player: *player,
                frames: frames.model(),
            },
            RoomEvent::RelayJudges { room_id, targets, player, judges } => RoomEventView::RelayJudges {
                room_id: room_id@,
                targets: targets.model(),
                player: *player,
                judges: judges.model(),
            },
            RoomEvent::RoomClosed { room_id } => RoomEventView::RoomClosed {
                room_id: room_id@,
            },
        }
    }
}

impl Clone for RoomEvent {
    fn clone(&self) -> (res: Self)
        ensures
            res.model() == self.model(),
    {
        match self {
            RoomEvent::Chat { room_id, user, content } => RoomEvent::Chat {
                room_id: room_id.clone(),
                user: *user,
                content: content.clone(),
            },
            RoomEvent::RoomCreated { room_id, host } => RoomEvent::RoomCreated {
                room_id: room_id.clone(),
                host: *host,
            },
            RoomEvent::UserJoined { room_id, user } => RoomEvent::UserJoined {
                room_id: room_id.clone(),
                user: user.clone(),
            },
            RoomEvent::UserLeft { room_id, user, name } => RoomEvent::UserLeft {
                room_id: room_id.clone(),
                user: *user,
                name: name.clone(),
            },
            RoomEvent::NewHost { room_id, new_host, old_host } => RoomEvent::NewHost {
                room_id: room_id.clone(),
                new_host: *new_host,
                old_host: *old_host,
            },
            RoomEvent::SelectChart { room_id, user, name, id } => RoomEvent::SelectChart {
                room_id: room_id.clone(),
                user: *user,
                name: name.clone(),
                id: *id,
            },
            RoomEvent::GameStart { room_id, user } => RoomEvent::GameStart {
                room_id: room_id.clone(),
                user: *user,
            },
            RoomEvent::Ready { room_id, user } => RoomEvent::Ready {
                room_id: room_id.clone(),
                user: *user,
            },
            RoomEvent::CancelReady { room_id, user } => RoomEvent::CancelReady {
                room_id: room_id.clone(),
                user: *user,
            },
            RoomEvent::CancelGame { room_id, user, chart } => RoomEvent::CancelGame {
                room_id: room_id.clone(),
                user: *user,
                chart: *chart,
            },
            RoomEvent::StartPlaying { room_id } => RoomEvent::StartPlaying {
                room_id: room_id.clone(),
            },
            RoomEvent::Played { room_id, user, score, accuracy, full_combo } => RoomEvent::Played {
                room_id: room_id.clone(),
                user: *user,
                score: *score,
                accuracy: *accuracy,
                full_combo: *full_combo,
            },
            RoomEvent::GameEnd { room_id, chart } => RoomEvent::GameEnd {
                room_id: room_id.clone(),
                chart: *chart,
            },
            RoomEvent::Abort { room_id, user } => RoomEvent::Abort {
                room_id: room_id.clone(),
                user: *user,
            },
            RoomEvent::LockRoom { room_id, lock } => RoomEvent::LockRoom {
                room_id: room_id.clone(),
                lock: *lock,
            },
            RoomEvent::CycleRoom { room_id, cycle } => RoomEvent::CycleRoom {
                room_id: room_id.clone(),
                cycle: *cycle,
            },
            RoomEvent::RelayTouches { room_id, targets, player, frames } => RoomEvent::RelayTouches {
                room_id: room_id.clone(),
                targets: targets.clone(),
                player: *player,
                frames: share(frames),
            },
            RoomEvent::RelayJudges { room_id, targets, player, judges } => RoomEvent::RelayJudges {
                room_id: room_id.clone(),
                targets: targets.clone(),
                player: *player,
                judges: share(judges),
            },
            RoomEvent::RoomClosed { room_id } => RoomEvent::RoomClosed {
                room_id: room_id.clone(),
            },
        }
    }
}

/// Something a room is asked to do.
#[allow(inconsistent_fields)]
#[derive(Debug, PartialEq)]
#[non_exhaustive]
pub enum RoomCommand {
    /// Create the room.
    CreateRoom {
        /// The room.
        id: RoomId,
        /// The host's name.
        name: String,
    },
    /// Join the room.
    JoinRoom {
        /// The room.
        id: RoomId,
        /// Whether to watch rather than to play.
        monitor: bool,
        /// The user's name.
        name: String,
    },
    /// Leave the room.
    LeaveRoom,
    /// Say something.
    Chat {
        /// What.
        message: Varchar<200>,
    },
    /// Select a chart.
    SelectChart {
        /// The chart.
        id: i32,
    },
    /// Start the game.
    RequestStart,
    /// Be ready.
    Ready,
    /// Be no longer ready.
    CancelReady,
    /// Abort playing.
    Abort,
    /// Upload a record.
    Played {
        /// The record.
        id: i32,
    },
    /// Lock or unlock the room.
    LockRoom {
        /// Whether to lock it.
        lock: bool,
    },
    /// Turn the changing of hosts on or off.
    CycleRoom {
        /// Whether to turn it on.
        cycle: bool,
    },
    /// Touches of a player.
    Touches {
        /// The touches.
        frames: Arc<Vec<TouchFrame>>,
    },
    /// Judgements of a player.
    Judges {
        /// The judgements.
        judges: Arc<Vec<JudgeEvent>>,
    },
    /// The clock.
    Tick {
        /// The time.
        now: TimeMs,
    },
    /// A user's connection is lost.
    UserDisconnected {
        /// Who.
        user_id: i32,
        /// The epoch of the lost session.
        epoch: u64,
    },
    /// A user is back.
    UserReconnected {
        /// Who.
        user_id: i32,
        /// The epoch of the new session.
        epoch: u64,
    },
    /// A user was away for too long.
    UserDangleExpired {
        /// Who.
        user_id: i32,
    },
    /// Tell the state of the room for a user.
    GetClientState {
        /// Who.
        user_id: i32,
    },
    /// Use another configuration.
    UpdateConfig {
        /// The configuration.
        config: Arc<RoomConfig>,
    },
    /// A record that was asked for has been fetched, or could not be.
    RecordFetched {
        /// Who uploaded it.
        user_id: i32,
        /// The record's id.
        record_id: i32,
        /// The record.
        record: Result<Record, ApiError>,
    },
    /// Make a user leave.
    AdminKick {
        /// Who.
        user_id: i32,
    },
    /// Announce something.
    AdminBroadcast {
        /// What.
        content: String,
    },
}

impl Clone for RoomCommand {
    fn clone(&self) -> (res: Self)
        ensures
            res == *self,
    {
        match self {
            RoomCommand::CreateRoom { id, name } => RoomCommand::CreateRoom {
                id: id.clone(),
                name: name.clone(),
            },
            RoomCommand::JoinRoom { id, monitor, name } => RoomCommand::JoinRoom {
                id: id.clone(),
                monitor: *monitor,
                name: name.clone(),
            },
            RoomCommand::LeaveRoom => RoomCommand::LeaveRoom,
            RoomCommand::Chat { message } => RoomCommand::Chat {
                message: message.clone(),
            },
            RoomCommand::SelectChart { id } => RoomCommand::SelectChart {
                id: *id,
            },
            RoomCommand::RequestStart => RoomCommand::RequestStart,
            RoomCommand::Ready => RoomCommand::Ready,
            RoomCommand::CancelReady => RoomCommand::CancelReady,
            RoomCommand::Abort => RoomCommand::Abort,
            RoomCommand::Played { id } => RoomCommand::Played {
                id: *id,
            },
            RoomCommand::LockRoom { lock } => RoomCommand::LockRoom {
                lock: *lock,
            },
            RoomCommand::CycleRoom { cycle } => RoomCommand::CycleRoom {
                cycle: *cycle,
            },
            RoomCommand::Touches { frames } => RoomCommand::Touches {
                frames: share(frames),
            },
            RoomCommand::Judges { judges } => RoomCommand::Judges {
                judges: share(judges),
            },
            RoomCommand::Tick { now } => RoomCommand::Tick {
                now: *now,
            },
            RoomCommand::UserDisconnected { user_id, epoch } => RoomCommand::UserDisconnected {
                user_id: *user_id,
                epoch: *epoch,
            },
            RoomCommand::UserReconnected { user_id, epoch } => RoomCommand::UserReconnected {
                user_id: *user_id,
                epoch: *epoch,
            },
            RoomCommand::UserDangleExpired { user_id } => RoomCommand::UserDangleExpired {
                user_id: *user_id,
            },
            RoomCommand::GetClientState { user_id } => RoomCommand::GetClientState {
                user_id: *user_id,
            },
            RoomCommand::UpdateConfig { config } => RoomCommand::UpdateConfig {
                config: share(config),
            },
            RoomCommand::RecordFetched { user_id, record_id, record } => RoomCommand::RecordFetched {
                user_id: *user_id,
                record_id: *record_id,
                record: match record {
                    Ok(record) => Ok(*record),
                    Err(e) => Err(e.clone()),
                },
            },
            RoomCommand::AdminKick { user_id } => RoomCommand::AdminKick {
                user_id: *user_id,
            },
            RoomCommand::AdminBroadcast { content } => RoomCommand::AdminBroadcast {
                content: content.clone(),
            },
        }
    }
}

/// Why a chart or a record could not be fetched.
#[derive(Debug, PartialEq, Eq)]
pub enum ApiError {
    /// The network, a timeout, or what the other side answered.
    Internal {
        /// What happened, for the log.
        msg: String,
    },
}

impl Clone for ApiError {
    fn clone(&self) -> (res: Self)
        ensures
            res == *self,
    {
        match self {
            ApiError::Internal { msg } => ApiError::Internal { msg: msg.clone() },
        }
    }
}

impl ApiError {
    /// The error in words.
    pub fn message(&self) -> (res: String)
        ensures
            res@ == "api error: "@ + self->msg@,
    {
        match self {
            ApiError::Internal { msg } => text::join("api error: ", msg.as_str()),
        }
    }
}

/// A source of random numbers. An implementor may say what it picks, and how it is afterwards;
/// of one that says nothing it may be anything.
pub trait RandomSource: Sized {
    /// Whether the source may pick `pick` out of `len`, and be like `after` then.
    open spec fn may_pick(&self, len: usize, pick: Option<usize>, after: Self) -> bool {
        true
    }

    /// Picks an index out of `len`: one below `len`, or nothing if `len` is zero. Nothing is
    /// proved of the pick but what the implementor states in [`RandomSource::may_pick`]; a room
    /// counts one that is not below `len` as no pick.
    fn pick_index(&mut self, len: usize) -> (pick: Option<usize>)
        ensures
            old(self).may_pick(len, pick, *final(self)),
    ;
}

} // verus!
