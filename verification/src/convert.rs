//! Between the protocol and the rooms: which command of a client is for a room, and what clients
//! are told of what happens in a room.

use vstd::prelude::*;

use crate::model::HasModel;
use crate::proto::{ClientCommand, Message, MessageView, ServerCommand, ServerCommandView};
use crate::rooms::{RoomCommand, RoomEvent, RoomEventView, RoomState, Targets, TargetsView};

pub mod hosts;
pub mod laws;
pub mod tables;

verus! {

/// Whether this is the command for a room that a command of a client stands for. `Ping` and
/// `Authenticate` are for no room. A client does not say its name: see [`with_name`].
pub open spec fn is_for_room(cmd: ClientCommand, res: Option<RoomCommand>) -> bool {
    match cmd {
        ClientCommand::Ping | ClientCommand::Authenticate { .. } => res is None,
        ClientCommand::Chat { message } => res == Some(RoomCommand::Chat { message }),
        ClientCommand::Touches { frames } => res == Some(RoomCommand::Touches { frames }),
        ClientCommand::Judges { judges } => res == Some(RoomCommand::Judges { judges }),
        ClientCommand::CreateRoom { id } => res matches Some(
            RoomCommand::CreateRoom { id: room, name },
        ) && room == id && name@ == Seq::<char>::empty(),
        ClientCommand::JoinRoom { id, monitor } => res matches Some(
            RoomCommand::JoinRoom { id: room, monitor: watch, name },
        ) && room == id && watch == monitor && name@ == Seq::<char>::empty(),
        ClientCommand::LeaveRoom => res == Some(RoomCommand::LeaveRoom),
        ClientCommand::LockRoom { lock } => res == Some(RoomCommand::LockRoom { lock }),
        ClientCommand::CycleRoom { cycle } => res == Some(RoomCommand::CycleRoom { cycle }),
        ClientCommand::SelectChart { id } => res == Some(RoomCommand::SelectChart { id }),
        ClientCommand::RequestStart => res == Some(RoomCommand::RequestStart),
        ClientCommand::Ready => res == Some(RoomCommand::Ready),
        ClientCommand::CancelReady => res == Some(RoomCommand::CancelReady),
        ClientCommand::Played { id } => res == Some(RoomCommand::Played { id }),
        ClientCommand::Abort => res == Some(RoomCommand::Abort),
    }
}

/// The command for a room that a command of a client stands for, if it is for a room.
pub fn client_to_room(cmd: ClientCommand) -> (res: Option<RoomCommand>)
    ensures
        is_for_room(cmd, res),
{
    match cmd {
        ClientCommand::Ping | ClientCommand::Authenticate { .. } => None,
        ClientCommand::Chat { message } => Some(RoomCommand::Chat { message }),
        ClientCommand::Touches { frames } => Some(RoomCommand::Touches { frames }),
        ClientCommand::Judges { judges } => Some(RoomCommand::Judges { judges }),
        ClientCommand::CreateRoom { id } => Some(
            RoomCommand::CreateRoom { id, name: String::new() },
        ),
        ClientCommand::JoinRoom { id, monitor } => Some(
            RoomCommand::JoinRoom { id, monitor, name: String::new() },
        ),
        ClientCommand::LeaveRoom => Some(RoomCommand::LeaveRoom),
        ClientCommand::LockRoom { lock } => Some(RoomCommand::LockRoom { lock }),
        ClientCommand::CycleRoom { cycle } => Some(RoomCommand::CycleRoom { cycle }),
        ClientCommand::SelectChart { id } => Some(RoomCommand::SelectChart { id }),
        ClientCommand::RequestStart => Some(RoomCommand::RequestStart),
        ClientCommand::Ready => Some(RoomCommand::Ready),
        ClientCommand::CancelReady => Some(RoomCommand::CancelReady),
        ClientCommand::Played { id } => Some(RoomCommand::Played { id }),
        ClientCommand::Abort => Some(RoomCommand::Abort),
    }
}

/// Whether this is a command with the name of the user who gives it, where it has one.
pub open spec fn is_named(cmd: RoomCommand, user_name: String, res: RoomCommand) -> bool {
    match cmd {
        RoomCommand::CreateRoom { id, .. } => res == (RoomCommand::CreateRoom {
            id,
            name: user_name,
        }),
        RoomCommand::JoinRoom { id, monitor, .. } => res == (RoomCommand::JoinRoom {
            id,
            monitor,
            name: user_name,
        }),
        _ => res == cmd,
    }
}

/// A command with the name of the user who gives it: a room wants to know the names of those who
/// create or join it.
pub fn with_name(cmd: RoomCommand, user_name: String) -> (res: RoomCommand)
    ensures
        is_named(cmd, user_name, res),
{
    match cmd {
        RoomCommand::CreateRoom { id, .. } => RoomCommand::CreateRoom { id, name: user_name },
        RoomCommand::JoinRoom { id, monitor, .. } => RoomCommand::JoinRoom {
            id,
            monitor,
            name: user_name,
        },
        other => other,
    }
}

/// Everyone in the room is told something that happened.
pub open spec fn announced(message: MessageView) -> (TargetsView, ServerCommandView) {
    (TargetsView::All, ServerCommandView::Message(message))
}

/// Everyone in the room is told the state of the room.
pub open spec fn in_state(state: RoomState) -> (TargetsView, ServerCommandView) {
    (TargetsView::All, ServerCommandView::ChangeState(state))
}

/// One user is told whether they are the host.
pub open spec fn hosting(user: i32, is_host: bool) -> (TargetsView, ServerCommandView) {
    (TargetsView::Specific(seq![user]), ServerCommandView::ChangeHost(is_host))
}

/// Who is told what of an event in a room.
pub open spec fn server_commands(event: RoomEventView) -> Seq<(TargetsView, ServerCommandView)> {
    match event {
        RoomEventView::Chat { room_id: _, user, content } => seq![
            announced(MessageView::Chat { user, content }),
        ],
        RoomEventView::RoomCreated { room_id: _, host } => seq![
            announced(MessageView::CreateRoom { user: host }),
        ],
        RoomEventView::UserJoined { room_id: _, user } => seq![
            (TargetsView::All, ServerCommandView::OnJoinRoom(user)),
            announced(MessageView::JoinRoom { user: user.id, name: user.name }),
        ],
        RoomEventView::UserLeft { room_id: _, user, name } => seq![
            announced(MessageView::LeaveRoom { user, name }),
        ],
        RoomEventView::NewHost { room_id: _, new_host, old_host } => seq![
            announced(MessageView::NewHost { user: new_host }),
            hosting(new_host, true),
            hosting(old_host, false),
        ],
        RoomEventView::SelectChart { room_id: _, user, name, id } => seq![
            announced(MessageView::SelectChart { user, name, id }),
            in_state(RoomState::SelectChart(Some(id))),
        ],
        RoomEventView::GameStart { room_id: _, user } => seq![
            announced(MessageView::GameStart { user }),
            in_state(RoomState::WaitingForReady),
        ],
        RoomEventView::Ready { room_id: _, user } => seq![announced(MessageView::Ready { user })],
        RoomEventView::CancelReady { room_id: _, user } => seq![
            announced(MessageView::CancelReady { user }),
        ],
        RoomEventView::CancelGame { room_id: _, user, chart } => seq![
            announced(MessageView::CancelGame { user }),
            in_state(RoomState::SelectChart(chart)),
        ],
        RoomEventView::StartPlaying { room_id: _ } => seq![
            announced(MessageView::StartPlaying),
            in_state(RoomState::Playing),
        ],
        RoomEventView::Played { room_id: _, user, score, accuracy, full_combo } => seq![
            announced(MessageView::Played { user, score, accuracy, full_combo }),
        ],
        RoomEventView::GameEnd { room_id: _, chart } => seq![
            announced(MessageView::GameEnd),
            in_state(RoomState::SelectChart(chart)),
        ],
        RoomEventView::Abort { room_id: _, user } => seq![announced(MessageView::Abort { user })],
        RoomEventView::LockRoom { room_id: _, lock } => seq![
            announced(MessageView::LockRoom { lock }),
        ],
        RoomEventView::CycleRoom { room_id: _, cycle } => seq![
            announced(MessageView::CycleRoom { cycle }),
        ],
        RoomEventView::RelayTouches { room_id: _, targets, player, frames } => seq![
            (targets, ServerCommandView::Touches { player, frames }),
        ],
        RoomEventView::RelayJudges { room_id: _, targets, player, judges } => seq![
            (targets, ServerCommandView::Judges { player, judges }),
        ],
        RoomEventView::RoomClosed { room_id: _ } => Seq::empty(),
    }
}

/// Who is told what, in the end a list of pairs.
pub open spec fn told(out: Seq<(Targets, ServerCommand)>) -> Seq<
    (TargetsView, ServerCommandView),
> {
    Seq::new(out.len(), |i: int| (out[i].0.model(), out[i].1.model()))
}

fn announce(message: Message) -> (res: (Targets, ServerCommand))
    ensures
        (res.0.model(), res.1.model()) == announced(message.model()),
{
    (Targets::All, ServerCommand::Message(message))
}

fn tell_state(state: RoomState) -> (res: (Targets, ServerCommand))
    ensures
        (res.0.model(), res.1.model()) == in_state(state),
{
    (Targets::All, ServerCommand::ChangeState(state))
}

fn tell_host(user: i32, is_host: bool) -> (res: (Targets, ServerCommand))
    ensures
        (res.0.model(), res.1.model()) == hosting(user, is_host),
{
    let mut users: Vec<i32> = Vec::new();
    users.push(user);
    assert(users@ =~= seq![user]);
    (Targets::Specific(users), ServerCommand::ChangeHost(is_host))
}

/// Who is told what of an event in a room. An event can be told in several commands. That a room
/// closes is told to no one: no one is left in it.
pub fn event_to_server(event: RoomEvent) -> (out: Vec<(Targets, ServerCommand)>)
    ensures
        told(out@) == server_commands(event.model()),
{
    let mut out: Vec<(Targets, ServerCommand)> = Vec::new();
    match event {
        RoomEvent::Chat { room_id: _, user, content } => {
            out.push(announce(Message::Chat { user, content }));
        },
        RoomEvent::RoomCreated { room_id: _, host } => {
            out.push(announce(Message::CreateRoom { user: host }));
        },
        RoomEvent::UserJoined { room_id: _, user } => {
            let message = Message::JoinRoom { user: user.id, name: user.name.clone() };
            out.push((Targets::All, ServerCommand::OnJoinRoom(user)));
            out.push(announce(message));
        },
        RoomEvent::UserLeft { room_id: _, user, name } => {
            out.push(announce(Message::LeaveRoom { user, name }));
        },
        RoomEvent::NewHost { room_id: _, new_host, old_host } => {
            out.push(announce(Message::NewHost { user: new_host }));
            out.push(tell_host(new_host, true));
            out.push(tell_host(old_host, false));
        },
        RoomEvent::SelectChart { room_id: _, user, name, id } => {
            out.push(announce(Message::SelectChart { user, name, id }));
            out.push(tell_state(RoomState::SelectChart(Some(id))));
        },
        RoomEvent::GameStart { room_id: _, user } => {
            out.push(announce(Message::GameStart { user }));
            out.push(tell_state(RoomState::WaitingForReady));
        },
        RoomEvent::Ready { room_id: _, user } => {
            out.push(announce(Message::Ready { user }));
        },
        RoomEvent::CancelReady { room_id: _, user } => {
            out.push(announce(Message::CancelReady { user }));
        },
        RoomEvent::CancelGame { room_id: _, user, chart } => {
            out.push(announce(Message::CancelGame { user }));
            out.push(tell_state(RoomState::SelectChart(chart)));
        },
        RoomEvent::StartPlaying { room_id: _ } => {
            out.push(announce(Message::StartPlaying));
            out.push(tell_state(RoomState::Playing));
        },
        RoomEvent::Played { room_id: _, user, score, accuracy, full_combo } => {
            out.push(announce(Message::Played { user, score, accuracy, full_combo }));
        },
        RoomEvent::GameEnd { room_id: _, chart } => {
            out.push(announce(Message::GameEnd));
            out.push(tell_state(RoomState::SelectChart(chart)));
        },
        RoomEvent::Abort { room_id: _, user } => {
            out.push(announce(Message::Abort { user }));
        },
        RoomEvent::LockRoom { room_id: _, lock } => {
            out.push(announce(Message::LockRoom { lock }));
        },
        RoomEvent::CycleRoom { room_id: _, cycle } => {
            out.push(announce(Message::CycleRoom { cycle }));
        },
        RoomEvent::RelayTouches { room_id: _, targets, player, frames } => {
            out.push((targets, ServerCommand::Touches { player, frames }));
        },
        RoomEvent::RelayJudges { room_id: _, targets, player, judges } => {
            out.push((targets, ServerCommand::Judges { player, judges }));
        },
        RoomEvent::RoomClosed { room_id: _ } => {},
    }
    assert(told(out@) =~= server_commands(event.model()));
    out
}

} // verus!
