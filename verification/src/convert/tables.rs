//! Laws of the conversion: what becomes of each command of a client, and in which words each event
//! is told.

use vstd::prelude::*;

use crate::model::HasModel;
use crate::proto::{ClientCommand, MessageView, ServerCommand, ServerCommandView};
use crate::rooms::{RoomCommand, RoomEventView, RoomState, Targets, TargetsView};

verus! {

/// A command of a client goes to a room as what it is, with all that it says. A sign of life and a
/// login go to none. The name of the user is still open.
pub proof fn client_commands_keep_their_meaning(cmd: ClientCommand, res: Option<RoomCommand>)
    requires
        super::is_for_room(cmd, res),
    ensures
        match (cmd, res) {
            (ClientCommand::Ping, None) => true,
            (ClientCommand::Authenticate { .. }, None) => true,
            (ClientCommand::Chat { message: a }, Some(RoomCommand::Chat { message: b })) => a == b,
            (ClientCommand::Touches { frames: a }, Some(RoomCommand::Touches { frames: b })) => a
                == b,
            (ClientCommand::Judges { judges: a }, Some(RoomCommand::Judges { judges: b })) => a
                == b,
            (ClientCommand::CreateRoom { id: a }, Some(RoomCommand::CreateRoom { id: b, name })) => a
                == b && name@.len() == 0,
            (
                ClientCommand::JoinRoom { id: a, monitor: m },
                Some(RoomCommand::JoinRoom { id: b, monitor: n, name }),
            ) => a == b && m == n && name@.len() == 0,
            (ClientCommand::LeaveRoom, Some(RoomCommand::LeaveRoom)) => true,
            (ClientCommand::LockRoom { lock: a }, Some(RoomCommand::LockRoom { lock: b })) => a
                == b,
            (ClientCommand::CycleRoom { cycle: a }, Some(RoomCommand::CycleRoom { cycle: b })) => a
                == b,
            (ClientCommand::SelectChart { id: a }, Some(RoomCommand::SelectChart { id: b })) => a
                == b,
            (ClientCommand::RequestStart, Some(RoomCommand::RequestStart)) => true,
            (ClientCommand::Ready, Some(RoomCommand::Ready)) => true,
            (ClientCommand::CancelReady, Some(RoomCommand::CancelReady)) => true,
            (ClientCommand::Played { id: a }, Some(RoomCommand::Played { id: b })) => a == b,
            (ClientCommand::Abort, Some(RoomCommand::Abort)) => true,
            _ => false,
        },
{
}

/// The name of the user is put into the commands that have one, and changes no other.
pub proof fn names_are_put_in(cmd: RoomCommand, name: String, res: RoomCommand)
    requires
        super::is_named(cmd, name, res),
    ensures
        match (cmd, res) {
            (RoomCommand::CreateRoom { id: a, .. }, RoomCommand::CreateRoom { id: b, name: n }) => a
                == b && n == name,
            (
                RoomCommand::JoinRoom { id: a, monitor: m, .. },
                RoomCommand::JoinRoom { id: b, monitor: k, name: n },
            ) => a == b && m == k && n == name,
            (RoomCommand::CreateRoom { .. }, _) => false,
            (RoomCommand::JoinRoom { .. }, _) => false,
            _ => res == cmd,
        },
{
}

/// Whether everyone is told one message.
pub open spec fn is_message(
    told: Seq<(TargetsView, ServerCommandView)>,
    message: MessageView,
) -> bool {
    told == seq![(TargetsView::All, ServerCommandView::Message(message))]
}

/// Whether everyone is told one message, and then a state of the room.
pub open spec fn is_message_and_state(
    told: Seq<(TargetsView, ServerCommandView)>,
    message: MessageView,
    state: RoomState,
) -> bool {
    told == seq![
        (TargetsView::All, ServerCommandView::Message(message)),
        (TargetsView::All, ServerCommandView::ChangeState(state)),
    ]
}

/// The words in which each event is told, and to whom.
pub proof fn events_have_their_words(event: RoomEventView)
    ensures
        ({
            let told = super::server_commands(event);
            match event {
                RoomEventView::Chat { user, content, .. } => is_message(
                    told,
                    MessageView::Chat { user, content },
                ),
                RoomEventView::RoomCreated { host, .. } => is_message(
                    told,
                    MessageView::CreateRoom { user: host },
                ),
                RoomEventView::UserJoined { user, .. } => told == seq![
                    (TargetsView::All, ServerCommandView::OnJoinRoom(user)),
                    (
                        TargetsView::All,
                        ServerCommandView::Message(
                            MessageView::JoinRoom { user: user.id, name: user.name },
                        ),
                    ),
                ],
                RoomEventView::UserLeft { user, name, .. } => is_message(
                    told,
                    MessageView::LeaveRoom { user, name },
                ),
                RoomEventView::NewHost { new_host, old_host, .. } => told == seq![
                    (
                        TargetsView::All,
                        ServerCommandView::Message(MessageView::NewHost { user: new_host }),
                    ),
                    (TargetsView::Specific(seq![new_host]), ServerCommandView::ChangeHost(true)),
                    (TargetsView::Specific(seq![old_host]), ServerCommandView::ChangeHost(false)),
                ],
                RoomEventView::SelectChart { user, name, id, .. } => is_message_and_state(
                    told,
                    MessageView::SelectChart { user, name, id },
                    RoomState::SelectChart(Some(id)),
                ),
                RoomEventView::GameStart { user, .. } => is_message_and_state(
                    told,
                    MessageView::GameStart { user },
                    RoomState::WaitingForReady,
                ),
                RoomEventView::Ready { user, .. } => is_message(told, MessageView::Ready { user }),
                RoomEventView::CancelReady { user, .. } => is_message(
                    told,
                    MessageView::CancelReady { user },
                ),
                RoomEventView::CancelGame { user, chart, .. } => is_message_and_state(
                    told,
                    MessageView::CancelGame { user },
                    RoomState::SelectChart(chart),
                ),
                RoomEventView::StartPlaying { .. } => is_message_and_state(
                    told,
                    MessageView::StartPlaying,
                    RoomState::Playing,
                ),
                RoomEventView::Played { user, score, accuracy, full_combo, .. } => is_message(
                    told,
                    MessageView::Played { user, score, accuracy, full_combo },
                ),
                RoomEventView::GameEnd { chart, .. } => is_message_and_state(
                    told,
                    MessageView::GameEnd,
                    RoomState::SelectChart(chart),
                ),
                RoomEventView::Abort { user, .. } => is_message(told, MessageView::Abort { user }),
                RoomEventView::LockRoom { lock, .. } => is_message(
                    told,
                    MessageView::LockRoom { lock },
                ),
                RoomEventView::CycleRoom { cycle, .. } => is_message(
                    told,
                    MessageView::CycleRoom { cycle },
                ),
                RoomEventView::RelayTouches { targets, player, frames, .. } => told == seq![
                    (targets, ServerCommandView::Touches { player, frames }),
                ],
                RoomEventView::RelayJudges { targets, player, judges, .. } => told == seq![
                    (targets, ServerCommandView::Judges { player, judges }),
                ],
                RoomEventView::RoomClosed { .. } => told.len() == 0,
            }
        }),
{
}

/// What is sent is what is told, in the same order and to the same users.
pub proof fn commands_are_told_in_order(out: Seq<(Targets, ServerCommand)>, i: int)
    requires
        0 <= i < out.len(),
    ensures
        super::told(out).len() == out.len(),
        super::told(out)[i].0 == out[i].0.model(),
        super::told(out)[i].1 == out[i].1.model(),
{
}

} // verus!
