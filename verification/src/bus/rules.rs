//! Laws of how commands are treated and counted, and of observers: what holds of each command.

use vstd::prelude::*;

use crate::config::ListenText;
use crate::rooms::{RoomCommand, RoomError, RoomResponse};

use super::metrics::{CommandStats, Verdict};
use super::policy::{RoomTask, TaskEvent};
use super::watch::FileRead;

verus! {

/// Which commands may be lost, which must not be, and which are refused where the queue of a room
/// is full.
pub proof fn commands_may_be_lost_or_not(cmd: RoomCommand)
    ensures
        super::policy::is_stream(cmd) == match cmd {
            RoomCommand::Touches { .. } => true,
            RoomCommand::Judges { .. } => true,
            RoomCommand::Tick { .. } => true,
            _ => false,
        },
        super::policy::is_fact(cmd) == match cmd {
            RoomCommand::UserDisconnected { .. } => true,
            RoomCommand::UserReconnected { .. } => true,
            RoomCommand::UserDangleExpired { .. } => true,
            RoomCommand::GetClientState { .. } => true,
            RoomCommand::RecordFetched { .. } => true,
            RoomCommand::AdminKick { .. } => true,
            RoomCommand::AdminBroadcast { .. } => true,
            _ => false,
        },
{
}

/// Which commands have an answer: all that someone waits for.
pub proof fn commands_are_answered_or_not(cmd: RoomCommand)
    ensures
        super::policy::has_answer(cmd) == match cmd {
            RoomCommand::CreateRoom { .. } => true,
            RoomCommand::JoinRoom { .. } => true,
            RoomCommand::LeaveRoom => true,
            RoomCommand::Chat { .. } => true,
            RoomCommand::SelectChart { .. } => true,
            RoomCommand::RequestStart => true,
            RoomCommand::Ready => true,
            RoomCommand::CancelReady => true,
            RoomCommand::Abort => true,
            RoomCommand::Played { .. } => true,
            RoomCommand::LockRoom { .. } => true,
            RoomCommand::CycleRoom { .. } => true,
            RoomCommand::GetClientState { .. } => true,
            RoomCommand::AdminKick { .. } => true,
            RoomCommand::AdminBroadcast { .. } => true,
            RoomCommand::Touches { .. } => false,
            RoomCommand::Judges { .. } => false,
            RoomCommand::Tick { .. } => false,
            RoomCommand::UserDisconnected { .. } => false,
            RoomCommand::UserReconnected { .. } => false,
            RoomCommand::UserDangleExpired { .. } => false,
            RoomCommand::RecordFetched { .. } => false,
            RoomCommand::UpdateConfig { .. } => false,
        },
{
}

/// The task of a room waits for commands until the room closes, then deals with what is left, and
/// is over when nothing is left or can come.
pub proof fn tasks_end_when_nothing_is_left(event: TaskEvent, closed: bool)
    ensures
        super::policy::task_after(RoomTask::Serving, TaskEvent::Handled { closed }) == if closed {
            RoomTask::Draining
        } else {
            RoomTask::Serving
        },
        super::policy::task_after(RoomTask::Serving, TaskEvent::Empty) == RoomTask::Serving,
        super::policy::task_after(RoomTask::Serving, TaskEvent::Ended) == RoomTask::Over,
        super::policy::task_after(RoomTask::Draining, TaskEvent::Handled { closed })
            == RoomTask::Draining,
        super::policy::task_after(RoomTask::Draining, TaskEvent::Empty) == RoomTask::Over,
        super::policy::task_after(RoomTask::Draining, TaskEvent::Ended) == RoomTask::Over,
        super::policy::task_after(RoomTask::Over, event) == RoomTask::Over,
{
}

/// How many commands wait in front of a room, and how often and how soon the fetch of a record is
/// tried again.
pub proof fn queues_and_fetches_have_limits(outcomes: spec_fn(nat) -> bool)
    ensures
        super::policy::ROOM_CHANNEL_CAPACITY == 1024,
        super::policy::PLAYED_FETCH_RETRIES == 2,
        super::policy::PLAYED_FETCH_RETRY_DELAY_MS == 500,
        super::policy::fetch_attempts(outcomes, 0) == if outcomes(0) {
            1nat
        } else if outcomes(1) {
            2nat
        } else {
            3nat
        },
{
    reveal_with_fuel(super::policy::fetch_attempts, 4);
}

/// The name of each command, and the row in which it is counted.
pub proof fn commands_have_names(cmd: RoomCommand)
    ensures
        (super::metrics::name_of(cmd), super::metrics::row_of(cmd)) == match cmd {
            RoomCommand::Abort => ("abort"@, 0int),
            RoomCommand::AdminBroadcast { .. } => ("admin_broadcast"@, 1int),
            RoomCommand::AdminKick { .. } => ("admin_kick"@, 2int),
            RoomCommand::CancelReady => ("cancel_ready"@, 3int),
            RoomCommand::Chat { .. } => ("chat"@, 4int),
            RoomCommand::CreateRoom { .. } => ("create_room"@, 5int),
            RoomCommand::CycleRoom { .. } => ("cycle_room"@, 6int),
            RoomCommand::GetClientState { .. } => ("get_client_state"@, 7int),
            RoomCommand::JoinRoom { .. } => ("join_room"@, 8int),
            RoomCommand::Judges { .. } => ("judges"@, 19int),
            RoomCommand::LeaveRoom => ("leave_room"@, 10int),
            RoomCommand::LockRoom { .. } => ("lock_room"@, 11int),
            RoomCommand::Played { .. } => ("played"@, 12int),
            RoomCommand::Ready => ("ready"@, 13int),
            RoomCommand::RecordFetched { .. } => ("record_fetched"@, 14int),
            RoomCommand::RequestStart => ("request_start"@, 15int),
            RoomCommand::SelectChart { .. } => ("select_chart"@, 16int),
            RoomCommand::Tick { .. } => ("tick"@, 17int),
            RoomCommand::Touches { .. } => ("touches"@, 19int),
            RoomCommand::UpdateConfig { .. } => ("update_config"@, 20int),
            RoomCommand::UserDangleExpired { .. } => ("user_dangle_expired"@, 21int),
            RoomCommand::UserDisconnected { .. } => ("user_disconnected"@, 22int),
            RoomCommand::UserReconnected { .. } => ("user_reconnected"@, 23int),
        },
        super::metrics::row_name(19) == "touches.judges.hot"@,
        super::metrics::ROWS == 24,
        super::metrics::HOT_ROW == 19,
        super::metrics::RECORD_FETCHED_ROW == 14,
{
}

/// Each row is named after the command that is counted in it.
pub proof fn rows_have_names(row: int)
    requires
        0 <= row < 24,
    ensures
        super::metrics::row_name(row) == seq![
            "abort"@,
            "admin_broadcast"@,
            "admin_kick"@,
            "cancel_ready"@,
            "chat"@,
            "create_room"@,
            "cycle_room"@,
            "get_client_state"@,
            "join_room"@,
            "judges"@,
            "leave_room"@,
            "lock_room"@,
            "played"@,
            "ready"@,
            "record_fetched"@,
            "request_start"@,
            "select_chart"@,
            "tick"@,
            "touches"@,
            "touches.judges.hot"@,
            "update_config"@,
            "user_dangle_expired"@,
            "user_disconnected"@,
            "user_reconnected"@,
        ][row],
{
}

/// What came of a command: it was refused if it was answered with a refusal, whether by the room or
/// on the way to it; it failed if it was answered with a failure; it was carried out otherwise.
pub proof fn answers_are_judged(result: Result<RoomResponse, RoomError>)
    ensures
        super::metrics::verdict_of(result) == match result {
            Err(RoomError::Business { .. }) => Verdict::Refused,
            Err(RoomError::Internal { .. }) => Verdict::Failed,
            Ok(RoomResponse::Failure(RoomError::Business { .. })) => Verdict::Refused,
            Ok(RoomResponse::Failure(RoomError::Internal { .. })) => Verdict::Failed,
            Ok(RoomResponse::Done) => Verdict::Success,
            Ok(RoomResponse::JoinRoom(_)) => Verdict::Success,
            Ok(RoomResponse::ClientState(_)) => Verdict::Success,
        },
{
}

/// A command that is counted changes its own row only: there is one call more, and one more of what
/// came of it. In the row of touches and judgements there is only one call more, which starts over at
/// zero where the counter is full.
pub proof fn commands_are_counted_once(
    rows: Seq<CommandStats>,
    row: int,
    verdict: Verdict,
    other: int,
)
    requires
        rows.len() == 24,
        0 <= row < 24,
        0 <= other < 24,
        rows[row].calls == rows[row].ok + rows[row].business + rows[row].internal || row == 19,
        rows[row].calls < u64::MAX || row == 19,
    ensures
        ({
            let after = super::metrics::after_record(rows, row, verdict);
            &&& after.len() == 24
            &&& other != row ==> after[other] == rows[other]
            &&& row != 19 ==> {
                &&& after[row].calls == rows[row].calls + 1
                &&& after[row].ok == rows[row].ok + if verdict == Verdict::Success {
                    1int
                } else {
                    0
                }
                &&& after[row].business == rows[row].business + if verdict == Verdict::Refused {
                    1int
                } else {
                    0
                }
                &&& after[row].internal == rows[row].internal + if verdict == Verdict::Failed {
                    1int
                } else {
                    0
                }
            }
            &&& row == 19 ==> {
                &&& after[row].calls == (rows[row].calls + 1) % 0x1_0000_0000_0000_0000
                &&& after[row].ok == 0
                &&& after[row].business == 0
                &&& after[row].internal == 0
            }
        }),
{
}

/// The counters add up: in each row there are as many calls as were carried out, were refused and
/// have failed; in the row of touches and judgements there are only calls.
pub proof fn counters_add_up(rows: Seq<CommandStats>, row: int)
    requires
        super::metrics::balanced(rows),
        0 <= row < 24,
    ensures
        rows.len() == 24,
        row != 19 ==> rows[row].calls == rows[row].ok + rows[row].business + rows[row].internal,
        row == 19 ==> rows[row].ok == 0 && rows[row].business == 0 && rows[row].internal == 0,
{
}

/// Counters that add up still do after one more command was counted.
pub proof fn counting_keeps_the_balance(rows: Seq<CommandStats>, row: int, verdict: Verdict)
    requires
        super::metrics::balanced(rows),
        0 <= row < 24,
        rows[row].calls < u64::MAX || row == 19,
    ensures
        super::metrics::balanced(super::metrics::after_record(rows, row, verdict)),
{
}

/// The failures of the server are those of all rows.
pub proof fn failures_add_up(rows: Seq<CommandStats>, row: CommandStats)
    ensures
        super::metrics::failures(Seq::empty()) == 0,
        super::metrics::failures(rows.push(row)) == super::metrics::failures(rows) + row.internal,
{
    assert(rows.push(row).drop_last() =~= rows);
}

/// Counters that have counted nothing are all zero.
pub proof fn counters_start_at_zero()
    ensures
        super::metrics::no_calls().calls == 0,
        super::metrics::no_calls().ok == 0,
        super::metrics::no_calls().business == 0,
        super::metrics::no_calls().internal == 0,
{
}

/// An observer that is added comes last, unless there is one of its kind: then nothing changes.
pub proof fn observers_are_added_last<M>(
    list: Seq<(Seq<char>, M)>,
    kind: Seq<char>,
    moderator: M,
)
    ensures
        ({
            let after = super::observers::added(list, kind, moderator);
            if exists|i: int| 0 <= i < list.len() && (#[trigger] list[i]).0 == kind {
                after == list
            } else {
                &&& after.len() == list.len() + 1
                &&& after.drop_last() == list
                &&& after.last() == (kind, moderator)
            }
        }),
{
}

/// What is left of the observers when a kind of them is removed: the others, in their order.
pub proof fn observers_are_removed_by_kind<M>(
    list: Seq<(Seq<char>, M)>,
    kind: Seq<char>,
    observer: (Seq<char>, M),
)
    ensures
        ({
            let keep = super::observers::of_other_kind::<M>(kind);
            &&& Seq::<(Seq<char>, M)>::empty().filter(keep).len() == 0
            &&& list.push(observer).filter(keep) == if observer.0 == kind {
                list.filter(keep)
            } else {
                list.filter(keep).push(observer)
            }
        }),
{
    reveal(Seq::filter);
    assert(list.push(observer).drop_last() =~= list);
}

/// Who may watch by what was read: what the file says, or one user by default where it says
/// nothing. Nothing follows from a file that is not there, or cannot be read or understood, or has
/// a listen address in it that is none.
pub proof fn files_say_who_may_watch(read: FileRead)
    ensures
        super::watch::read_monitors(read) == match read {
            FileRead::Text(Ok(file)) => match (file.listen, file.monitors) {
                (Some(ListenText { addr: None, .. }), _) => None,
                (_, Some(monitors)) => Some(monitors@),
                (_, None) => Some(seq![2i32]),
            },
            FileRead::Text(Err(_)) => None,
            FileRead::Missing => None,
            FileRead::Unreadable => None,
        },
{
}

/// Rooms are told what was read if they were not told this last; what they were told last is kept
/// where nothing was read.
pub proof fn news_are_told_once(last: Option<Seq<i32>>, read: FileRead)
    ensures
        match super::watch::read_monitors(read) {
            None => super::watch::told_after(last, read) == last && super::watch::news(
                last,
                read,
            ) is None,
            Some(monitors) => super::watch::told_after(last, read) == Some(monitors)
                && super::watch::news(last, read) == if last == Some(monitors) {
                None
            } else {
                Some(monitors)
            },
        },
{
}

/// The entries of a snapshot are told as they are: each with its name, in the same order.
pub proof fn snapshots_are_told_as_they_are(snapshot: Seq<(&'static str, CommandStats)>, i: int)
    requires
        0 <= i < snapshot.len(),
    ensures
        super::metrics::snapshot_view(snapshot).len() == snapshot.len(),
        super::metrics::snapshot_view(snapshot)[i].0 == snapshot[i].0@,
        super::metrics::snapshot_view(snapshot)[i].1 == snapshot[i].1,
{
}

/// A snapshot of one row more has its entry at the end, if something was counted in it.
pub proof fn snapshots_list_what_was_counted(rows: Seq<CommandStats>, n: nat)
    ensures
        super::metrics::listed(rows, 0).len() == 0,
        super::metrics::listed(rows, n + 1) == if rows[n as int].calls == 0 {
            super::metrics::listed(rows, n)
        } else {
            super::metrics::listed(rows, n).push(
                (super::metrics::row_name(n as int), rows[n as int]),
            )
        },
{
}

} // verus!
