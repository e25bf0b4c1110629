//! How commands are treated on their way to a room.

use vstd::prelude::*;

use crate::model::HasModel;
use crate::rooms::{
    internal, Origin, RoomCommand, RoomConfig, RoomError, RoomErrorView, RoomResponse,
    RoomResponseView,
};

verus! {

/// How many commands wait in front of a room.
pub const ROOM_CHANNEL_CAPACITY: usize = 1024;

/// How often the fetch of a record is tried again.
pub const PLAYED_FETCH_RETRIES: usize = 2;

/// How long to wait before the fetch of a record is tried again, in milliseconds.
pub const PLAYED_FETCH_RETRY_DELAY_MS: u64 = 500;

/// What happens to a command when the queue of its room is full.
#[derive(Debug, Clone, Copy, PartialEq, Eq, Structural)]
pub enum QueuePolicy {
    /// It is dropped: another one like it comes soon.
    DropIfFull,
    /// It waits: it must not be lost.
    Wait,
    /// It is refused.
    Reject,
}

/// Whether a command is one of a stream, of which some may be lost.
pub open spec fn is_stream(cmd: RoomCommand) -> bool {
    cmd is Touches || cmd is Judges || cmd is Tick
}

/// Whether a command states a fact about users, asks for the state of a room or manages it, and
/// must not be lost.
pub open spec fn is_fact(cmd: RoomCommand) -> bool {
    ||| cmd is UserDisconnected
    ||| cmd is UserReconnected
    ||| cmd is UserDangleExpired
    ||| cmd is GetClientState
    ||| cmd is RecordFetched
    ||| cmd is AdminKick
    ||| cmd is AdminBroadcast
}

/// What happens to a command when the queue of its room is full.
pub fn queue_policy(cmd: &RoomCommand) -> (policy: QueuePolicy)
    ensures
        policy == if is_stream(*cmd) {
            QueuePolicy::DropIfFull
        } else if is_fact(*cmd) {
            QueuePolicy::Wait
        } else {
            QueuePolicy::Reject
        },
{
    match cmd {
        RoomCommand::Touches { .. } | RoomCommand::Judges { .. } | RoomCommand::Tick { .. } => {
            QueuePolicy::DropIfFull
        },
        RoomCommand::UserDisconnected { .. }
        | RoomCommand::UserReconnected { .. }
        | RoomCommand::UserDangleExpired { .. }
        | RoomCommand::GetClientState { .. }
        | RoomCommand::RecordFetched { .. }
        | RoomCommand::AdminKick { .. }
        | RoomCommand::AdminBroadcast { .. } => QueuePolicy::Wait,
        _ => QueuePolicy::Reject,
    }
}

/// Whether a command has an answer.
pub open spec fn has_answer(cmd: RoomCommand) -> bool {
    !(is_stream(cmd) || cmd is UserDisconnected || cmd is UserReconnected
        || cmd is UserDangleExpired || cmd is RecordFetched || cmd is UpdateConfig)
}

/// Whether a command has an answer, so that who gave it waits for it.
pub fn command_needs_response(cmd: &RoomCommand) -> (res: bool)
    ensures
        res == has_answer(*cmd),
{
    match cmd {
        RoomCommand::CreateRoom { .. }
        | RoomCommand::JoinRoom { .. }
        | RoomCommand::LeaveRoom
        | RoomCommand::Chat { .. }
        | RoomCommand::SelectChart { .. }
        | RoomCommand::RequestStart
        | RoomCommand::Ready
        | RoomCommand::CancelReady
        | RoomCommand::Abort
        | RoomCommand::Played { .. }
        | RoomCommand::LockRoom { .. }
        | RoomCommand::CycleRoom { .. }
        | RoomCommand::GetClientState { .. }
        | RoomCommand::AdminKick { .. }
        | RoomCommand::AdminBroadcast { .. } => true,
        _ => false,
    }
}

/// What came of putting a command into the queue of its room.
#[derive(Debug, Clone, Copy, PartialEq, Eq, Structural)]
pub enum Enqueued {
    /// It is in the queue.
    Accepted,
    /// The queue is full.
    Full,
    /// The room is gone.
    Gone,
}

/// Whether who gave a command is told that it did not get into the queue of its room. A command of
/// a stream is lost without a word.
pub fn after_enqueue(policy: QueuePolicy, outcome: Enqueued) -> (res: Result<(), RoomError>)
    ensures
        match (policy, outcome) {
            (_, Enqueued::Accepted) | (QueuePolicy::DropIfFull, _) => res is Ok,
            (QueuePolicy::Wait, _) => res is Err && res->Err_0.model() == (
            RoomErrorView::Internal { msg: "room closed while enqueueing"@ }),
            (QueuePolicy::Reject, _) => res is Err && res->Err_0.model() == (
            RoomErrorView::Internal { msg: "room command queue full"@ }),
        },
{
    match (policy, outcome) {
        (_, Enqueued::Accepted) | (QueuePolicy::DropIfFull, _) => Ok(()),
        (QueuePolicy::Wait, _) => Err(internal("room closed while enqueueing")),
        (QueuePolicy::Reject, _) => Err(internal("room command queue full")),
    }
}

/// What came back of a command that is in the queue of its room.
#[derive(Debug, PartialEq)]
pub enum Answer {
    /// The command has none.
    NotAwaited,
    /// The answer.
    Received(RoomResponse),
    /// The room is gone, and will not answer.
    Lost,
}

/// What who gave a command is told in the end. A command without an answer counts as carried out.
pub fn after_answer(answer: Answer) -> (res: Result<RoomResponse, RoomError>)
    ensures
        match answer {
            Answer::NotAwaited => res is Ok && res->Ok_0.model() == RoomResponseView::Done,
            Answer::Received(resp) => res == Ok::<RoomResponse, RoomError>(resp),
            Answer::Lost => res is Err && res->Err_0.model() == (RoomErrorView::Internal {
                msg: "room closed before response"@,
            }),
        },
{
    match answer {
        Answer::NotAwaited => Ok(RoomResponse::Done),
        Answer::Received(resp) => Ok(resp),
        Answer::Lost => Err(internal("room closed before response")),
    }
}

/// What the task of a room does next.
#[derive(Debug, Clone, Copy, PartialEq, Eq, Structural)]
pub enum RoomTask {
    /// It waits for commands.
    Serving,
    /// The room is closed: what is in the queue is still answered, and nothing is waited for.
    Draining,
    /// It ends, and the room is taken off the table.
    Over,
}

/// What happened to the task of a room.
#[derive(Debug, Clone, Copy, PartialEq, Eq, Structural)]
pub enum TaskEvent {
    /// A command was carried out; the room closed if `closed`.
    Handled { closed: bool },
    /// There is nothing in the queue.
    Empty,
    /// No one can put anything into the queue any more, and there is nothing in it.
    Ended,
}

/// What the task of a room does next.
pub open spec fn task_after(task: RoomTask, event: TaskEvent) -> RoomTask {
    match (task, event) {
        (RoomTask::Serving, TaskEvent::Handled { closed: true }) => RoomTask::Draining,
        (RoomTask::Serving, TaskEvent::Handled { closed: false }) => RoomTask::Serving,
        (RoomTask::Serving, TaskEvent::Empty) => RoomTask::Serving,
        (RoomTask::Draining, TaskEvent::Handled { .. }) => RoomTask::Draining,
        _ => RoomTask::Over,
    }
}

impl RoomTask {
    /// What the task of a room does next.
    pub fn next(self, event: TaskEvent) -> (res: RoomTask)
        ensures
            res == task_after(self, event),
    {
        match (self, event) {
            (RoomTask::Serving, TaskEvent::Handled { closed }) => if closed {
                RoomTask::Draining
            } else {
                RoomTask::Serving
            },
            (RoomTask::Serving, TaskEvent::Empty) => RoomTask::Serving,
            (RoomTask::Draining, TaskEvent::Handled { .. }) => RoomTask::Draining,
            _ => RoomTask::Over,
        }
    }
}

/// The task of a room that has closed never waits for commands again.
pub proof fn closed_rooms_stay_closed(task: RoomTask, event: TaskEvent)
    requires
        !(task is Serving),
    ensures
        !(task_after(task, event) is Serving),
        task is Over ==> task_after(task, event) is Over,
{
}

/// What is to be done while observers are asked about a command.
#[derive(Debug, PartialEq, Eq)]
pub enum InterceptStep {
    /// Ask the observer with this number.
    Ask(usize),
    /// No one has anything against it: the command goes to its room.
    Pass,
    /// The command is refused.
    Refuse(RoomError),
}

/// What is to be done after some observers were asked about a command, one after the other, and
/// the last of them answered so. The first refusal counts.
pub fn after_observer(asked: usize, total: usize, answer: Result<(), RoomError>) -> (res:
    InterceptStep)
    ensures
        res == match answer {
            Err(err) => InterceptStep::Refuse(err),
            Ok(_) => if asked < total {
                InterceptStep::Ask(asked)
            } else {
                InterceptStep::Pass
            },
        },
{
    match answer {
        Err(err) => InterceptStep::Refuse(err),
        Ok(()) => if asked < total {
            InterceptStep::Ask(asked)
        } else {
            InterceptStep::Pass
        },
    }
}

/// Whether observers are asked before a command goes to its room: they are asked about what users
/// do, but not about the streams of touches and judgements.
pub fn interceptable(origin: Origin, cmd: &RoomCommand) -> (res: bool)
    ensures
        res == (origin is Client && !(cmd is Touches) && !(cmd is Judges)),
{
    let user: bool = match origin {
        Origin::Client { .. } => true,
        Origin::System => false,
    };
    let stream: bool = match cmd {
        RoomCommand::Touches { .. } | RoomCommand::Judges { .. } => true,
        _ => false,
    };
    user && !stream
}

/// The record that has to be fetched because of a command, and who uploaded it.
pub fn record_to_fetch(origin: Origin, cmd: &RoomCommand) -> (res: Option<(i32, i32)>)
    ensures
        res == match (origin, *cmd) {
            (Origin::Client { user_id }, RoomCommand::Played { id }) => Some((user_id, id)),
            _ => None,
        },
{
    match (origin, cmd) {
        (Origin::Client { user_id }, RoomCommand::Played { id }) => Some((user_id, *id)),
        _ => None,
    }
}

/// What to do after an attempt to fetch a record.
#[derive(Debug, Clone, Copy, PartialEq, Eq, Structural)]
pub enum FetchStep {
    /// Tell the room what came of it.
    Deliver,
    /// Wait a moment, and try again.
    Retry,
}

/// What to do after the attempt number `attempt`, counted from zero, to fetch a record: it is
/// tried again until it succeeds, or all tries are used up.
pub fn after_fetch(attempt: usize, success: bool) -> (step: FetchStep)
    ensures
        step == if success || attempt >= PLAYED_FETCH_RETRIES {
            FetchStep::Deliver
        } else {
            FetchStep::Retry
        },
{
    if success || attempt >= PLAYED_FETCH_RETRIES {
        FetchStep::Deliver
    } else {
        FetchStep::Retry
    }
}

/// Whether rooms have to be told of a configuration that was read: it differs from the last one
/// they were told of.
pub fn config_changed(last: Option<&RoomConfig>, read: &RoomConfig) -> (res: bool)
    ensures
        res == match last {
            Some(last) => last.monitors@ != read.monitors@,
            None => true,
        },
{
    match last {
        None => true,
        Some(told) => {
            if told.monitors.len() != read.monitors.len() {
                return true;
            }
            let mut i: usize = 0;
            while i < read.monitors.len()
                invariant
                    last == Some(told),
                    i <= read.monitors.len(),
                    told.monitors.len() == read.monitors.len(),
                    told.monitors@.take(i as int) == read.monitors@.take(i as int),
                decreases read.monitors.len() - i,
            {
                if told.monitors[i] != read.monitors[i] {
                    assert(told.monitors@[i as int] != read.monitors@[i as int]);
                    return true;
                }
                proof {
                    assert(told.monitors@.take(i + 1) =~= told.monitors@.take(i as int).push(
                        told.monitors@[i as int],
                    ));
                    assert(read.monitors@.take(i + 1) =~= read.monitors@.take(i as int).push(
                        read.monitors@[i as int],
                    ));
                }
                i = i + 1;
            }
            assert(told.monitors@.take(i as int) =~= told.monitors@);
            assert(read.monitors@.take(i as int) =~= read.monitors@);
            false
        },
    }
}

/// A fetch is tried at most once more than it may be tried again.
pub open spec fn fetch_attempts(outcomes: spec_fn(nat) -> bool, attempt: nat) -> nat
    decreases PLAYED_FETCH_RETRIES - attempt,
{
    if outcomes(attempt) || attempt >= PLAYED_FETCH_RETRIES {
        attempt + 1
    } else {
        fetch_attempts(outcomes, attempt + 1)
    }
}

/// However its attempts turn out, a fetch ends after at most three of them; and it ends early only
/// with a success.
pub proof fn fetch_ends(outcomes: spec_fn(nat) -> bool)
    ensures
        1 <= fetch_attempts(outcomes, 0) <= PLAYED_FETCH_RETRIES + 1,
        fetch_attempts(outcomes, 0) <= PLAYED_FETCH_RETRIES ==> outcomes(
            (fetch_attempts(outcomes, 0) - 1) as nat,
        ),
{
    reveal_with_fuel(fetch_attempts, 4);
}

} // verus!
