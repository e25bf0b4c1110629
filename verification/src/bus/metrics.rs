//! How often each command was given, and what came of it.

use vstd::prelude::*;

use crate::rooms::{RoomCommand, RoomError, RoomResponse};

verus! {

/// The number of rows in which commands are counted.
pub const ROWS: usize = 24;

/// The row in which touches and judgements are counted together.
pub const HOT_ROW: usize = 19;

/// The row in which fetched records are counted, and every attempt to fetch one.
pub const RECORD_FETCHED_ROW: usize = 14;

/// How often a command was given, and what came of it. Refusals are no errors of the server.
#[derive(Debug, Clone, Copy, PartialEq, Eq, Structural)]
pub struct CommandStats {
    /// How often the command was given.
    pub calls: u64,
    /// How often it was carried out.
    pub ok: u64,
    /// How often it was refused.
    pub business: u64,
    /// How often it failed.
    pub internal: u64,
}

/// What came of a command.
#[derive(Debug, Clone, Copy, PartialEq, Eq, Structural)]
pub enum Verdict {
    /// It was carried out.
    Success,
    /// It was refused.
    Refused,
    /// It failed.
    Failed,
}

/// The name of a command.
pub open spec fn name_of(cmd: RoomCommand) -> Seq<char> {
    match cmd {
        RoomCommand::Abort => "abort"@,
        RoomCommand::AdminBroadcast { .. } => "admin_broadcast"@,
        RoomCommand::AdminKick { .. } => "admin_kick"@,
        RoomCommand::CancelReady => "cancel_ready"@,
        RoomCommand::Chat { .. } => "chat"@,
        RoomCommand::CreateRoom { .. } => "create_room"@,
        RoomCommand::CycleRoom { .. } => "cycle_room"@,
        RoomCommand::GetClientState { .. } => "get_client_state"@,
        RoomCommand::JoinRoom { .. } => "join_room"@,
        RoomCommand::Judges { .. } => "judges"@,
        RoomCommand::LeaveRoom => "leave_room"@,
        RoomCommand::LockRoom { .. } => "lock_room"@,
        RoomCommand::Played { .. } => "played"@,
        RoomCommand::Ready => "ready"@,
        RoomCommand::RecordFetched { .. } => "record_fetched"@,
        RoomCommand::RequestStart => "request_start"@,
        RoomCommand::SelectChart { .. } => "select_chart"@,
        RoomCommand::Tick { .. } => "tick"@,
        RoomCommand::Touches { .. } => "touches"@,
        RoomCommand::UpdateConfig { .. } => "update_config"@,
        RoomCommand::UserDangleExpired { .. } => "user_dangle_expired"@,
        RoomCommand::UserDisconnected { .. } => "user_disconnected"@,
        RoomCommand::UserReconnected { .. } => "user_reconnected"@,
    }
}

/// The name of a command.
pub fn command_name(cmd: &RoomCommand) -> (name: &'static str)
    ensures
        name@ == name_of(*cmd),
{
    match cmd {
        RoomCommand::Abort => "abort",
        RoomCommand::AdminBroadcast { .. } => "admin_broadcast",
        RoomCommand::AdminKick { .. } => "admin_kick",
        RoomCommand::CancelReady => "cancel_ready",
        RoomCommand::Chat { .. } => "chat",
        RoomCommand::CreateRoom { .. } => "create_room",
        RoomCommand::CycleRoom { .. } => "cycle_room",
        RoomCommand::GetClientState { .. } => "get_client_state",
        RoomCommand::JoinRoom { .. } => "join_room",
        RoomCommand::Judges { .. } => "judges",
        RoomCommand::LeaveRoom => "leave_room",
        RoomCommand::LockRoom { .. } => "lock_room",
        RoomCommand::Played { .. } => "played",
        RoomCommand::Ready => "ready",
        RoomCommand::RecordFetched { .. } => "record_fetched",
        RoomCommand::RequestStart => "request_start",
        RoomCommand::SelectChart { .. } => "select_chart",
        RoomCommand::Tick { .. } => "tick",
        RoomCommand::Touches { .. } => "touches",
        RoomCommand::UpdateConfig { .. } => "update_config",
        RoomCommand::UserDangleExpired { .. } => "user_dangle_expired",
        RoomCommand::UserDisconnected { .. } => "user_disconnected",
        RoomCommand::UserReconnected { .. } => "user_reconnected",
    }
}

/// The name of a row. The rows are in ascending order of their names.
pub open spec fn row_name(row: int) -> Seq<char> {
    if row == 0 {
        "abort"@
    } else if row == 1 {
        "admin_broadcast"@
    } else if row == 2 {
        "admin_kick"@
    } else if row == 3 {
        "cancel_ready"@
    } else if row == 4 {
        "chat"@
    } else if row == 5 {
        "create_room"@
    } else if row == 6 {
        "cycle_room"@
    } else if row == 7 {
        "get_client_state"@
    } else if row == 8 {
        "join_room"@
    } else if row == 9 {
        "judges"@
    } else if row == 10 {
        "leave_room"@
    } else if row == 11 {
        "lock_room"@
    } else if row == 12 {
        "played"@
    } else if row == 13 {
        "ready"@
    } else if row == 14 {
        "record_fetched"@
    } else if row == 15 {
        "request_start"@
    } else if row == 16 {
        "select_chart"@
    } else if row == 17 {
        "tick"@
    } else if row == 18 {
        "touches"@
    } else if row == 19 {
        "touches.judges.hot"@
    } else if row == 20 {
        "update_config"@
    } else if row == 21 {
        "user_dangle_expired"@
    } else if row == 22 {
        "user_disconnected"@
    } else {
        "user_reconnected"@
    }
}

fn name_of_row(row: usize) -> (name: &'static str)
    requires
        row < ROWS,
    ensures
        name@ == row_name(row as int),
{
    match row {
        0 => "abort",
        1 => "admin_broadcast",
        2 => "admin_kick",
        3 => "cancel_ready",
        4 => "chat",
        5 => "create_room",
        6 => "cycle_room",
        7 => "get_client_state",
        8 => "join_room",
        9 => "judges",
        10 => "leave_room",
        11 => "lock_room",
        12 => "played",
        13 => "ready",
        14 => "record_fetched",
        15 => "request_start",
        16 => "select_chart",
        17 => "tick",
        18 => "touches",
        19 => "touches.judges.hot",
        20 => "update_config",
        21 => "user_dangle_expired",
        22 => "user_disconnected",
        _ => "user_reconnected",
    }
}

/// The row in which a command is counted.
pub open spec fn row_of(cmd: RoomCommand) -> int {
    match cmd {
        RoomCommand::Touches { .. } | RoomCommand::Judges { .. } => HOT_ROW as int,
        RoomCommand::Abort => 0,
        RoomCommand::AdminBroadcast { .. } => 1,
        RoomCommand::AdminKick { .. } => 2,
        RoomCommand::CancelReady => 3,
        RoomCommand::Chat { .. } => 4,
        RoomCommand::CreateRoom { .. } => 5,
        RoomCommand::CycleRoom { .. } => 6,
        RoomCommand::GetClientState { .. } => 7,
        RoomCommand::JoinRoom { .. } => 8,
        RoomCommand::LeaveRoom => 10,
        RoomCommand::LockRoom { .. } => 11,
        RoomCommand::Played { .. } => 12,
        RoomCommand::Ready => 13,
        RoomCommand::RecordFetched { .. } => RECORD_FETCHED_ROW as int,
        RoomCommand::RequestStart => 15,
        RoomCommand::SelectChart { .. } => 16,
        RoomCommand::Tick { .. } => 17,
        RoomCommand::UpdateConfig { .. } => 20,
        RoomCommand::UserDangleExpired { .. } => 21,
        RoomCommand::UserDisconnected { .. } => 22,
        RoomCommand::UserReconnected { .. } => 23,
    }
}

/// The row in which a command is counted.
pub fn command_row(cmd: &RoomCommand) -> (row: usize)
    ensures
        row == row_of(*cmd),
        row < ROWS,
{
    match cmd {
        RoomCommand::Touches { .. } | RoomCommand::Judges { .. } => HOT_ROW,
        RoomCommand::Abort => 0,
        RoomCommand::AdminBroadcast { .. } => 1,
        RoomCommand::AdminKick { .. } => 2,
        RoomCommand::CancelReady => 3,
        RoomCommand::Chat { .. } => 4,
        RoomCommand::CreateRoom { .. } => 5,
        RoomCommand::CycleRoom { .. } => 6,
        RoomCommand::GetClientState { .. } => 7,
        RoomCommand::JoinRoom { .. } => 8,
        RoomCommand::LeaveRoom => 10,
        RoomCommand::LockRoom { .. } => 11,
        RoomCommand::Played { .. } => 12,
        RoomCommand::Ready => 13,
        RoomCommand::RecordFetched { .. } => RECORD_FETCHED_ROW,
        RoomCommand::RequestStart => 15,
        RoomCommand::SelectChart { .. } => 16,
        RoomCommand::Tick { .. } => 17,
        RoomCommand::UpdateConfig { .. } => 20,
        RoomCommand::UserDangleExpired { .. } => 21,
        RoomCommand::UserDisconnected { .. } => 22,
        RoomCommand::UserReconnected { .. } => 23,
    }
}

/// A command other than touches and judgements is counted under its own name.
pub proof fn rows_have_the_names_of_commands(cmd: RoomCommand)
    ensures
        row_of(cmd) != HOT_ROW ==> row_name(row_of(cmd)) == name_of(cmd),
        row_of(cmd) == HOT_ROW <==> cmd is Touches || cmd is Judges,
{
}

/// What came of a command.
pub open spec fn verdict_of(result: Result<RoomResponse, RoomError>) -> Verdict {
    match result {
        Ok(RoomResponse::Failure(err)) | Err(err) => if err is Business {
            Verdict::Refused
        } else {
            Verdict::Failed
        },
        Ok(_) => Verdict::Success,
    }
}

/// What came of a command.
pub fn verdict(result: &Result<RoomResponse, RoomError>) -> (res: Verdict)
    ensures
        res == verdict_of(*result),
{
    match result {
        Ok(RoomResponse::Failure(RoomError::Business { .. }))
        | Err(RoomError::Business { .. }) => Verdict::Refused,
        Ok(RoomResponse::Failure(RoomError::Internal { .. }))
        | Err(RoomError::Internal { .. }) => Verdict::Failed,
        Ok(_) => Verdict::Success,
    }
}

/// Nothing was counted.
pub open spec fn no_calls() -> CommandStats {
    CommandStats { calls: 0, ok: 0, business: 0, internal: 0 }
}

/// One more command was counted.
pub open spec fn counted(stats: CommandStats, verdict: Verdict) -> CommandStats {
    CommandStats {
        calls: (stats.calls + 1) as u64,
        ok: if verdict is Success {
            (stats.ok + 1) as u64
        } else {
            stats.ok
        },
        business: if verdict is Refused {
            (stats.business + 1) as u64
        } else {
            stats.business
        },
        internal: if verdict is Failed {
            (stats.internal + 1) as u64
        } else {
            stats.internal
        },
    }
}

/// The rows after one more command was counted. Touches and judgements are only counted, and
/// their number wraps around.
pub open spec fn after_record(rows: Seq<CommandStats>, row: int, verdict: Verdict) -> Seq<
    CommandStats,
> {
    rows.update(
        row,
        if row == HOT_ROW {
            CommandStats {
                calls: if rows[row].calls == u64::MAX {
                    0
                } else {
                    (rows[row].calls + 1) as u64
                },
                ..no_calls()
            }
        } else {
            counted(rows[row], verdict)
        },
    )
}

/// Whether the counters add up: each command was carried out, was refused or has failed. Of touches
/// and judgements there is only the number.
pub open spec fn balanced(rows: Seq<CommandStats>) -> bool {
    &&& rows.len() == ROWS
    &&& forall|i: int|
        0 <= i < ROWS && i != HOT_ROW ==> {
            let stats = #[trigger] rows[i];
            stats.calls == stats.ok + stats.business + stats.internal
        }
    &&& rows[HOT_ROW as int].ok == 0
    &&& rows[HOT_ROW as int].business == 0
    &&& rows[HOT_ROW as int].internal == 0
}

/// The number of failures in all rows.
pub open spec fn failures(rows: Seq<CommandStats>) -> nat
    decreases rows.len(),
{
    if rows.len() == 0 {
        0
    } else {
        failures(rows.drop_last()) + rows.last().internal as nat
    }
}

/// The rows in which something was counted, with their names, out of the first `n` rows.
pub open spec fn listed(rows: Seq<CommandStats>, n: nat) -> Seq<(Seq<char>, CommandStats)>
    decreases n,
{
    if n == 0 {
        Seq::empty()
    } else {
        let before = listed(rows, (n - 1) as nat);
        if rows[n - 1].calls > 0 {
            before.push((row_name(n - 1), rows[n - 1]))
        } else {
            before
        }
    }
}

/// The number of failures in a snapshot.
pub open spec fn listed_failures(entries: Seq<(Seq<char>, CommandStats)>) -> nat
    decreases entries.len(),
{
    if entries.len() == 0 {
        0
    } else {
        listed_failures(entries.drop_last()) + entries.last().1.internal as nat
    }
}

/// The names of a snapshot as texts.
pub open spec fn snapshot_view(snapshot: Seq<(&'static str, CommandStats)>) -> Seq<
    (Seq<char>, CommandStats),
> {
    Seq::new(snapshot.len(), |i: int| (snapshot[i].0@, snapshot[i].1))
}

/// The counters of the server.
pub struct Metrics {
    rows: [CommandStats; 24],
}

impl View for Metrics {
    type V = Seq<CommandStats>;

    closed spec fn view(&self) -> Seq<CommandStats> {
        self.rows@
    }
}

proof fn lemma_failures_update(rows: Seq<CommandStats>, i: int, stats: CommandStats)
    requires
        0 <= i < rows.len(),
    ensures
        failures(rows.update(i, stats)) == failures(rows) - rows[i].internal + stats.internal,
    decreases rows.len(),
{
    let after = rows.update(i, stats);
    if i == rows.len() - 1 {
        assert(after.drop_last() =~= rows.drop_last());
    } else {
        assert(after.drop_last() =~= rows.drop_last().update(i, stats));
        lemma_failures_update(rows.drop_last(), i, stats);
    }
}

proof fn lemma_failures_grow(rows: Seq<CommandStats>, n: int)
    requires
        0 <= n <= rows.len(),
    ensures
        failures(rows.take(n)) <= failures(rows),
    decreases rows.len(),
{
    if n == rows.len() {
        assert(rows.take(n) =~= rows);
    } else {
        assert(rows.take(n) =~= rows.drop_last().take(n));
        lemma_failures_grow(rows.drop_last(), n);
    }
}

/// All failures are in the rows in which something was counted.
proof fn lemma_listed_failures(rows: Seq<CommandStats>, n: nat)
    requires
        balanced(rows),
        n <= ROWS,
    ensures
        listed_failures(listed(rows, n)) == failures(rows.take(n as int)),
    decreases n,
{
    if n > 0 {
        lemma_listed_failures(rows, (n - 1) as nat);
        let before = listed(rows, (n - 1) as nat);
        let entry = (row_name(n - 1), rows[n - 1]);
        assert(before.push(entry).drop_last() =~= before);
        assert(rows.take(n as int).drop_last() =~= rows.take(n - 1));
        assert(rows[n - 1].calls == 0 ==> rows[n - 1].internal == 0);
    }
}

proof fn lemma_no_failures(n: nat)
    ensures
        failures(Seq::new(n, |i: int| no_calls())) == 0,
    decreases n,
{
    if n > 0 {
        let rows = Seq::new(n, |i: int| no_calls());
        assert(rows.drop_last() =~= Seq::new((n - 1) as nat, |i: int| no_calls()));
        lemma_no_failures((n - 1) as nat);
    }
}

impl Metrics {
    #[verifier::type_invariant]
    spec fn adds_up(&self) -> bool {
        &&& balanced(self.rows@)
        &&& failures(self.rows@) <= u64::MAX
    }

    /// Counters that have counted nothing.
    pub fn new() -> (res: Self)
        ensures
            res@ == Seq::new(ROWS as nat, |i: int| no_calls()),
            balanced(res@),
    {
        let rows: [CommandStats; 24] = [CommandStats { calls: 0, ok: 0, business: 0, internal: 0 };
            24];
        proof {
            assert(rows@ =~= Seq::new(ROWS as nat, |i: int| no_calls()));
            lemma_no_failures(ROWS as nat);
        }
        Metrics { rows }
    }

    /// What was counted in a row.
    pub fn stats(&self, row: usize) -> (res: CommandStats)
        requires
            row < ROWS,
        ensures
            res == self@[row as int],
            balanced(self@),
            row != HOT_ROW ==> res.calls == res.ok + res.business + res.internal,
            row == HOT_ROW ==> res.ok == 0 && res.business == 0 && res.internal == 0,
    {
        proof {
            use_type_invariant(self);
        }
        self.rows[row]
    }

    /// Counts a command. Touches and judgements are only counted, and their number wraps around.
    pub fn record(&mut self, row: usize, verdict: Verdict)
        requires
            row < ROWS,
            row != HOT_ROW ==> old(self)@[row as int].calls < u64::MAX,
            row != HOT_ROW && verdict is Failed ==> failures(old(self)@) < u64::MAX,
        ensures
            final(self)@ == after_record(old(self)@, row as int, verdict),
            balanced(final(self)@),
    {
        proof {
            use_type_invariant(&*self);
        }
        let mut stats: CommandStats = self.rows[row];
        if row == HOT_ROW {
            stats.calls = if stats.calls == u64::MAX {
                0
            } else {
                stats.calls + 1
            };
        } else {
            stats.calls = stats.calls + 1;
            match verdict {
                Verdict::Success => {
                    stats.ok = stats.ok + 1;
                },
                Verdict::Refused => {
                    stats.business = stats.business + 1;
                },
                Verdict::Failed => {
                    stats.internal = stats.internal + 1;
                },
            }
        }
        proof {
            lemma_failures_update(self.rows@, row as int, stats);
        }
        let mut rows: [CommandStats; 24] = self.rows;
        rows[row] = stats;
        *self = Metrics { rows };
    }

    /// The rows in which something was counted, in ascending order of their names.
    pub fn snapshot(&self) -> (res: Vec<(&'static str, CommandStats)>)
        ensures
            snapshot_view(res@) == listed(self@, ROWS as nat),
            balanced(self@),
            listed_failures(snapshot_view(res@)) == failures(self@),
    {
        proof {
            use_type_invariant(self);
            lemma_listed_failures(self@, ROWS as nat);
            assert(self@.take(ROWS as int) =~= self@);
        }
        let mut res: Vec<(&'static str, CommandStats)> = Vec::new();
        let mut i: usize = 0;
        assert(snapshot_view(res@) =~= Seq::empty());
        while i < ROWS
            invariant
                i <= ROWS,
                self.rows@.len() == ROWS,
                snapshot_view(res@) == listed(self@, i as nat),
            decreases ROWS - i,
        {
            let ghost before = res@;
            if self.rows[i].calls > 0 {
                res.push((name_of_row(i), self.rows[i]));
                assert(snapshot_view(res@) =~= snapshot_view(before).push(
                    (row_name(i as int), self@[i as int]),
                ));
            }
            i = i + 1;
        }
        res
    }

    /// The number of failures: the errors of the server.
    pub fn internal_errors(&self) -> (res: u64)
        ensures
            res == failures(self@),
    {
        proof {
            use_type_invariant(self);
        }
        let mut sum: u64 = 0;
        let mut i: usize = 0;
        while i < ROWS
            invariant
                i <= ROWS,
                self.rows@.len() == ROWS,
                sum == failures(self.rows@.take(i as int)),
                failures(self.rows@) <= u64::MAX,
            decreases ROWS - i,
        {
            proof {
                assert(self.rows@.take(i + 1).drop_last() =~= self.rows@.take(i as int));
                lemma_failures_grow(self.rows@, i + 1);
            }
            sum = sum + self.rows[i].internal;
            i = i + 1;
        }
        assert(self.rows@.take(i as int) =~= self.rows@);
        sum
    }
}

/// Whether one text comes before another in the order of dictionaries.
pub open spec fn comes_before(a: Seq<char>, b: Seq<char>) -> bool {
    exists|k: int| #[trigger] differs_at(a, b, k)
}

/// Whether two texts are the same up to a position, and the first one has ended there, or has the
/// lower character.
pub open spec fn differs_at(a: Seq<char>, b: Seq<char>, k: int) -> bool {
    &&& 0 <= k <= a.len()
    &&& k < b.len()
    &&& a.take(k) == b.take(k)
    &&& k == a.len() || a[k] < b[k]
}

proof fn lemma_before_is_transitive(a: Seq<char>, b: Seq<char>, c: Seq<char>)
    requires
        comes_before(a, b),
        comes_before(b, c),
    ensures
        comes_before(a, c),
{
    let j = choose|j: int| #[trigger] differs_at(a, b, j);
    let k = choose|k: int| #[trigger] differs_at(b, c, k);
    let m = if j < k {
        j
    } else {
        k
    };
    assert(a.take(m) =~= a.take(j).take(m));
    assert(b.take(m) =~= b.take(j).take(m));
    assert(b.take(m) =~= b.take(k).take(m));
    assert(c.take(m) =~= c.take(k).take(m));
    if j < k {
        assert(b[j] == b.take(k)[j]);
        assert(c[j] == c.take(k)[j]);
    } else if k < j {
        assert(a[k] == a.take(j)[k]);
        assert(b[k] == b.take(j)[k]);
    }
    assert(differs_at(a, c, m));
}

/// The name of each row comes before the name of the next one.
proof fn lemma_next_row(row: int)
    requires
        0 <= row < ROWS - 1,
    ensures
        comes_before(row_name(row), row_name(row + 1)),
{
    if row == 0 {
        reveal_strlit("abort");
        reveal_strlit("admin_broadcast");
        assert("abort"@.take(1) =~= "admin_broadcast"@.take(1));
        assert(differs_at("abort"@, "admin_broadcast"@, 1));
    } else if row == 1 {
        reveal_strlit("admin_broadcast");
        reveal_strlit("admin_kick");
        assert("admin_broadcast"@.take(6) =~= "admin_kick"@.take(6));
        assert(differs_at("admin_broadcast"@, "admin_kick"@, 6));
    } else if row == 2 {
        reveal_strlit("admin_kick");
        reveal_strlit("cancel_ready");
        assert("admin_kick"@.take(0) =~= "cancel_ready"@.take(0));
        assert(differs_at("admin_kick"@, "cancel_ready"@, 0));
    } else if row == 3 {
        reveal_strlit("cancel_ready");
        reveal_strlit("chat");
        assert("cancel_ready"@.take(1) =~= "chat"@.take(1));
        assert(differs_at("cancel_ready"@, "chat"@, 1));
    } else if row == 4 {
        reveal_strlit("chat");
        reveal_strlit("create_room");
        assert("chat"@.take(1) =~= "create_room"@.take(1));
        assert(differs_at("chat"@, "create_room"@, 1));
    } else if row == 5 {
        reveal_strlit("create_room");
        reveal_strlit("cycle_room");
        assert("create_room"@.take(1) =~= "cycle_room"@.take(1));
        assert(differs_at("create_room"@, "cycle_room"@, 1));
    } else if row == 6 {
        reveal_strlit("cycle_room");
        reveal_strlit("get_client_state");
        assert("cycle_room"@.take(0) =~= "get_client_state"@.take(0));
        assert(differs_at("cycle_room"@, "get_client_state"@, 0));
    } else if row == 7 {
        reveal_strlit("get_client_state");
        reveal_strlit("join_room");
        assert("get_client_state"@.take(0) =~= "join_room"@.take(0));
        assert(differs_at("get_client_state"@, "join_room"@, 0));
    } else if row == 8 {
        reveal_strlit("join_room");
        reveal_strlit("judges");
        assert("join_room"@.take(1) =~= "judges"@.take(1));
        assert(differs_at("join_room"@, "judges"@, 1));
    } else if row == 9 {
        reveal_strlit("judges");
        reveal_strlit("leave_room");
        assert("judges"@.take(0) =~= "leave_room"@.take(0));
        assert(differs_at("judges"@, "leave_room"@, 0));
    } else if row == 10 {
        reveal_strlit("leave_room");
        reveal_strlit("lock_room");
        assert("leave_room"@.take(1) =~= "lock_room"@.take(1));
        assert(differs_at("leave_room"@, "lock_room"@, 1));
    } else if row == 11 {
        reveal_strlit("lock_room");
        reveal_strlit("played");
        assert("lock_room"@.take(0) =~= "played"@.take(0));
        assert(differs_at("lock_room"@, "played"@, 0));
    } else if row == 12 {
        reveal_strlit("played");
        reveal_strlit("ready");
        assert("played"@.take(0) =~= "ready"@.take(0));
        assert(differs_at("played"@, "ready"@, 0));
    } else if row == 13 {
        reveal_strlit("ready");
        reveal_strlit("record_fetched");
        assert("ready"@.take(2) =~= "record_fetched"@.take(2));
        assert(differs_at("ready"@, "record_fetched"@, 2));
    } else if row == 14 {
        reveal_strlit("record_fetched");
        reveal_strlit("request_start");
        assert("record_fetched"@.take(2) =~= "request_start"@.take(2));
        assert(differs_at("record_fetched"@, "request_start"@, 2));
    } else if row == 15 {
        reveal_strlit("request_start");
        reveal_strlit("select_chart");
        assert("request_start"@.take(0) =~= "select_chart"@.take(0));
        assert(differs_at("request_start"@, "select_chart"@, 0));
    } else if row == 16 {
        reveal_strlit("select_chart");
        reveal_strlit("tick");
        assert("select_chart"@.take(0) =~= "tick"@.take(0));
        assert(differs_at("select_chart"@, "tick"@, 0));
    } else if row == 17 {
        reveal_strlit("tick");
        reveal_strlit("touches");
        assert("tick"@.take(1) =~= "touches"@.take(1));
        assert(differs_at("tick"@, "touches"@, 1));
    } else if row == 18 {
        reveal_strlit("touches");
        reveal_strlit("touches.judges.hot");
        assert("touches"@.take(7) =~= "touches.judges.hot"@.take(7));
        assert(differs_at("touches"@, "touches.judges.hot"@, 7));
    } else if row == 19 {
        reveal_strlit("touches.judges.hot");
        reveal_strlit("update_config");
        assert("touches.judges.hot"@.take(0) =~= "update_config"@.take(0));
        assert(differs_at("touches.judges.hot"@, "update_config"@, 0));
    } else if row == 20 {
        reveal_strlit("update_config");
        reveal_strlit("user_dangle_expired");
        assert("update_config"@.take(1) =~= "user_dangle_expired"@.take(1));
        assert(differs_at("update_config"@, "user_dangle_expired"@, 1));
    } else if row == 21 {
        reveal_strlit("user_dangle_expired");
        reveal_strlit("user_disconnected");
        assert("user_dangle_expired"@.take(6) =~= "user_disconnected"@.take(6));
        assert(differs_at("user_dangle_expired"@, "user_disconnected"@, 6));
    } else {
        reveal_strlit("user_disconnected");
        reveal_strlit("user_reconnected");
        assert("user_disconnected"@.take(5) =~= "user_reconnected"@.take(5));
        assert(differs_at("user_disconnected"@, "user_reconnected"@, 5));
    }
}

/// The rows are in ascending order of their names.
pub proof fn rows_are_in_order(a: int, b: int)
    requires
        0 <= a < b < ROWS,
    ensures
        comes_before(row_name(a), row_name(b)),
    decreases b - a,
{
    lemma_next_row(b - 1);
    if a < b - 1 {
        rows_are_in_order(a, b - 1);
        lemma_before_is_transitive(row_name(a), row_name(b - 1), row_name(b));
    }
}

/// Every entry of a list of rows is the entry of one of them.
proof fn lemma_listed_rows(rows: Seq<CommandStats>, n: nat, i: int) -> (row: int)
    requires
        0 <= i < listed(rows, n).len(),
    ensures
        0 <= row < n,
        listed(rows, n)[i] == (row_name(row), rows[row]),
        rows[row].calls > 0,
        listed(rows, row as nat).len() == i,
    decreases n,
{
    let before = listed(rows, (n - 1) as nat);
    if i < before.len() {
        lemma_listed_rows(rows, (n - 1) as nat, i)
    } else {
        n - 1
    }
}

proof fn lemma_listed_grows(rows: Seq<CommandStats>, a: nat, b: nat)
    requires
        a <= b,
    ensures
        listed(rows, a).len() <= listed(rows, b).len(),
    decreases b,
{
    if a < b {
        lemma_listed_grows(rows, a, (b - 1) as nat);
    }
}

/// A snapshot is in ascending order of the names in it.
pub proof fn snapshot_is_in_order(rows: Seq<CommandStats>, i: int, j: int)
    requires
        0 <= i < j < listed(rows, ROWS as nat).len(),
    ensures
        comes_before(listed(rows, ROWS as nat)[i].0, listed(rows, ROWS as nat)[j].0),
{
    let a = lemma_listed_rows(rows, ROWS as nat, i);
    let b = lemma_listed_rows(rows, ROWS as nat, j);
    if b <= a {
        lemma_listed_grows(rows, b as nat, a as nat);
    }
    rows_are_in_order(a, b);
}

/// A row is in a snapshot if and only if something was counted in it.
pub proof fn snapshot_holds_what_was_counted(rows: Seq<CommandStats>, row: int)
    requires
        0 <= row < ROWS,
    ensures
        rows[row].calls > 0 ==> listed(rows, ROWS as nat).contains((row_name(row), rows[row])),
        rows[row].calls == 0 ==> forall|i: int|
            0 <= i < listed(rows, ROWS as nat).len() ==> (#[trigger] listed(rows, ROWS as nat)[i]).0
                != row_name(row),
{
    if rows[row].calls > 0 {
        lemma_listed_has(rows, ROWS as nat, row);
    } else {
        assert forall|i: int| 0 <= i < listed(rows, ROWS as nat).len() implies (
        #[trigger] listed(rows, ROWS as nat)[i]).0 != row_name(row) by {
            let other = lemma_listed_rows(rows, ROWS as nat, i);
            lemma_names_differ(row, other);
        }
    }
}

proof fn lemma_listed_has(rows: Seq<CommandStats>, n: nat, row: int)
    requires
        0 <= row < n,
        rows[row].calls > 0,
    ensures
        listed(rows, n).contains((row_name(row), rows[row])),
    decreases n,
{
    let before = listed(rows, (n - 1) as nat);
    let entry = (row_name(row), rows[row]);
    if row == n - 1 {
        assert(listed(rows, n)[before.len() as int] == entry);
    } else {
        lemma_listed_has(rows, (n - 1) as nat, row);
        let i = before.index_of(entry);
        assert(listed(rows, n)[i] == entry);
    }
}

proof fn lemma_names_differ(a: int, b: int)
    requires
        0 <= a < ROWS,
        0 <= b < ROWS,
        a != b,
    ensures
        row_name(a) != row_name(b),
{
    let (x, y) = if a < b {
        (a, b)
    } else {
        (b, a)
    };
    rows_are_in_order(x, y);
    let k = choose|k: int| #[trigger] differs_at(row_name(x), row_name(y), k);
    assert(differs_at(row_name(x), row_name(y), k));
}

/// The rows after several commands were counted.
pub open spec fn after_records(rows: Seq<CommandStats>, history: Seq<(usize, Verdict)>) -> Seq<
    CommandStats,
>
    decreases history.len(),
{
    if history.len() == 0 {
        rows
    } else {
        after_record(
            after_records(rows, history.drop_last()),
            history.last().0 as int,
            history.last().1,
        )
    }
}

/// How many of some commands were counted in a row.
pub open spec fn times(history: Seq<(usize, Verdict)>, row: usize) -> nat
    decreases history.len(),
{
    if history.len() == 0 {
        0
    } else {
        times(history.drop_last(), row) + if history.last().0 == row {
            1nat
        } else {
            0nat
        }
    }
}

/// How many of some commands were counted in a row, and came to this.
pub open spec fn outcomes(history: Seq<(usize, Verdict)>, row: usize, verdict: Verdict) -> nat
    decreases history.len(),
{
    if history.len() == 0 {
        0
    } else {
        outcomes(history.drop_last(), row, verdict) + if history.last() == (row, verdict) {
            1nat
        } else {
            0nat
        }
    }
}

/// The counters tell what was counted: how many commands there were in each row, and what came of
/// them. Of touches and judgements they tell only how many there were. A counter holds 64 bits.
pub proof fn counters_tell_what_was_recorded(history: Seq<(usize, Verdict)>, row: usize)
    requires
        row < ROWS,
        times(history, row) <= u64::MAX,
        forall|i: int| 0 <= i < history.len() ==> (#[trigger] history[i]).0 < ROWS,
    ensures
        ({
            let rows = after_records(Seq::new(ROWS as nat, |i: int| no_calls()), history);
            let stats = rows[row as int];
            &&& stats.calls == times(history, row)
            &&& if row == HOT_ROW {
                stats == (CommandStats { calls: stats.calls, ..no_calls() })
            } else {
                &&& stats.ok == outcomes(history, row, Verdict::Success)
                &&& stats.business == outcomes(history, row, Verdict::Refused)
                &&& stats.internal == outcomes(history, row, Verdict::Failed)
                &&& stats.calls == stats.ok + stats.business + stats.internal
            }
        }),
    decreases history.len(),
{
    lemma_rows_kept(history);
    if history.len() > 0 {
        let front = history.drop_last();
        assert forall|i: int| 0 <= i < front.len() implies (#[trigger] front[i]).0 < ROWS by {
            assert(history[i] == front[i]);
        }
        lemma_rows_kept(front);
        counters_tell_what_was_recorded(front, row);
        assert(history[history.len() - 1] == history.last());
    }
}

proof fn lemma_rows_kept(history: Seq<(usize, Verdict)>)
    requires
        forall|i: int| 0 <= i < history.len() ==> (#[trigger] history[i]).0 < ROWS,
    ensures
        after_records(Seq::new(ROWS as nat, |i: int| no_calls()), history).len() == ROWS,
    decreases history.len(),
{
    if history.len() > 0 {
        let front = history.drop_last();
        assert forall|i: int| 0 <= i < front.len() implies (#[trigger] front[i]).0 < ROWS by {
            assert(history[i] == front[i]);
        }
        lemma_rows_kept(front);
        assert(history[history.len() - 1] == history.last());
    }
}

/// Refusals are no errors of the server: only failures add to their number.
pub proof fn only_failures_are_errors(rows: Seq<CommandStats>, row: int, verdict: Verdict)
    requires
        0 <= row < rows.len(),
        rows[row].calls < u64::MAX,
        rows[row].internal < u64::MAX,
    ensures
        failures(rows.update(row, counted(rows[row], verdict))) == failures(rows) + if verdict
            is Failed {
            1int
        } else {
            0int
        },
{
    lemma_failures_update(rows, row, counted(rows[row], verdict));
}

} // verus!
