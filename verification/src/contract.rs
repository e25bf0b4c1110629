//! What rooms are tried out with: a source of random numbers that picks what it was told to, and
//! an API that has every chart and every record.

use std::collections::VecDeque;

use vstd::prelude::*;

use crate::rooms::{ApiError, Chart, Float32, RandomSource, Record};
use crate::text;

pub mod laws;

verus! {

/// An API that has every chart and every record. A record is one of the player with its id, on
/// the chart with id 1.
#[derive(Debug, Clone, Copy, PartialEq, Eq, Structural)]
pub struct FakeApi;

/// The record with an id.
pub open spec fn fake_record(id: i32) -> Record {
    Record {
        id,
        player: id,
        chart: Some(1),
        score: 100,
        perfect: 1,
        good: 2,
        bad: 3,
        miss: 4,
        max_combo: 5,
        // 0.99, 0.1 and 0.9
        accuracy: Float32 { bits: 0x3F7D_70A4 },
        full_combo: true,
        std: Float32 { bits: 0x3DCC_CCCD },
        std_score: Float32 { bits: 0x3F66_6666 },
    }
}

impl FakeApi {
    /// The chart with an id.
    pub fn fetch_chart(&self, id: i32) -> (res: Result<Chart, ApiError>)
        ensures
            res matches Ok(chart) && chart.id == id && chart.name@ == "chart-"@
                + text::signed_decimal(id as int),
    {
        let mut name: String = "chart-".to_owned();
        text::push_signed(&mut name, id);
        Ok(Chart { id, name })
    }

    /// The record with an id.
    pub fn fetch_record(&self, id: i32) -> (res: Result<Record, ApiError>)
        ensures
            res == Ok::<Record, ApiError>(fake_record(id)),
    {
        Ok(
            Record {
                id,
                player: id,
                chart: Some(1),
                score: 100,
                perfect: 1,
                good: 2,
                bad: 3,
                miss: 4,
                max_combo: 5,
                accuracy: Float32 { bits: 0x3F7D_70A4 },
                full_combo: true,
                std: Float32 { bits: 0x3DCC_CCCD },
                std_score: Float32 { bits: 0x3F66_6666 },
            },
        )
    }
}

/// A source that picks what it was told to, one pick after the other. Where it was told nothing
/// it picks the first of what there is.
#[derive(Debug)]
pub struct SeqRng {
    picks: VecDeque<usize>,
}

impl View for SeqRng {
    type V = Seq<usize>;

    closed spec fn view(&self) -> Seq<usize> {
        self.picks@
    }
}

/// What is picked out of `len` by a source that was told these picks.
pub open spec fn next_pick(picks: Seq<usize>, len: usize) -> Option<usize> {
    if picks.len() > 0 {
        Some(picks[0])
    } else if len > 0 {
        Some(0)
    } else {
        None
    }
}

/// The picks that are left.
pub open spec fn later_picks(picks: Seq<usize>) -> Seq<usize> {
    if picks.len() > 0 {
        picks.drop_first()
    } else {
        picks
    }
}

impl Default for SeqRng {
    fn default() -> (res: Self)
        ensures
            res@ == Seq::<usize>::empty(),
    {
        SeqRng { picks: VecDeque::new() }
    }
}

impl SeqRng {
    /// Tells the source what to pick after what it was told already.
    pub fn push(&mut self, pick: usize)
        ensures
            final(self)@ == old(self)@.push(pick),
    {
        self.picks.push_back(pick);
    }
}

impl RandomSource for SeqRng {
    open spec fn may_pick(&self, len: usize, pick: Option<usize>, after: Self) -> bool {
        &&& pick == next_pick(self@, len)
        &&& after@ == later_picks(self@)
    }

    fn pick_index(&mut self, len: usize) -> (pick: Option<usize>) {
        match self.picks.pop_front() {
            Some(pick) => {
                assert(self@ =~= old(self)@.drop_first());
                Some(pick)
            },
            None => if len > 0 {
                Some(0)
            } else {
                None
            },
        }
    }
}

} // verus!
