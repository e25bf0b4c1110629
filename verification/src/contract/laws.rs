//! Laws of what rooms are tried out with.

use vstd::prelude::*;

use crate::rooms::{Float32, RandomSource};

use super::SeqRng;

verus! {

/// Every record is one of the player with its id, on the first chart, and a full combo.
pub proof fn records_are_made_up(id: i32)
    ensures
        ({
            let record = super::fake_record(id);
            &&& record.id == id
            &&& record.player == id
            &&& record.chart == Some(1i32)
            &&& record.score == 100
            &&& record.perfect == 1
            &&& record.good == 2
            &&& record.bad == 3
            &&& record.miss == 4
            &&& record.max_combo == 5
            &&& record.full_combo
            &&& record.accuracy == (Float32 { bits: 0x3F7D_70A4 })
            &&& record.std == (Float32 { bits: 0x3DCC_CCCD })
            &&& record.std_score == (Float32 { bits: 0x3F66_6666 })
        }),
{
}

/// A source picks what it was told, in order, and the first of what there is when it was told no
/// more.
pub proof fn picks_come_in_order(source: SeqRng, len: usize, pick: Option<usize>, after: SeqRng)
    requires
        source.may_pick(len, pick, after),
    ensures
        source@.len() > 0 ==> pick == Some(source@[0]) && after@ == source@.skip(1),
        source@.len() == 0 ==> after@.len() == 0 && pick == if len > 0 {
            Some(0usize)
        } else {
            None
        },
{
    if source@.len() > 0 {
        assert(source@.drop_first() =~= source@.skip(1));
    }
}

} // verus!
