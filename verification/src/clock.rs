//! Decisions taken while a test moves the ledger's clock forward.

use vstd::prelude::*;

verus! {

/// The number of slots that one more round of waiting skips.
pub const WARP_STRIDE: u64 = 400;

/// What to do next while waiting for the clock to pass a timestamp.
#[derive(Clone, Copy, Debug, PartialEq, Eq)]
pub enum WarpStep {
    /// The clock has passed the timestamp.
    Done,
    /// Warp to this slot, then read the clock again.
    WarpTo(u64),
    /// The slot to warp to is beyond the last slot.
    SlotOverflow,
}

/// A time span in seconds as a signed number, as a 64-bit cast reads it:
/// spans beyond the signed range come out negative.
pub open spec fn span_as_signed(time_span: u64) -> int {
    if time_span <= i64::MAX {
        time_span as int
    } else {
        time_span - 0x1_0000_0000_0000_0000
    }
}

/// The step to take in round `round` of waiting for the clock to pass
/// `target`. Rounds count from 1, and each skips `WARP_STRIDE` slots more
/// than the one before.
pub fn next_warp(unix_timestamp: i64, slot: u64, target: i64, round: u64) -> (step: WarpStep)
    ensures
        step == if unix_timestamp > target {
            WarpStep::Done
        } else if slot + round * WARP_STRIDE <= u64::MAX {
            WarpStep::WarpTo((slot + round * WARP_STRIDE) as u64)
        } else {
            WarpStep::SlotOverflow
        },
{
    if unix_timestamp > target {
        return WarpStep::Done;
    }
    match round.checked_mul(WARP_STRIDE) {
        Some(skip) => match slot.checked_add(skip) {
            Some(to) => WarpStep::WarpTo(to),
            None => WarpStep::SlotOverflow,
        },
        None => WarpStep::SlotOverflow,
    }
}

/// The timestamp that lies `time_span` seconds after `unix_timestamp`, or
/// nothing where it is not a 64-bit timestamp.
pub fn timestamp_after(unix_timestamp: i64, time_span: u64) -> (target: Option<i64>)
    ensures
        target == if i64::MIN <= unix_timestamp + span_as_signed(time_span) <= i64::MAX {
            Some((unix_timestamp + span_as_signed(time_span)) as i64)
        } else {
            None
        },
{
    if time_span <= 0x7fff_ffff_ffff_ffff {
        unix_timestamp.checked_add(time_span as i64)
    } else {
        let back: u64 = 0xffff_ffff_ffff_ffff - time_span;
        match unix_timestamp.checked_sub(back as i64) {
            Some(t) => t.checked_sub(1),
            None => None,
        }
    }
}

} // verus!
