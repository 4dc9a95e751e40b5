//! The wall clock, and the identifier that stands for "now".

use vstd::prelude::*;
use crate::entry_id::EntryId;

verus! {

/// `std::time::SystemTime`, a reading of the wall clock. What is inside it is
/// not visible from here.
#[verifier::external_type_specification]
#[verifier::external_body]
pub struct ExSystemTime(std::time::SystemTime);

/// `std::time::SystemTime::now`: the wall clock as it stands. Nothing is
/// promised of it: the clock may be set, and may go back.
#[verifier::external_body]
pub(crate) fn wall_clock() -> std::time::SystemTime {
    std::time::SystemTime::now()
}

/// `std::time::SystemTime::duration_since` the Unix epoch: the time between
/// the epoch and `t`, or `None` where `t` lies before the epoch. Nothing is
/// promised of the result.
#[verifier::external_body]
pub(crate) fn since_epoch(t: &std::time::SystemTime) -> Option<core::time::Duration> {
    t.duration_since(std::time::UNIX_EPOCH).ok()
}

/// `Duration::as_secs`: the whole seconds of a duration. Nothing is promised
/// of the result.
pub assume_specification[ core::time::Duration::as_secs ](d: &core::time::Duration) -> (secs: u64)
;

/// `Duration::subsec_nanos`: the part of a duration below one second, in
/// nanoseconds. That it is less than 1,000,000,000 is assumed of the standard
/// library, not proved.
pub assume_specification[ core::time::Duration::subsec_nanos ](d: &core::time::Duration) -> (nanos:
    u32)
    ensures
        nanos < 1_000_000_000,
;

/// The identifier that stands just before every entry that is appended from
/// the given time on: one millisecond before that time, with sequence 0. The
/// time is given in seconds and nanoseconds since the Unix epoch. There is no
/// such identifier for the first millisecond of the epoch, nor where the
/// milliseconds do not fit 64 bits.
pub open spec fn spec_just_before(secs: u64, nanos: u32) -> Option<EntryId> {
    let ms = secs * 1000 + nanos / 1_000_000;
    if 1 <= ms <= u64::MAX {
        Some(EntryId { ms: (ms - 1) as u64, seq: 0 })
    } else {
        None
    }
}

/// The identifier that stands just before every entry that is appended from
/// the given time on.
pub fn just_before(secs: u64, nanos: u32) -> (r: Option<EntryId>)
    ensures
        r == spec_just_before(secs, nanos),
{
    let below: u64 = (nanos / 1_000_000) as u64;
    if secs > (u64::MAX - below) / 1000 {
        return None;
    }
    let ms: u64 = secs * 1000 + below;
    if ms == 0 {
        return None;
    }
    Some(EntryId { ms: ms - 1, seq: 0 })
}

/// The identifier that stands just before every entry that is appended from
/// now on, by the wall clock; `None` where the clock stands before the Unix
/// epoch, and where `just_before` has none.
pub fn now() -> (r: Option<EntryId>)
    ensures
        r is None || exists|secs: u64, nanos: u32|
            nanos < 1_000_000_000 && r == #[trigger] spec_just_before(secs, nanos),
{
    let clock = wall_clock();
    match since_epoch(&clock) {
        Some(d) => just_before(d.as_secs(), d.subsec_nanos()),
        None => None,
    }
}

} // verus!
