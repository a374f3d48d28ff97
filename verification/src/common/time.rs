use vstd::prelude::*;

verus! {

/// Milliseconds since the Unix epoch on the system clock, or 0 where the clock
/// reads earlier than the epoch. Nothing is promised of the value: the clock
/// may be set at any time.
#[verifier::external_body]
pub fn now_millis() -> u64 {
    match std::time::SystemTime::now().duration_since(std::time::UNIX_EPOCH) {
        Ok(elapsed) => elapsed.as_millis() as u64,
        Err(_) => 0,
    }
}

/// Seconds since the epoch of an instant, read on a clock that shows `now`:
/// an instant already past counts as `now`; a count beyond `u64` saturates.
pub open spec fn unix_seconds_of(instant: u128, now: u64) -> u64 {
    let at: int = if instant >= now { instant as int } else { now as int };
    if at / 1000 > u64::MAX { u64::MAX } else { (at / 1000) as u64 }
}

/// The instant (milliseconds since the epoch) of a Unix timestamp in seconds,
/// read on a clock that shows `now`: the current instant plus the whole seconds
/// still to come, or the current instant when the timestamp is not ahead.
pub open spec fn instant_of_unix_seconds(timestamp: u64, now: u64) -> u128 {
    let now_unix = now / 1000;
    if timestamp > now_unix {
        (now + (timestamp - now_unix) * 1000) as u128
    } else {
        now as u128
    }
}

/// `instant_to_unix_timestamp` at the given reading of the clock.
pub fn instant_to_unix_timestamp_at(instant: u128, now: u64) -> (r: u64)
    ensures
        r == unix_seconds_of(instant, now),
{
    let at: u128 = if instant >= now as u128 { instant } else { now as u128 };
    let secs: u128 = at / 1000;
    if secs > u64::MAX as u128 {
        u64::MAX
    } else {
        secs as u64
    }
}

/// The Unix timestamp, in seconds, of an instant given in milliseconds on the
/// system clock; an instant already past counts as now.
pub fn instant_to_unix_timestamp(instant: u128) -> (r: u64)
    ensures
        exists|now: u64| r == unix_seconds_of(instant, now),
{
    let now = now_millis();
    instant_to_unix_timestamp_at(instant, now)
}

/// `unix_timestamp_to_instant` at the given reading of the clock.
pub fn unix_timestamp_to_instant_at(timestamp: u64, now: u64) -> (r: u128)
    ensures
        r == instant_of_unix_seconds(timestamp, now),
{
    let now_unix: u64 = now / 1000;
    if timestamp > now_unix {
        let diff: u64 = timestamp - now_unix;
        now as u128 + diff as u128 * 1000
    } else {
        now as u128
    }
}

/// The instant, in milliseconds on the system clock, of a Unix timestamp in
/// seconds; a timestamp not ahead of now gives now.
pub fn unix_timestamp_to_instant(timestamp: u64) -> (r: u128)
    ensures
        exists|now: u64| r == instant_of_unix_seconds(timestamp, now),
{
    let now = now_millis();
    unix_timestamp_to_instant_at(timestamp, now)
}

} // verus!
