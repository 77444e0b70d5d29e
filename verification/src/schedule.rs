//! Timing decisions of the recording loop, and the session file name.
//!
//! The controller paces one recording cycle per interval and bounds each
//! accumulation by a sampling window. The decisions — is the window closed,
//! how long to pause before the next cycle — are computed here from plain
//! millisecond readings; taking the readings and sleeping are the caller's
//! side of the boundary.

use vstd::prelude::*;
use vstd::string::StringExecFns;

verus! {

/// The milliseconds that have passed from `start` to `now`, zero if the
/// clock reads earlier than `start`.
pub open spec fn elapsed_millis(start: u64, now: u64) -> int {
    if now >= start {
        now - start
    } else {
        0
    }
}

/// How long the controller is to pause after a cycle: the part of the
/// interval that the cycle left unused, and nothing when the cycle overran
/// the interval (the loop then proceeds at once, stretching that one cycle).
pub open spec fn remaining_pause_spec(cycle_start: u64, now: u64, interval: u64) -> int {
    if elapsed_millis(cycle_start, now) >= interval {
        0
    } else {
        interval - elapsed_millis(cycle_start, now)
    }
}

/// Whether the sampling window that opened at `start_millis` has closed by
/// `now_millis`: the accumulation loop stops exactly when the window's span
/// has elapsed, however many reports have arrived.
pub fn window_closed(start_millis: u64, now_millis: u64, window_millis: u64) -> (closed: bool)
    ensures
        closed == (now_millis - start_millis >= window_millis),
{
    if now_millis < start_millis {
        false
    } else {
        now_millis - start_millis >= window_millis
    }
}

/// The pause before the next cycle starts, from the cycle's start instant,
/// the instant now, and the interval span, all in milliseconds.
pub fn remaining_pause(cycle_start_millis: u64, now_millis: u64, interval_millis: u64) -> (d: u64)
    ensures
        d == remaining_pause_spec(cycle_start_millis, now_millis, interval_millis),
{
    let elapsed = if now_millis >= cycle_start_millis {
        now_millis - cycle_start_millis
    } else {
        0
    };
    if elapsed >= interval_millis {
        0
    } else {
        interval_millis - elapsed
    }
}

/// A recording interval given in seconds, as milliseconds; nothing when the
/// span does not fit the millisecond clock.
pub fn interval_millis_of_secs(secs: u64) -> (r: Option<u64>)
    ensures
        r matches Some(m) ==> m == secs * 1000,
        r is Some <==> secs * 1000 <= u64::MAX,
{
    if secs <= u64::MAX / 1000 {
        Some(secs * 1000)
    } else {
        None
    }
}

/// The label that chrono renders for an instant: its UTC calendar date and
/// time as `%Y-%m-%dT%H-%M-%S`. The label depends on the millisecond value
/// alone.
pub uninterp spec fn utc_label_of(millis: i64) -> Seq<char>;

/// Relies on chrono's `DateTime::from_timestamp_millis` and
/// `DateTime::format`: rendering a UTC instant is a function of the
/// millisecond value alone (out-of-range instants render as the empty
/// label).
#[verifier::external_body]
fn format_utc_label(millis: i64) -> (r: String)
    ensures
        r@ == utc_label_of(millis),
{
    match chrono::DateTime::from_timestamp_millis(millis) {
        Some(dt) => dt.format("%Y-%m-%dT%H-%M-%S").to_string(),
        None => String::new(),
    }
}

/// Relies on chrono's `Utc::now` for the instant now, in milliseconds since
/// the Unix epoch; nothing is assumed of the reading.
#[verifier::external_body]
fn now_millis_raw() -> (t: i64) {
    chrono::Utc::now().timestamp_millis()
}

/// The instant now in milliseconds since the Unix epoch, clamped below at
/// zero. Nothing can be promised of a clock reading; callers treat it as an
/// arbitrary instant.
pub fn current_time_millis() -> (t: u64) {
    let raw = now_millis_raw();
    if raw < 0 {
        0u64
    } else {
        raw as u64
    }
}

/// The name of the session's output file: the timestamp label of the
/// session's start, then `_GPS_data.json`.
pub fn log_file_name(start_millis: i64) -> (name: String)
    ensures
        name@ == utc_label_of(start_millis) + "_GPS_data.json"@,
{
    let label = format_utc_label(start_millis);
    label.concat("_GPS_data.json")
}

} // verus!
