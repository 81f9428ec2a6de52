//! Wall-clock access and the verified `hh:mm:ss` rendering. The clock itself
//! is outside code; everything said about it here is what chrono documents.
use vstd::prelude::*;

use chrono::Timelike;

use crate::textfmt::{chars_to_string, push_two_digits, two_digits};

verus! {

/// `hh:mm:ss` for the given time-of-day parts.
pub open spec fn spec_time_str(h: int, m: int, s: int) -> Seq<char> {
    two_digits(h) + seq![':'] + two_digits(m) + seq![':'] + two_digits(s)
}

/// `t` renders some valid local time of day as `hh:mm:ss`.
pub open spec fn is_time_string(t: Seq<char>) -> bool {
    exists|h: int, m: int, s: int|
        0 <= h < 24 && 0 <= m < 60 && 0 <= s < 60 && t == spec_time_str(h, m, s)
}

/// Relies on chrono: `Local::now` returns the current local date-time; the
/// `Timelike` accessors `hour`, `minute` and `second` return values below 24,
/// 60 and 60 (leap seconds are carried in the sub-second part); and
/// `timestamp_micros` returns the microseconds since the Unix epoch.
#[verifier::external_body]
fn local_now_parts() -> (r: (u32, u32, u32, i64))
    ensures
        r.0 < 24,
        r.1 < 60,
        r.2 < 60,
{
    let now = chrono::Local::now();
    (now.hour(), now.minute(), now.second(), now.timestamp_micros())
}

/// Renders a time of day as `hh:mm:ss`, both fields zero padded.
pub fn format_time(h: u32, m: u32, s: u32) -> (r: String)
    requires
        h < 24,
        m < 60,
        s < 60,
    ensures
        r@ == spec_time_str(h as int, m as int, s as int),
{
    let mut out: Vec<char> = Vec::new();
    push_two_digits(&mut out, h as u8);
    out.push(':');
    push_two_digits(&mut out, m as u8);
    out.push(':');
    push_two_digits(&mut out, s as u8);
    assert(out@ =~= spec_time_str(h as int, m as int, s as int));
    chars_to_string(&out)
}

/// The current wall-clock instant: a local `hh:mm:ss` string and the epoch
/// microseconds (clamped at zero for instants before the epoch).
pub fn current_time() -> (r: (String, u64))
    ensures
        is_time_string(r.0@),
{
    let (h, m, s, micros) = local_now_parts();
    let time = format_time(h, m, s);
    let ts: u64 = if micros < 0 {
        0
    } else {
        micros as u64
    };
    (time, ts)
}

} // verus!
