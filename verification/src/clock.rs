//! Times of day: reading `HH:MM:SS`, and the window of the day that a
//! playback is held to.

use chrono::{TimeZone, Timelike};
use vstd::prelude::*;
use crate::text::{
    chars_of, decimal_digits, format_u64, parse_u32, parse_u32_spec, split, split_fields,
    string_of, views,
};

verus! {

/// Why a time of day was refused.
#[derive(Clone, Copy, Debug, PartialEq, Eq, Structural)]
pub enum TimeError {
    /// The text is not made of three parts with colons between.
    Format,
    /// An hour above 23, or a minute or second above 59.
    Range,
}

/// What `HH:MM:SS` text reads as: the seconds since midnight; nothing
/// where one of the three parts is no number; an error where the text is
/// not made of three parts or a part is out of range.
pub open spec fn time_of(s: Seq<char>) -> Result<Option<u32>, TimeError> {
    let f = split(s, ':');
    if f.len() != 3 {
        Err(TimeError::Format)
    } else if parse_u32_spec(f[0]) is None || parse_u32_spec(f[1]) is None || parse_u32_spec(
        f[2],
    ) is None {
        Ok(None)
    } else {
        let h = parse_u32_spec(f[0])->0;
        let m = parse_u32_spec(f[1])->0;
        let sec = parse_u32_spec(f[2])->0;
        if h > 23 || m > 59 || sec > 59 {
            Err(TimeError::Range)
        } else {
            Ok(Some((h * 3600 + m * 60 + sec) as u32))
        }
    }
}

/// Reads a time of day written as `HH:MM:SS` into seconds since midnight.
pub fn parse_time_hms(s: &str) -> (r: Result<Option<u32>, TimeError>)
    ensures
        r == time_of(s@),
        r matches Ok(Some(t)) ==> t < 86400,
{
    let f = split_fields(&chars_of(s), ':');
    if f.len() != 3 {
        return Err(TimeError::Format);
    }
    assert(views(f@)[0] == f@[0]@ && views(f@)[1] == f@[1]@ && views(f@)[2] == f@[2]@);
    let h = match parse_u32(&f[0]) {
        Some(h) => h,
        None => {
            return Ok(None);
        },
    };
    let m = match parse_u32(&f[1]) {
        Some(m) => m,
        None => {
            return Ok(None);
        },
    };
    let sec = match parse_u32(&f[2]) {
        Some(sec) => sec,
        None => {
            return Ok(None);
        },
    };
    if h > 23 || m > 59 || sec > 59 {
        return Err(TimeError::Range);
    }
    Ok(Some(h * 3600 + m * 60 + sec))
}

/// The seconds since midnight at the given hour, minute and second; nothing
/// where one of them is out of range.
pub fn seconds_of_day(hour: u32, minute: u32, second: u32) -> (r: Option<u32>)
    ensures
        r == if hour <= 23 && minute <= 59 && second <= 59 {
            Some((hour * 3600 + minute * 60 + second) as u32)
        } else {
            None
        },
{
    if hour > 23 || minute > 59 || second > 59 {
        None
    } else {
        Some(hour * 3600 + minute * 60 + second)
    }
}

/// Whether a time of day lies in the window from `from` to `to`, both
/// included; a bound that is not given does not bind.
pub open spec fn in_window(seconds: u32, from: Option<u32>, to: Option<u32>) -> bool {
    &&& from matches Some(start) ==> seconds >= start
    &&& to matches Some(end) ==> seconds <= end
}

/// Whether a time of day, in seconds since midnight, lies in the window.
pub fn in_time_window(seconds: u32, from: Option<u32>, to: Option<u32>) -> (b: bool)
    ensures
        b == in_window(seconds, from, to),
{
    let after = match from {
        Some(start) => seconds >= start,
        None => true,
    };
    let before = match to {
        Some(end) => seconds <= end,
        None => true,
    };
    after && before
}

/// The last second of the year 9999, in seconds since the epoch.
pub const LAST_EPOCH: u64 = 253_402_300_799;

/// Asks chrono for the hour, minute and second of the epoch `ts` in the
/// local time zone: `Local.timestamp_opt`, of which the single result is
/// taken, and `Timelike::hour`, `minute` and `second` of it. chrono yields
/// a single time for every number of seconds within the range of its
/// calendar, which reaches from the year 262144 BCE to the year 262142 CE:
/// so it does for every epoch from zero to the end of the year 9999. Which
/// time comes back is for the machine's zone settings to decide, so of the
/// three numbers nothing is claimed but the ranges that chrono documents.
#[verifier::external_body]
fn local_clock(ts: i64) -> (r: Option<(u32, u32, u32)>)
    ensures
        0 <= ts <= LAST_EPOCH ==> r is Some,
        r matches Some(t) ==> t.0 <= 23 && t.1 <= 59 && t.2 <= 59,
{
    match chrono::Local.timestamp_opt(ts, 0).single() {
        Some(t) => Some((t.hour(), t.minute(), t.second())),
        None => None,
    }
}

/// The seconds since midnight at the hour, minute and second of a clock
/// reading; nothing where there is no reading or one of the three is out
/// of range.
pub open spec fn clock_seconds_of(clock: Option<(u32, u32, u32)>) -> Option<u32> {
    match clock {
        Some(t) => if t.0 <= 23 && t.1 <= 59 && t.2 <= 59 {
            Some((t.0 * 3600 + t.1 * 60 + t.2) as u32)
        } else {
            None
        },
        None => None,
    }
}

/// The seconds since midnight of a clock reading of hour, minute and second.
pub fn clock_seconds(clock: Option<(u32, u32, u32)>) -> (r: Option<u32>)
    ensures
        r == clock_seconds_of(clock),
        r matches Some(t) ==> t < 86400,
{
    match clock {
        Some((h, m, sec)) => seconds_of_day(h, m, sec),
        None => None,
    }
}

/// The local time of day of an epoch, in seconds since midnight. Every
/// epoch up to the end of the year 9999 has one; an epoch beyond what the
/// calendar holds has none.
pub fn local_time_of_day(ts: u64) -> (r: Option<u32>)
    ensures
        ts <= LAST_EPOCH ==> r is Some,
        r matches Some(t) ==> t < 86400,
        ts > i64::MAX ==> r is None,
{
    if ts > 0x7FFF_FFFF_FFFF_FFFF {
        return None;
    }
    clock_seconds(local_clock(ts as i64))
}

/// Whether the local time of day of an epoch lies in the window. Without
/// bounds every epoch does; with bounds, an epoch whose local time is not
/// known does not.
pub fn in_local_window(ts: u64, from: Option<u32>, to: Option<u32>) -> (b: bool)
    ensures
        (from is None && to is None) ==> b,
        b ==> exists|t: u32| t < 86400 && in_window(t, from, to),
{
    if from.is_none() && to.is_none() {
        assert(in_window(0, from, to));
        return true;
    }
    match local_time_of_day(ts) {
        Some(t) => {
            let inside = in_time_window(t, from, to);
            if inside {
                assert(t < 86400 && in_window(t, from, to));
            }
            inside
        },
        None => false,
    }
}

/// A number below a hundred written with two digits.
pub open spec fn two_digits(n: u32) -> Seq<char> {
    if n < 10 {
        seq!['0'] + decimal_digits(n as nat)
    } else {
        decimal_digits(n as nat)
    }
}

/// A time of day written as `HH:MM:SS`.
pub open spec fn label_of(hour: u32, minute: u32, second: u32) -> Seq<char> {
    two_digits(hour) + seq![':'] + two_digits(minute) + seq![':'] + two_digits(second)
}

/// Appends a number, with a leading zero where it is below ten.
fn push_two_digits(out: &mut Vec<char>, n: u32)
    ensures
        final(out)@ == old(out)@ + two_digits(n),
{
    if n < 10 {
        out.push('0');
    }
    let digits = format_u64(n as u64);
    let ghost start = out@;
    let mut i: usize = 0;
    while i < digits.len()
        invariant
            i <= digits.len(),
            out@ == start + digits@.take(i as int),
        decreases digits.len() - i,
    {
        out.push(digits[i]);
        assert(digits@.take(i + 1) =~= digits@.take(i as int).push(digits@[i as int]));
        i += 1;
    }
    assert(digits@.take(i as int) =~= digits@);
    assert(out@ =~= old(out)@ + two_digits(n));
}

/// Writes a time of day as `HH:MM:SS`.
pub fn time_label(hour: u32, minute: u32, second: u32) -> (label: String)
    ensures
        label@ == label_of(hour, minute, second),
{
    let mut out: Vec<char> = Vec::new();
    push_two_digits(&mut out, hour);
    out.push(':');
    push_two_digits(&mut out, minute);
    out.push(':');
    push_two_digits(&mut out, second);
    assert(out@ =~= label_of(hour, minute, second));
    string_of(&out)
}

/// A clock reading of hour, minute and second written as `HH:MM:SS`;
/// nothing where there is no reading.
pub open spec fn clock_label_of(clock: Option<(u32, u32, u32)>) -> Option<Seq<char>> {
    match clock {
        Some(t) => Some(label_of(t.0, t.1, t.2)),
        None => None,
    }
}

/// The mathematical value of an optional label.
pub open spec fn label_view(label: Option<String>) -> Option<Seq<char>> {
    match label {
        Some(l) => Some(l@),
        None => None,
    }
}

/// Writes a clock reading of hour, minute and second as `HH:MM:SS`.
pub fn clock_label(clock: Option<(u32, u32, u32)>) -> (r: Option<String>)
    ensures
        label_view(r) == clock_label_of(clock),
{
    match clock {
        Some((h, m, sec)) => Some(time_label(h, m, sec)),
        None => None,
    }
}

/// The local time of day of an epoch written as `HH:MM:SS`. Every epoch up
/// to the end of the year 9999 has one; an epoch beyond what the calendar
/// holds has none.
pub fn local_time_label(ts: u64) -> (r: Option<String>)
    ensures
        ts <= LAST_EPOCH ==> r is Some,
        r matches Some(label) ==> exists|h: u32, m: u32, s: u32|
            h <= 23 && m <= 59 && s <= 59 && label@ == #[trigger] label_of(h, m, s),
        ts > i64::MAX ==> r is None,
{
    if ts > 0x7FFF_FFFF_FFFF_FFFF {
        return None;
    }
    let clock = local_clock(ts as i64);
    let r = clock_label(clock);
    proof {
        match clock {
            Some(t) => {
                assert(t.0 <= 23 && t.1 <= 59 && t.2 <= 59 && r->0@ == label_of(t.0, t.1, t.2));
            },
            None => {},
        }
    }
    r
}

} // verus!
