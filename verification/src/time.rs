//! Instants of time as plain numbers, and the few questions that are put to
//! chrono about them.

use crate::text::{decimal, from_chars, option_text, push_zero_padded, zero_padded};
use vstd::prelude::*;

verus! {

/// An instant and the offset of the local clock at that instant.
///
/// `secs` and `nanos` count from 1970-01-01 00:00:00 UTC; `offset_secs` is what
/// the local clock is ahead of UTC.
#[derive(Clone, Copy, PartialEq, Eq, Debug, Structural)]
pub struct Timestamp {
    pub secs: i64,
    pub nanos: u32,
    pub offset_secs: i32,
}

pub open spec fn clamp_i64(x: int) -> i64 {
    if x < i64::MIN {
        i64::MIN
    } else if x > i64::MAX {
        i64::MAX
    } else {
        x as i64
    }
}

impl Timestamp {
    /// Nanoseconds since the epoch.
    pub open spec fn total_nanos(self) -> int {
        self.secs * 1_000_000_000 + self.nanos
    }

    /// Whole milliseconds since the epoch.
    pub open spec fn millis(self) -> int {
        self.secs * 1000 + self.nanos / 1_000_000
    }

    /// What the local clock shows at the instant, as seconds since 1970-01-01
    /// 00:00:00 on that clock.
    pub open spec fn local_secs(self) -> int {
        self.secs + self.offset_secs
    }

    /// Whether the parts are those of a reading of a clock: the nanoseconds
    /// stay below one second, and the local clock is less than a day ahead of
    /// UTC or behind it.
    pub open spec fn is_reading(self) -> bool {
        self.nanos < 1_000_000_000 && -86_400 < self.offset_secs < 86_400
    }

    /// The current time on the local clock, as a reading of the clock. Which
    /// time it is cannot be said beforehand.
    pub fn now() -> (r: Timestamp)
        ensures
            r.is_reading(),
    {
        local_now()
    }

    /// Whole milliseconds since the epoch, held within the range of `i64`.
    pub fn timestamp_millis(&self) -> (r: i64)
        ensures
            r == clamp_i64(self.millis()),
    {
        let wide: i128 = (self.secs as i128) * 1000 + (self.nanos / 1_000_000) as i128;
        if wide < i64::MIN as i128 {
            i64::MIN
        } else if wide > i64::MAX as i128 {
            i64::MAX
        } else {
            wide as i64
        }
    }

    /// The instant as text, by a format in the syntax of `strftime`. `None`
    /// where the format is not valid or the instant is beyond the calendar.
    pub fn format(&self, format: &str) -> (r: Option<String>)
        ensures
            option_text(r) == strftime_text(self.secs, self.nanos, self.offset_secs, format@),
    {
        strftime(self, format)
    }

    /// The instant in the form of RFC 3339. `None` where the instant is beyond
    /// the calendar.
    pub fn to_rfc3339(&self) -> (r: Option<String>)
        ensures
            option_text(r) == rfc3339_text(self.secs, self.nanos, self.offset_secs),
    {
        rfc3339(self)
    }
}

/// What chrono's `DateTime::format` writes for the instant `secs`, `nanos` at
/// the offset `offset_secs` and a format string; `None` where chrono has no such
/// instant or offset, or rejects the format.
pub uninterp spec fn strftime_text(secs: i64, nanos: u32, offset_secs: i32, format: Seq<char>) -> Option<
    Seq<char>,
>;

/// What chrono's `DateTime::to_rfc3339` returns for the instant `secs`, `nanos`
/// at the offset `offset_secs`; `None` where chrono has no such instant or
/// offset.
pub uninterp spec fn rfc3339_text(secs: i64, nanos: u32, offset_secs: i32) -> Option<Seq<char>>;

/// Reads the clock through chrono's `Local::now`, and takes the result apart
/// with `DateTime::timestamp`, `timestamp_subsec_nanos` and the offset's
/// `local_minus_utc`. Of the time that comes back only its form is claimed:
/// chrono builds it from the system clock's time since the epoch, whose
/// fraction is below one second, and it makes an offset only through
/// `FixedOffset::east_opt`, which takes none of a day or more.
#[verifier::external_body]
fn local_now() -> (r: Timestamp)
    ensures
        r.is_reading(),
{
    let now = chrono::Local::now();
    Timestamp {
        secs: now.timestamp(),
        nanos: now.timestamp_subsec_nanos(),
        offset_secs: now.offset().local_minus_utc(),
    }
}

/// Formats an instant with chrono: `DateTime::from_timestamp` and
/// `FixedOffset::east_opt` build the value, `DateTime::format` and
/// `DelayedFormat::write_to` write it. The result is the text that chrono wrote,
/// or `None` where one of the calls failed.
#[verifier::external_body]
fn strftime(at: &Timestamp, format: &str) -> (r: Option<String>)
    ensures
        option_text(r) == strftime_text(at.secs, at.nanos, at.offset_secs, format@),
{
    let offset = chrono::FixedOffset::east_opt(at.offset_secs)?;
    let utc = chrono::DateTime::from_timestamp(at.secs, at.nanos)?;
    let mut out = String::new();
    match utc.with_timezone(&offset).format(format).write_to(&mut out) {
        Ok(()) => Some(out),
        Err(_) => None,
    }
}

/// Writes an instant in the form of RFC 3339 with chrono's
/// `DateTime::to_rfc3339`, on a value built as in `strftime`.
#[verifier::external_body]
fn rfc3339(at: &Timestamp) -> (r: Option<String>)
    ensures
        option_text(r) == rfc3339_text(at.secs, at.nanos, at.offset_secs),
{
    let offset = chrono::FixedOffset::east_opt(at.offset_secs)?;
    let utc = chrono::DateTime::from_timestamp(at.secs, at.nanos)?;
    Some(utc.with_timezone(&offset).to_rfc3339())
}

/// The last second of the year 9999, in seconds since the epoch.
pub const LAST_LOCAL_SECOND: i64 = 253_402_300_799;

/// Asks chrono at which instant the local clock shows a given time:
/// `NaiveDateTime::and_local_timezone` with `Local`, and of its answer
/// `single`. `None` where the local clock never shows that time, or shows it
/// twice. Where chrono names an instant, the local clock shows the given time
/// at it, to the second. The time is one of the years 1970 to 9999.
#[verifier::external_body]
fn resolve_local(local_secs: i64) -> (r: Option<Timestamp>)
    requires
        0 <= local_secs <= LAST_LOCAL_SECOND,
    ensures
        match r {
            Some(t) => t.local_secs() == local_secs && t.nanos == 0,
            None => true,
        },
{
    let naive = chrono::DateTime::from_timestamp(local_secs, 0)?.naive_utc();
    let at = naive.and_local_timezone(chrono::Local).single()?;
    Some(
        Timestamp {
            secs: at.timestamp(),
            nanos: at.timestamp_subsec_nanos(),
            offset_secs: at.offset().local_minus_utc(),
        },
    )
}

/// The instant at which the local clock shows `local_secs`, where there is
/// exactly one. There is none for a time before 1970 or after the year 9999.
pub fn instant_of_local(local_secs: i64) -> (r: Option<Timestamp>)
    ensures
        match r {
            Some(t) => t.local_secs() == local_secs && t.nanos == 0,
            None => true,
        },
        !(0 <= local_secs <= LAST_LOCAL_SECOND) ==> r.is_none(),
{
    if 0 <= local_secs && local_secs <= LAST_LOCAL_SECOND {
        resolve_local(local_secs)
    } else {
        None
    }
}

/// Whole milliseconds from `start` to `now`; zero where `now` is not later.
pub open spec fn elapsed_millis(start: Timestamp, now: Timestamp) -> nat {
    let d = now.total_nanos() - start.total_nanos();
    if d > 0 {
        (d / 1_000_000) as nat
    } else {
        0
    }
}

/// A span of milliseconds as `HH:MM:SS.mmm`; the hours take as many digits as
/// they need.
pub open spec fn elapsed_text(millis: nat) -> Seq<char> {
    let total_secs = millis / 1000;
    zero_padded(total_secs / 3600, 2) + seq![':'] + zero_padded((total_secs % 3600) / 60, 2) + seq![
        ':',
    ] + zero_padded(total_secs % 60, 2) + seq!['.'] + zero_padded(millis % 1000, 3)
}

/// The time from `start` to `now` as `HH:MM:SS.mmm`. A `now` before `start`
/// gives `00:00:00.000`.
pub fn format_elapsed(start: &Timestamp, now: &Timestamp) -> (r: String)
    ensures
        r@ == elapsed_text(elapsed_millis(*start, *now)),
{
    let a: i128 = (start.secs as i128) * 1_000_000_000 + start.nanos as i128;
    let b: i128 = (now.secs as i128) * 1_000_000_000 + now.nanos as i128;
    let d: i128 = b - a;
    let millis: u128 = if d > 0 {
        (d / 1_000_000) as u128
    } else {
        0
    };
    let total_secs: u128 = millis / 1000;
    let mut out: Vec<char> = Vec::new();
    push_zero_padded(&mut out, total_secs / 3600, 2);
    out.push(':');
    push_zero_padded(&mut out, (total_secs % 3600) / 60, 2);
    out.push(':');
    push_zero_padded(&mut out, total_secs % 60, 2);
    out.push('.');
    push_zero_padded(&mut out, millis % 1000, 3);
    assert(out@ =~= elapsed_text(elapsed_millis(*start, *now)));
    from_chars(&out)
}

/// Where `now` is not after `start`, the elapsed time reads as zero.
pub proof fn lemma_no_time_elapsed(start: Timestamp, now: Timestamp)
    requires
        now.total_nanos() <= start.total_nanos(),
    ensures
        elapsed_text(elapsed_millis(start, now)) == "00:00:00.000"@,
{
    reveal_strlit("00:00:00.000");
    assert(decimal(0) =~= seq!['0']);
    assert(zero_padded(0, 2) =~= seq!['0', '0']);
    assert(zero_padded(0, 3) =~= seq!['0', '0', '0']);
    assert(elapsed_text(0) =~= "00:00:00.000"@);
}

} // verus!
