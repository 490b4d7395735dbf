//! Modification times as calendar fields in the local time zone, and their
//! fixed `YYYY-MM-DD HH:MM:SS` rendering.
use crate::text::{decimal, digits, pad_left, pad_left_str};
use chrono::Datelike;
use chrono::Timelike;
use vstd::prelude::*;

verus! {

/// A local date and time at second resolution.
#[derive(Clone, Copy, Debug, PartialEq, Eq, Structural)]
pub struct Timestamp {
    pub year: i32,
    pub month: u32,
    pub day: u32,
    pub hour: u32,
    pub minute: u32,
    pub second: u32,
}

/// The year as `%Y` shows it: four digits within 0..=9999, otherwise a sign
/// followed by at least four digits.
pub open spec fn year_text(y: int) -> Seq<char> {
    if 0 <= y <= 9999 {
        pad_left(digits(y as nat), '0', 4)
    } else if y > 9999 {
        seq!['+'] + digits(y as nat)
    } else {
        seq!['-'] + pad_left(digits((-y) as nat), '0', 4)
    }
}

pub open spec fn two_digits(v: nat) -> Seq<char> {
    pad_left(digits(v), '0', 2)
}

/// The proleptic Gregorian date and time in UTC of the moment `s` seconds
/// after the Unix epoch: (year, month, day, hour, minute, second).
pub open spec fn civil_fields(s: int) -> (int, int, int, int, int, int) {
    let days = s / 86400;
    let secs = s % 86400;
    let z = days + 719468;
    let era = z / 146097;
    let doe = z - era * 146097;
    let yoe = (doe - doe / 1460 + doe / 36524 - doe / 146096) / 365;
    let doy = doe - (365 * yoe + yoe / 4 - yoe / 100);
    let mp = (5 * doy + 2) / 153;
    let d = doy - (153 * mp + 2) / 5 + 1;
    let m = if mp < 10 {
        mp + 3
    } else {
        mp - 9
    };
    let y = yoe + era * 400 + if m <= 2 {
        1int
    } else {
        0int
    };
    (y, m, d, secs / 3600, secs % 3600 / 60, secs % 60)
}

/// Whether `t` is the calendar date and time of the moment `secs` seen in
/// some time zone, that is moved by an offset of less than a day.
pub open spec fn local_time_of(t: Timestamp, secs: int) -> bool {
    exists|off: int| -86400 < off < 86400 && #[trigger] civil_fields(secs + off) == t.fields()
}

impl Timestamp {
    pub open spec fn fields(&self) -> (int, int, int, int, int, int) {
        (
            self.year as int,
            self.month as int,
            self.day as int,
            self.hour as int,
            self.minute as int,
            self.second as int,
        )
    }

    pub open spec fn wf(&self) -> bool {
        &&& 1 <= self.month <= 12
        &&& 1 <= self.day <= 31
        &&& self.hour < 24
        &&& self.minute < 60
        &&& self.second < 60
    }

    /// `YYYY-MM-DD HH:MM:SS`.
    pub open spec fn text(&self) -> Seq<char> {
        year_text(self.year as int) + seq!['-'] + two_digits(self.month as nat) + seq!['-']
            + two_digits(self.day as nat) + seq![' '] + two_digits(self.hour as nat) + seq![':']
            + two_digits(self.minute as nat) + seq![':'] + two_digits(self.second as nat)
    }

    /// The local date and time of a moment given as seconds and nanoseconds
    /// since the Unix epoch; `None` when the moment is out of the calendar's
    /// range. Within some thirty thousand years of the epoch there is always
    /// an answer.
    pub fn from_unix_local(secs: i64, nanos: u32) -> (r: Option<Timestamp>)
        ensures
            r matches Some(t) ==> t.wf() && local_time_of(t, secs as int),
            nanos < 1_000_000_000 && -1_000_000_000_000 <= secs <= 1_000_000_000_000 ==> r is Some,
    {
        local_fields(secs, nanos)
    }

    /// Renders the timestamp as `YYYY-MM-DD HH:MM:SS`.
    pub fn render(&self) -> (r: String)
        ensures
            r@ == self.text(),
    {
        proof {
            reveal_strlit("0");
            reveal_strlit("-");
            reveal_strlit("+");
            reveal_strlit(" ");
            reveal_strlit(":");
        }
        let y = self.year;
        let year = if y >= 0 && y <= 9999 {
            pad_left_str(decimal(y as u64), "0", 4)
        } else if y > 9999 {
            String::from_str("+").concat(decimal(y as u64).as_str())
        } else {
            let a: u64 = (0i64 - (y as i64)) as u64;
            String::from_str("-").concat(pad_left_str(decimal(a), "0", 4).as_str())
        };
        let r = year.concat("-");
        let r = r.concat(pad_left_str(decimal(self.month as u64), "0", 2).as_str());
        let r = r.concat("-");
        let r = r.concat(pad_left_str(decimal(self.day as u64), "0", 2).as_str());
        let r = r.concat(" ");
        let r = r.concat(pad_left_str(decimal(self.hour as u64), "0", 2).as_str());
        let r = r.concat(":");
        let r = r.concat(pad_left_str(decimal(self.minute as u64), "0", 2).as_str());
        let r = r.concat(":");
        let r = r.concat(pad_left_str(decimal(self.second as u64), "0", 2).as_str());
        assert(r@ =~= self.text());
        r
    }
}

/// Relies on chrono's `DateTime::from_timestamp` (`None` only for a moment
/// out of its range of about 262,000 years either side of year 0, or for an
/// invalid nanosecond count, 1e9 and above being valid only in a leap
/// second), `DateTime::with_timezone` to the machine's `Local` zone, and the
/// `Datelike` / `Timelike` getters, whose documented ranges are month 1..=12,
/// day 1..=31, hour 0..=23, minute and second 0..=59. The zone is the
/// machine's: it gives a `FixedOffset` (always less than a day either way),
/// and the getters read the UTC date and time moved by that offset; a leap
/// second shows as second 59. Which offset is not promised.
#[verifier::external_body]
fn local_fields(secs: i64, nanos: u32) -> (r: Option<Timestamp>)
    ensures
        r matches Some(t) ==> t.wf() && local_time_of(t, secs as int),
        nanos < 1_000_000_000 && -1_000_000_000_000 <= secs <= 1_000_000_000_000 ==> r is Some,
{
    let t = chrono::DateTime::from_timestamp(secs, nanos)?.with_timezone(&chrono::Local);
    Some(
        Timestamp {
            year: t.year(),
            month: t.month(),
            day: t.day(),
            hour: t.hour(),
            minute: t.minute(),
            second: t.second(),
        },
    )
}

} // verus!
