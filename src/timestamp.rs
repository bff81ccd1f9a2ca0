//! Modification times at nanosecond precision, compared at full and at
//! millisecond precision.

use vstd::prelude::*;
use crate::calendar::{
    decimal, lemma_year_of_fits, month_of, push_decimal, push_padded, spec_is_leap_year,
    split_months, split_years, year_of, zero_pad, SECS_PER_DAY, SECS_PER_HOUR, SECS_PER_MIN,
};

verus! {

pub const NANOS_PER_SEC: u64 = 1_000_000_000;

/// The largest second count that a file time holds on every platform.
pub const MAX_FILE_SECS: u64 = 0x3fff_ffff_ffff_ffff;

/// Relies on `filetime::FileTime::from_unix_time` and
/// `FileTime::unix_seconds`: the seconds since the epoch come back as they
/// were given.
#[verifier::external_body]
fn unix_seconds(secs: u64, nsecs: u64) -> (r: i64)
    requires
        secs <= MAX_FILE_SECS,
        nsecs < NANOS_PER_SEC,
    ensures
        r == secs,
{
    filetime::FileTime::from_unix_time(secs as i64, nsecs as u32).unix_seconds()
}

/// The text `YYYY-MM-DD hh:mm:ss.n (GMT)` for `secs` seconds and `nsecs`
/// nanoseconds after the epoch. A remainder of exactly a whole year or month
/// stays in the earlier one, as the last day counted past its end.
pub open spec fn date_text(secs: int, nsecs: int) -> Seq<char> {
    let (year, in_year) = year_of(1970, secs);
    let (month, in_month) = month_of(spec_is_leap_year(year), 0, in_year);
    let day = in_month / 86400 + 1;
    let in_day = in_month % 86400;
    let hour = in_day / 3600;
    let min = in_day % 3600 / 60;
    let sec = in_day % 60;
    zero_pad(decimal(year as nat), 4) + "-"@ + zero_pad(decimal(month as nat), 2) + "-"@ + zero_pad(
        decimal(day as nat),
        2,
    ) + " "@ + zero_pad(decimal(hour as nat), 2) + ":"@ + zero_pad(decimal(min as nat), 2) + ":"@
        + zero_pad(decimal(sec as nat), 2) + "."@ + decimal(nsecs as nat) + " (GMT)"@
}

/// Things that carry a modification time.
pub trait Timestamped {
    fn timestamp(&self) -> Timestamp;
}

/// A point in time: seconds since the Unix epoch plus nanoseconds.
#[derive(Clone, Copy, PartialEq, Eq, Structural, Debug)]
pub struct Timestamp {
    pub secs: u64,
    pub nsecs: u64,
}

/// Builds the timestamp that lies `ms` milliseconds after the epoch.
#[allow(non_snake_case)]
pub fn Timestamp(ms: u64) -> (r: Timestamp)
    ensures
        r.secs == ms / 1000,
        r.nsecs == (ms % 1000) * 1_000_000,
        r.wf(),
        r.spec_to_ms() == ms,
{
    Timestamp::new(ms / 1_000, (ms % 1_000) * 1_000_000)
}

impl Timestamp {
    /// The nanosecond part is below one second.
    pub open spec fn wf(self) -> bool {
        self.nsecs < NANOS_PER_SEC
    }

    /// The timestamp truncated to whole milliseconds.
    pub open spec fn spec_to_ms(self) -> int {
        self.secs * 1000 + self.nsecs / 1_000_000
    }

    /// Strict order at full precision: seconds first, then nanoseconds.
    pub open spec fn spec_lt(self, other: Timestamp) -> bool {
        self.secs < other.secs || (self.secs == other.secs && self.nsecs < other.nsecs)
    }

    /// The millisecond count fits in a `u64`.
    pub open spec fn ms_fits(self) -> bool {
        self.spec_to_ms() <= u64::MAX
    }

    pub fn new(secs: u64, ns: u64) -> (r: Timestamp)
        ensures
            r.secs == secs,
            r.nsecs == ns,
    {
        Timestamp { secs: secs, nsecs: ns }
    }

    /// Milliseconds since the epoch, the sub-millisecond part dropped.
    pub fn to_ms(&self) -> (r: u64)
        requires
            self.ms_fits(),
        ensures
            r == self.spec_to_ms(),
    {
        self.secs * 1000 + self.nsecs / 1_000_000
    }

    /// Whether `self` is strictly earlier than `other` at full precision.
    pub fn is_before(&self, other: &Timestamp) -> (r: bool)
        ensures
            r == self.spec_lt(*other),
    {
        self.secs < other.secs || (self.secs == other.secs && self.nsecs < other.nsecs)
    }

    /// The date and time in UTC, for messages.
    pub fn date_fulltime_badly(&self) -> (r: String)
        requires
            self.wf(),
            self.secs <= MAX_FILE_SECS,
        ensures
            r@ == date_text(self.secs as int, self.nsecs as int),
    {
        // Seconds since January 1, 1970.
        let since_epoch = unix_seconds(self.secs, self.nsecs) as u64;
        let (year, in_year) = split_years(1970, since_epoch);
        proof {
            lemma_year_of_fits(1970, self.secs as int);
        }
        let (month, in_month) = split_months(year, in_year);
        // Days count from 1, hours, minutes and seconds from zero.
        let day = in_month / SECS_PER_DAY + 1;
        let in_day = in_month % SECS_PER_DAY;
        let hour = in_day / SECS_PER_HOUR;
        let in_hour = in_day % SECS_PER_HOUR;
        let min = in_hour / SECS_PER_MIN;
        let sec = in_hour % SECS_PER_MIN;
        proof {
            assert((in_day as int % 3600) % 60 == in_day as int % 60) by (nonlinear_arith);
        }
        let mut out = String::new();
        push_padded(&mut out, year, 4);
        out.append("-");
        push_padded(&mut out, month, 2);
        out.append("-");
        push_padded(&mut out, day, 2);
        out.append(" ");
        push_padded(&mut out, hour, 2);
        out.append(":");
        push_padded(&mut out, min, 2);
        out.append(":");
        push_padded(&mut out, sec, 2);
        out.append(".");
        push_decimal(&mut out, self.nsecs);
        out.append(" (GMT)");
        assert(out@ =~= date_text(self.secs as int, self.nsecs as int));
        out
    }

    /// Whether the two timestamps agree once truncated to milliseconds.
    pub fn same_ms(&self, other: &Timestamp) -> (r: bool)
        requires
            self.wf(),
            other.wf(),
        ensures
            r == (self.spec_to_ms() == other.spec_to_ms()),
    {
        proof {
            lemma_ms_order(*self, *other);
        }
        self.secs == other.secs && self.nsecs / 1_000_000 == other.nsecs / 1_000_000
    }

    /// Whether `self` is strictly earlier than `other` once both are
    /// truncated to milliseconds.
    pub fn ms_before(&self, other: &Timestamp) -> (r: bool)
        requires
            self.wf(),
            other.wf(),
        ensures
            r == (self.spec_to_ms() < other.spec_to_ms()),
    {
        proof {
            lemma_ms_order(*self, *other);
        }
        self.secs < other.secs || (self.secs == other.secs && self.nsecs / 1_000_000
            < other.nsecs / 1_000_000)
    }
}

/// Full-precision order implies millisecond order, not strictly.
pub proof fn lemma_lt_ms(a: Timestamp, b: Timestamp)
    requires
        a.wf(),
        b.wf(),
        a.spec_lt(b),
    ensures
        a.spec_to_ms() <= b.spec_to_ms(),
{
    lemma_ms_order(a, b);
    if a.secs == b.secs {
        assert(a.nsecs / 1_000_000 <= b.nsecs / 1_000_000) by (nonlinear_arith)
            requires
                a.nsecs < b.nsecs,
        ;
    }
}

/// Millisecond counts order as (seconds, milliseconds within the second).
proof fn lemma_ms_order(a: Timestamp, b: Timestamp)
    requires
        a.wf(),
        b.wf(),
    ensures
        a.spec_to_ms() == b.spec_to_ms() <==> (a.secs == b.secs && a.nsecs / 1_000_000 == b.nsecs
            / 1_000_000),
        a.spec_to_ms() < b.spec_to_ms() <==> (a.secs < b.secs || (a.secs == b.secs && a.nsecs
            / 1_000_000 < b.nsecs / 1_000_000)),
{
    let am = a.nsecs / 1_000_000;
    let bm = b.nsecs / 1_000_000;
    assert(am < 1000 && bm < 1000);
    let asec = a.secs as int;
    let bsec = b.secs as int;
    assert(asec < bsec ==> asec * 1000 + 1000 <= bsec * 1000) by (nonlinear_arith);
    assert(asec == bsec ==> asec * 1000 == bsec * 1000);
    assert(asec > bsec ==> bsec * 1000 + 1000 <= asec * 1000) by (nonlinear_arith);
}

} // verus!
