//! Snapshot file names: the trailing dot-separated segment is a Unix
//! timestamp in seconds, and the snapshot is bucketed by its UTC day.
use vstd::prelude::*;

verus! {

/// Seconds in one day.
pub const SECONDS_PER_DAY: i64 = 86400;

/// The characters after the last `.` of `s`, or all of `s` when it holds no `.`.
pub open spec fn last_segment_of(s: Seq<char>) -> Seq<char>
    decreases s.len(),
{
    if s.len() == 0 {
        s
    } else if s.last() == '.' {
        Seq::empty()
    } else {
        last_segment_of(s.drop_last()).push(s.last())
    }
}

pub open spec fn is_digit(c: char) -> bool {
    '0' <= c <= '9'
}

pub open spec fn all_digits(s: Seq<char>) -> bool {
    forall|i: int| 0 <= i < s.len() ==> is_digit(#[trigger] s[i])
}

/// The value of a string of decimal digits.
pub open spec fn digits_value(s: Seq<char>) -> int
    decreases s.len(),
{
    if s.len() == 0 {
        0
    } else {
        digits_value(s.drop_last()) * 10 + (s.last() as int - '0' as int)
    }
}

/// A decimal integer: an optional `+` or `-` sign followed by one or more digits.
pub open spec fn decimal_value(s: Seq<char>) -> Option<int> {
    if s.len() > 1 && s[0] == '-' && all_digits(s.drop_first()) {
        Some(-digits_value(s.drop_first()))
    } else if s.len() > 1 && s[0] == '+' && all_digits(s.drop_first()) {
        Some(digits_value(s.drop_first()))
    } else if s.len() > 0 && all_digits(s) {
        Some(digits_value(s))
    } else {
        None
    }
}

/// `s` read as a decimal `i64`; `None` when it is not one or does not fit.
pub open spec fn parsed_i64(s: Seq<char>) -> Option<i64> {
    match decimal_value(s) {
        Some(v) => if i64::MIN <= v <= i64::MAX {
            Some(v as i64)
        } else {
            None
        },
        None => None,
    }
}

/// Relies on `str::rsplit_once`: the text after the last `.`, or the whole
/// name when it holds none.
#[verifier::external_body]
fn last_segment(name: &str) -> (r: &str)
    ensures
        r@ == last_segment_of(name@),
{
    match name.rsplit_once('.') {
        Some((_, tail)) => tail,
        None => name,
    }
}

/// Relies on `<i64 as FromStr>::from_str`: an optional sign and decimal
/// digits, within the range of `i64`, and nothing else.
#[verifier::external_body]
fn parse_i64(s: &str) -> (r: Option<i64>)
    ensures
        r == parsed_i64(s@),
{
    s.parse::<i64>().ok()
}

/// A calendar day in UTC, counted in days from 1970-01-01.
#[derive(Clone, Copy, Debug, PartialEq, Eq, Structural)]
pub struct SnapshotDate {
    pub day: i64,
}

impl SnapshotDate {
    /// The Unix time of this day's midnight.
    pub open spec fn midnight_spec(self) -> int {
        self.day * SECONDS_PER_DAY
    }

    /// The day that holds the Unix time `seconds`.
    pub fn from_unix_seconds(seconds: i64) -> (r: SnapshotDate)
        ensures
            r.day == seconds as int / SECONDS_PER_DAY as int,
            r.midnight_spec() <= seconds < r.midnight_spec() + SECONDS_PER_DAY,
    {
        let day: i64 = if seconds >= 0 {
            seconds / SECONDS_PER_DAY
        } else {
            -((-(seconds + 1)) / SECONDS_PER_DAY) - 1
        };
        assert(day == seconds as int / SECONDS_PER_DAY as int) by (nonlinear_arith)
            requires
                day == (if seconds >= 0 {
                    seconds as int / 86400
                } else {
                    -((-(seconds as int + 1)) / 86400) - 1
                }),
        ;
        assert(day * 86400 <= seconds < day * 86400 + 86400) by (nonlinear_arith)
            requires
                day == seconds as int / 86400,
        ;
        SnapshotDate { day }
    }

    /// The Unix time of this day's midnight.
    pub fn midnight(&self) -> (r: i128)
        ensures
            r == self.midnight_spec(),
            r as int % SECONDS_PER_DAY as int == 0,
    {
        self.day as i128 * SECONDS_PER_DAY as i128
    }
}

/// The date of the snapshot named `name`, if its last segment is a timestamp.
pub open spec fn snapshot_date_of(name: Seq<char>) -> Option<SnapshotDate> {
    match parsed_i64(last_segment_of(name)) {
        Some(t) => Some(SnapshotDate { day: (t as int / SECONDS_PER_DAY as int) as i64 }),
        None => None,
    }
}

/// Extracts the day of a snapshot from its file name: the name's last
/// dot-separated segment read as Unix seconds, truncated to the day.
pub fn date_from_filename(filename: &str) -> (r: Option<SnapshotDate>)
    ensures
        r.is_some() <==> parsed_i64(last_segment_of(filename@)).is_some(),
        r == snapshot_date_of(filename@),
        r matches Some(d) ==> d.midnight_spec() % SECONDS_PER_DAY as int == 0
            && d.midnight_spec() <= parsed_i64(last_segment_of(filename@))->0
            < d.midnight_spec() + SECONDS_PER_DAY,
{
    let tail = last_segment(filename);
    match parse_i64(tail) {
        Some(seconds) => Some(SnapshotDate::from_unix_seconds(seconds)),
        None => None,
    }
}

} // verus!
