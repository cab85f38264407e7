//! Timestamps: reading RFC 3339 times (through `chrono`) and writing the
//! day, week and month keys that the statistics are grouped by.
use vstd::prelude::*;
use chrono::Datelike;
use crate::text::{concat, decimal, digit_char, push_char, push_decimal, signed_decimal};

verus! {

/// A point in time, in UTC, as the plain numbers the library works with.
pub struct UtcStamp {
    /// Calendar date.
    pub year: i32,
    pub month: u32,
    pub day: u32,
    /// ISO 8601 week-numbering year and week.
    pub iso_year: i32,
    pub iso_week: u32,
    /// Days since 1 January of year 1 (that day is day 1).
    pub days_from_ce: i32,
    /// Seconds since the Unix epoch, and the nanoseconds past that second.
    pub secs: i64,
    pub nanos: u32,
}

/// What `chrono` reads from an RFC 3339 time, converted to UTC: `None` where
/// the text is not such a time.
pub uninterp spec fn rfc3339_utc(ts: Seq<char>) -> Option<UtcStamp>;

/// `chrono::DateTime::parse_from_rfc3339`, then the UTC calendar date, ISO
/// week, day number and Unix time of the result. Claimed: the result is a
/// function of the text alone (named `rfc3339_utc`), and, as chrono documents
/// for its accessors, the month is in 1..=12, the day in 1..=31 and the ISO
/// week in 1..=53.
#[verifier::external_body]
pub(crate) fn parse_rfc3339(ts: &str) -> (r: Option<UtcStamp>)
    ensures
        r == rfc3339_utc(ts@),
        r matches Some(t) ==> 1 <= t.month <= 12 && 1 <= t.day <= 31 && 1 <= t.iso_week <= 53,
{
    let u = chrono::DateTime::parse_from_rfc3339(ts).ok()?.with_timezone(&chrono::Utc);
    let (d, w) = (u.date_naive(), u.date_naive().iso_week());
    Some(UtcStamp {
        year: d.year(), month: d.month(), day: d.day(),
        iso_year: w.year(), iso_week: w.week(), days_from_ce: d.num_days_from_ce(),
        secs: u.timestamp(), nanos: u.timestamp_subsec_nanos(),
    })
}

/// A number below 10000 written with four digits.
pub open spec fn four_digits(n: nat) -> Seq<char> {
    if n < 10000 {
        seq![
            digit_char(n / 1000),
            digit_char((n / 100) % 10),
            digit_char((n / 10) % 10),
            digit_char(n % 10),
        ]
    } else {
        decimal(n)
    }
}

/// A year as a date prints it: four digits within 0..=9999, otherwise a sign
/// and at least four digits.
pub open spec fn year_text(y: int) -> Seq<char> {
    if 0 <= y <= 9999 {
        four_digits(y as nat)
    } else if y < 0 {
        seq!['-'] + four_digits((-y) as nat)
    } else {
        seq!['+'] + four_digits(y as nat)
    }
}

/// A month or day (below 100) written with two digits.
pub open spec fn two_digits(n: nat) -> Seq<char> {
    seq![digit_char(n / 10), digit_char(n % 10)]
}

/// The day key of a date, as `NaiveDate` prints it: `YYYY-MM-DD`.
pub open spec fn day_key(t: UtcStamp) -> Seq<char> {
    year_text(t.year as int) + seq!['-'] + two_digits(t.month as nat) + seq!['-'] + two_digits(
        t.day as nat,
    )
}

/// A pair of numbers joined by a dash, as `format!("{}-{}", a, b)` prints it.
pub open spec fn pair_key(a: int, b: nat) -> Seq<char> {
    signed_decimal(a) + seq!['-'] + decimal(b)
}

fn digit(n: u64) -> (c: char)
    requires
        n < 10,
    ensures
        c == digit_char(n as nat),
{
    if n == 0 {
        '0'
    } else if n == 1 {
        '1'
    } else if n == 2 {
        '2'
    } else if n == 3 {
        '3'
    } else if n == 4 {
        '4'
    } else if n == 5 {
        '5'
    } else if n == 6 {
        '6'
    } else if n == 7 {
        '7'
    } else if n == 8 {
        '8'
    } else {
        '9'
    }
}

fn push_four_digits(s: &mut String, n: u64)
    ensures
        final(s)@ == old(s)@ + four_digits(n as nat),
{
    if n < 10000 {
        push_char(s, digit(n / 1000));
        push_char(s, digit((n / 100) % 10));
        push_char(s, digit((n / 10) % 10));
        push_char(s, digit(n % 10));
        proof {
            assert(final(s)@ =~= old(s)@ + four_digits(n as nat));
        }
    } else {
        push_decimal(s, n);
    }
}

/// The day key of a time: its UTC date as `YYYY-MM-DD`.
pub fn day_key_of(t: &UtcStamp) -> (r: String)
    requires
        1 <= t.month <= 12,
        1 <= t.day <= 31,
    ensures
        r@ == day_key(*t),
{
    let mut s = String::new();
    let y = t.year;
    if 0 <= y && y <= 9999 {
        push_four_digits(&mut s, y as u64);
    } else if y < 0 {
        push_char(&mut s, '-');
        let m: u64 = if y == i32::MIN {
            0x8000_0000u64
        } else {
            (-y) as u64
        };
        push_four_digits(&mut s, m);
    } else {
        push_char(&mut s, '+');
        push_four_digits(&mut s, y as u64);
    }
    push_char(&mut s, '-');
    push_char(&mut s, digit((t.month / 10) as u64));
    push_char(&mut s, digit((t.month % 10) as u64));
    push_char(&mut s, '-');
    push_char(&mut s, digit((t.day / 10) as u64));
    push_char(&mut s, digit((t.day % 10) as u64));
    proof {
        assert(s@ =~= day_key(*t));
    }
    s
}

/// `format!("{}-{}", a, b)`.
pub fn pair_key_of(a: i64, b: u64) -> (r: String)
    ensures
        r@ == pair_key(a as int, b as nat),
{
    let s = crate::text::i64_to_string(a);
    let mut s = concat(&s, "-");
    push_decimal(&mut s, b);
    proof {
        reveal_strlit("-");
        assert(s@ =~= pair_key(a as int, b as nat));
    }
    s
}

} // verus!
