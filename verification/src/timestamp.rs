//! Calendar timestamps in UTC and their RFC 3339 spelling.

use vstd::prelude::*;
use vstd::string::*;
use vstd::utf8::*;
use crate::text::{all_ascii, chars_of_ascii, string_from_ascii};

verus! {

/// A moment in UTC, to the nanosecond, as calendar fields.
#[derive(Clone, Copy, Debug, PartialEq, Eq, Structural)]
pub struct Timestamp {
    pub year: u16,
    pub month: u8,
    pub day: u8,
    pub hour: u8,
    pub minute: u8,
    pub second: u8,
    pub nanos: u32,
}

/// What a clock reports, before any of it has been checked.
pub struct ClockReading {
    pub year: i32,
    pub month: u32,
    pub day: u32,
    pub hour: u32,
    pub minute: u32,
    pub second: u32,
    pub nanos: u32,
}

/// Whether the year has a 29 February.
pub open spec fn is_leap_year(year: int) -> bool {
    year % 4 == 0 && (year % 100 != 0 || year % 400 == 0)
}

/// How many days the month of the year has.
pub open spec fn days_in_month(year: int, month: int) -> int {
    if month == 2 {
        if is_leap_year(year) {
            29
        } else {
            28
        }
    } else if month == 4 || month == 6 || month == 9 || month == 11 {
        30
    } else {
        31
    }
}

/// Whether the reading names a moment that a `Timestamp` can hold: a day of
/// the Gregorian calendar in the years 0 to 9999 and a time of that day.
pub open spec fn reading_valid(r: ClockReading) -> bool {
    &&& 0 <= r.year <= 9999
    &&& 1 <= r.month <= 12
    &&& 1 <= r.day <= days_in_month(r.year as int, r.month as int)
    &&& r.hour < 24
    &&& r.minute < 60
    &&& r.second < 60
    &&& r.nanos < 1_000_000_000
}

/// Whether a byte is a decimal digit.
pub open spec fn is_digit(b: u8) -> bool {
    48 <= b <= 57
}

/// A number below 100 in two digits.
pub open spec fn two_digits(n: int) -> Seq<u8> {
    seq![(48 + n / 10) as u8, (48 + n % 10) as u8]
}

/// A number below 1000 in three digits.
pub open spec fn three_digits(n: int) -> Seq<u8> {
    seq![(48 + n / 100) as u8, (48 + n / 10 % 10) as u8, (48 + n % 10) as u8]
}

/// The fraction of a second as it is spelled: nothing for a whole second,
/// else a point and three, six or nine digits, the fewest that are exact.
pub open spec fn fraction_bytes(nanos: int) -> Seq<u8> {
    if nanos == 0 {
        Seq::empty()
    } else if nanos % 1_000_000 == 0 {
        seq![46u8] + three_digits(nanos / 1_000_000)
    } else if nanos % 1_000 == 0 {
        seq![46u8] + three_digits(nanos / 1_000_000) + three_digits(nanos / 1_000 % 1_000)
    } else {
        seq![46u8] + three_digits(nanos / 1_000_000) + three_digits(nanos / 1_000 % 1_000)
            + three_digits(nanos % 1_000)
    }
}

/// The date and the time of day as they are spelled: `YYYY-MM-DDTHH:MM:SS`.
pub open spec fn date_time_bytes(t: Timestamp) -> Seq<u8> {
    two_digits(t.year as int / 100) + two_digits(t.year as int % 100) + seq![45u8] + two_digits(
        t.month as int,
    ) + seq![45u8] + two_digits(t.day as int) + seq![84u8] + two_digits(t.hour as int) + seq![58u8]
        + two_digits(t.minute as int) + seq![58u8] + two_digits(t.second as int)
}

/// The RFC 3339 spelling of a timestamp, as ASCII bytes: the date and time,
/// the fraction in three, six or nine digits, and `Z`.
pub open spec fn rfc3339_bytes(t: Timestamp) -> Seq<u8> {
    date_time_bytes(t) + fraction_bytes(t.nanos as int) + seq![90u8]
}

/// The value of the two digits at `at`.
pub open spec fn pair_value(s: Seq<u8>, at: int) -> int {
    10 * (s[at] - 48) + (s[at + 1] - 48)
}

/// Whether two digits stand at `at`.
pub open spec fn pair_is_digits(s: Seq<u8>, at: int) -> bool {
    is_digit(s[at]) && is_digit(s[at + 1])
}

/// The digit `k` places behind the point of a fraction spelled at `s[20..]`
/// and closed by the last byte of `s`; places that are not spelled count 0.
pub open spec fn fraction_digit(s: Seq<u8>, k: int) -> int {
    if 20 + k < s.len() - 1 {
        s[20 + k] - 48
    } else {
        0
    }
}

/// The nanoseconds that the digits behind the point spell.
pub open spec fn fraction_value(s: Seq<u8>) -> int {
    fraction_digit(s, 0) * 100_000_000 + fraction_digit(s, 1) * 10_000_000 + fraction_digit(s, 2)
        * 1_000_000 + fraction_digit(s, 3) * 100_000 + fraction_digit(s, 4) * 10_000
        + fraction_digit(s, 5) * 1_000 + fraction_digit(s, 6) * 100 + fraction_digit(s, 7) * 10
        + fraction_digit(s, 8)
}

/// Whether `s` has the shape of a timestamp in UTC: the digits and
/// separators of `YYYY-MM-DDTHH:MM:SS`, then either nothing or a point and
/// one digit or more, then `Z`.
pub open spec fn rfc3339_shape(s: Seq<u8>) -> bool {
    &&& 20 <= s.len()
    &&& s.len() != 21
    &&& pair_is_digits(s, 0) && pair_is_digits(s, 2)
    &&& s[4] == 45
    &&& pair_is_digits(s, 5)
    &&& s[7] == 45
    &&& pair_is_digits(s, 8)
    &&& s[10] == 84
    &&& pair_is_digits(s, 11)
    &&& s[13] == 58
    &&& pair_is_digits(s, 14)
    &&& s[16] == 58
    &&& pair_is_digits(s, 17)
    &&& s[s.len() - 1] == 90
    &&& s.len() > 20 ==> s[19] == 46
    &&& forall|i: int| 20 <= i < s.len() - 1 ==> is_digit(#[trigger] s[i])
}

/// The fields that a text of the right shape spells.
pub open spec fn rfc3339_reading(s: Seq<u8>) -> ClockReading {
    ClockReading {
        year: (100 * pair_value(s, 0) + pair_value(s, 2)) as i32,
        month: pair_value(s, 5) as u32,
        day: pair_value(s, 8) as u32,
        hour: pair_value(s, 11) as u32,
        minute: pair_value(s, 14) as u32,
        second: pair_value(s, 17) as u32,
        nanos: fraction_value(s) as u32,
    }
}

/// The timestamp with the fields of a reading.
pub open spec fn timestamp_of_reading(r: ClockReading) -> Timestamp {
    Timestamp {
        year: r.year as u16,
        month: r.month as u8,
        day: r.day as u8,
        hour: r.hour as u8,
        minute: r.minute as u8,
        second: r.second as u8,
        nanos: r.nanos,
    }
}

/// The timestamp that the ASCII bytes `s` spell in RFC 3339 with the zone
/// `Z`, if they spell one. Digits of the fraction behind the ninth are
/// passed over.
pub open spec fn utc_timestamp_of_bytes(s: Seq<u8>) -> Option<Timestamp> {
    if rfc3339_shape(s) && reading_valid(rfc3339_reading(s)) {
        Some(timestamp_of_reading(rfc3339_reading(s)))
    } else {
        None
    }
}

/// How many bytes at the end of `s` spell the zone: one for `Z` or `z`,
/// else the six of an offset `+HH:MM` or `-HH:MM`.
pub open spec fn zone_len(s: Seq<u8>) -> int {
    if s.len() > 0 && (s[s.len() - 1] == 90 || s[s.len() - 1] == 122) {
        1
    } else {
        6
    }
}

/// Whether `s` ends in a zone, with room for a date and a time before it:
/// `Z`, `z`, or a sign, an hour below 24, a colon and a minute below 60.
pub open spec fn zone_shape(s: Seq<u8>) -> bool {
    &&& s.len() >= 19 + zone_len(s)
    &&& zone_len(s) == 6 ==> {
        let at = s.len() - 6;
        &&& (s[at] == 43 || s[at] == 45)
        &&& pair_is_digits(s, at + 1)
        &&& s[at + 3] == 58
        &&& pair_is_digits(s, at + 4)
        &&& pair_value(s, at + 1) < 24
        &&& pair_value(s, at + 4) < 60
    }
}

/// By how many minutes the zone at the end of `s` is ahead of UTC.
pub open spec fn zone_minutes(s: Seq<u8>) -> int {
    if zone_len(s) == 1 {
        0
    } else {
        let at = s.len() - 6;
        let minutes = 60 * pair_value(s, at + 1) + pair_value(s, at + 4);
        if s[at] == 45 {
            -minutes
        } else {
            minutes
        }
    }
}

/// The byte between the date and the time, with `t` read as `T`.
pub open spec fn separator(b: u8) -> u8 {
    if b == 116 {
        84
    } else {
        b
    }
}

/// The date and the time of `s` as they would be spelled in UTC: what
/// stands before the zone, with `t` read as `T`, and `Z`.
pub open spec fn local_spelling(s: Seq<u8>) -> Seq<u8> {
    Seq::new(
        (s.len() - zone_len(s) + 1) as nat,
        |i: int|
            if i == s.len() - zone_len(s) {
                90u8
            } else if i == 10 {
                separator(s[i])
            } else {
                s[i]
            },
    )
}

/// The day before that of `t`, at the time of `t`, if year 0 has it.
pub open spec fn day_before(t: Timestamp) -> Option<Timestamp> {
    if t.day > 1 {
        Some(Timestamp { day: (t.day - 1) as u8, ..t })
    } else if t.month > 1 {
        Some(
            Timestamp {
                month: (t.month - 1) as u8,
                day: days_in_month(t.year as int, t.month - 1) as u8,
                ..t
            },
        )
    } else if t.year > 0 {
        Some(Timestamp { year: (t.year - 1) as u16, month: 12, day: 31, ..t })
    } else {
        None
    }
}

/// The day after that of `t`, at the time of `t`, if year 9999 has it.
pub open spec fn day_after(t: Timestamp) -> Option<Timestamp> {
    if t.day < days_in_month(t.year as int, t.month as int) {
        Some(Timestamp { day: (t.day + 1) as u8, ..t })
    } else if t.month < 12 {
        Some(Timestamp { month: (t.month + 1) as u8, day: 1, ..t })
    } else if t.year < 9999 {
        Some(Timestamp { year: (t.year + 1) as u16, month: 1, day: 1, ..t })
    } else {
        None
    }
}

/// The day of `t` at the minute `m` of the day.
pub open spec fn at_minute(t: Timestamp, m: int) -> Timestamp {
    Timestamp { hour: (m / 60) as u8, minute: (m % 60) as u8, ..t }
}

/// The moment `by` minutes after `t`, for less than a day either way, if
/// it lies in the years 0 to 9999.
pub open spec fn shifted(t: Timestamp, by: int) -> Option<Timestamp> {
    let m = t.hour * 60 + t.minute + by;
    if m < 0 {
        match day_before(t) {
            Some(d) => Some(at_minute(d, m + 1440)),
            None => None,
        }
    } else if m >= 1440 {
        match day_after(t) {
            Some(d) => Some(at_minute(d, m - 1440)),
            None => None,
        }
    } else {
        Some(at_minute(t, m))
    }
}

/// The moment in UTC that the ASCII bytes `s` spell in RFC 3339, if they
/// spell one in the years 0 to 9999: a date and a time of day, with `T` or
/// `t` between them, and the zone that they are told in.
pub open spec fn timestamp_of_bytes(s: Seq<u8>) -> Option<Timestamp> {
    if zone_shape(s) {
        match utc_timestamp_of_bytes(local_spelling(s)) {
            Some(t) => shifted(t, -zone_minutes(s)),
            None => None,
        }
    } else {
        None
    }
}

/// The bytes of a text that is ASCII throughout.
pub open spec fn bytes_of_ascii(text: Seq<char>) -> Seq<u8> {
    Seq::new(text.len(), |i: int| text[i] as u8)
}

/// The timestamp that `text` spells, if it spells one.
#[verifier::opaque]
pub open spec fn timestamp_of_text(text: Seq<char>) -> Option<Timestamp> {
    if is_ascii_chars(text) {
        timestamp_of_bytes(bytes_of_ascii(text))
    } else {
        None
    }
}

impl Timestamp {
    /// Whether the fields name a day of the calendar and a time of that day.
    pub open spec fn valid(self) -> bool {
        &&& self.year <= 9999
        &&& 1 <= self.month <= 12
        &&& 1 <= self.day <= days_in_month(self.year as int, self.month as int)
        &&& self.hour < 24
        &&& self.minute < 60
        &&& self.second < 60
        &&& self.nanos < 1_000_000_000
    }

    /// The RFC 3339 spelling of the timestamp.
    pub open spec fn text(self) -> Seq<char> {
        chars_of_ascii(rfc3339_bytes(self))
    }

    /// Midnight before 1 January 1970.
    pub open spec fn epoch_spec() -> Timestamp {
        Timestamp { year: 1970, month: 1, day: 1, hour: 0, minute: 0, second: 0, nanos: 0 }
    }

    pub fn epoch() -> (t: Timestamp)
        ensures
            t == Timestamp::epoch_spec(),
            t.valid(),
    {
        Timestamp { year: 1970, month: 1, day: 1, hour: 0, minute: 0, second: 0, nanos: 0 }
    }

    /// The timestamp with the given fields, if they name a moment.
    pub fn from_parts(
        year: i32,
        month: u32,
        day: u32,
        hour: u32,
        minute: u32,
        second: u32,
        nanos: u32,
    ) -> (r: Option<Timestamp>)
        ensures
            r == (if reading_valid(ClockReading { year, month, day, hour, minute, second, nanos }) {
                Some(
                    timestamp_of_reading(
                        ClockReading { year, month, day, hour, minute, second, nanos },
                    ),
                )
            } else {
                None
            }),
            r matches Some(t) ==> t.valid(),
    {
        if year < 0 || year > 9999 || month < 1 || month > 12 || day < 1 || hour >= 24 || minute
            >= 60 || second >= 60 || nanos >= 1_000_000_000 {
            return None;
        }
        let leap: bool = year % 4 == 0 && (year % 100 != 0 || year % 400 == 0);
        let days: u32 = if month == 2 {
            if leap {
                29
            } else {
                28
            }
        } else if month == 4 || month == 6 || month == 9 || month == 11 {
            30
        } else {
            31
        };
        if day > days {
            return None;
        }
        Some(
            Timestamp {
                year: year as u16,
                month: month as u8,
                day: day as u8,
                hour: hour as u8,
                minute: minute as u8,
                second: second as u8,
                nanos,
            },
        )
    }

    /// Whether the fields name a day of the calendar and a time of that day.
    pub fn is_valid(&self) -> (r: bool)
        ensures
            r == self.valid(),
    {
        if self.year > 9999 || self.month < 1 || self.month > 12 || self.day < 1 || self.hour >= 24
            || self.minute >= 60 || self.second >= 60 || self.nanos >= 1_000_000_000 {
            return false;
        }
        let leap: bool = self.year % 4 == 0 && (self.year % 100 != 0 || self.year % 400 == 0);
        let days: u8 = if self.month == 2 {
            if leap {
                29
            } else {
                28
            }
        } else if self.month == 4 || self.month == 6 || self.month == 9 || self.month == 11 {
            30
        } else {
            31
        };
        self.day <= days
    }

    /// The present moment by the system clock, or the epoch where the clock
    /// reports a date outside the years 0 to 9999.
    pub fn now() -> (t: Timestamp)
        ensures
            t.valid(),
    {
        let r = read_clock();
        match Timestamp::from_parts(r.year, r.month, r.day, r.hour, r.minute, r.second, r.nanos) {
            Some(t) => t,
            None => Timestamp::epoch(),
        }
    }

    /// The RFC 3339 spelling of the timestamp.
    pub fn to_rfc3339(&self) -> (r: String)
        requires
            self.valid(),
        ensures
            r@ == self.text(),
    {
        let mut out: Vec<u8> = Vec::new();
        push_date_time(&mut out, self);
        push_fraction(&mut out, self.nanos);
        out.push(90);
        proof {
            assert(out@ =~= rfc3339_bytes(*self));
            lemma_timestamp_round_trip(*self);
        }
        string_from_ascii(out)
    }

    /// Reads an RFC 3339 timestamp: a date and a time of day, and the zone
    /// that they are told in, `Z` or an offset from UTC. The moment is
    /// handed out in UTC.
    pub fn parse_rfc3339(text: &str) -> (r: Option<Timestamp>)
        ensures
            r == timestamp_of_text(text@),
            r matches Some(t) ==> t.valid(),
    {
        proof {
            reveal(timestamp_of_text);
        }
        if !text.is_ascii() {
            return None;
        }
        let s: &[u8] = text.as_bytes();
        proof {
            is_ascii_chars_encode_utf8(text@);
            assert(s@ =~= bytes_of_ascii(text@));
        }
        assert(s@ == bytes_of_ascii(text@));
        let n: usize = s.len();
        if n < 20 {
            return None;
        }
        let zone: usize = if s[n - 1] == 90 || s[n - 1] == 122 {
            1
        } else {
            6
        };
        if n < 19 + zone {
            return None;
        }
        let mut ahead: i32 = 0;
        if zone == 6 {
            let at: usize = n - 6;
            if !((s[at] == 43 || s[at] == 45) && pair_ok(s, at + 1) && s[at + 3] == 58 && pair_ok(
                s,
                at + 4,
            )) {
                return None;
            }
            let hours: u32 = pair_of(s, at + 1);
            let minutes: u32 = pair_of(s, at + 4);
            if hours >= 24 || minutes >= 60 {
                return None;
            }
            let total: i32 = (60 * hours + minutes) as i32;
            ahead = if s[at] == 45 {
                -total
            } else {
                total
            };
        }
        let local = spelled_in_utc(s, n - zone);
        match read_utc(local.as_slice()) {
            Some(t) => shift(t, -ahead),
            None => None,
        }
    }
}

/// What stands before the zone of `s`, which begins at `end`, with `t` read
/// as `T`, and `Z`.
fn spelled_in_utc(s: &[u8], end: usize) -> (r: Vec<u8>)
    requires
        end == s@.len() - zone_len(s@),
        end >= 19,
    ensures
        r@ == local_spelling(s@),
{
    let mut out: Vec<u8> = Vec::new();
    let mut i: usize = 0;
    while i < end
        invariant
            i <= end <= s@.len(),
            out@.len() == i,
            forall|j: int| 0 <= j < i ==> #[trigger] out@[j] == local_spelling(s@)[j],
            end == s@.len() - zone_len(s@),
        decreases end - i,
    {
        let b: u8 = s[i];
        out.push(if i == 10 && b == 116 {
            84
        } else {
            b
        });
        i += 1;
    }
    out.push(90);
    proof {
        assert(out@ =~= local_spelling(s@));
    }
    out
}

/// Reads a timestamp that is spelled in UTC, with `Z`.
fn read_utc(s: &[u8]) -> (r: Option<Timestamp>)
    ensures
        r == utc_timestamp_of_bytes(s@),
        r matches Some(t) ==> t.valid(),
{
    let n: usize = s.len();
    if n < 20 || n == 21 {
        return None;
    }
    if !(pair_ok(s, 0) && pair_ok(s, 2) && s[4] == 45 && pair_ok(s, 5) && s[7] == 45 && pair_ok(
        s,
        8,
    ) && s[10] == 84 && pair_ok(s, 11) && s[13] == 58 && pair_ok(s, 14) && s[16] == 58 && pair_ok(
        s,
        17,
    ) && s[n - 1] == 90) {
        return None;
    }
    if n > 20 && s[19] != 46 {
        return None;
    }
    let mut nanos: u32 = 0;
    let mut scale: u32 = 100_000_000;
    let mut i: usize = 20;
    while i < n - 1
        invariant
            20 <= i <= n,
            i + 1 <= n || n == 20,
            n == s@.len(),
            forall|j: int| 20 <= j < i ==> is_digit(#[trigger] s@[j]),
            scale as int == scale_at(i - 20),
            nanos as int == partial_fraction(s@, i - 20),
            nanos as int + 10 * scale <= 1_000_000_000,
        decreases n - i,
    {
        let b: u8 = s[i];
        if b < 48 || b > 57 {
            assert(!is_digit(s@[i as int]));
            return None;
        }
        nanos = nanos + (b - 48) as u32 * scale;
        scale = scale / 10;
        i += 1;
    }
    proof {
        assert(rfc3339_shape(s@));
        assert(nanos as int == fraction_value(s@));
    }
    let year: u32 = 100 * pair_of(s, 0) + pair_of(s, 2);
    Timestamp::from_parts(
        year as i32,
        pair_of(s, 5),
        pair_of(s, 8),
        pair_of(s, 11),
        pair_of(s, 14),
        pair_of(s, 17),
        nanos,
    )
}

/// How many days the month of the year has.
fn month_length(year: u16, month: u8) -> (r: u8)
    ensures
        r == days_in_month(year as int, month as int),
{
    let leap: bool = year % 4 == 0 && (year % 100 != 0 || year % 400 == 0);
    if month == 2 {
        if leap {
            29
        } else {
            28
        }
    } else if month == 4 || month == 6 || month == 9 || month == 11 {
        30
    } else {
        31
    }
}

/// The day of `t` at the minute `m` of the day.
fn set_minute(t: Timestamp, m: i32) -> (r: Timestamp)
    requires
        0 <= m < 1440,
    ensures
        r == at_minute(t, m as int),
        r.hour < 24,
        r.minute < 60,
{
    Timestamp {
        year: t.year,
        month: t.month,
        day: t.day,
        hour: (m / 60) as u8,
        minute: (m % 60) as u8,
        second: t.second,
        nanos: t.nanos,
    }
}

/// The moment `by` minutes after `t`, if it lies in the years 0 to 9999.
fn shift(t: Timestamp, by: i32) -> (r: Option<Timestamp>)
    requires
        t.valid(),
        -1440 < by < 1440,
    ensures
        r == shifted(t, by as int),
        r matches Some(u) ==> u.valid(),
{
    let m: i32 = t.hour as i32 * 60 + t.minute as i32 + by;
    if m < 0 {
        let day = if t.day > 1 {
            Timestamp { day: t.day - 1, ..t }
        } else if t.month > 1 {
            Timestamp { month: t.month - 1, day: month_length(t.year, t.month - 1), ..t }
        } else if t.year > 0 {
            Timestamp { year: t.year - 1, month: 12, day: 31, ..t }
        } else {
            return None;
        };
        Some(set_minute(day, m + 1440))
    } else if m >= 1440 {
        let day = if t.day < month_length(t.year, t.month) {
            Timestamp { day: t.day + 1, ..t }
        } else if t.month < 12 {
            Timestamp { month: t.month + 1, day: 1, ..t }
        } else if t.year < 9999 {
            Timestamp { year: t.year + 1, month: 1, day: 1, ..t }
        } else {
            return None;
        };
        Some(set_minute(day, m - 1440))
    } else {
        Some(set_minute(t, m))
    }
}

/// The weight of the digit `k` places behind the point, in nanoseconds.
pub open spec fn scale_at(k: int) -> int {
    if k == 0 {
        100_000_000
    } else if k == 1 {
        10_000_000
    } else if k == 2 {
        1_000_000
    } else if k == 3 {
        100_000
    } else if k == 4 {
        10_000
    } else if k == 5 {
        1_000
    } else if k == 6 {
        100
    } else if k == 7 {
        10
    } else if k == 8 {
        1
    } else {
        0
    }
}

/// The part of `fraction_value` that the first `k` places give.
pub open spec fn partial_fraction(s: Seq<u8>, k: int) -> int {
    (if k > 0 { fraction_digit(s, 0) * 100_000_000 } else { 0 })
    + (if k > 1 { fraction_digit(s, 1) * 10_000_000 } else { 0 })
    + (if k > 2 { fraction_digit(s, 2) * 1_000_000 } else { 0 })
    + (if k > 3 { fraction_digit(s, 3) * 100_000 } else { 0 })
    + (if k > 4 { fraction_digit(s, 4) * 10_000 } else { 0 })
    + (if k > 5 { fraction_digit(s, 5) * 1_000 } else { 0 })
    + (if k > 6 { fraction_digit(s, 6) * 100 } else { 0 })
    + (if k > 7 { fraction_digit(s, 7) * 10 } else { 0 })
    + (if k > 8 { fraction_digit(s, 8) } else { 0 })
}

fn pair_ok(s: &[u8], at: usize) -> (r: bool)
    requires
        at + 1 < s@.len(),
    ensures
        r == pair_is_digits(s@, at as int),
{
    48 <= s[at] && s[at] <= 57 && 48 <= s[at + 1] && s[at + 1] <= 57
}

fn pair_of(s: &[u8], at: usize) -> (r: u32)
    requires
        at + 1 < s@.len(),
        pair_is_digits(s@, at as int),
    ensures
        r as int == pair_value(s@, at as int),
        r < 100,
{
    10 * ((s[at] - 48) as u32) + (s[at + 1] - 48) as u32
}

fn push_pair(out: &mut Vec<u8>, n: u32)
    requires
        n < 100,
    ensures
        final(out)@ == old(out)@ + two_digits(n as int),
{
    out.push(48 + (n / 10) as u8);
    out.push(48 + (n % 10) as u8);
    proof {
        assert(out@ =~= old(out)@ + two_digits(n as int));
    }
}

fn push_date_time(out: &mut Vec<u8>, t: &Timestamp)
    requires
        t.valid(),
    ensures
        final(out)@ == old(out)@ + date_time_bytes(*t),
{
    let ghost before = out@;
    push_pair(out, (t.year / 100) as u32);
    push_pair(out, (t.year % 100) as u32);
    out.push(45);
    push_pair(out, t.month as u32);
    out.push(45);
    push_pair(out, t.day as u32);
    out.push(84);
    push_pair(out, t.hour as u32);
    out.push(58);
    push_pair(out, t.minute as u32);
    out.push(58);
    push_pair(out, t.second as u32);
    proof {
        assert(out@ =~= before + date_time_bytes(*t));
    }
}

fn push_fraction(out: &mut Vec<u8>, n: u32)
    requires
        n < 1_000_000_000,
    ensures
        final(out)@ == old(out)@ + fraction_bytes(n as int),
{
    let ghost before = out@;
    if n != 0 {
        out.push(46);
        push_triple(out, n / 1_000_000);
        if n % 1_000_000 != 0 {
            push_triple(out, n / 1_000 % 1_000);
            if n % 1_000 != 0 {
                push_triple(out, n % 1_000);
            }
        }
    }
    proof {
        assert(out@ =~= before + fraction_bytes(n as int));
    }
}

fn push_triple(out: &mut Vec<u8>, n: u32)
    requires
        n < 1000,
    ensures
        final(out)@ == old(out)@ + three_digits(n as int),
{
    out.push(48 + (n / 100) as u8);
    out.push(48 + (n / 10 % 10) as u8);
    out.push(48 + (n % 10) as u8);
    proof {
        assert(out@ =~= old(out)@ + three_digits(n as int));
    }
}

/// `Utc::now` of chrono, taken apart by the accessors of its `Datelike` and
/// `Timelike` traits. Nothing is claimed of what the clock reports.
#[verifier::external_body]
fn read_clock() -> (r: ClockReading) {
    let now = chrono::Utc::now();
    ClockReading {
        year: chrono::Datelike::year(&now),
        month: chrono::Datelike::month(&now),
        day: chrono::Datelike::day(&now),
        hour: chrono::Timelike::hour(&now),
        minute: chrono::Timelike::minute(&now),
        second: chrono::Timelike::second(&now),
        nanos: chrono::Timelike::nanosecond(&now),
    }
}

proof fn lemma_date_time_bytes(t: Timestamp)
    requires
        t.valid(),
    ensures
        date_time_bytes(t).len() == 19,
        all_ascii(date_time_bytes(t)),
        ({
            let s = date_time_bytes(t);
            &&& pair_is_digits(s, 0) && pair_is_digits(s, 2) && pair_is_digits(s, 5)
            &&& pair_is_digits(s, 8) && pair_is_digits(s, 11) && pair_is_digits(s, 14)
            &&& pair_is_digits(s, 17)
            &&& s[4] == 45 && s[7] == 45 && s[10] == 84 && s[13] == 58 && s[16] == 58
            &&& pair_value(s, 0) == t.year as int / 100
            &&& pair_value(s, 2) == t.year as int % 100
            &&& pair_value(s, 5) == t.month as int
            &&& pair_value(s, 8) == t.day as int
            &&& pair_value(s, 11) == t.hour as int
            &&& pair_value(s, 14) == t.minute as int
            &&& pair_value(s, 17) == t.second as int
        }),
{
    let y = t.year as int;
    let s = date_time_bytes(t);
    let e = seq![
        (48 + y / 100 / 10) as u8,
        (48 + y / 100 % 10) as u8,
        (48 + y % 100 / 10) as u8,
        (48 + y % 100 % 10) as u8,
        45u8,
        (48 + t.month as int / 10) as u8,
        (48 + t.month as int % 10) as u8,
        45u8,
        (48 + t.day as int / 10) as u8,
        (48 + t.day as int % 10) as u8,
        84u8,
        (48 + t.hour as int / 10) as u8,
        (48 + t.hour as int % 10) as u8,
        58u8,
        (48 + t.minute as int / 10) as u8,
        (48 + t.minute as int % 10) as u8,
        58u8,
        (48 + t.second as int / 10) as u8,
        (48 + t.second as int % 10) as u8,
    ];
    assert(s =~= e);
}

proof fn lemma_fraction_bytes(n: int)
    requires
        0 <= n < 1_000_000_000,
    ensures
        ({
            let f = fraction_bytes(n);
            &&& f.len() == 0 || f.len() == 4 || f.len() == 7 || f.len() == 10
            &&& f.len() > 0 ==> f[0] == 46
            &&& forall|i: int| 1 <= i < f.len() ==> is_digit(#[trigger] f[i])
            &&& n == (if f.len() > 1 { (f[1] - 48) * 100_000_000 + (f[2] - 48) * 10_000_000 + (f[3]
                - 48) * 1_000_000 } else { 0 }) + (if f.len() > 4 { (f[4] - 48) * 100_000 + (f[5]
                - 48) * 10_000 + (f[6] - 48) * 1_000 } else { 0 }) + (if f.len() > 7 { (f[7] - 48)
                * 100 + (f[8] - 48) * 10 + (f[9] - 48) } else { 0 })
        }),
{
    let a = n / 1_000_000;
    let b = n / 1_000 % 1_000;
    let c = n % 1_000;
    assert(n == a * 1_000_000 + b * 1_000 + c);
    assert(0 <= a < 1000 && 0 <= b < 1000 && 0 <= c < 1000);
    assert(a == (a / 100) * 100 + (a / 10 % 10) * 10 + a % 10);
    assert(b == (b / 100) * 100 + (b / 10 % 10) * 10 + b % 10);
    assert(c == (c / 100) * 100 + (c / 10 % 10) * 10 + c % 10);
    let f = fraction_bytes(n);
    if n == 0 {
    } else if n % 1_000_000 == 0 {
        assert(f =~= seq![46u8, (48 + a / 100) as u8, (48 + a / 10 % 10) as u8, (48 + a % 10) as u8]);
        assert(b == 0 && c == 0);
    } else if n % 1_000 == 0 {
        assert(f =~= seq![
            46u8,
            (48 + a / 100) as u8,
            (48 + a / 10 % 10) as u8,
            (48 + a % 10) as u8,
            (48 + b / 100) as u8,
            (48 + b / 10 % 10) as u8,
            (48 + b % 10) as u8,
        ]);
        assert(c == 0);
    } else {
        assert(f =~= seq![
            46u8,
            (48 + a / 100) as u8,
            (48 + a / 10 % 10) as u8,
            (48 + a % 10) as u8,
            (48 + b / 100) as u8,
            (48 + b / 10 % 10) as u8,
            (48 + b % 10) as u8,
            (48 + c / 100) as u8,
            (48 + c / 10 % 10) as u8,
            (48 + c % 10) as u8,
        ]);
    }
}

/// Reading the spelling of a timestamp gives the timestamp back.
pub proof fn lemma_timestamp_round_trip(t: Timestamp)
    requires
        t.valid(),
    ensures
        is_ascii_chars(t.text()),
        all_ascii(rfc3339_bytes(t)),
        timestamp_of_text(t.text()) == Some(t),
{
    reveal(timestamp_of_text);
    let s = rfc3339_bytes(t);
    let h = date_time_bytes(t);
    let f = fraction_bytes(t.nanos as int);
    lemma_date_time_bytes(t);
    lemma_fraction_bytes(t.nanos as int);
    assert(s.len() == 20 + f.len());
    assert forall|i: int| 0 <= i < 19 implies s[i] == h[i] by {}
    assert forall|i: int| 0 <= i < f.len() implies s[19 + i] == f[i] by {}
    assert(s[s.len() - 1] == 90);
    assert(all_ascii(s)) by {
        assert forall|i: int| 0 <= i < s.len() implies #[trigger] s[i] < 128 by {
            if i < 19 {
                assert(s[i] == h[i]);
            } else if i < s.len() - 1 {
                assert(s[i] == f[i - 19]);
            }
        }
    }
    assert(bytes_of_ascii(t.text()) =~= s);
    assert(is_ascii_chars(t.text()));
    assert(rfc3339_shape(s)) by {
        assert forall|i: int| 20 <= i < s.len() - 1 implies is_digit(#[trigger] s[i]) by {
            assert(s[i] == f[i - 19]);
        }
    }
    assert(fraction_value(s) == t.nanos as int) by {
        assert(forall|k: int| 0 <= k < f.len() - 1 ==> fraction_digit(s, k) == f[k + 1] - 48);
        assert(forall|k: int| k >= f.len() - 1 ==> fraction_digit(s, k) == 0);
    }
    assert(timestamp_of_reading(rfc3339_reading(s)) == t);
    assert(zone_len(s) == 1);
    assert(s[10] == h[10]);
    assert(local_spelling(s) =~= s);
    assert(shifted(t, 0) == Some(t));
}

} // verus!
