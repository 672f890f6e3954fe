//! Calendar dates and play timestamps.
//!
//! The remote service reports an album's release date as an ISO calendar date
//! (`YYYY-MM-DD`) and a play event's time as an RFC 3339 timestamp with a
//! time-zone designator.  Both are parsed here into plain values: a parse
//! failure is a fatal error for the run that encountered it.  A timestamp is
//! normalized to a time-zone-naive instant, counted in seconds from
//! 1970-01-01T00:00:00 UTC, so that two reports of the same play compare equal
//! whatever zone they were reported in.

use vstd::prelude::*;

verus! {

use vstd::string::StrSliceExecFns;

/// A parse failure in a remote date or timestamp; fatal for the run.
#[derive(Clone, Copy, PartialEq, Eq, Structural, Debug)]
pub struct ParseError;

/// A calendar date in the proleptic Gregorian calendar, year 0000 to 9999.
#[derive(Clone, Copy, PartialEq, Eq, Structural, Debug, Hash)]
pub struct Date {
    pub year: u16,
    pub month: u8,
    pub day: u8,
}

pub open spec fn is_digit(c: char) -> bool {
    '0' <= c && c <= '9'
}

pub open spec fn digit_val(c: char) -> int {
    (c as u32) as int - ('0' as u32) as int
}

pub open spec fn all_digits(s: Seq<char>) -> bool {
    forall|i: int| 0 <= i < s.len() ==> is_digit(#[trigger] s[i])
}

/// The value of a string of decimal digits, most significant first.
pub open spec fn num_val(s: Seq<char>) -> int
    decreases s.len(),
{
    if s.len() == 0 {
        0
    } else {
        num_val(s.drop_last()) * 10 + digit_val(s.last())
    }
}

pub open spec fn is_leap_year(y: int) -> bool {
    (y % 4 == 0 && y % 100 != 0) || y % 400 == 0
}

pub open spec fn days_in_month(y: int, m: int) -> int {
    if m == 2 {
        if is_leap_year(y) {
            29
        } else {
            28
        }
    } else if m == 4 || m == 6 || m == 9 || m == 11 {
        30
    } else {
        31
    }
}

pub open spec fn date_fields_valid(y: int, m: int, d: int) -> bool {
    0 <= y <= 9999 && 1 <= m <= 12 && 1 <= d <= days_in_month(y, m)
}

impl Date {
    pub open spec fn valid(self) -> bool {
        date_fields_valid(self.year as int, self.month as int, self.day as int)
    }
}

/// Whether `s` has the shape `YYYY-MM-DD` with decimal digits in the numeric
/// positions.
pub open spec fn date_shape(s: Seq<char>) -> bool {
    &&& s.len() == 10
    &&& all_digits(s.subrange(0, 4))
    &&& s[4] == '-'
    &&& all_digits(s.subrange(5, 7))
    &&& s[7] == '-'
    &&& all_digits(s.subrange(8, 10))
}

pub open spec fn date_year(s: Seq<char>) -> int {
    num_val(s.subrange(0, 4))
}

pub open spec fn date_month(s: Seq<char>) -> int {
    num_val(s.subrange(5, 7))
}

pub open spec fn date_day(s: Seq<char>) -> int {
    num_val(s.subrange(8, 10))
}

/// The date denoted by an ISO `YYYY-MM-DD` string, or `None` where the string
/// is not such a date.
pub open spec fn parse_date_spec(s: Seq<char>) -> Option<Date> {
    if date_shape(s) && date_fields_valid(date_year(s), date_month(s), date_day(s)) {
        Some(
            Date {
                year: date_year(s) as u16,
                month: date_month(s) as u8,
                day: date_day(s) as u8,
            },
        )
    } else {
        None
    }
}

fn is_digit_exec(c: char) -> (r: bool)
    ensures
        r == is_digit(c),
{
    '0' <= c && c <= '9'
}

fn digit_exec(c: char) -> (r: u32)
    requires
        is_digit(c),
    ensures
        r == digit_val(c),
        r <= 9,
{
    (c as u32) - ('0' as u32)
}

/// Reads the decimal number in `s[from..to]`, or reports a non-digit there.
fn read_number(s: &str, from: usize, to: usize) -> (r: Option<u32>)
    requires
        from <= to <= s@.len(),
        to - from <= 8,
    ensures
        match r {
            Some(n) => all_digits(s@.subrange(from as int, to as int)) && n == num_val(
                s@.subrange(from as int, to as int),
            ),
            None => !all_digits(s@.subrange(from as int, to as int)),
        },
{
    let mut i: usize = from;
    let mut acc: u32 = 0;
    while i < to
        invariant
            from <= i <= to <= s@.len(),
            to - from <= 8,
            all_digits(s@.subrange(from as int, i as int)),
            acc == num_val(s@.subrange(from as int, i as int)),
            acc < pow10((i - from) as nat),
        decreases to - i,
    {
        let c = s.get_char(i);
        if !is_digit_exec(c) {
            assert(s@.subrange(from as int, to as int)[i - from] == c);
            return None;
        }
        proof {
            lemma_pow10_mono((i - from) as nat, 7);
            lemma_pow10_small();
        }
        let d = digit_exec(c);
        let next = acc * 10 + d;
        proof {
            let pre = s@.subrange(from as int, i as int);
            let post = s@.subrange(from as int, i + 1);
            assert(post.drop_last() =~= pre);
            assert(post.last() == c);
            assert(pow10(((i + 1) - from) as nat) == 10 * pow10((i - from) as nat));
        }
        acc = next;
        i = i + 1;
    }
    assert(s@.subrange(from as int, i as int) =~= s@.subrange(from as int, to as int));
    Some(acc)
}

pub open spec fn pow10(n: nat) -> int
    decreases n,
{
    if n == 0 {
        1
    } else {
        10 * pow10((n - 1) as nat)
    }
}

proof fn lemma_pow10_small()
    ensures
        pow10(0) == 1,
        pow10(1) == 10,
        pow10(2) == 100,
        pow10(3) == 1000,
        pow10(4) == 10000,
        pow10(7) == 10000000,
{
    reveal_with_fuel(pow10, 8);
}

proof fn lemma_pow10_mono(a: nat, b: nat)
    requires
        a <= b,
    ensures
        pow10(a) <= pow10(b),
        pow10(a) >= 1,
    decreases b,
{
    if a < b {
        lemma_pow10_mono(a, (b - 1) as nat);
    } else if a > 0 {
        lemma_pow10_mono((a - 1) as nat, (b - 1) as nat);
    }
}

fn days_in_month_exec(year: u16, month: u8) -> (r: u8)
    requires
        1 <= month <= 12,
    ensures
        r == days_in_month(year as int, month as int),
        28 <= r <= 31,
{
    if month == 2 {
        let leap = (year % 4 == 0 && year % 100 != 0) || year % 400 == 0;
        if leap {
            29
        } else {
            28
        }
    } else if month == 4 || month == 6 || month == 9 || month == 11 {
        30
    } else {
        31
    }
}

/// Parses an ISO `YYYY-MM-DD` calendar date, as the remote service reports an
/// album's release date.  Succeeds exactly on the strings that denote a valid
/// proleptic Gregorian date of years 0000 through 9999.
pub fn parse_release_date(s: &str) -> (r: Result<Date, ParseError>)
    ensures
        match r {
            Ok(d) => parse_date_spec(s@) == Some(d),
            Err(_) => parse_date_spec(s@) is None,
        },
{
    let n = s.unicode_len();
    if n != 10 {
        return Err(ParseError);
    }
    if s.get_char(4) != '-' || s.get_char(7) != '-' {
        return Err(ParseError);
    }
    let year = match read_number(s, 0, 4) {
        Some(v) => v,
        None => {
            return Err(ParseError);
        },
    };
    let month = match read_number(s, 5, 7) {
        Some(v) => v,
        None => {
            return Err(ParseError);
        },
    };
    let day = match read_number(s, 8, 10) {
        Some(v) => v,
        None => {
            return Err(ParseError);
        },
    };
    proof {
        lemma_num_val_bound(s@.subrange(0, 4));
        lemma_num_val_bound(s@.subrange(5, 7));
        lemma_num_val_bound(s@.subrange(8, 10));
        lemma_pow10_small();
    }
    if month < 1 || month > 12 {
        return Err(ParseError);
    }
    let dim = days_in_month_exec(year as u16, month as u8);
    if day < 1 || day > dim as u32 {
        return Err(ParseError);
    }
    Ok(Date { year: year as u16, month: month as u8, day: day as u8 })
}

/// A digit string of length `n` denotes a value below `10^n`.
proof fn lemma_num_val_bound(s: Seq<char>)
    requires
        all_digits(s),
    ensures
        0 <= num_val(s) < pow10(s.len()),
    decreases s.len(),
{
    if s.len() > 0 {
        lemma_num_val_bound(s.drop_last());
    }
}

/// Days in the months `[1, m)` of year `y`.
pub open spec fn days_before_month(y: int, m: int) -> int
    decreases m,
{
    if m <= 1 {
        0
    } else {
        days_before_month(y, m - 1) + days_in_month(y, m - 1)
    }
}

/// Days from 0000-01-01 to `y`-01-01 in the proleptic Gregorian calendar
/// (year 0 is a leap year).
pub open spec fn days_before_year(y: int) -> int {
    if y <= 0 {
        0
    } else {
        365 * y + 1 + (y - 1) / 4 - (y - 1) / 100 + (y - 1) / 400
    }
}

/// Days from 1970-01-01 to the date `y`-`m`-`d`; negative for earlier dates.
pub open spec fn epoch_days(y: int, m: int, d: int) -> int {
    days_before_year(y) + days_before_month(y, m) + (d - 1) - 719528
}

/// The time-zone-naive instant, in seconds from 1970-01-01T00:00:00 UTC, of
/// the date `y`-`m`-`d` at `h`:`mi`:`s` in a zone `offset` seconds ahead of
/// UTC.
pub open spec fn instant_secs(y: int, m: int, d: int, h: int, mi: int, s: int, offset: int) -> int {
    epoch_days(y, m, d) * 86400 + h * 3600 + mi * 60 + s - offset
}

/// The end of the run of decimal digits that starts at `i`.
pub open spec fn digit_run_end(s: Seq<char>, i: int) -> int
    decreases s.len() - i,
    when 0 <= i <= s.len()
{
    if i < s.len() && is_digit(s[i]) {
        digit_run_end(s, i + 1)
    } else {
        i
    }
}

/// Whether positions 10 through 18 of `s` read `THH:MM:SS` (with `T` upper or
/// lower case).
pub open spec fn time_shape(s: Seq<char>) -> bool {
    &&& s.len() >= 19
    &&& (s[10] == 'T' || s[10] == 't')
    &&& all_digits(s.subrange(11, 13))
    &&& s[13] == ':'
    &&& all_digits(s.subrange(14, 16))
    &&& s[16] == ':'
    &&& all_digits(s.subrange(17, 19))
}

pub open spec fn stamp_hour(s: Seq<char>) -> int {
    num_val(s.subrange(11, 13))
}

pub open spec fn stamp_minute(s: Seq<char>) -> int {
    num_val(s.subrange(14, 16))
}

pub open spec fn stamp_second(s: Seq<char>) -> int {
    num_val(s.subrange(17, 19))
}

/// Where the zone designator starts: after the fractional seconds if position
/// 19 opens one, else at position 19.
pub open spec fn stamp_zone_pos(s: Seq<char>) -> int {
    if 19 < s.len() && s[19] == '.' {
        digit_run_end(s, 20)
    } else {
        19
    }
}

/// Whether a zone designator (`Z`, `z`, or a signed `HH:MM` offset) stands at
/// position `p` and closes the string.
pub open spec fn zone_shape(s: Seq<char>, p: int) -> bool {
    &&& p < s.len()
    &&& if s[p] == 'Z' || s[p] == 'z' {
        s.len() == p + 1
    } else if s[p] == '+' || s[p] == '-' {
        &&& s.len() == p + 6
        &&& all_digits(s.subrange(p + 1, p + 3))
        &&& s[p + 3] == ':'
        &&& all_digits(s.subrange(p + 4, p + 6))
        &&& num_val(s.subrange(p + 1, p + 3)) <= 23
        &&& num_val(s.subrange(p + 4, p + 6)) <= 59
    } else {
        false
    }
}

/// The offset, in seconds ahead of UTC, of the zone designator at `p`.
pub open spec fn zone_offset_secs(s: Seq<char>, p: int) -> int {
    if s[p] == 'Z' || s[p] == 'z' {
        0
    } else {
        let mag = num_val(s.subrange(p + 1, p + 3)) * 3600 + num_val(s.subrange(p + 4, p + 6)) * 60;
        if s[p] == '-' {
            -mag
        } else {
            mag
        }
    }
}

/// Whether `s` is an RFC 3339 timestamp: a valid calendar date, `T`, a valid
/// time of day, optional fractional seconds, and a zone designator.
pub open spec fn stamp_shape(s: Seq<char>) -> bool {
    &&& s.len() >= 20
    &&& date_shape(s.subrange(0, 10))
    &&& date_fields_valid(
        date_year(s.subrange(0, 10)),
        date_month(s.subrange(0, 10)),
        date_day(s.subrange(0, 10)),
    )
    &&& time_shape(s)
    &&& stamp_hour(s) <= 23
    &&& stamp_minute(s) <= 59
    &&& stamp_second(s) <= 59
    &&& (s[19] == '.' ==> digit_run_end(s, 20) > 20)
    &&& zone_shape(s, stamp_zone_pos(s))
}

/// The instant denoted by an RFC 3339 timestamp, normalized to UTC and
/// truncated to whole seconds, or `None` where the string is not such a
/// timestamp.
pub open spec fn parse_stamp_spec(s: Seq<char>) -> Option<int> {
    if stamp_shape(s) {
        Some(
            instant_secs(
                date_year(s.subrange(0, 10)),
                date_month(s.subrange(0, 10)),
                date_day(s.subrange(0, 10)),
                stamp_hour(s),
                stamp_minute(s),
                stamp_second(s),
                zone_offset_secs(s, stamp_zone_pos(s)),
            ),
        )
    } else {
        None
    }
}

fn days_before_month_exec(year: u16, month: u8) -> (r: u32)
    requires
        1 <= month <= 12,
    ensures
        r == days_before_month(year as int, month as int),
        r <= 341,
{
    let mut acc: u32 = 0;
    let mut m: u8 = 1;
    while m < month
        invariant
            1 <= m <= month <= 12,
            acc == days_before_month(year as int, m as int),
            acc <= 31 * (m - 1),
        decreases month - m,
    {
        acc = acc + days_in_month_exec(year, m) as u32;
        m = m + 1;
    }
    acc
}

/// Days from 1970-01-01 to `d`; negative for earlier dates.
pub fn epoch_days_of(d: &Date) -> (r: i64)
    requires
        d.valid(),
    ensures
        r == epoch_days(d.year as int, d.month as int, d.day as int),
        -719528 <= r <= 2932903,
{
    let y = d.year as i64;
    let before_year: i64 = if d.year == 0 {
        0
    } else {
        365 * y + 1 + (y - 1) / 4 - (y - 1) / 100 + (y - 1) / 400
    };
    let before_month = days_before_month_exec(d.year, d.month) as i64;
    before_year + before_month + (d.day as i64 - 1) - 719528
}

/// Parses an RFC 3339 timestamp, as the remote service reports the time a
/// track was played, into a time-zone-naive instant: seconds from
/// 1970-01-01T00:00:00 UTC.  Fractional seconds are accepted and truncated;
/// the zone designator (`Z` or a signed `HH:MM` offset) is folded into the
/// instant.  Succeeds exactly on the strings of that shape whose fields are in
/// range (years 0000 through 9999, seconds 00 through 59).
pub fn parse_played_at(s: &str) -> (r: Result<i64, ParseError>)
    ensures
        match r {
            Ok(t) => parse_stamp_spec(s@) == Some(t as int),
            Err(_) => parse_stamp_spec(s@) is None,
        },
{
    let n = s.unicode_len();
    if n < 20 {
        return Err(ParseError);
    }
    let date_part = s.substring_char(0, 10);
    let date = match parse_release_date(date_part) {
        Ok(d) => d,
        Err(e) => {
            return Err(e);
        },
    };
    let sep = s.get_char(10);
    if !(sep == 'T' || sep == 't') {
        return Err(ParseError);
    }
    if s.get_char(13) != ':' || s.get_char(16) != ':' {
        return Err(ParseError);
    }
    let hour = match read_number(s, 11, 13) {
        Some(v) => v,
        None => {
            return Err(ParseError);
        },
    };
    let minute = match read_number(s, 14, 16) {
        Some(v) => v,
        None => {
            return Err(ParseError);
        },
    };
    let second = match read_number(s, 17, 19) {
        Some(v) => v,
        None => {
            return Err(ParseError);
        },
    };
    if hour > 23 || minute > 59 || second > 59 {
        return Err(ParseError);
    }
    let mut zone_pos: usize = 19;
    if s.get_char(19) == '.' {
        let mut i: usize = 20;
        while i < n && is_digit_exec(s.get_char(i))
            invariant
                20 <= i <= n == s@.len(),
                digit_run_end(s@, 20) == digit_run_end(s@, i as int),
            decreases n - i,
        {
            i = i + 1;
        }
        assert(digit_run_end(s@, i as int) == i);
        if i == 20 {
            return Err(ParseError);
        }
        zone_pos = i;
    }
    proof {
        assert(zone_pos as int == stamp_zone_pos(s@));
    }
    if zone_pos >= n {
        return Err(ParseError);
    }
    let zc = s.get_char(zone_pos);
    let offset: i64;
    if zc == 'Z' || zc == 'z' {
        if n != zone_pos + 1 {
            return Err(ParseError);
        }
        offset = 0;
    } else if zc == '+' || zc == '-' {
        if n - zone_pos != 6 {
            return Err(ParseError);
        }
        if s.get_char(zone_pos + 3) != ':' {
            return Err(ParseError);
        }
        let oh = match read_number(s, zone_pos + 1, zone_pos + 3) {
            Some(v) => v,
            None => {
                return Err(ParseError);
            },
        };
        let om = match read_number(s, zone_pos + 4, zone_pos + 6) {
            Some(v) => v,
            None => {
                return Err(ParseError);
            },
        };
        if oh > 23 || om > 59 {
            return Err(ParseError);
        }
        let mag = (oh * 3600 + om * 60) as i64;
        offset = if zc == '-' {
            -mag
        } else {
            mag
        };
    } else {
        return Err(ParseError);
    }
    proof {
        lemma_subrange_of_subrange(s@);
        assert(stamp_shape(s@));
    }
    let days = epoch_days_of(&date);
    let t = days * 86400 + hour as i64 * 3600 + minute as i64 * 60 + second as i64 - offset;
    Ok(t)
}

/// Character-for-character, the date prefix of a timestamp reads the same
/// whether taken from the whole string or from its first ten characters.
proof fn lemma_subrange_of_subrange(s: Seq<char>)
    requires
        s.len() >= 10,
    ensures
        s.subrange(0, 10).subrange(0, 4) =~= s.subrange(0, 4),
        s.subrange(0, 10).subrange(5, 7) =~= s.subrange(5, 7),
        s.subrange(0, 10).subrange(8, 10) =~= s.subrange(8, 10),
{
}

} // verus!
