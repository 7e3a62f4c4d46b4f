//! Timestamps of log records: signed epoch seconds or a calendar date.
//!
//! Accepted calendar forms are `YYYY-MM-DD`, `YYYY-MM-DD HH:MM[:SS]` with an
//! optional numeric offset, and `YYYY-MM-DDTHH:MM:SS` with `Z` or an offset.

use vstd::prelude::*;
use vstd::slice::slice_subrange;

verus! {

pub open spec fn is_digit(byte: u8) -> bool {
    0x30 <= byte <= 0x39
}

pub open spec fn all_digits(s: Seq<u8>) -> bool {
    forall|i: int| 0 <= i < s.len() ==> is_digit(#[trigger] s[i])
}

/// The value of a string of decimal digits.
pub open spec fn number_of(s: Seq<u8>) -> nat
    decreases s.len(),
{
    if s.len() == 0 {
        0
    } else {
        number_of(s.drop_last()) * 10 + (s.last() - 0x30) as nat
    }
}

/// The value of a nonempty string of decimal digits that fits 32 bits.
pub open spec fn fixed_of(s: Seq<u8>) -> Option<u32> {
    if s.len() > 0 && all_digits(s) && number_of(s) <= u32::MAX {
        Some(number_of(s) as u32)
    } else {
        None
    }
}

proof fn number_of_prefix(s: Seq<u8>, n: int)
    requires
        0 <= n <= s.len(),
    ensures
        number_of(s.take(n)) <= number_of(s),
    decreases s.len() - n,
{
    if n < s.len() {
        let next = s.take(n + 1);
        assert(next.drop_last() =~= s.take(n));
        number_of_prefix(s, n + 1);
    } else {
        assert(s.take(n) =~= s);
    }
}

/// Whether every byte is a decimal digit.
fn only_digits(value: &[u8]) -> (all: bool)
    ensures
        all == all_digits(value@),
{
    let mut index: usize = 0;
    while index < value.len()
        invariant
            index <= value.len(),
            forall|i: int| 0 <= i < index ==> is_digit(#[trigger] value@[i]),
        decreases value.len() - index,
    {
        if value[index] < 0x30 || value[index] > 0x39 {
            assert(!is_digit(value@[index as int]));
            return false;
        }
        index = index + 1;
    }
    true
}

/// Reads a string of decimal digits whose value is at most `maximum`.
fn bounded_number(value: &[u8], maximum: u64) -> (number: Option<u64>)
    requires
        all_digits(value@),
        maximum <= u64::MAX / 2 + 1,
    ensures
        number is Some <==> number_of(value@) <= maximum,
        number matches Some(n) ==> n == number_of(value@),
{
    let mut number: u64 = 0;
    let mut index: usize = 0;
    assert(value@.take(0) =~= Seq::<u8>::empty());
    while index < value.len()
        invariant
            index <= value.len(),
            all_digits(value@),
            maximum <= u64::MAX / 2 + 1,
            number == number_of(value@.take(index as int)),
            number <= maximum,
        decreases value.len() - index,
    {
        proof {
            let next = value@.take(index as int + 1);
            assert(next.drop_last() =~= value@.take(index as int));
            assert(next.last() == value@[index as int]);
            assert(is_digit(value@[index as int]));
            number_of_prefix(value@, index as int + 1);
        }
        let digit: u64 = (value[index] - 0x30) as u64;
        if number > maximum / 10 {
            return None;
        }
        let tens: u64 = number * 10;
        if digit > maximum - tens {
            return None;
        }
        number = tens + digit;
        index = index + 1;
    }
    assert(value@.take(index as int) =~= value@);
    Some(number)
}

pub fn parse_fixed_u32(value: &[u8]) -> (number: Option<u32>)
    ensures
        number == fixed_of(value@),
{
    if value.len() == 0 || !only_digits(value) {
        return None;
    }
    match bounded_number(value, 0xffff_ffff) {
        Some(n) => Some(n as u32),
        None => None,
    }
}

/// Leap years of the Gregorian calendar.
pub open spec fn is_leap(year: int) -> bool {
    year % 4 == 0 && (year % 100 != 0 || year % 400 == 0)
}

/// The number of days of a month; zero for a month that does not exist.
pub open spec fn month_days(year: int, month: int) -> int {
    if month == 1 || month == 3 || month == 5 || month == 7 || month == 8 || month == 10 || month
        == 12 {
        31
    } else if month == 4 || month == 6 || month == 9 || month == 11 {
        30
    } else if month == 2 {
        if is_leap(year) {
            29
        } else {
            28
        }
    } else {
        0
    }
}

/// Days from the first day of year zero to the first day of `year`.
pub open spec fn days_before_year(year: int) -> int {
    365 * year + (year + 3) / 4 - (year + 99) / 100 + (year + 399) / 400
}

/// Days from the first day of `year` to the first day of its `month`.
pub open spec fn days_before_month(year: int, month: int) -> int
    decreases month,
{
    if month <= 1 {
        0
    } else {
        days_before_month(year, month - 1) + month_days(year, month - 1)
    }
}

/// Days from 1970-01-01 to a date of the proleptic Gregorian calendar.
pub open spec fn civil_days(year: int, month: int, day: int) -> int {
    days_before_year(year) - days_before_year(1970) + days_before_month(year, month) + day - 1
}

/// Every year is as long as the leap-year rule says, so the day count is the
/// calendar's.
pub proof fn years_have_calendar_length(year: int)
    ensures
        days_before_year(year + 1) - days_before_year(year) == if is_leap(year) {
            366int
        } else {
            365int
        },
        days_before_month(year, 13) == if is_leap(year) {
            366int
        } else {
            365int
        },
{
    month_lengths_add_up(year);
    let before = year - 1;
    assert(year / 4 - before / 4 == if year % 4 == 0 {
        1int
    } else {
        0
    });
    assert(year / 100 - before / 100 == if year % 100 == 0 {
        1int
    } else {
        0
    });
    assert(year / 400 - before / 400 == if year % 400 == 0 {
        1int
    } else {
        0
    });
}

proof fn month_lengths_add_up(year: int)
    ensures
        days_before_month(year, 13) == 337 + month_days(year, 2),
{
    assert(days_before_month(year, 4) == 62 + month_days(year, 2)) by {
        reveal_with_fuel(days_before_month, 4);
    }
    assert(days_before_month(year, 8) == days_before_month(year, 4) + 122) by {
        reveal_with_fuel(days_before_month, 5);
    }
    assert(days_before_month(year, 13) == days_before_month(year, 8) + 153) by {
        reveal_with_fuel(days_before_month, 6);
    }
}

/// The day after the last day of a month is the first day of the next month,
/// also across the end of a year.
pub proof fn months_follow_each_other(year: int, month: int)
    requires
        1 <= month <= 12,
    ensures
        month < 12 ==> civil_days(year, month, month_days(year, month)) + 1 == civil_days(
            year,
            month + 1,
            1,
        ),
        month == 12 ==> civil_days(year, month, month_days(year, month)) + 1 == civil_days(
            year + 1,
            1,
            1,
        ),
{
    years_have_calendar_length(year);
    if month == 12 {
        assert(days_before_month(year, 13) == days_before_month(year, 12) + month_days(year, 12));
    }
}

/// The day after a day of a month is the next day of the month.
pub proof fn days_follow_each_other(year: int, month: int, day: int)
    ensures
        civil_days(year, month, day + 1) == civil_days(year, month, day) + 1,
{
}

/// The day count starts at the Unix epoch.
pub proof fn epoch_is_day_zero()
    ensures
        civil_days(1970, 1, 1) == 0,
{
}

pub fn days_in_month(year: i64, month: u32) -> (days: u32)
    ensures
        days == month_days(year as int, month as int),
{
    if month == 1 || month == 3 || month == 5 || month == 7 || month == 8 || month == 10 || month
        == 12 {
        31
    } else if month == 4 || month == 6 || month == 9 || month == 11 {
        30
    } else if month == 2 {
        let fourth = year.checked_rem_euclid(4) == Some(0i64);
        let hundredth = year.checked_rem_euclid(100) == Some(0i64);
        let four_hundredth = year.checked_rem_euclid(400) == Some(0i64);
        if fourth && (!hundredth || four_hundredth) {
            29
        } else {
            28
        }
    } else {
        0
    }
}

/// Days from 0000-03-01 to the first of March of `year`.
#[verifier::opaque]
spec fn days_before_march(year: int) -> int {
    365 * year + year / 4 - year / 100 + year / 400
}

proof fn march_days_by_era(year: int)
    ensures
        days_before_march(year) == (year / 400) * 146_097 + (year % 400) * 365 + (year % 400) / 4
            - (year % 400) / 100,
        days_before_march(year - 400) == days_before_march(year) - 146_097,
{
    reveal(days_before_march);
    let era = year / 400;
    let rest = year % 400;
    assert(year == era * 400 + rest);
    assert(year / 4 == era * 100 + rest / 4);
    assert(year / 100 == era * 4 + rest / 100);
}

proof fn civil_days_from_march(year: int, month: int, day: int)
    requires
        1 <= month <= 12,
    ensures
        month > 2 ==> civil_days(year, month, day) == days_before_march(year) + (153 * (month - 3)
            + 2) / 5 + day - 1 - 719_468,
        month <= 2 ==> civil_days(year, month, day) == days_before_march(year - 1) + (153 * (month
            + 9) + 2) / 5 + day - 1 - 719_468,
{
    reveal(days_before_march);
    reveal_with_fuel(days_before_month, 13);
    assert(days_before_year(1970) == 719_528);
    assert((year + 3) / 4 == (year - 1) / 4 + 1);
    assert((year + 99) / 100 == (year - 1) / 100 + 1);
    assert((year + 399) / 400 == (year - 1) / 400 + 1);
    assert(days_before_year(year) == days_before_march(year - 1) + 306 + 60);
    if month > 2 {
        years_have_calendar_length(year);
        assert(days_before_march(year) - days_before_march(year - 1) == if is_leap(year) {
            366int
        } else {
            365int
        });
        assert(days_before_month(year, 3) == 31 + month_days(year, 2));
    }
}

/// Counts days since 1970-01-01 by eras of four hundred years that start in
/// March, so that the leap day is the last day of its year.
pub fn days_from_civil(year: i64, month: u32, day: u32) -> (days: i64)
    requires
        0 <= year <= 10_000,
        1 <= month <= 12,
        1 <= day <= 31,
    ensures
        days == civil_days(year as int, month as int, day as int),
{
    // One era is added so that every quantity here is nonnegative.
    let march_year: u64 = if month <= 2 {
        year as u64 + 399
    } else {
        year as u64 + 400
    };
    let era: u64 = march_year / 400;
    let year_of_era: u64 = march_year % 400;
    let shifted: u64 = if month > 2 {
        month as u64 - 3
    } else {
        month as u64 + 9
    };
    let day_of_year: u64 = (153 * shifted + 2) / 5 + day as u64 - 1;
    let day_of_era: u64 = year_of_era * 365 + year_of_era / 4 - year_of_era / 100 + day_of_year;
    proof {
        civil_days_from_march(year as int, month as int, day as int);
        march_days_by_era(march_year as int);
        let y = if month <= 2 {
            year - 1
        } else {
            year as int
        };
        assert(march_year - 400 == y);
        assert(civil_days(year as int, month as int, day as int) == days_before_march(y)
            + day_of_year - 719_468);
    }
    (era * 146_097 + day_of_era) as i64 - 719_468 - 146_097
}

/// A time of day together with how many bytes it was written in.
pub struct Clock {
    pub hour: u32,
    pub minute: u32,
    pub second: u32,
    /// Written after `T`, so that a zone must follow.
    pub rfc3339: bool,
    /// Bytes from the separator to the end of the time of day.
    pub used: usize,
}

/// The time of day that follows a date; midnight when there is none.
pub open spec fn clock_of(rest: Seq<u8>) -> Result<Clock, Seq<char>> {
    if rest.len() > 0 && rest[0] == 0x54 {
        if rest.len() < 9 || rest[3] != 0x3a || rest[6] != 0x3a {
            Err("RFC3339 timestamp must use HH:MM:SS"@)
        } else if fixed_of(rest.subrange(1, 3)) is None {
            Err("invalid hour"@)
        } else if fixed_of(rest.subrange(4, 6)) is None {
            Err("invalid minute"@)
        } else if fixed_of(rest.subrange(7, 9)) is None {
            Err("invalid second"@)
        } else {
            Ok(
                Clock {
                    hour: fixed_of(rest.subrange(1, 3))->0,
                    minute: fixed_of(rest.subrange(4, 6))->0,
                    second: fixed_of(rest.subrange(7, 9))->0,
                    rfc3339: true,
                    used: 9,
                },
            )
        }
    } else if rest.len() > 0 && rest[0] == 0x20 {
        if rest.len() < 6 {
            Err("legacy date time must use HH:MM or HH:MM:SS"@)
        } else if fixed_of(rest.subrange(1, 3)) is None {
            Err("invalid hour"@)
        } else if rest[3] != 0x3a {
            Err("legacy date time must use HH:MM"@)
        } else if fixed_of(rest.subrange(4, 6)) is None {
            Err("invalid minute"@)
        } else if rest.len() > 6 && rest[6] == 0x3a {
            if rest.len() < 9 {
                Err("legacy date time must use HH:MM:SS"@)
            } else if fixed_of(rest.subrange(7, 9)) is None {
                Err("invalid second"@)
            } else {
                Ok(
                    Clock {
                        hour: fixed_of(rest.subrange(1, 3))->0,
                        minute: fixed_of(rest.subrange(4, 6))->0,
                        second: fixed_of(rest.subrange(7, 9))->0,
                        rfc3339: false,
                        used: 9,
                    },
                )
            }
        } else {
            Ok(
                Clock {
                    hour: fixed_of(rest.subrange(1, 3))->0,
                    minute: fixed_of(rest.subrange(4, 6))->0,
                    second: 0,
                    rfc3339: false,
                    used: 6,
                },
            )
        }
    } else {
        Ok(Clock { hour: 0, minute: 0, second: 0, rfc3339: false, used: 0 })
    }
}

fn parse_clock(rest: &[u8]) -> (clock: Result<Clock, &'static str>)
    ensures
        match clock {
            Ok(c) => clock_of(rest@) == Ok::<Clock, Seq<char>>(c),
            Err(message) => clock_of(rest@) == Err::<Clock, Seq<char>>(message@),
        },
        clock matches Ok(c) ==> c.used <= rest@.len(),
{
    if rest.len() > 0 && rest[0] == 0x54 {
        if rest.len() < 9 || rest[3] != 0x3a || rest[6] != 0x3a {
            return Err("RFC3339 timestamp must use HH:MM:SS");
        }
        let hour: u32 = match parse_fixed_u32(slice_subrange(rest, 1, 3)) {
            Some(n) => n,
            None => return Err("invalid hour"),
        };
        let minute: u32 = match parse_fixed_u32(slice_subrange(rest, 4, 6)) {
            Some(n) => n,
            None => return Err("invalid minute"),
        };
        let second: u32 = match parse_fixed_u32(slice_subrange(rest, 7, 9)) {
            Some(n) => n,
            None => return Err("invalid second"),
        };
        return Ok(Clock { hour, minute, second, rfc3339: true, used: 9 });
    }
    if rest.len() > 0 && rest[0] == 0x20 {
        if rest.len() < 6 {
            return Err("legacy date time must use HH:MM or HH:MM:SS");
        }
        let hour: u32 = match parse_fixed_u32(slice_subrange(rest, 1, 3)) {
            Some(n) => n,
            None => return Err("invalid hour"),
        };
        if rest[3] != 0x3a {
            return Err("legacy date time must use HH:MM");
        }
        let minute: u32 = match parse_fixed_u32(slice_subrange(rest, 4, 6)) {
            Some(n) => n,
            None => return Err("invalid minute"),
        };
        if rest.len() > 6 && rest[6] == 0x3a {
            if rest.len() < 9 {
                return Err("legacy date time must use HH:MM:SS");
            }
            let second: u32 = match parse_fixed_u32(slice_subrange(rest, 7, 9)) {
                Some(n) => n,
                None => return Err("invalid second"),
            };
            return Ok(Clock { hour, minute, second, rfc3339: false, used: 9 });
        }
        return Ok(Clock { hour, minute, second: 0, rfc3339: false, used: 6 });
    }
    Ok(Clock { hour: 0, minute: 0, second: 0, rfc3339: false, used: 0 })
}

/// The seconds of a numeric offset `+HH[:MM]` or `-HH[:MM]`.
pub open spec fn offset_of(value: Seq<u8>, require_minutes: bool) -> Result<int, Seq<char>> {
    if value.len() < 3 || (value[0] != 0x2b && value[0] != 0x2d) {
        Err("timestamp offset must use +HH[:MM] or -HH[:MM]"@)
    } else if fixed_of(value.subrange(1, 3)) is None {
        Err("invalid offset hour"@)
    } else {
        let hour = fixed_of(value.subrange(1, 3))->0;
        if value.len() == 3 && !require_minutes {
            if hour > 23 {
                Err("timestamp offset is outside the valid range"@)
            } else {
                Ok(signed(value[0] == 0x2d, hour * 3600))
            }
        } else if value.len() != 6 || value[3] != 0x3a {
            Err("timestamp offset must use +HH:MM or -HH:MM"@)
        } else if fixed_of(value.subrange(4, 6)) is None {
            Err("invalid offset minute"@)
        } else {
            let minute = fixed_of(value.subrange(4, 6))->0;
            if hour > 23 || minute > 59 {
                Err("timestamp offset is outside the valid range"@)
            } else {
                Ok(signed(value[0] == 0x2d, hour * 3600 + minute * 60))
            }
        }
    }
}

pub open spec fn signed(negative: bool, magnitude: int) -> int {
    if negative {
        -magnitude
    } else {
        magnitude
    }
}

pub fn parse_offset(value: &[u8], require_minutes: bool) -> (offset: Result<i64, &'static str>)
    ensures
        match offset {
            Ok(seconds) => offset_of(value@, require_minutes) == Ok::<int, Seq<char>>(
                seconds as int,
            ),
            Err(message) => offset_of(value@, require_minutes) == Err::<int, Seq<char>>(message@),
        },
        offset matches Ok(seconds) ==> -86_400 < seconds < 86_400,
{
    if value.len() < 3 || (value[0] != 0x2b && value[0] != 0x2d) {
        return Err("timestamp offset must use +HH[:MM] or -HH[:MM]");
    }
    let hour: u32 = match parse_fixed_u32(slice_subrange(value, 1, 3)) {
        Some(n) => n,
        None => return Err("invalid offset hour"),
    };
    let minute: u32 = if value.len() == 3 && !require_minutes {
        0
    } else {
        if value.len() != 6 || value[3] != 0x3a {
            return Err("timestamp offset must use +HH:MM or -HH:MM");
        }
        match parse_fixed_u32(slice_subrange(value, 4, 6)) {
            Some(n) => n,
            None => return Err("invalid offset minute"),
        }
    };
    if hour > 23 || minute > 59 {
        return Err("timestamp offset is outside the valid range");
    }
    let total: i64 = hour as i64 * 3_600 + minute as i64 * 60;
    Ok(
        if value[0] == 0x2d {
            -total
        } else {
            total
        },
    )
}

/// The zone after a time of day, in seconds east of UTC.
pub open spec fn zone_of(rest: Seq<u8>, rfc3339: bool) -> Result<int, Seq<char>> {
    if rfc3339 {
        if rest == seq![0x5au8] {
            Ok(0)
        } else {
            offset_of(rest, true)
        }
    } else if rest.len() == 0 {
        Ok(0)
    } else if rest[0] == 0x20 {
        if rest.len() == 1 {
            Err("timestamp has a separator without an explicit offset"@)
        } else {
            offset_of(rest.skip(1), false)
        }
    } else {
        offset_of(rest, false)
    }
}

fn parse_zone(rest: &[u8], rfc3339: bool) -> (zone: Result<i64, &'static str>)
    ensures
        match zone {
            Ok(seconds) => zone_of(rest@, rfc3339) == Ok::<int, Seq<char>>(seconds as int),
            Err(message) => zone_of(rest@, rfc3339) == Err::<int, Seq<char>>(message@),
        },
        zone matches Ok(seconds) ==> -86_400 < seconds < 86_400,
{
    if rfc3339 {
        if rest.len() == 1 && rest[0] == 0x5a {
            assert(rest@ =~= seq![0x5au8]);
            return Ok(0);
        }
        return parse_offset(rest, true);
    }
    if rest.len() == 0 {
        return Ok(0);
    }
    if rest[0] == 0x20 {
        if rest.len() == 1 {
            return Err("timestamp has a separator without an explicit offset");
        }
        assert(rest@.skip(1) =~= rest@.subrange(1, rest@.len() as int));
        return parse_offset(slice_subrange(rest, 1, rest.len()), false);
    }
    parse_offset(rest, false)
}

/// Seconds since the epoch of a date and time in a zone.
pub open spec fn civil_seconds(
    year: int,
    month: int,
    day: int,
    hour: int,
    minute: int,
    second: int,
    offset: int,
) -> int {
    civil_days(year, month, day) * 86_400 + hour * 3_600 + minute * 60 + second - offset
}

/// The timestamp of a calendar form.
pub open spec fn calendar_of(value: Seq<u8>) -> Result<int, Seq<char>> {
    if value.len() < 10 {
        Err("timestamp is not a supported date form"@)
    } else if fixed_of(value.subrange(0, 4)) is None {
        Err("invalid four-digit year"@)
    } else if value[4] != 0x2d || value[7] != 0x2d {
        Err("date must use YYYY-MM-DD"@)
    } else if fixed_of(value.subrange(5, 7)) is None {
        Err("invalid month"@)
    } else if fixed_of(value.subrange(8, 10)) is None {
        Err("invalid day"@)
    } else {
        let year = fixed_of(value.subrange(0, 4))->0;
        let month = fixed_of(value.subrange(5, 7))->0;
        let day = fixed_of(value.subrange(8, 10))->0;
        match clock_of(value.skip(10)) {
            Err(message) => Err(message),
            Ok(clock) => match zone_of(value.skip(10).skip(clock.used as int), clock.rfc3339) {
                Err(message) => Err(message),
                Ok(offset) => if month == 0 || month > 12 || day == 0 || day > month_days(
                    year as int,
                    month as int,
                ) {
                    Err("date is outside the Gregorian calendar"@)
                } else if clock.hour > 23 || clock.minute > 59 || clock.second > 59 {
                    Err("time is outside the valid range"@)
                } else {
                    Ok(
                        civil_seconds(
                            year as int,
                            month as int,
                            day as int,
                            clock.hour as int,
                            clock.minute as int,
                            clock.second as int,
                            offset,
                        ),
                    )
                },
            },
        }
    }
}

proof fn four_digits_are_small(s: Seq<u8>)
    requires
        all_digits(s),
        s.len() == 4,
    ensures
        number_of(s) <= 9999,
{
    reveal_with_fuel(number_of, 5);
    assert(is_digit(s[0]) && is_digit(s[1]) && is_digit(s[2]) && is_digit(s[3]));
}

pub fn parse_calendar_timestamp(value: &[u8]) -> (timestamp: Result<i64, &'static str>)
    ensures
        match timestamp {
            Ok(seconds) => calendar_of(value@) == Ok::<int, Seq<char>>(seconds as int),
            Err(message) => calendar_of(value@) == Err::<int, Seq<char>>(message@),
        },
{
    if value.len() < 10 {
        return Err("timestamp is not a supported date form");
    }
    let year: u32 = match parse_fixed_u32(slice_subrange(value, 0, 4)) {
        Some(n) => n,
        None => return Err("invalid four-digit year"),
    };
    proof {
        four_digits_are_small(value@.subrange(0, 4));
    }
    if value[4] != 0x2d || value[7] != 0x2d {
        return Err("date must use YYYY-MM-DD");
    }
    let month: u32 = match parse_fixed_u32(slice_subrange(value, 5, 7)) {
        Some(n) => n,
        None => return Err("invalid month"),
    };
    let day: u32 = match parse_fixed_u32(slice_subrange(value, 8, 10)) {
        Some(n) => n,
        None => return Err("invalid day"),
    };
    let rest = slice_subrange(value, 10, value.len());
    assert(rest@ =~= value@.skip(10));
    let clock = match parse_clock(rest) {
        Ok(c) => c,
        Err(message) => return Err(message),
    };
    let zone_text = slice_subrange(rest, clock.used, rest.len());
    assert(zone_text@ =~= value@.skip(10).skip(clock.used as int));
    let offset: i64 = match parse_zone(zone_text, clock.rfc3339) {
        Ok(seconds) => seconds,
        Err(message) => return Err(message),
    };
    if month == 0 || month > 12 || day == 0 || day > days_in_month(year as i64, month) {
        return Err("date is outside the Gregorian calendar");
    }
    if clock.hour > 23 || clock.minute > 59 || clock.second > 59 {
        return Err("time is outside the valid range");
    }
    let days: i64 = days_from_civil(year as i64, month, day);
    proof {
        civil_days_are_small(year as int, month as int, day as int);
    }
    Ok(
        days * 86_400 + clock.hour as i64 * 3_600 + clock.minute as i64 * 60 + clock.second as i64
            - offset,
    )
}

proof fn civil_days_are_small(year: int, month: int, day: int)
    requires
        0 <= year <= 10_000,
        1 <= month <= 12,
        1 <= day <= 31,
    ensures
        -800_000 <= civil_days(year, month, day) <= 4_000_000,
{
    reveal_with_fuel(days_before_month, 13);
}

/// The timestamp of a record: an optionally negative string of digits is
/// seconds since the epoch, anything else is a calendar form.
pub open spec fn timestamp_of(value: Seq<u8>) -> Result<int, Seq<char>> {
    let digits = if value.len() > 0 && value[0] == 0x2d {
        value.skip(1)
    } else {
        value
    };
    if value.len() == 0 {
        Err("timestamp cannot be empty"@)
    } else if digits.len() > 0 && all_digits(digits) {
        let seconds = signed(value[0] == 0x2d, number_of(digits) as int);
        if i64::MIN <= seconds <= i64::MAX {
            Ok(seconds)
        } else {
            Err("signed epoch timestamp overflows i64"@)
        }
    } else if value[0] == 0x2b {
        Err("leading + is not accepted for epoch timestamps"@)
    } else {
        calendar_of(value)
    }
}

pub fn parse_timestamp(value: &[u8]) -> (timestamp: Result<i64, &'static str>)
    ensures
        match timestamp {
            Ok(seconds) => timestamp_of(value@) == Ok::<int, Seq<char>>(seconds as int),
            Err(message) => timestamp_of(value@) == Err::<int, Seq<char>>(message@),
        },
{
    if value.len() == 0 {
        return Err("timestamp cannot be empty");
    }
    let negative = value[0] == 0x2d;
    let digits = if negative {
        slice_subrange(value, 1, value.len())
    } else {
        value
    };
    assert(digits@ =~= if value@[0] == 0x2d {
        value@.skip(1)
    } else {
        value@
    });
    if digits.len() > 0 && only_digits(digits) {
        let maximum: u64 = if negative {
            0x8000_0000_0000_0000
        } else {
            0x7fff_ffff_ffff_ffff
        };
        return match bounded_number(digits, maximum) {
            Some(n) => if negative {
                if n == 0x8000_0000_0000_0000 {
                    Ok(i64::MIN)
                } else {
                    Ok(-(n as i64))
                }
            } else {
                Ok(n as i64)
            },
            None => Err("signed epoch timestamp overflows i64"),
        };
    }
    if value[0] == 0x2b {
        return Err("leading + is not accepted for epoch timestamps");
    }
    parse_calendar_timestamp(value)
}

/// A signed decimal number with an optional sign, within 64 bits.
pub open spec fn signed_number_of(value: Seq<u8>) -> Option<i64> {
    let has_sign = value.len() > 0 && (value[0] == 0x2d || value[0] == 0x2b);
    let digits = if has_sign {
        value.skip(1)
    } else {
        value
    };
    let number = signed(has_sign && value[0] == 0x2d, number_of(digits) as int);
    if digits.len() > 0 && all_digits(digits) && i64::MIN <= number <= i64::MAX {
        Some(number as i64)
    } else {
        None
    }
}

pub fn parse_signed_number(value: &[u8]) -> (number: Option<i64>)
    ensures
        number == signed_number_of(value@),
{
    let negative = value.len() > 0 && value[0] == 0x2d;
    let has_sign = negative || (value.len() > 0 && value[0] == 0x2b);
    let digits = if has_sign {
        slice_subrange(value, 1, value.len())
    } else {
        value
    };
    assert(digits@ =~= if has_sign {
        value@.skip(1)
    } else {
        value@
    });
    if digits.len() == 0 || !only_digits(digits) {
        return None;
    }
    let maximum: u64 = if negative {
        0x8000_0000_0000_0000
    } else {
        0x7fff_ffff_ffff_ffff
    };
    match bounded_number(digits, maximum) {
        Some(n) => if negative {
            if n == 0x8000_0000_0000_0000 {
                Some(i64::MIN)
            } else {
                Some(-(n as i64))
            }
        } else {
            Some(n as i64)
        },
        None => None,
    }
}

} // verus!
