//! What timestamps of records mean.

use vstd::prelude::*;

use crate::timestamp;

verus! {

/// A number below a hundred in two digits.
pub open spec fn two_digits(n: int) -> Seq<u8> {
    seq![(0x30 + n / 10) as u8, (0x30 + n % 10) as u8]
}

/// A number below ten thousand in four digits.
pub open spec fn four_digits(n: int) -> Seq<u8> {
    two_digits(n / 100) + two_digits(n % 100)
}

/// `YYYY-MM-DD`.
pub open spec fn date_text(year: int, month: int, day: int) -> Seq<u8> {
    four_digits(year) + seq![0x2du8] + two_digits(month) + seq![0x2du8] + two_digits(day)
}

/// `HH:MM`.
pub open spec fn minute_text(hour: int, minute: int) -> Seq<u8> {
    two_digits(hour) + seq![0x3au8] + two_digits(minute)
}

/// `HH:MM:SS`.
pub open spec fn clock_text(hour: int, minute: int, second: int) -> Seq<u8> {
    minute_text(hour, minute) + seq![0x3au8] + two_digits(second)
}

/// The sign of an offset west or east of UTC.
pub open spec fn sign_text(west: bool) -> Seq<u8> {
    if west {
        seq![0x2du8]
    } else {
        seq![0x2bu8]
    }
}

/// The number of days of the months of a year, as the Gregorian calendar has
/// them.
pub open spec fn gregorian_days(year: int, month: int) -> int {
    if month == 2 {
        if year % 400 == 0 {
            29
        } else if year % 100 == 0 {
            28
        } else if year % 4 == 0 {
            29
        } else {
            28
        }
    } else if month == 4 || month == 6 || month == 9 || month == 11 {
        30
    } else {
        31
    }
}

proof fn two_digits_are_read(n: int)
    requires
        0 <= n <= 99,
    ensures
        timestamp::fixed_of(two_digits(n)) == Some(n as u32),
        two_digits(n).len() == 2,
        timestamp::all_digits(two_digits(n)),
{
    let s = two_digits(n);
    reveal_with_fuel(timestamp::number_of, 3);
    assert(s.drop_last() =~= seq![(0x30 + n / 10) as u8]);
    assert(s.drop_last().drop_last() =~= Seq::<u8>::empty());
    assert(timestamp::is_digit(s[0]) && timestamp::is_digit(s[1]));
    assert(timestamp::number_of(s) == n);
}

proof fn four_digits_are_read(n: int)
    requires
        0 <= n <= 9999,
    ensures
        timestamp::fixed_of(four_digits(n)) == Some(n as u32),
        four_digits(n).len() == 4,
{
    let s = four_digits(n);
    reveal_with_fuel(timestamp::number_of, 5);
    assert(s.drop_last() =~= seq![s[0], s[1], s[2]]);
    assert(s.drop_last().drop_last() =~= seq![s[0], s[1]]);
    assert(s.drop_last().drop_last().drop_last() =~= seq![s[0]]);
    assert(s.drop_last().drop_last().drop_last().drop_last() =~= Seq::<u8>::empty());
    assert(timestamp::is_digit(s[0]) && timestamp::is_digit(s[1]) && timestamp::is_digit(s[2])
        && timestamp::is_digit(s[3]));
    assert(timestamp::number_of(s) == n);
}

/// A text that starts like a date is no number.
proof fn dates_are_no_numbers(value: Seq<u8>)
    requires
        value.len() >= 10,
        value[4] == 0x2d,
        timestamp::fixed_of(value.subrange(0, 4)) is Some,
    ensures
        timestamp::timestamp_of(value) == timestamp::calendar_of(value),
{
    assert(timestamp::is_digit(value.subrange(0, 4)[0]));
    assert(!timestamp::is_digit(value[4]));
    assert(!timestamp::all_digits(value));
}

proof fn date_parts(year: int, month: int, day: int, rest: Seq<u8>)
    requires
        0 <= year <= 9999,
        0 <= month <= 99,
        0 <= day <= 99,
    ensures
        ({
            let value = date_text(year, month, day) + rest;
            &&& value.len() == 10 + rest.len()
            &&& value[4] == 0x2d
            &&& value[7] == 0x2d
            &&& timestamp::fixed_of(value.subrange(0, 4)) == Some(year as u32)
            &&& timestamp::fixed_of(value.subrange(5, 7)) == Some(month as u32)
            &&& timestamp::fixed_of(value.subrange(8, 10)) == Some(day as u32)
            &&& value.skip(10) == rest
        }),
{
    let value = date_text(year, month, day) + rest;
    four_digits_are_read(year);
    two_digits_are_read(month);
    two_digits_are_read(day);
    assert(value.subrange(0, 4) =~= four_digits(year));
    assert(value.subrange(5, 7) =~= two_digits(month));
    assert(value.subrange(8, 10) =~= two_digits(day));
    assert(value.skip(10) =~= rest);
}

proof fn clock_parts(hour: int, minute: int, second: int, rest: Seq<u8>, separator: u8)
    requires
        0 <= hour <= 99,
        0 <= minute <= 99,
        0 <= second <= 99,
    ensures
        ({
            let value = seq![separator] + clock_text(hour, minute, second) + rest;
            &&& value.len() == 9 + rest.len()
            &&& value[0] == separator
            &&& value[3] == 0x3a
            &&& value[6] == 0x3a
            &&& timestamp::fixed_of(value.subrange(1, 3)) == Some(hour as u32)
            &&& timestamp::fixed_of(value.subrange(4, 6)) == Some(minute as u32)
            &&& timestamp::fixed_of(value.subrange(7, 9)) == Some(second as u32)
            &&& value.skip(9) == rest
        }),
{
    let value = seq![separator] + clock_text(hour, minute, second) + rest;
    two_digits_are_read(hour);
    two_digits_are_read(minute);
    two_digits_are_read(second);
    assert(value.subrange(1, 3) =~= two_digits(hour));
    assert(value.subrange(4, 6) =~= two_digits(minute));
    assert(value.subrange(7, 9) =~= two_digits(second));
    assert(value.skip(9) =~= rest);
}

proof fn minute_parts(hour: int, minute: int, rest: Seq<u8>, separator: u8)
    requires
        0 <= hour <= 99,
        0 <= minute <= 99,
    ensures
        ({
            let value = seq![separator] + minute_text(hour, minute) + rest;
            &&& value.len() == 6 + rest.len()
            &&& value[0] == separator
            &&& value[3] == 0x3a
            &&& rest.len() > 0 ==> value[6] == rest[0]
            &&& timestamp::fixed_of(value.subrange(1, 3)) == Some(hour as u32)
            &&& timestamp::fixed_of(value.subrange(4, 6)) == Some(minute as u32)
            &&& value.skip(6) == rest
        }),
{
    let value = seq![separator] + minute_text(hour, minute) + rest;
    two_digits_are_read(hour);
    two_digits_are_read(minute);
    assert(value.subrange(1, 3) =~= two_digits(hour));
    assert(value.subrange(4, 6) =~= two_digits(minute));
    assert(value.skip(6) =~= rest);
}

/// `+HH:MM` is as many seconds east of UTC as its hours and minutes have,
/// `-HH:MM` as many west of it.
proof fn offsets_are_read(west: bool, hour: int, minute: int, require_minutes: bool)
    requires
        0 <= hour <= 99,
        0 <= minute <= 99,
    ensures
        ({
            let read = timestamp::offset_of(
                sign_text(west) + minute_text(hour, minute),
                require_minutes,
            );
            &&& read is Ok <==> hour <= 23 && minute <= 59
            &&& read is Ok && west ==> read == Ok::<int, Seq<char>>(-(hour * 3600 + minute * 60))
            &&& read is Ok && !west ==> read == Ok::<int, Seq<char>>(hour * 3600 + minute * 60)
        }),
{
    let value = sign_text(west) + minute_text(hour, minute);
    two_digits_are_read(hour);
    two_digits_are_read(minute);
    assert(value.subrange(1, 3) =~= two_digits(hour));
    assert(value.subrange(4, 6) =~= two_digits(minute));
    assert(value.len() == 6);
}

proof fn short_offsets_are_read(west: bool, hour: int)
    requires
        0 <= hour <= 99,
    ensures
        ({
            let read = timestamp::offset_of(sign_text(west) + two_digits(hour), false);
            &&& read is Ok <==> hour <= 23
            &&& read is Ok && west ==> read == Ok::<int, Seq<char>>(-(hour * 3600))
            &&& read is Ok && !west ==> read == Ok::<int, Seq<char>>(hour * 3600)
            &&& timestamp::offset_of(sign_text(west) + two_digits(hour), true) is Err
        }),
{
    let value = sign_text(west) + two_digits(hour);
    two_digits_are_read(hour);
    assert(value.subrange(1, 3) =~= two_digits(hour));
    assert(value.len() == 3);
}

/// For every date and time of day, the timestamp with `-HH:MM` is as many
/// seconds after the one with `Z` as the offset has, and with `+HH:MM` as many
/// before it.  An offset of more than 23 hours or 59 minutes is refused.
pub proof fn offsets_shift_the_time(head: Seq<u8>, hour: int, minute: int, time: int)
    requires
        timestamp::timestamp_of(head + seq![0x5au8]) == Ok::<int, Seq<char>>(time),
        0 <= hour <= 99,
        0 <= minute <= 99,
    ensures
        ({
            let west = timestamp::timestamp_of(head + seq![0x2du8] + minute_text(hour, minute));
            let east = timestamp::timestamp_of(head + seq![0x2bu8] + minute_text(hour, minute));
            &&& hour <= 23 && minute <= 59 ==> {
                &&& west == Ok::<int, Seq<char>>(time + (hour * 3600 + minute * 60))
                &&& east == Ok::<int, Seq<char>>(time - (hour * 3600 + minute * 60))
            }
            &&& hour > 23 || minute > 59 ==> west is Err && east is Err
        }),
{
    let utc = head + seq![0x5au8];
    assert(!timestamp::is_digit(utc.last()));
    if utc.len() > 1 {
        assert(utc.skip(1).last() == utc.last());
        assert(!timestamp::is_digit(utc.skip(1)[utc.skip(1).len() - 1]));
    }
    assert(!timestamp::is_digit(utc[utc.len() - 1]));
    assert(timestamp::timestamp_of(utc) == timestamp::calendar_of(utc));
    let rest = utc.skip(10);
    let clock = timestamp::clock_of(rest)->Ok_0;
    let zone = rest.skip(clock.used as int);
    if !clock.rfc3339 {
        if zone.len() > 0 {
            assert(zone.last() == 0x5a);
            if zone[0] == 0x20 {
                assert(zone.skip(1).last() == 0x5a);
                refused_after_z(zone.skip(1), false);
            } else {
                refused_after_z(zone, false);
            }
        } else {
            // The last byte of a time of day is a digit.
            assert(rest.len() == clock.used);
            if clock.used == 9 {
                assert(rest.subrange(7, 9)[1] == 0x5a);
                assert(timestamp::is_digit(rest.subrange(7, 9)[1]));
            } else if clock.used == 6 {
                assert(rest.subrange(4, 6)[1] == 0x5a);
                assert(timestamp::is_digit(rest.subrange(4, 6)[1]));
            } else {
                assert(utc.subrange(8, 10)[1] == 0x5a);
                assert(timestamp::is_digit(utc.subrange(8, 10)[1]));
            }
        }
        assert(false);
    }
    assert(zone.last() == 0x5a) by {
        if zone.len() == 0 {
            assert(rest.subrange(7, 9)[1] == 0x5a);
            assert(timestamp::is_digit(rest.subrange(7, 9)[1]));
        }
    }
    if zone != seq![0x5au8] {
        refused_after_z(zone, true);
    }
    assert(utc.len() == 20);
    shifted(head, true, hour, minute);
    shifted(head, false, hour, minute);
}

/// No offset ends in `Z`.
proof fn refused_after_z(value: Seq<u8>, require_minutes: bool)
    requires
        value.len() > 0,
        value.last() == 0x5a,
    ensures
        timestamp::offset_of(value, require_minutes) is Err,
{
    if value.len() == 3 {
        assert(value.subrange(1, 3)[1] == 0x5a);
        if timestamp::all_digits(value.subrange(1, 3)) {
            assert(timestamp::is_digit(value.subrange(1, 3)[1]));
        }
    } else if value.len() == 6 {
        assert(value.subrange(4, 6)[1] == 0x5a);
        if timestamp::all_digits(value.subrange(4, 6)) {
            assert(timestamp::is_digit(value.subrange(4, 6)[1]));
        }
    }
}

proof fn shifted(head: Seq<u8>, west: bool, hour: int, minute: int)
    requires
        head.len() == 19,
        head[10] == 0x54,
        timestamp::calendar_of(head + seq![0x5au8]) is Ok,
        0 <= hour <= 99,
        0 <= minute <= 99,
    ensures
        ({
            let time = timestamp::calendar_of(head + seq![0x5au8])->Ok_0;
            let read = timestamp::timestamp_of(
                head + sign_text(west) + minute_text(hour, minute),
            );
            &&& hour <= 23 && minute <= 59 && west ==> read == Ok::<int, Seq<char>>(
                time + (hour * 3600 + minute * 60),
            )
            &&& hour <= 23 && minute <= 59 && !west ==> read == Ok::<int, Seq<char>>(
                time - (hour * 3600 + minute * 60),
            )
            &&& hour > 23 || minute > 59 ==> read is Err
        }),
{
    let utc = head + seq![0x5au8];
    let offset = sign_text(west) + minute_text(hour, minute);
    let value = head + sign_text(west) + minute_text(hour, minute);
    assert(value =~= head + offset);
    assert(value.subrange(0, 4) =~= utc.subrange(0, 4));
    assert(value.subrange(5, 7) =~= utc.subrange(5, 7));
    assert(value.subrange(8, 10) =~= utc.subrange(8, 10));
    let rest = value.skip(10);
    let before = utc.skip(10);
    assert(rest.subrange(1, 3) =~= before.subrange(1, 3));
    assert(rest.subrange(4, 6) =~= before.subrange(4, 6));
    assert(rest.subrange(7, 9) =~= before.subrange(7, 9));
    assert(rest.skip(9) =~= offset);
    assert(before.skip(9) =~= seq![0x5au8]);
    assert(value[4] == utc[4] && value[7] == utc[7]);
    assert(rest[0] == before[0] && rest[3] == before[3] && rest[6] == before[6]);
    offsets_are_read(west, hour, minute, true);
    assert(offset.len() == 6);
    dates_are_no_numbers(value);
}

/// A date by itself is its midnight in UTC, a whole number of days from the
/// first of January 1970; what is no date of the calendar is refused.
pub proof fn dates_are_midnights(year: int, month: int, day: int)
    requires
        0 <= year <= 9999,
        0 <= month <= 99,
        0 <= day <= 99,
    ensures
        ({
            let read = timestamp::timestamp_of(date_text(year, month, day));
            &&& read is Ok <==> 1 <= month <= 12 && 1 <= day <= gregorian_days(year, month)
            &&& read is Ok ==> read == Ok::<int, Seq<char>>(
                timestamp::civil_days(year, month, day) * 86_400,
            )
        }),
{
    let nothing = Seq::<u8>::empty();
    date_parts(year, month, day, nothing);
    assert(date_text(year, month, day) + nothing =~= date_text(year, month, day));
    let value = date_text(year, month, day);
    assert(value.skip(10).skip(0) =~= nothing);
    months_have_their_days(year, month);
    dates_are_no_numbers(value);
}

/// Months have the days that the Gregorian calendar gives them.
pub proof fn months_have_their_days(year: int, month: int)
    ensures
        1 <= month <= 12 ==> timestamp::month_days(year, month) == gregorian_days(year, month),
        !(1 <= month <= 12) ==> timestamp::month_days(year, month) == 0,
{
}

/// The day count starts at the first of January 1970, and the day after a date
/// is the next day of its month, else the first of the next month, else the
/// first of January of the next year.
pub proof fn days_are_counted_without_a_gap(year: int, month: int, day: int)
    requires
        1 <= month <= 12,
        1 <= day <= gregorian_days(year, month),
    ensures
        timestamp::civil_days(1970, 1, 1) == 0,
        day < gregorian_days(year, month) ==> timestamp::civil_days(year, month, day + 1)
            == timestamp::civil_days(year, month, day) + 1,
        day == gregorian_days(year, month) && month < 12 ==> timestamp::civil_days(
            year,
            month + 1,
            1,
        ) == timestamp::civil_days(year, month, day) + 1,
        day == gregorian_days(year, month) && month == 12 ==> timestamp::civil_days(year + 1, 1, 1)
            == timestamp::civil_days(year, month, day) + 1,
{
    timestamp::months_follow_each_other(year, month);
    months_have_their_days(year, month);
}

/// A time of day in UTC is its hours, minutes and seconds after the midnight of
/// its date, with `T` and `Z`, or after a space, with or without seconds; what
/// is no time of day is refused.
pub proof fn times_of_day_are_added(
    year: int,
    month: int,
    day: int,
    hour: int,
    minute: int,
    second: int,
    midnight: int,
)
    requires
        0 <= year <= 9999,
        0 <= month <= 99,
        0 <= day <= 99,
        0 <= hour <= 99,
        0 <= minute <= 99,
        0 <= second <= 99,
        timestamp::timestamp_of(date_text(year, month, day)) == Ok::<int, Seq<char>>(midnight),
    ensures
        ({
            let date = date_text(year, month, day);
            let clock = clock_text(hour, minute, second);
            let utc = timestamp::timestamp_of(date + (seq![0x54u8] + clock + seq![0x5au8]));
            let plain = timestamp::timestamp_of(
                date + (seq![0x20u8] + clock + Seq::<u8>::empty()),
            );
            let short = timestamp::timestamp_of(
                date + (seq![0x20u8] + minute_text(hour, minute) + Seq::<u8>::empty()),
            );
            &&& utc is Ok <==> hour <= 23 && minute <= 59 && second <= 59
            &&& utc is Ok ==> utc == Ok::<int, Seq<char>>(
                midnight + hour * 3600 + minute * 60 + second,
            )
            &&& plain is Ok <==> utc is Ok
            &&& plain is Ok ==> plain == utc
            &&& short is Ok <==> hour <= 23 && minute <= 59
            &&& short is Ok ==> short == Ok::<int, Seq<char>>(midnight + hour * 3600 + minute * 60)
        }),
{
    let date = date_text(year, month, day);
    let clock = clock_text(hour, minute, second);
    let nothing = Seq::<u8>::empty();
    let zulu = seq![0x54u8] + clock + seq![0x5au8];
    let plain = seq![0x20u8] + clock + nothing;
    let short = seq![0x20u8] + minute_text(hour, minute) + nothing;
    dates_are_midnights(year, month, day);
    months_have_their_days(year, month);
    date_parts(year, month, day, zulu);
    date_parts(year, month, day, plain);
    date_parts(year, month, day, short);
    clock_parts(hour, minute, second, seq![0x5au8], 0x54);
    clock_parts(hour, minute, second, nothing, 0x20);
    minute_parts(hour, minute, nothing, 0x20);
    dates_are_no_numbers(date + zulu);
    dates_are_no_numbers(date + plain);
    dates_are_no_numbers(date + short);
}

proof fn zones_shift(
    year: int,
    month: int,
    day: int,
    hour: int,
    minute: int,
    second: int,
    zone: Seq<u8>,
    time: int,
    offset: int,
)
    requires
        0 <= year <= 9999,
        0 <= month <= 99,
        0 <= day <= 99,
        0 <= hour <= 99,
        0 <= minute <= 99,
        0 <= second <= 99,
        timestamp::timestamp_of(
            date_text(year, month, day) + (seq![0x20u8] + clock_text(hour, minute, second)
                + Seq::<u8>::empty()),
        ) == Ok::<int, Seq<char>>(time),
        timestamp::zone_of(zone, false) == Ok::<int, Seq<char>>(offset),
    ensures
        timestamp::timestamp_of(
            date_text(year, month, day) + (seq![0x20u8] + clock_text(hour, minute, second) + zone),
        ) == Ok::<int, Seq<char>>(time - offset),
{
    let date = date_text(year, month, day);
    let head = seq![0x20u8] + clock_text(hour, minute, second);
    let nothing = Seq::<u8>::empty();
    date_parts(year, month, day, head + nothing);
    date_parts(year, month, day, head + zone);
    clock_parts(hour, minute, second, nothing, 0x20);
    clock_parts(hour, minute, second, zone, 0x20);
    dates_are_no_numbers(date + (head + nothing));
    dates_are_no_numbers(date + (head + zone));
}

/// The zones that may follow a time of day after a space: an offset with or
/// without its minutes, which may stand off by another space.
pub open spec fn is_loose_zone(zone: Seq<u8>, west: bool, hour: int, minute: int) -> bool {
    let full = sign_text(west) + minute_text(hour, minute);
    ||| zone == full
    ||| zone == seq![0x20u8] + full
    ||| minute == 0 && zone == sign_text(west) + two_digits(hour)
    ||| minute == 0 && zone == seq![0x20u8] + (sign_text(west) + two_digits(hour))
}

proof fn loose_zones_are_read(zone: Seq<u8>, west: bool, hour: int, minute: int)
    requires
        0 <= hour <= 23,
        0 <= minute <= 59,
        is_loose_zone(zone, west, hour, minute),
    ensures
        timestamp::zone_of(zone, false) == Ok::<int, Seq<char>>(
            if west {
                -(hour * 3600 + minute * 60)
            } else {
                hour * 3600 + minute * 60
            },
        ),
{
    let full = sign_text(west) + minute_text(hour, minute);
    let part = sign_text(west) + two_digits(hour);
    offsets_are_read(west, hour, minute, false);
    short_offsets_are_read(west, hour);
    assert(full.len() == 6 && part.len() == 3);
    assert(full[0] != 0x20 && part[0] != 0x20);
    assert((seq![0x20u8] + full).skip(1) =~= full);
    assert((seq![0x20u8] + part).skip(1) =~= part);
}

/// After a space the zone is optional; where it is there, it shifts the time
/// like any other.
#[verifier::rlimit(60)]
#[verifier::spinoff_prover]
pub proof fn offsets_after_a_space_shift_the_time(
    year: int,
    month: int,
    day: int,
    hour: int,
    minute: int,
    second: int,
    zone: Seq<u8>,
    west: bool,
    offset_hour: int,
    offset_minute: int,
    time: int,
)
    requires
        0 <= year <= 9999,
        0 <= month <= 99,
        0 <= day <= 99,
        0 <= hour <= 99,
        0 <= minute <= 99,
        0 <= second <= 99,
        0 <= offset_hour <= 23,
        0 <= offset_minute <= 59,
        is_loose_zone(zone, west, offset_hour, offset_minute),
        timestamp::timestamp_of(
            date_text(year, month, day) + (seq![0x20u8] + clock_text(hour, minute, second)
                + Seq::<u8>::empty()),
        ) == Ok::<int, Seq<char>>(time),
    ensures
        timestamp::timestamp_of(
            date_text(year, month, day) + (seq![0x20u8] + clock_text(hour, minute, second) + zone),
        ) == Ok::<int, Seq<char>>(
            if west {
                time + (offset_hour * 3600 + offset_minute * 60)
            } else {
                time - (offset_hour * 3600 + offset_minute * 60)
            },
        ),
{
    let offset = if west {
        -(offset_hour * 3600 + offset_minute * 60)
    } else {
        offset_hour * 3600 + offset_minute * 60
    };
    loose_zones_are_read(zone, west, offset_hour, offset_minute);
    zones_shift(year, month, day, hour, minute, second, zone, time, offset);
}

/// A string of digits is seconds since the epoch in decimal: one digit is its
/// value, and each further digit makes ten times the value and the digit, as
/// long as that fits.
pub proof fn epochs_are_decimal(digits: Seq<u8>, digit: int)
    requires
        timestamp::all_digits(digits),
        0 <= digit <= 9,
    ensures
        ({
            let read = timestamp::timestamp_of(digits.push((0x30 + digit) as u8));
            &&& digits.len() == 0 ==> read == Ok::<int, Seq<char>>(digit)
            &&& digits.len() > 0 ==> match timestamp::timestamp_of(digits) {
                Ok(before) => if before * 10 + digit <= i64::MAX {
                    read == Ok::<int, Seq<char>>(before * 10 + digit)
                } else {
                    read is Err
                },
                Err(_) => read is Err,
            }
        }),
{
    let longer = digits.push((0x30 + digit) as u8);
    assert(longer.drop_last() =~= digits);
    assert forall|i: int| 0 <= i < longer.len() implies timestamp::is_digit(
        #[trigger] longer[i],
    ) by {
        if i < digits.len() {
            assert(timestamp::is_digit(digits[i]));
        }
    }
    assert(timestamp::is_digit(longer[0]));
    if digits.len() > 0 {
        assert(timestamp::is_digit(digits[0]));
    } else {
        assert(timestamp::number_of(digits) == 0);
    }
}

/// A minus sign before digits negates them, and a plus sign is refused; an
/// empty timestamp is refused.
pub proof fn signs_negate_epochs(digits: Seq<u8>)
    requires
        timestamp::all_digits(digits),
        digits.len() > 0,
    ensures
        timestamp::timestamp_of(digits) matches Ok(seconds) ==> timestamp::timestamp_of(
            seq![0x2du8] + digits,
        ) == Ok::<int, Seq<char>>(-seconds),
        timestamp::timestamp_of(seq![0x2bu8] + digits) is Err,
        timestamp::timestamp_of(Seq::<u8>::empty()) is Err,
{
    let minus = seq![0x2du8] + digits;
    let plus = seq![0x2bu8] + digits;
    assert(minus.skip(1) =~= digits);
    assert(timestamp::is_digit(digits[0]));
    assert(!timestamp::is_digit(plus[0]));
}

/// A signed number is the value of its digits, with its sign, where that fits
/// 64 bits; a text that is anything else is no number.
pub proof fn signed_numbers_are_decimal(digits: Seq<u8>, digit: int)
    requires
        timestamp::all_digits(digits),
        0 <= digit <= 9,
    ensures
        ({
            let longer = digits.push((0x30 + digit) as u8);
            let read = timestamp::signed_number_of(longer);
            &&& digits.len() == 0 ==> read == Some(digit as i64)
            &&& digits.len() > 0 ==> match timestamp::signed_number_of(digits) {
                Some(before) => if before * 10 + digit <= i64::MAX {
                    read == Some((before * 10 + digit) as i64)
                } else {
                    read is None
                },
                None => read is None,
            }
            &&& read matches Some(number) ==> {
                &&& timestamp::signed_number_of(seq![0x2du8] + longer) == Some((-number) as i64)
                &&& timestamp::signed_number_of(seq![0x2bu8] + longer) == Some(number)
            }
            &&& timestamp::signed_number_of(Seq::empty()) is None
        }),
{
    let longer = digits.push((0x30 + digit) as u8);
    assert(longer.drop_last() =~= digits);
    assert forall|i: int| 0 <= i < longer.len() implies timestamp::is_digit(
        #[trigger] longer[i],
    ) by {
        if i < digits.len() {
            assert(timestamp::is_digit(digits[i]));
        }
    }
    assert(timestamp::is_digit(longer[0]));
    if digits.len() > 0 {
        assert(timestamp::is_digit(digits[0]));
    } else {
        assert(timestamp::number_of(digits) == 0);
    }
    assert((seq![0x2du8] + longer).skip(1) =~= longer);
    assert((seq![0x2bu8] + longer).skip(1) =~= longer);
}

} // verus!
