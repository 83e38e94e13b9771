//! ISO 8601 text for dates, times and durations.

use vstd::prelude::*;
use crate::json_text::{all_plain, lemma_all_plain_concat, lemma_escape_plain, quoted};
use crate::numbers::{
    decimal, lemma_decimal_nonempty, lemma_decimal_plain, lemma_zero_padded_plain, push_decimal, push_zero_padded, trunc_div, trunc_rem,
    zero_padded,
};
use crate::ordering::chars_of;
use crate::writer::JsonWriter;

verus! {

/// The fields of a date and time as Python's `datetime` holds them, and
/// whether its time zone is UTC.
pub struct DateTimeParts {
    pub year: i32,
    pub month: i32,
    pub day: i32,
    pub hour: i32,
    pub minute: i32,
    pub second: i32,
    pub microsecond: i32,
    pub is_utc: bool,
    /// The offset from UTC, in minutes, of an aware date and time.
    pub utc_offset_minutes: Option<i32>,
}

/// A UTC offset as `+HH:MM` or `-HH:MM`.
pub open spec fn offset_text(minutes: int) -> Seq<char> {
    let m = if minutes < 0 { -minutes } else { minutes };
    seq![if minutes < 0 { '-' } else { '+' }] + zero_padded(m / 60, 2) + seq![':'] + zero_padded(m % 60, 2)
}

/// The zone of a date and time: `Z` for UTC, the offset for another aware
/// one, nothing for a naive one.
pub open spec fn zone_text(p: DateTimeParts) -> Seq<char> {
    if p.is_utc {
        seq!['Z']
    } else {
        match p.utc_offset_minutes {
            Some(m) => offset_text(m as int),
            None => Seq::empty(),
        }
    }
}

/// `YYYY-MM-DD`.
pub open spec fn date_text(p: DateTimeParts) -> Seq<char> {
    zero_padded(p.year as int, 4) + seq!['-'] + zero_padded(p.month as int, 2) + seq!['-']
        + zero_padded(p.day as int, 2)
}

/// `HH:MM:SS`.
pub open spec fn clock_text(p: DateTimeParts) -> Seq<char> {
    zero_padded(p.hour as int, 2) + seq![':'] + zero_padded(p.minute as int, 2) + seq![':']
        + zero_padded(p.second as int, 2)
}

/// `.ffffff` when there are microseconds, then the zone.
pub open spec fn fraction_and_zone(p: DateTimeParts) -> Seq<char> {
    (if p.microsecond > 0 {
        seq!['.'] + zero_padded(p.microsecond as int, 6)
    } else {
        Seq::empty()
    }) + zone_text(p)
}

/// `YYYY-MM-DDTHH:MM:SS`, then `.ffffff` when there are microseconds, then
/// `Z` for UTC or `+HH:MM` / `-HH:MM` for another offset.
pub open spec fn datetime_text(p: DateTimeParts) -> Seq<char> {
    date_text(p) + seq!['T'] + clock_text(p) + fraction_and_zone(p)
}

/// The days of a duration, `nD`, when there are any.
pub open spec fn day_part(days: int) -> Seq<char> {
    if days != 0 {
        decimal(days) + seq!['D']
    } else {
        Seq::empty()
    }
}

/// The seconds of a duration: `s.ffffffS` when there are positive
/// microseconds, `sS` when the seconds are not zero.
pub open spec fn seconds_part(secs: int, micros: int) -> Seq<char> {
    if micros > 0 {
        decimal(secs) + seq!['.'] + zero_padded(micros, 6) + seq!['S']
    } else if secs != 0 {
        decimal(secs) + seq!['S']
    } else {
        Seq::empty()
    }
}

/// The time of a duration: when any of its fields is not zero, `T`
/// followed by `nH` and `nM` for the non-zero ones and the seconds.
pub open spec fn time_part(hours: int, minutes: int, secs: int, micros: int) -> Seq<char> {
    if hours != 0 || minutes != 0 || secs != 0 || micros != 0 {
        seq!['T'] + (if hours != 0 {
            decimal(hours) + seq!['H']
        } else {
            Seq::empty()
        }) + (if minutes != 0 {
            decimal(minutes) + seq!['M']
        } else {
            Seq::empty()
        }) + seconds_part(secs, micros)
    } else {
        Seq::empty()
    }
}

/// `P`, then the days, then the time.
pub open spec fn duration_body(days: int, hours: int, minutes: int, secs: int, micros: int) -> Seq<char> {
    seq!['P'] + day_part(days) + time_part(hours, minutes, secs, micros)
}

/// A duration's text is `P` alone exactly when all its fields are zero, and
/// `PT` alone exactly when only its microseconds are, and they are negative.
pub proof fn lemma_duration_body_short(days: int, hours: int, minutes: int, secs: int, micros: int)
    ensures
        (days == 0 && hours == 0 && minutes == 0 && secs == 0 && micros == 0) <==> duration_body(
            days,
            hours,
            minutes,
            secs,
            micros,
        ) == seq!['P'],
        (days == 0 && hours == 0 && minutes == 0 && secs == 0 && micros < 0) <==> duration_body(
            days,
            hours,
            minutes,
            secs,
            micros,
        ) == seq!['P', 'T'],
{
    lemma_decimal_nonempty(days);
    lemma_decimal_nonempty(hours);
    lemma_decimal_nonempty(minutes);
    lemma_decimal_nonempty(secs);
    let body = duration_body(days, hours, minutes, secs, micros);
    if days != 0 {
        assert(day_part(days).len() >= 2);
        assert(body.len() >= 3);
    }
    if hours != 0 || minutes != 0 || secs != 0 || micros > 0 {
        assert(time_part(hours, minutes, secs, micros).len() >= 2);
        assert(body.len() >= 3);
    }
    if days == 0 && hours == 0 && minutes == 0 && secs == 0 && micros < 0 {
        assert(body =~= seq!['P', 'T']);
    }
    if days == 0 && hours == 0 && minutes == 0 && secs == 0 && micros == 0 {
        assert(body =~= seq!['P']);
    }
}

/// The ISO 8601 duration of a Python `timedelta` given by its normalised
/// fields: days, seconds within the day, microseconds. A text that would be
/// only `P` or `PT` gets `T0S` appended.
pub open spec fn timedelta_text(days: int, seconds: int, micros: int) -> Seq<char> {
    let body = duration_body(
        days,
        trunc_div(seconds, 3600),
        trunc_div(trunc_rem(seconds, 3600), 60),
        trunc_rem(seconds, 60),
        micros,
    );
    if body == seq!['P'] || body == seq!['P', 'T'] {
        body + seq!['T', '0', 'S']
    } else {
        body
    }
}

/// The ISO 8601 duration of a span given as its whole seconds and the
/// nanoseconds beyond them: days of 86400 seconds, then hours, minutes and
/// seconds of the rest, with the microseconds. A text that would be only `P`
/// gets `T0S` appended.
pub open spec fn duration_text(total_secs: int, subsec_nanos: int) -> Seq<char> {
    let remaining = trunc_rem(total_secs, 86400);
    let body = duration_body(
        trunc_div(total_secs, 86400),
        trunc_div(remaining, 3600),
        trunc_div(trunc_rem(remaining, 3600), 60),
        trunc_rem(remaining, 60),
        trunc_div(subsec_nanos, 1000),
    );
    if body == seq!['P'] {
        body + seq!['T', '0', 'S']
    } else {
        body
    }
}

fn push_unit(s: &mut String, v: i64, unit: char)
    ensures
        final(s)@ == old(s)@ + decimal(v as int) + seq![unit],
{
    push_decimal(s, v);
    s.push(unit);
}

fn push_seconds_part(s: &mut String, secs: i64, micros: i64)
    ensures
        final(s)@ == old(s)@ + seconds_part(secs as int, micros as int),
{
    if micros > 0 {
        push_decimal(s, secs);
        s.push('.');
        push_zero_padded(s, micros, 6);
        s.push('S');
        assert(final(s)@ =~= old(s)@ + seconds_part(secs as int, micros as int));
    } else if secs != 0 {
        push_unit(s, secs, 'S');
    } else {
        assert(final(s)@ =~= old(s)@ + seconds_part(secs as int, micros as int));
    }
}

fn push_time_part(s: &mut String, hours: i64, minutes: i64, secs: i64, micros: i64)
    ensures
        final(s)@ == old(s)@ + time_part(hours as int, minutes as int, secs as int, micros as int),
{
    if hours != 0 || minutes != 0 || secs != 0 || micros != 0 {
        s.push('T');
        let ghost after_t = s@;
        if hours != 0 {
            push_unit(s, hours, 'H');
        }
        let ghost after_h = s@;
        if minutes != 0 {
            push_unit(s, minutes, 'M');
        }
        let ghost after_m = s@;
        push_seconds_part(s, secs, micros);
        assert(final(s)@ =~= old(s)@ + time_part(hours as int, minutes as int, secs as int, micros as int));
    } else {
        assert(final(s)@ =~= old(s)@ + time_part(hours as int, minutes as int, secs as int, micros as int));
    }
}

fn push_duration_body(s: &mut String, days: i64, hours: i64, minutes: i64, secs: i64, micros: i64)
    ensures
        final(s)@ == old(s)@ + duration_body(days as int, hours as int, minutes as int, secs as int, micros as int),
{
    s.push('P');
    if days != 0 {
        push_unit(s, days, 'D');
    }
    assert(s@ =~= old(s)@ + seq!['P'] + day_part(days as int));
    push_time_part(s, hours, minutes, secs, micros);
    assert(s@ =~= old(s)@ + duration_body(days as int, hours as int, minutes as int, secs as int, micros as int));
}

fn push_padded_then(s: &mut String, v: i32, width: usize, sep: char)
    ensures
        final(s)@ == old(s)@ + zero_padded(v as int, width as nat) + seq![sep],
{
    push_zero_padded(s, v as i64, width);
    s.push(sep);
}

fn push_date(s: &mut String, p: &DateTimeParts)
    ensures
        final(s)@ == old(s)@ + date_text(*p),
{
    push_padded_then(s, p.year, 4, '-');
    push_padded_then(s, p.month, 2, '-');
    push_zero_padded(s, p.day as i64, 2);
    assert(s@ =~= old(s)@ + date_text(*p));
}

fn push_clock(s: &mut String, p: &DateTimeParts)
    ensures
        final(s)@ == old(s)@ + clock_text(*p),
{
    push_padded_then(s, p.hour, 2, ':');
    push_padded_then(s, p.minute, 2, ':');
    push_zero_padded(s, p.second as i64, 2);
    assert(s@ =~= old(s)@ + clock_text(*p));
}

fn push_offset(s: &mut String, minutes: i32)
    ensures
        final(s)@ == old(s)@ + offset_text(minutes as int),
{
    let m: i64 = if minutes < 0 { -(minutes as i64) } else { minutes as i64 };
    if minutes < 0 {
        s.push('-');
    } else {
        s.push('+');
    }
    push_zero_padded(s, m / 60, 2);
    s.push(':');
    push_zero_padded(s, m % 60, 2);
    assert(final(s)@ =~= old(s)@ + offset_text(minutes as int));
}

fn push_fraction_and_zone(s: &mut String, p: &DateTimeParts)
    ensures
        final(s)@ == old(s)@ + fraction_and_zone(*p),
{
    let ghost start = s@;
    if p.microsecond > 0 {
        s.push('.');
        push_zero_padded(s, p.microsecond as i64, 6);
    }
    let ghost mid = s@;
    assert(mid =~= start + (if p.microsecond > 0 {
        seq!['.'] + zero_padded(p.microsecond as int, 6)
    } else {
        Seq::empty()
    }));
    let ghost before_zone = s@;
    if p.is_utc {
        s.push('Z');
    } else if let Some(m) = p.utc_offset_minutes {
        push_offset(s, m);
    }
    assert(s@ =~= before_zone + zone_text(*p));
    assert(s@ =~= start + fraction_and_zone(*p));
}

/// The ISO 8601 text of a date and time.
pub fn format_datetime(p: &DateTimeParts) -> (s: String)
    ensures
        s@ == datetime_text(*p),
{
    let mut buf = String::with_capacity(32);
    push_date(&mut buf, p);
    buf.push('T');
    push_clock(&mut buf, p);
    push_fraction_and_zone(&mut buf, p);
    assert(buf@ =~= datetime_text(*p));
    buf
}

/// Writes a date and time as a JSON string of its ISO 8601 text.
pub fn write_datetime(w: &mut JsonWriter, p: &DateTimeParts)
    ensures
        final(w)@ == old(w)@.append(quoted(datetime_text(*p), old(w)@.ensure_ascii)),
{
    let text = format_datetime(p);
    w.write_string(text.as_str());
}

/// The ISO 8601 duration of a `timedelta`'s days, seconds and microseconds,
/// normalised as Python keeps them: the seconds within a day and the
/// microseconds within a second.
pub fn format_timedelta(days: i32, seconds: i32, micros: i32) -> (s: String)
    requires
        0 <= seconds < 86400,
        0 <= micros < 1_000_000,
    ensures
        s@ == timedelta_text(days as int, seconds as int, micros as int),
{
    let total = seconds as i64;
    let hours = total / 3600;
    let minutes = (total % 3600) / 60;
    let secs = total % 60;
    let mut buf = String::with_capacity(32);
    push_duration_body(&mut buf, days as i64, hours, minutes, secs, micros as i64);
    proof {
        lemma_duration_body_short(days as int, hours as int, minutes as int, secs as int, micros as int);
    }
    if days == 0 && hours == 0 && minutes == 0 && secs == 0 && micros <= 0 {
        buf.push('T');
        buf.push('0');
        buf.push('S');
    }
    assert(buf@ =~= timedelta_text(days as int, seconds as int, micros as int));
    buf
}

/// Writes a `timedelta` as a JSON string of its ISO 8601 duration.
pub fn write_timedelta(w: &mut JsonWriter, days: i32, seconds: i32, micros: i32)
    requires
        0 <= seconds < 86400,
        0 <= micros < 1_000_000,
    ensures
        final(w)@ == old(w)@.append(quoted(timedelta_text(days as int, seconds as int, micros as int), old(w)@.ensure_ascii)),
{
    let text = format_timedelta(days, seconds, micros);
    w.write_string(text.as_str());
}

/// The ISO 8601 duration of a span of `total_secs` whole seconds and
/// `subsec_nanos` nanoseconds.
pub fn format_duration(total_secs: i64, subsec_nanos: i32) -> (s: String)
    ensures
        s@ == duration_text(total_secs as int, subsec_nanos as int),
{
    let micros = subsec_nanos as i64 / 1000;
    let days = total_secs / 86400;
    let remaining = total_secs % 86400;
    let hours = remaining / 3600;
    let minutes = (remaining % 3600) / 60;
    let secs = remaining % 60;
    let mut result = String::with_capacity(32);
    push_duration_body(&mut result, days, hours, minutes, secs, micros);
    proof {
        lemma_duration_body_short(days as int, hours as int, minutes as int, secs as int, micros as int);
    }
    if days == 0 && hours == 0 && minutes == 0 && secs == 0 && micros == 0 {
        result.push('T');
        result.push('0');
        result.push('S');
    }
    assert(result@ =~= duration_text(total_secs as int, subsec_nanos as int));
    result
}

proof fn lemma_plain3(a: Seq<char>, b: Seq<char>, c: Seq<char>)
    requires
        all_plain(a),
        all_plain(b),
        all_plain(c),
    ensures
        all_plain(a + b + c),
{
    lemma_all_plain_concat(a, b);
    lemma_all_plain_concat(a + b, c);
}

proof fn lemma_offset_plain(minutes: int)
    ensures
        all_plain(offset_text(minutes)),
{
    let m = if minutes < 0 { -minutes } else { minutes };
    lemma_zero_padded_plain(m / 60, 2);
    lemma_zero_padded_plain(m % 60, 2);
    let sign: Seq<char> = seq![if minutes < 0 { '-' } else { '+' }];
    assert(all_plain(sign) && all_plain(seq![':']));
    lemma_plain3(sign, zero_padded(m / 60, 2), seq![':']);
    lemma_all_plain_concat(sign + zero_padded(m / 60, 2) + seq![':'], zero_padded(m % 60, 2));
}

/// The text of a date and time needs no escaping.
pub proof fn lemma_datetime_text_plain(p: DateTimeParts)
    ensures
        all_plain(datetime_text(p)),
{
    lemma_zero_padded_plain(p.year as int, 4);
    lemma_zero_padded_plain(p.month as int, 2);
    lemma_zero_padded_plain(p.day as int, 2);
    lemma_zero_padded_plain(p.hour as int, 2);
    lemma_zero_padded_plain(p.minute as int, 2);
    lemma_zero_padded_plain(p.second as int, 2);
    lemma_zero_padded_plain(p.microsecond as int, 6);
    let dash: Seq<char> = seq!['-'];
    let colon: Seq<char> = seq![':'];
    assert(all_plain(dash) && all_plain(colon) && all_plain(seq!['T']) && all_plain(seq!['.']) && all_plain(seq!['Z']));
    lemma_plain3(zero_padded(p.year as int, 4), dash, zero_padded(p.month as int, 2));
    lemma_plain3(zero_padded(p.year as int, 4) + dash + zero_padded(p.month as int, 2), dash, zero_padded(p.day as int, 2));
    lemma_plain3(zero_padded(p.hour as int, 2), colon, zero_padded(p.minute as int, 2));
    lemma_plain3(zero_padded(p.hour as int, 2) + colon + zero_padded(p.minute as int, 2), colon, zero_padded(p.second as int, 2));
    lemma_all_plain_concat(seq!['.'], zero_padded(p.microsecond as int, 6));
    let frac: Seq<char> = if p.microsecond > 0 { seq!['.'] + zero_padded(p.microsecond as int, 6) } else { Seq::empty() };
    let zone = zone_text(p);
    if !p.is_utc {
        if let Some(m) = p.utc_offset_minutes {
            lemma_offset_plain(m as int);
        }
    }
    assert(all_plain(frac) && all_plain(zone));
    lemma_all_plain_concat(frac, zone);
    lemma_plain3(date_text(p), seq!['T'], clock_text(p));
    lemma_all_plain_concat(date_text(p) + seq!['T'] + clock_text(p), fraction_and_zone(p));
}

/// A date and time is written as its ISO 8601 text between quotes, as it is:
/// none of its characters is escaped, in either mode.
pub proof fn lemma_datetime_written_verbatim(p: DateTimeParts, ascii_only: bool)
    ensures
        quoted(datetime_text(p), ascii_only) == seq!['"'] + datetime_text(p) + seq!['"'],
{
    lemma_datetime_text_plain(p);
    lemma_escape_plain(datetime_text(p), ascii_only);
}

proof fn lemma_unit_plain(v: int, unit: char)
    requires
        48 <= (unit as int) < 0x80,
        unit != '\\',
    ensures
        all_plain(decimal(v) + seq![unit]),
{
    lemma_decimal_plain(v);
    assert(all_plain(seq![unit]));
    lemma_all_plain_concat(decimal(v), seq![unit]);
}

/// The text of a duration needs no escaping.
pub proof fn lemma_duration_body_plain(days: int, hours: int, minutes: int, secs: int, micros: int)
    ensures
        all_plain(duration_body(days, hours, minutes, secs, micros)),
{
    lemma_unit_plain(days, 'D');
    lemma_unit_plain(hours, 'H');
    lemma_unit_plain(minutes, 'M');
    lemma_unit_plain(secs, 'S');
    lemma_decimal_plain(secs);
    lemma_zero_padded_plain(micros, 6);
    assert(all_plain(seq!['.']) && all_plain(seq!['S']) && all_plain(seq!['T']) && all_plain(seq!['P']));
    lemma_plain3(decimal(secs), seq!['.'], zero_padded(micros, 6));
    lemma_all_plain_concat(decimal(secs) + seq!['.'] + zero_padded(micros, 6), seq!['S']);
    assert(all_plain(seconds_part(secs, micros)));
    let h: Seq<char> = if hours != 0 { decimal(hours) + seq!['H'] } else { Seq::empty() };
    let m: Seq<char> = if minutes != 0 { decimal(minutes) + seq!['M'] } else { Seq::empty() };
    assert(all_plain(h) && all_plain(m));
    lemma_plain3(seq!['T'], h, m);
    lemma_all_plain_concat(seq!['T'] + h + m, seconds_part(secs, micros));
    assert(all_plain(time_part(hours, minutes, secs, micros)));
    assert(all_plain(day_part(days)));
    lemma_plain3(seq!['P'], day_part(days), time_part(hours, minutes, secs, micros));
}

/// A `timedelta` is written as its ISO 8601 duration between quotes, as it
/// is: none of its characters is escaped, in either mode.
pub proof fn lemma_timedelta_written_verbatim(days: int, seconds: int, micros: int, ascii_only: bool)
    ensures
        quoted(timedelta_text(days, seconds, micros), ascii_only) == seq!['"'] + timedelta_text(
            days,
            seconds,
            micros,
        ) + seq!['"'],
{
    let body = duration_body(
        days,
        trunc_div(seconds, 3600),
        trunc_div(trunc_rem(seconds, 3600), 60),
        trunc_rem(seconds, 60),
        micros,
    );
    lemma_duration_body_plain(
        days,
        trunc_div(seconds, 3600),
        trunc_div(trunc_rem(seconds, 3600), 60),
        trunc_rem(seconds, 60),
        micros,
    );
    assert(all_plain(seq!['T', '0', 'S']));
    lemma_all_plain_concat(body, seq!['T', '0', 'S']);
    lemma_escape_plain(timedelta_text(days, seconds, micros), ascii_only);
}


/// A leap year of the Gregorian calendar.
pub open spec fn is_leap_year(year: int) -> bool {
    year % 4 == 0 && (year % 100 != 0 || year % 400 == 0)
}

/// The number of days in a month of a year.
pub open spec fn days_in_month(year: int, month: int) -> int {
    if month == 2 {
        if is_leap_year(year) { 29 } else { 28 }
    } else if month == 4 || month == 6 || month == 9 || month == 11 {
        30
    } else {
        31
    }
}

/// A date Python's `date` can hold.
pub open spec fn valid_date(year: int, month: int, day: int) -> bool {
    1 <= year <= 9999 && 1 <= month <= 12 && 1 <= day <= days_in_month(year, month)
}

/// A time of day without a leap second, to the nanosecond.
pub open spec fn valid_clock(hour: int, minute: int, second: int, nano: int) -> bool {
    0 <= hour < 24 && 0 <= minute < 60 && 0 <= second < 60 && 0 <= nano < 1_000_000_000
}

/// The fields of a date and time Python can hold, with an offset of less
/// than a day where there is one.
pub open spec fn valid_parts(p: DateTimeParts) -> bool {
    &&& valid_date(p.year as int, p.month as int, p.day as int)
    &&& valid_clock(p.hour as int, p.minute as int, p.second as int, 0)
    &&& 0 <= p.microsecond < 1_000_000
    &&& match p.utc_offset_minutes {
        Some(m) => -1440 < m < 1440,
        None => true,
    }
}

/// The text chrono gives a date (`NaiveDate::format` with `%Y-%m-%d`, then
/// `to_string`), a function of the date's fields.
pub uninterp spec fn chrono_date_text(year: int, month: int, day: int) -> Seq<char>;

/// The text chrono gives a time of day (`NaiveTime::format`, then
/// `to_string`), a function of its fields and the pattern.
pub uninterp spec fn chrono_time_text(hour: int, minute: int, second: int, nano: int, pattern: Seq<char>) -> Seq<char>;

/// The text chrono gives a date and time without a zone
/// (`NaiveDateTime::format`, then `to_string`), a function of its fields
/// and the pattern.
pub uninterp spec fn chrono_naive_text(
    year: int,
    month: int,
    day: int,
    hour: int,
    minute: int,
    second: int,
    nano: int,
    pattern: Seq<char>,
) -> Seq<char>;

/// The text chrono gives a date and time at a fixed offset from UTC
/// (`DateTime<FixedOffset>::format`, then `to_string`), a function of its
/// local fields, the offset in seconds and the pattern.
pub uninterp spec fn chrono_offset_text(
    year: int,
    month: int,
    day: int,
    hour: int,
    minute: int,
    second: int,
    nano: int,
    offset_seconds: int,
    pattern: Seq<char>,
) -> Seq<char>;

/// Builds chrono's `NaiveDate` from valid fields (`NaiveDate::from_ymd_opt`
/// gives one for every date Python holds) and formats it as `%Y-%m-%d`. The
/// text is chrono's; its contract names it and says nothing of its shape.
#[verifier::external_body]
fn chrono_date(year: i32, month: u32, day: u32) -> (s: String)
    requires
        valid_date(year as int, month as int, day as int),
    ensures
        s@ == chrono_date_text(year as int, month as int, day as int),
{
    match chrono::NaiveDate::from_ymd_opt(year, month, day) {
        Some(d) => d.format("%Y-%m-%d").to_string(),
        None => String::new(),
    }
}

/// Builds chrono's `NaiveTime` from valid fields
/// (`NaiveTime::from_hms_nano_opt`) and formats it with one of the two
/// patterns the library uses, both of which chrono parses. The text is
/// chrono's, named and not described.
#[verifier::external_body]
fn chrono_time(hour: u32, minute: u32, second: u32, nano: u32, pattern: &str) -> (s: String)
    requires
        valid_clock(hour as int, minute as int, second as int, nano as int),
        pattern@ == "%H:%M:%S.%f"@ || pattern@ == "%H:%M:%S"@,
    ensures
        s@ == chrono_time_text(hour as int, minute as int, second as int, nano as int, pattern@),
{
    match chrono::NaiveTime::from_hms_nano_opt(hour, minute, second, nano) {
        Some(t) => t.format(pattern).to_string(),
        None => String::new(),
    }
}

/// Builds chrono's `NaiveDateTime` from valid fields
/// (`NaiveDate::from_ymd_opt`, `and_hms_nano_opt`) and formats it with one
/// of the patterns the library uses, none of which asks for a zone. The
/// text is chrono's, named and not described.
#[verifier::external_body]
fn chrono_naive(year: i32, month: u32, day: u32, hour: u32, minute: u32, second: u32, nano: u32, pattern: &str) -> (s: String)
    requires
        valid_date(year as int, month as int, day as int),
        valid_clock(hour as int, minute as int, second as int, nano as int),
        pattern@ == "%Y-%m-%dT%H:%M:%S.%f"@ || pattern@ == "%Y-%m-%dT%H:%M:%S"@,
    ensures
        s@ == chrono_naive_text(year as int, month as int, day as int, hour as int, minute as int, second as int, nano as int, pattern@),
{
    let naive = match chrono::NaiveDate::from_ymd_opt(year, month, day) {
        Some(d) => d.and_hms_nano_opt(hour, minute, second, nano),
        None => None,
    };
    match naive {
        Some(dt) => dt.format(pattern).to_string(),
        None => String::new(),
    }
}

/// Builds chrono's `DateTime<FixedOffset>` from valid local fields and an
/// offset of less than a day (`FixedOffset::east_opt`, then
/// `and_local_timezone`, which has exactly one answer at a fixed offset)
/// and formats it with one of the two patterns the library uses. The text
/// is chrono's, named and not described.
#[verifier::external_body]
fn chrono_offset(year: i32, month: u32, day: u32, hour: u32, minute: u32, second: u32, nano: u32, offset_seconds: i32, pattern: &str) -> (s: String)
    requires
        valid_date(year as int, month as int, day as int),
        valid_clock(hour as int, minute as int, second as int, nano as int),
        -86400 < offset_seconds < 86400,
        pattern@ == "%Y-%m-%dT%H:%M:%S.%f%:z"@ || pattern@ == "%Y-%m-%dT%H:%M:%S%:z"@,
    ensures
        s@ == chrono_offset_text(year as int, month as int, day as int, hour as int, minute as int, second as int, nano as int, offset_seconds as int, pattern@),
{
    let naive = match chrono::NaiveDate::from_ymd_opt(year, month, day) {
        Some(d) => d.and_hms_nano_opt(hour, minute, second, nano),
        None => None,
    };
    match (naive, chrono::FixedOffset::east_opt(offset_seconds)) {
        (Some(dt), Some(off)) => match dt.and_local_timezone(off).single() {
            Some(at) => at.format(pattern).to_string(),
            None => String::new(),
        },
        _ => String::new(),
    }
}

/// Whether the fields make a date Python can hold.
pub fn is_valid_date(year: i32, month: u32, day: u32) -> (r: bool)
    ensures
        r == valid_date(year as int, month as int, day as int),
{
    if year < 1 || year > 9999 || month < 1 || month > 12 || day < 1 {
        return false;
    }
    let leap = year % 4 == 0 && (year % 100 != 0 || year % 400 == 0);
    let days: u32 = if month == 2 {
        if leap { 29 } else { 28 }
    } else if month == 4 || month == 6 || month == 9 || month == 11 {
        30
    } else {
        31
    };
    day <= days
}

/// Whether the fields make a time of day without a leap second.
pub fn is_valid_clock(hour: u32, minute: u32, second: u32, nano: u32) -> (r: bool)
    ensures
        r == valid_clock(hour as int, minute as int, second as int, nano as int),
{
    hour < 24 && minute < 60 && second < 60 && nano < 1_000_000_000
}

/// Whether the fields make a date and time Python can hold.
pub fn is_valid_parts(p: &DateTimeParts) -> (r: bool)
    ensures
        r == valid_parts(*p),
{
    if p.month < 0 || p.day < 0 || p.hour < 0 || p.minute < 0 || p.second < 0 {
        return false;
    }
    let offset_ok = match p.utc_offset_minutes {
        Some(m) => -1440 < m && m < 1440,
        None => true,
    };
    is_valid_date(p.year, p.month as u32, p.day as u32) && is_valid_clock(p.hour as u32, p.minute as u32, p.second as u32, 0)
        && 0 <= p.microsecond && p.microsecond < 1_000_000 && offset_ok
}

/// The text of a date in a document: `YYYY-MM-DD`, as chrono writes it.
pub fn format_date(year: i32, month: u32, day: u32) -> (s: String)
    requires
        valid_date(year as int, month as int, day as int),
    ensures
        s@ == chrono_date_text(year as int, month as int, day as int),
{
    chrono_date(year, month, day)
}

/// The pattern of a time of day: with the fraction of a second when there
/// is one.
pub open spec fn time_pattern(nano: int) -> Seq<char> {
    if nano > 0 { "%H:%M:%S.%f"@ } else { "%H:%M:%S"@ }
}

/// The text of a time of day in a document, as chrono writes it: with the
/// fraction of a second only when there is one.
pub fn format_time(hour: u32, minute: u32, second: u32, nano: u32) -> (s: String)
    requires
        valid_clock(hour as int, minute as int, second as int, nano as int),
    ensures
        s@ == chrono_time_text(hour as int, minute as int, second as int, nano as int, time_pattern(nano as int)),
{
    if nano > 0 {
        chrono_time(hour, minute, second, nano, "%H:%M:%S.%f")
    } else {
        chrono_time(hour, minute, second, nano, "%H:%M:%S")
    }
}

/// The pattern of a date and time without a zone: with the fraction of a
/// second when there are microseconds.
pub open spec fn naive_pattern(microsecond: int) -> Seq<char> {
    if microsecond > 0 { "%Y-%m-%dT%H:%M:%S.%f"@ } else { "%Y-%m-%dT%H:%M:%S"@ }
}

/// The pattern of a date and time with an offset: with the fraction of a
/// second when there are microseconds.
pub open spec fn offset_pattern(microsecond: int) -> Seq<char> {
    if microsecond > 0 { "%Y-%m-%dT%H:%M:%S.%f%:z"@ } else { "%Y-%m-%dT%H:%M:%S%:z"@ }
}

/// The text of a date and time without a zone in a document, as chrono
/// writes it: with the fraction of a second only when there are
/// microseconds.
pub fn format_datetime_naive(p: &DateTimeParts) -> (s: String)
    requires
        valid_parts(*p),
    ensures
        s@ == chrono_naive_text(p.year as int, p.month as int, p.day as int, p.hour as int, p.minute as int,
            p.second as int, p.microsecond * 1000, naive_pattern(p.microsecond as int)),
{
    let nano = (p.microsecond as u32) * 1000;
    if p.microsecond > 0 {
        chrono_naive(p.year, p.month as u32, p.day as u32, p.hour as u32, p.minute as u32, p.second as u32, nano,
            "%Y-%m-%dT%H:%M:%S.%f")
    } else {
        chrono_naive(p.year, p.month as u32, p.day as u32, p.hour as u32, p.minute as u32, p.second as u32, nano,
            "%Y-%m-%dT%H:%M:%S")
    }
}

/// A text ending in the offset `+00:00` with that offset written `Z`;
/// another text as it is.
pub open spec fn zulu_text(t: Seq<char>) -> Seq<char> {
    let zero = seq!['+', '0', '0', ':', '0', '0'];
    if t.len() >= 6 && t.skip(t.len() - 6) == zero {
        t.take(t.len() - 6) + seq!['Z']
    } else {
        t
    }
}

/// Writes a trailing offset `+00:00` as `Z`, as ISO 8601 has it for UTC.
pub fn zulu(t: String) -> (s: String)
    ensures
        s@ == zulu_text(t@),
{
    let v = chars_of(t.as_str());
    let n = v.len();
    let ghost zero = seq!['+', '0', '0', ':', '0', '0'];
    if n >= 6 && v[n - 6] == '+' && v[n - 5] == '0' && v[n - 4] == '0' && v[n - 3] == ':' && v[n - 2] == '0'
        && v[n - 1] == '0' {
        assert(t@.skip(n - 6) =~= zero);
        let mut s = String::new();
        let mut k: usize = 0;
        while k < n - 6
            invariant
                v@ == t@,
                n == v@.len(),
                n >= 6,
                k <= n - 6,
                s@ == t@.take(k as int),
            decreases n - 6 - k,
        {
            s.push(v[k]);
            assert(s@ =~= t@.take(k as int + 1));
            k = k + 1;
        }
        s.push('Z');
        return s;
    }
    if n >= 6 {
        assert(t@.skip(n - 6) != zero) by {
            let tail = t@.skip(n - 6);
            if tail == zero {
                assert(tail[0] == v[n - 6] && tail[1] == v[n - 5] && tail[2] == v[n - 4]);
                assert(tail[3] == v[n - 3] && tail[4] == v[n - 2] && tail[5] == v[n - 1]);
            }
        }
    }
    t
}

/// The text of a date and time at an offset from UTC in a document, as
/// chrono writes it with the offset as `+HH:MM` (and the fraction of a
/// second only when there are microseconds), with a zero offset written
/// `Z`.
pub fn format_datetime_with_tz(p: &DateTimeParts) -> (s: String)
    requires
        valid_parts(*p),
        p.utc_offset_minutes is Some,
    ensures
        s@ == zulu_text(chrono_offset_text(p.year as int, p.month as int, p.day as int, p.hour as int,
            p.minute as int, p.second as int, p.microsecond * 1000, (p.utc_offset_minutes->0) * 60,
            offset_pattern(p.microsecond as int))),
{
    let nano = (p.microsecond as u32) * 1000;
    let minutes = match p.utc_offset_minutes {
        Some(m) => m,
        None => 0,
    };
    let text = if p.microsecond > 0 {
        chrono_offset(p.year, p.month as u32, p.day as u32, p.hour as u32, p.minute as u32, p.second as u32, nano,
            minutes * 60, "%Y-%m-%dT%H:%M:%S.%f%:z")
    } else {
        chrono_offset(p.year, p.month as u32, p.day as u32, p.hour as u32, p.minute as u32, p.second as u32, nano,
            minutes * 60, "%Y-%m-%dT%H:%M:%S%:z")
    };
    zulu(text)
}

} // verus!
