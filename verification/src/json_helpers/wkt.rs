//! The proto3-canonical JSON forms of `Timestamp`, `Duration` and
//! `FieldMask`, over raw scalars and strings.
use vstd::prelude::*;
use vstd::arithmetic::div_mod::lemma_fundamental_div_mod_converse;
use super::decimal::{
    digit_char, is_digit, lemma_digit_char, all_digits, dec_digits, digits_value, fixed_digits, lemma_dec_digits, lemma_digits_bound,
    lemma_fixed_digits, lemma_pow10_add, lemma_pow10_nine, lemma_pow10_positive, parse_digits,
    parse_i64, parse_u8, pow10, pow10_u64, push_dec, push_fixed, spec_parse_digits, spec_parse_i64, spec_parse_u8,
};
use crate::text::{
    chars_equal, find_char, find_in, is_ascii_lower, is_ascii_upper, is_upper, lower_chars, upper_chars,
    is_uppercase, lemma_find_char, lemma_find_char_first, lemma_find_char_none, push_all, str_chars, string_from_chars, to_lowercase, to_uppercase,
};

verus! {

// ── Bounds ──────────────────────────────────────────────────────────────────

/// Smallest valid `Timestamp.seconds`: `0001-01-01T00:00:00Z`.
pub const MIN_TIMESTAMP_SECS: i64 = -62_135_596_800;
/// Largest valid `Timestamp.seconds`: `9999-12-31T23:59:59Z`.
pub const MAX_TIMESTAMP_SECS: i64 = 253_402_300_799;
/// Largest valid `Duration.seconds` magnitude (10 000 years).
pub const MAX_DURATION_SECS: i64 = 315_576_000_000;

// ── Fractional seconds ──────────────────────────────────────────────────────

/// `nanos` (0 to 999 999 999) as `"."`-prefixed fractional seconds with the
/// fewest digits of 3, 6 or 9 that lose nothing, or nothing for zero.
pub open spec fn nanos_text(nanos: int) -> Seq<char> {
    if nanos == 0 {
        Seq::empty()
    } else if nanos % 1_000_000 == 0 {
        seq!['.'] + fixed_digits((nanos / 1_000_000) as nat, 3)
    } else if nanos % 1_000 == 0 {
        seq!['.'] + fixed_digits((nanos / 1_000) as nat, 6)
    } else {
        seq!['.'] + fixed_digits(nanos as nat, 9)
    }
}

/// Append `nanos` (0–999 999 999) as `"."`-prefixed fractional seconds with
/// the minimal precision (3, 6, or 9 digits) that loses no information, or
/// nothing for zero.
fn push_nanos_min(out: &mut Vec<char>, nanos: i32)
    requires
        0 <= nanos < 1_000_000_000,
    ensures
        final(out)@ == old(out)@ + nanos_text(nanos as int),
{
    if nanos == 0 {
        assert(final(out)@ =~= old(out)@ + nanos_text(nanos as int));
    } else if nanos % 1_000_000 == 0 {
        out.push('.');
        push_fixed(out, (nanos / 1_000_000) as u64, 3);
        assert(final(out)@ =~= old(out)@ + nanos_text(nanos as int));
    } else if nanos % 1_000 == 0 {
        out.push('.');
        push_fixed(out, (nanos / 1_000) as u64, 6);
        assert(final(out)@ =~= old(out)@ + nanos_text(nanos as int));
    } else {
        out.push('.');
        push_fixed(out, nanos as u64, 9);
        assert(final(out)@ =~= old(out)@ + nanos_text(nanos as int));
    }
}

/// `digits * 10^(9 - digits.len())`: a run of at most nine fractional digits
/// as nanoseconds.
pub open spec fn frac_nanos(digits: Seq<char>) -> int {
    digits_value(digits) * pow10((9 - digits.len()) as nat)
}

/// Fractional digits `cs[lo..hi]`, which are 1 to 9 decimal digits, as
/// nanoseconds.
fn parse_frac(cs: &Vec<char>, lo: usize, hi: usize) -> (r: i32)
    requires
        lo < hi <= cs@.len(),
        hi - lo <= 9,
        all_digits(cs@.subrange(lo as int, hi as int)),
    ensures
        r == frac_nanos(cs@.subrange(lo as int, hi as int)),
        0 <= r < 1_000_000_000,
{
    let ghost s = cs@.subrange(lo as int, hi as int);
    proof {
        lemma_digits_bound(s);
    }
    let len: usize = hi - lo;
    proof {
        lemma_pow10_add(len as nat, (9 - len) as nat);
        lemma_pow10_nine();
        lemma_pow10_positive((9 - len) as nat);
    }
    assert(pow10(len as nat) <= 1_000_000_000) by (nonlinear_arith)
        requires
            pow10((9 - len) as nat) > 0,
            pow10(len as nat) > 0,
            pow10(len as nat) * pow10((9 - len) as nat) == 1_000_000_000,
    ;
    let v: u64 = match parse_digits(cs, lo, hi) {
        Some(v) => v,
        None => 0,
    };
    let p: u64 = pow10_u64(9 - len);
    assert(v * p < 1_000_000_000) by (nonlinear_arith)
        requires
            0 <= v < pow10(len as nat),
            p == pow10((9 - len) as nat),
            p > 0,
            pow10(len as nat) * pow10((9 - len) as nat) == 1_000_000_000,
    ;
    (v * p) as i32
}

// ── Timestamp ───────────────────────────────────────────────────────────────

/// The date whose day count is `day`.
pub open spec fn date_of_day(day: int) -> (int, int, int) {
    choose|y: int, m: int, d: int| is_valid_date(y, m, d) && civil_days(y, m, d) == day
}

/// `YYYY-MM-DD`, zero-padded.
pub open spec fn date_text(y: int, m: int, d: int) -> Seq<char> {
    fixed_digits(y as nat, 4) + seq!['-'] + fixed_digits(m as nat, 2) + seq!['-'] + fixed_digits(
        d as nat,
        2,
    )
}

/// `HH:MM:SS` of the second `tod` of a day, zero-padded, and its fractional
/// seconds.
pub open spec fn time_text(tod: int, nanos: int) -> Seq<char> {
    fixed_digits((tod / 3600) as nat, 2) + seq![':'] + fixed_digits(((tod % 3600) / 60) as nat, 2)
        + seq![':'] + fixed_digits((tod % 60) as nat, 2) + nanos_text(nanos)
}

/// The RFC 3339 text of the unix time `(secs, nanos)`: the date and the time
/// of day in UTC with a four-digit year, the fractional seconds at the
/// minimal precision, and a `Z` suffix.
pub open spec fn timestamp_text(secs: int, nanos: int) -> Seq<char> {
    let date = date_of_day(secs / 86_400);
    date_text(date.0, date.1, date.2) + seq!['T'] + time_text(secs % 86_400, nanos) + seq!['Z']
}

/// Which of its arguments `fmt_timestamp` rejects, with the error it
/// returns for the first.
pub open spec fn spec_timestamp_check(secs: int, nanos: int) -> Result<(), &'static str> {
    if !(0 <= nanos < 1_000_000_000) {
        Err("Timestamp nanos out of range")
    } else if !(MIN_TIMESTAMP_SECS <= secs <= MAX_TIMESTAMP_SECS) {
        Err("Timestamp seconds out of range")
    } else {
        Ok(())
    }
}

/// The day counts of the years 1 to 9999.
proof fn lemma_civil_days_range(y: int, m: int, d: int)
    requires
        is_valid_date(y, m, d),
    ensures
        1 <= y ==> -719_162 <= civil_days(y, m, d),
        y <= 9999 ==> civil_days(y, m, d) <= 2_932_896,
        y < 1 ==> civil_days(y, m, d) < -719_162,
        y > 9999 ==> civil_days(y, m, d) > 2_932_896,
{
    lemma_day_of_year(y, m, d);
    if y > 1 {
        lemma_days_before_year_grows(1, y);
    }
    if y < 1 {
        lemma_days_before_year_grows(y, 1);
    }
    if y < 10_000 {
        lemma_days_before_year_grows(y, 10_000);
    }
    if y > 10_000 {
        lemma_days_before_year_grows(10_000, y);
    }
    assert(days_before_year(1) == 0);
    assert(days_before_year(10_000) == 3_652_059);
}

/// The date of a day, which is the only one with its day count.
proof fn lemma_date_of_day(day: int, y: int, m: int, d: int)
    requires
        is_valid_date(y, m, d),
        civil_days(y, m, d) == day,
    ensures
        date_of_day(day) == (y, m, d),
{
    let w = date_of_day(day);
    assert(is_valid_date(w.0, w.1, w.2) && civil_days(w.0, w.1, w.2) == day);
    lemma_civil_days_injective(w.0, w.1, w.2, y, m, d);
}

/// Format unix `(seconds, nanos)` as an RFC 3339 timestamp with a `Z` suffix
/// and the minimal fractional-seconds precision (0, 3, 6, or 9 digits).
///
/// # Errors
///
/// Returns an error if the timestamp is outside the proto3 `Timestamp`
/// range (`0001-01-01T00:00:00Z` through `9999-12-31T23:59:59.999999999Z`)
/// or `nanos` is outside `[0, 999_999_999]`.
pub fn fmt_timestamp(secs: i64, nanos: i32) -> (r: Result<String, &'static str>)
    ensures
        match r {
            Ok(text) => spec_timestamp_check(secs as int, nanos as int) is Ok && text@
                == timestamp_text(secs as int, nanos as int),
            Err(e) => spec_timestamp_check(secs as int, nanos as int) == Err::<(), &'static str>(
                e,
            ),
        },
{
    if !(0 <= nanos && nanos < 1_000_000_000) {
        return Err("Timestamp nanos out of range");
    }
    if !(MIN_TIMESTAMP_SECS <= secs && secs <= MAX_TIMESTAMP_SECS) {
        return Err("Timestamp seconds out of range");
    }
    let tod: i64 = match secs.checked_rem_euclid(86_400) {
        Some(r) => r,
        None => 0,
    };
    let day: i64 = match secs.checked_div_euclid(86_400) {
        Some(q) => q,
        None => 0,
    };
    let (y, mo, d) = days_to_date(day);
    proof {
        lemma_date_of_day(day as int, y as int, mo as int, d as int);
        lemma_civil_days_range(y as int, mo as int, d as int);
    }
    if !(1 <= y && y <= 9999) {
        return Err("Timestamp year out of range");
    }
    let h: i64 = tod / 3600;
    let mi: i64 = (tod % 3600) / 60;
    let sec: i64 = tod % 60;
    let mut out: Vec<char> = Vec::new();
    push_fixed(&mut out, y as u64, 4);
    out.push('-');
    push_fixed(&mut out, mo as u64, 2);
    out.push('-');
    push_fixed(&mut out, d as u64, 2);
    out.push('T');
    push_fixed(&mut out, h as u64, 2);
    out.push(':');
    push_fixed(&mut out, mi as u64, 2);
    out.push(':');
    push_fixed(&mut out, sec as u64, 2);
    push_nanos_min(&mut out, nanos);
    out.push('Z');
    assert(out@ =~= timestamp_text(secs as int, nanos as int));
    Ok(string_from_chars(out))
}

/// The timezone suffix of a timestamp `s`: the text before it and the
/// seconds to add to reach UTC, or the error that names what is wrong with
/// it.
pub open spec fn spec_timezone(s: Seq<char>) -> Result<(Seq<char>, int), &'static str> {
    let len = s.len() as int;
    if len > 0 && s.last() == 'Z' {
        Ok((s.drop_last(), 0))
    } else if len < 6 {
        Err("timestamp too short")
    } else if s[len - 6] != '+' && s[len - 6] != '-' {
        Err("missing or malformed timezone")
    } else if s[len - 3] != ':' {
        Err("malformed timezone offset")
    } else {
        match spec_parse_digits(s.subrange(len - 5, len - 3)) {
            None => Err("bad offset hours"),
            Some(oh) => match spec_parse_digits(s.subrange(len - 2, len)) {
                None => Err("bad offset minutes"),
                Some(om) => if !(0 <= oh <= 23) || !(0 <= om <= 59) {
                    Err("offset out of range")
                } else {
                    let sign: int = if s[len - 6] == '+' {
                        -1
                    } else {
                        1
                    };
                    Ok((s.subrange(0, len - 6), sign * (oh * 3600 + om * 60)))
                },
            },
        }
    }
}

/// The nanoseconds of a timestamp's time of day `time`, which is at least
/// eight characters: none, or `.` and one to nine digits after the seconds.
pub open spec fn spec_timestamp_nanos(time: Seq<char>) -> Result<i32, &'static str> {
    if time.len() > 8 {
        if time[8] != '.' {
            Err("malformed fractional seconds")
        } else {
            let frac = time.subrange(9, time.len() as int);
            if frac.len() == 0 || frac.len() > 9 || !all_digits(frac) {
                Err("bad fractional seconds")
            } else {
                Ok(frac_nanos(frac) as i32)
            }
        }
    } else {
        Ok(0)
    }
}

/// The unix time of a date and time of day, shifted by `offset` seconds, or
/// the error for a date or a result outside the `Timestamp` range.
pub open spec fn spec_unix_time(
    year: int,
    month: int,
    day: int,
    hour: int,
    min: int,
    sec: int,
    offset: int,
    nanos: i32,
) -> Result<(i64, i32), &'static str> {
    if !(1 <= year <= 9999) {
        Err("Timestamp year out of range")
    } else if !is_valid_date(year, month, day) {
        Err("invalid date")
    } else {
        let unix = civil_days(year, month, day) * 86_400 + hour * 3600 + min * 60 + sec + offset;
        if !(MIN_TIMESTAMP_SECS <= unix <= MAX_TIMESTAMP_SECS) {
            Err("Timestamp out of range after applying offset")
        } else {
            Ok((unix as i64, nanos))
        }
    }
}

/// A timestamp's date `date` and time of day `time`, shifted by `offset`
/// seconds, or the error that names the first malformed component.
pub open spec fn spec_date_time(date: Seq<char>, time: Seq<char>, offset: int) -> Result<
    (i64, i32),
    &'static str,
> {
    if date.len() != 10 || time.len() < 8 {
        Err("malformed date or time")
    } else if date[4] != '-' || date[7] != '-' || time[2] != ':' || time[5] != ':' {
        Err("malformed separators")
    } else {
        match spec_parse_digits(date.subrange(0, 4)) {
            None => Err("bad year"),
            Some(year) => match spec_parse_digits(date.subrange(5, 7)) {
                None => Err("bad month"),
                Some(month) => match spec_parse_digits(date.subrange(8, 10)) {
                    None => Err("bad day"),
                    Some(day) => match spec_parse_digits(time.subrange(0, 2)) {
                        None => Err("bad hour"),
                        Some(hour) => match spec_parse_digits(time.subrange(3, 5)) {
                            None => Err("bad minute"),
                            Some(min) => match spec_parse_digits(time.subrange(6, 8)) {
                                None => Err("bad second"),
                                Some(sec) => if !(0 <= hour <= 23) || !(0 <= min <= 59) || !(0
                                    <= sec <= 59) {
                                    Err("time component out of range")
                                } else {
                                    match spec_timestamp_nanos(time) {
                                        Err(e) => Err(e),
                                        Ok(nanos) => spec_unix_time(
                                            year as int,
                                            month as int,
                                            day as int,
                                            hour as int,
                                            min as int,
                                            sec as int,
                                            offset,
                                            nanos,
                                        ),
                                    }
                                },
                            },
                        },
                    },
                },
            },
        }
    }
}

/// The result of parsing `s` as an RFC 3339 timestamp: unix
/// `(seconds, nanos)`, or the error that names the first malformed
/// component.
pub open spec fn spec_parse_timestamp(s: Seq<char>) -> Result<(i64, i32), &'static str> {
    if !vstd::utf8::is_ascii_chars(s) {
        Err("non-ASCII in timestamp")
    } else {
        match spec_timezone(s) {
            Err(e) => Err(e),
            Ok((dt, offset)) => match find_char(dt, 'T') {
                None => Err("missing 'T' separator"),
                Some(t) => spec_date_time(
                    dt.subrange(0, t),
                    dt.subrange(t + 1, dt.len() as int),
                    offset,
                ),
            },
        }
    }
}

/// The timezone suffix of the timestamp `cs`: where the text before it
/// ends, and the offset.
fn parse_timezone(cs: &Vec<char>) -> (r: Result<(usize, i64), &'static str>)
    ensures
        match r {
            Ok((end, offset)) => end <= cs@.len() && -86_400 < offset < 86_400 && spec_timezone(
                cs@,
            ) == Ok::<(Seq<char>, int), &'static str>((cs@.subrange(0, end as int), offset as int)),
            Err(e) => spec_timezone(cs@) == Err::<(Seq<char>, int), &'static str>(e),
        },
{
    let len: usize = cs.len();
    if len > 0 && cs[len - 1] == 'Z' {
        assert(cs@.drop_last() =~= cs@.subrange(0, len - 1));
        return Ok((len - 1, 0));
    }
    if len < 6 {
        return Err("timestamp too short");
    }
    let sign: i64 = if cs[len - 6] == '+' {
        -1
    } else if cs[len - 6] == '-' {
        1
    } else {
        return Err("missing or malformed timezone");
    };
    if cs[len - 3] != ':' {
        return Err("malformed timezone offset");
    }
    let oh: i64 = match parse_field(cs, len - 5, len - 3) {
        Some(v) => v,
        None => {
            return Err("bad offset hours");
        },
    };
    let om: i64 = match parse_field(cs, len - 2, len) {
        Some(v) => v,
        None => {
            return Err("bad offset minutes");
        },
    };
    if !(0 <= oh && oh <= 23) || !(0 <= om && om <= 59) {
        return Err("offset out of range");
    }
    Ok((len - 6, sign * (oh * 3600 + om * 60)))
}

/// The value of the digits `cs[lo..hi]`, a run of at most four, or `None`
/// if it is empty or holds anything but a digit.
fn parse_field(cs: &Vec<char>, lo: usize, hi: usize) -> (r: Option<i64>)
    requires
        lo <= hi <= cs@.len(),
        hi - lo <= 4,
    ensures
        r == (match spec_parse_digits(cs@.subrange(lo as int, hi as int)) {
            Some(v) => Some(v as i64),
            None => None,
        }),
        r matches Some(v) ==> 0 <= v < 10_000,
        spec_parse_digits(cs@.subrange(lo as int, hi as int)) matches Some(v) ==> 0 <= v < 10_000,
        hi - lo <= 2 ==> (spec_parse_digits(cs@.subrange(lo as int, hi as int)) matches Some(v)
            ==> v < 100),
{
    let ghost f = cs@.subrange(lo as int, hi as int);
    proof {
        if all_digits(f) {
            lemma_digits_bound(f);
            reveal_with_fuel(pow10, 5);
            assert(pow10(f.len()) <= 10_000);
            assert(f.len() <= 2 ==> pow10(f.len()) <= 100);
        }
    }
    match parse_digits(cs, lo, hi) {
        Some(v) => Some(v as i64),
        None => None,
    }
}

/// The nanoseconds of the time of day `cs[lo..hi]`.
fn timestamp_nanos(cs: &Vec<char>, lo: usize, hi: usize) -> (r: Result<i32, &'static str>)
    requires
        lo + 8 <= hi <= cs@.len(),
    ensures
        r == spec_timestamp_nanos(cs@.subrange(lo as int, hi as int)),
        r matches Ok(n) ==> 0 <= n < 1_000_000_000,
{
    let ghost time = cs@.subrange(lo as int, hi as int);
    if hi - lo > 8 {
        assert(time[8] == cs@[lo + 8]);
        if cs[lo + 8] != '.' {
            return Err("malformed fractional seconds");
        }
        assert(time.subrange(9, time.len() as int) =~= cs@.subrange(lo + 9, hi as int));
        if lo + 9 == hi {
            return Err("bad fractional seconds");
        }
        parse_fraction(cs, lo + 9, hi)
    } else {
        Ok(0)
    }
}

/// The unix time of a parsed date and time of day.
fn unix_time(
    year: i64,
    month: u8,
    day: u8,
    hour: i64,
    min: i64,
    sec: i64,
    offset: i64,
    nanos: i32,
) -> (r: Result<(i64, i32), &'static str>)
    requires
        0 <= hour <= 23,
        0 <= min <= 59,
        0 <= sec <= 59,
        -86_400 < offset < 86_400,
    ensures
        r == spec_unix_time(
            year as int,
            month as int,
            day as int,
            hour as int,
            min as int,
            sec as int,
            offset as int,
            nanos,
        ),
{
    if !(1 <= year && year <= 9999) {
        return Err("Timestamp year out of range");
    }
    proof {
        if is_valid_date(year as int, month as int, day as int) {
            lemma_civil_days_range(year as int, month as int, day as int);
        }
    }
    let days: i64 = match date_to_days(year, month, day) {
        Some(days) => days,
        None => {
            return Err("invalid date");
        },
    };
    let unix: i64 = days * 86_400 + hour * 3600 + min * 60 + sec + offset;
    if !(MIN_TIMESTAMP_SECS <= unix && unix <= MAX_TIMESTAMP_SECS) {
        return Err("Timestamp out of range after applying offset");
    }
    Ok((unix, nanos))
}

/// A timestamp's date `cs[lo..t]` and time of day `cs[t + 1..hi]`.
#[verifier::rlimit(100)]
#[verifier::spinoff_prover]
fn parse_date_time(cs: &Vec<char>, lo: usize, t: usize, hi: usize, offset: i64) -> (r: Result<
    (i64, i32),
    &'static str,
>)
    requires
        lo <= t < hi <= cs@.len(),
        -86_400 < offset < 86_400,
    ensures
        r == spec_date_time(
            cs@.subrange(lo as int, t as int),
            cs@.subrange(t + 1, hi as int),
            offset as int,
        ),
{
    let ghost date = cs@.subrange(lo as int, t as int);
    let ghost time = cs@.subrange(t + 1, hi as int);
    if t - lo != 10 || hi - (t + 1) < 8 {
        return Err("malformed date or time");
    }
    let tl: usize = t + 1;
    assert(date[4] == cs@[lo + 4] && date[7] == cs@[lo + 7]);
    assert(time[2] == cs@[tl + 2] && time[5] == cs@[tl + 5]);
    if cs[lo + 4] != '-' || cs[lo + 7] != '-' || cs[tl + 2] != ':' || cs[tl + 5] != ':' {
        return Err("malformed separators");
    }
    assert(date.subrange(0, 4) =~= cs@.subrange(lo as int, lo + 4));
    assert(date.subrange(5, 7) =~= cs@.subrange(lo + 5, lo + 7));
    assert(date.subrange(8, 10) =~= cs@.subrange(lo + 8, lo + 10));
    assert(time.subrange(0, 2) =~= cs@.subrange(tl as int, tl + 2));
    assert(time.subrange(3, 5) =~= cs@.subrange(tl + 3, tl + 5));
    assert(time.subrange(6, 8) =~= cs@.subrange(tl + 6, tl + 8));
    let year: i64 = match parse_field(cs, lo, lo + 4) {
        Some(v) => v,
        None => {
            return Err("bad year");
        },
    };
    let month: u8 = match parse_field(cs, lo + 5, lo + 7) {
        Some(v) => v as u8,
        None => {
            return Err("bad month");
        },
    };
    let day: u8 = match parse_field(cs, lo + 8, lo + 10) {
        Some(v) => v as u8,
        None => {
            return Err("bad day");
        },
    };
    let hour: i64 = match parse_field(cs, tl, tl + 2) {
        Some(v) => v,
        None => {
            return Err("bad hour");
        },
    };
    let min: i64 = match parse_field(cs, tl + 3, tl + 5) {
        Some(v) => v,
        None => {
            return Err("bad minute");
        },
    };
    let sec: i64 = match parse_field(cs, tl + 6, tl + 8) {
        Some(v) => v,
        None => {
            return Err("bad second");
        },
    };
    if !(0 <= hour && hour <= 23) || !(0 <= min && min <= 59) || !(0 <= sec && sec <= 59) {
        return Err("time component out of range");
    }
    let nanos: i32 = match timestamp_nanos(cs, tl, hi) {
        Ok(n) => n,
        Err(e) => {
            return Err(e);
        },
    };
    unix_time(year, month, day, hour, min, sec, offset, nanos)
}

/// Parse an RFC 3339 timestamp into unix `(seconds, nanos)`.
///
/// Accepts an uppercase `Z` suffix and `+HH:MM` / `-HH:MM` UTC offsets.
/// Rejects lowercase `t`/`z` (the proto3 JSON spec requires uppercase) and
/// anything outside the proto3 `Timestamp` range.
///
/// # Errors
///
/// Returns an error describing the first malformed component.
pub fn parse_timestamp(s: &str) -> (r: Result<(i64, i32), &'static str>)
    ensures
        r == spec_parse_timestamp(s@),
{
    // RFC 3339 timestamps are pure ASCII.
    if !s.is_ascii() {
        return Err("non-ASCII in timestamp");
    }
    let cs = str_chars(s);
    let (end, offset) = match parse_timezone(&cs) {
        Ok(v) => v,
        Err(e) => {
            return Err(e);
        },
    };
    let ghost dt = cs@.subrange(0, end as int);
    let t: usize = match find_in(&cs, 0, end, 'T') {
        Some(t) => t,
        None => {
            return Err("missing 'T' separator");
        },
    };
    assert(dt.subrange(0, t as int) =~= cs@.subrange(0, t as int));
    assert(dt.subrange(t + 1, dt.len() as int) =~= cs@.subrange(t + 1, end as int));
    parse_date_time(&cs, 0, t, end, offset)
}

// ── Duration ────────────────────────────────────────────────────────────────

/// The proto3 `Duration` invariants, and the error that names the first one
/// that `(secs, nanos)` violates.
pub open spec fn spec_validate_duration(secs: int, nanos: int) -> Result<(), &'static str> {
    if !(-999_999_999 <= nanos <= 999_999_999) {
        Err("Duration nanos out of range")
    } else if !(-MAX_DURATION_SECS <= secs <= MAX_DURATION_SECS) {
        Err("Duration seconds out of range")
    } else if (secs > 0 && nanos < 0) || (secs < 0 && nanos > 0) {
        Err("Duration seconds and nanos have opposite signs")
    } else {
        Ok(())
    }
}

/// The absolute value of `x`.
pub open spec fn abs(x: int) -> int {
    if x < 0 {
        -x
    } else {
        x
    }
}

/// The `"3.5s"` form of a valid duration: a sign if it is negative, the
/// whole seconds, the fractional seconds at the minimal precision, and `s`.
pub open spec fn duration_text(secs: int, nanos: int) -> Seq<char> {
    let negative = secs < 0 || (secs == 0 && nanos < 0);
    (if negative {
        seq!['-']
    } else {
        Seq::empty()
    }) + dec_digits(abs(secs) as nat) + nanos_text(abs(nanos)) + seq!['s']
}

/// The fractional seconds after the `.` of a duration: none, or one to nine
/// digits.
pub open spec fn spec_fraction(digits: Seq<char>) -> Result<i32, &'static str> {
    if digits.len() == 0 {
        Ok(0)
    } else if digits.len() > 9 || !all_digits(digits) {
        Err("bad fractional seconds")
    } else {
        Ok(frac_nanos(digits) as i32)
    }
}

/// The fractional seconds `cs[lo..hi]` of a duration.
fn parse_fraction(cs: &Vec<char>, lo: usize, hi: usize) -> (r: Result<i32, &'static str>)
    requires
        lo <= hi <= cs@.len(),
    ensures
        r == spec_fraction(cs@.subrange(lo as int, hi as int)),
        r matches Ok(n) ==> 0 <= n < 1_000_000_000,
{
    if lo == hi {
        return Ok(0);
    }
    if hi - lo > 9 {
        return Err("bad fractional seconds");
    }
    let mut k: usize = lo;
    while k < hi
        invariant
            lo <= k <= hi <= cs@.len(),
            all_digits(cs@.subrange(lo as int, k as int)),
        decreases hi - k,
    {
        let c = cs[k];
        if !('0' <= c && c <= '9') {
            assert(cs@.subrange(lo as int, hi as int)[k - lo] == c);
            return Err("bad fractional seconds");
        }
        assert(all_digits(cs@.subrange(lo as int, k + 1)));
        k = k + 1;
    }
    assert(cs@.subrange(lo as int, k as int) =~= cs@.subrange(lo as int, hi as int));
    Ok(parse_frac(cs, lo, hi))
}

/// The result of parsing the part of a duration after its sign, `body`,
/// which is negative if `negative`.
pub open spec fn spec_duration_body(body: Seq<char>, negative: bool) -> Result<
    (i64, i32),
    &'static str,
> {
    if body.len() > 0 && (body[0] == '-' || body[0] == '+') {
        Err("malformed sign")
    } else {
        let sec_str = match find_char(body, '.') {
            Some(dot) => body.subrange(0, dot),
            None => body,
        };
        let nano_str = match find_char(body, '.') {
            Some(dot) => body.subrange(dot + 1, body.len() as int),
            None => Seq::empty(),
        };
        match spec_parse_i64(sec_str) {
            None => Err("bad seconds"),
            Some(abs_secs) => match spec_fraction(nano_str) {
                Err(e) => Err(e),
                Ok(abs_nanos) => {
                    let secs = if negative {
                        -abs_secs
                    } else {
                        abs_secs as int
                    };
                    let nanos = if negative {
                        -abs_nanos
                    } else {
                        abs_nanos as int
                    };
                    match spec_validate_duration(secs, nanos) {
                        Err(e) => Err(e),
                        Ok(_) => Ok((secs as i64, nanos as i32)),
                    }
                },
            },
        }
    }
}

/// The result of parsing `s` as a `"3.5s"`-style duration: the value, or the
/// error that names the first malformed part.
pub open spec fn spec_parse_duration(s: Seq<char>) -> Result<(i64, i32), &'static str> {
    if s.len() == 0 || s.last() != 's' {
        Err("missing 's' suffix")
    } else {
        let body0 = s.drop_last();
        let negative = body0.len() > 0 && body0[0] == '-';
        spec_duration_body(
            if negative {
                body0.drop_first()
            } else {
                body0
            },
            negative,
        )
    }
}

/// Validate the proto3 `Duration` invariants: `|seconds| ≤ 315 576 000 000`,
/// `|nanos| ≤ 999 999 999`, and `seconds` and `nanos` have the same sign or
/// one of them is zero.
///
/// # Errors
///
/// Returns an error naming the violated invariant.
pub fn validate_duration(secs: i64, nanos: i32) -> (r: Result<(), &'static str>)
    ensures
        r == spec_validate_duration(secs as int, nanos as int),
{
    if !(-999_999_999 <= nanos && nanos <= 999_999_999) {
        return Err("Duration nanos out of range");
    }
    if !(-MAX_DURATION_SECS <= secs && secs <= MAX_DURATION_SECS) {
        return Err("Duration seconds out of range");
    }
    if (secs > 0 && nanos < 0) || (secs < 0 && nanos > 0) {
        return Err("Duration seconds and nanos have opposite signs");
    }
    Ok(())
}

/// Format `(seconds, nanos)` as a `"3.5s"`-style decimal seconds string with
/// the minimal fractional precision.
///
/// # Errors
///
/// Returns an error if `(seconds, nanos)` violate the `Duration` invariants:
/// magnitude bounds, or `seconds` and `nanos` having opposite signs.
pub fn fmt_duration(secs: i64, nanos: i32) -> (r: Result<String, &'static str>)
    ensures
        match r {
            Ok(text) => spec_validate_duration(secs as int, nanos as int) is Ok && text@
                == duration_text(secs as int, nanos as int),
            Err(e) => spec_validate_duration(secs as int, nanos as int) == Err::<(), &'static str>(
                e,
            ),
        },
{
    match validate_duration(secs, nanos) {
        Err(e) => {
            return Err(e);
        },
        Ok(()) => {},
    }
    let negative = secs < 0 || (secs == 0 && nanos < 0);
    let abs_secs: u64 = if secs < 0 {
        (-secs) as u64
    } else {
        secs as u64
    };
    let abs_nanos: i32 = if nanos < 0 {
        -nanos
    } else {
        nanos
    };
    let mut out: Vec<char> = Vec::new();
    if negative {
        out.push('-');
    }
    push_dec(&mut out, abs_secs);
    push_nanos_min(&mut out, abs_nanos);
    out.push('s');
    assert(out@ =~= duration_text(secs as int, nanos as int));
    Ok(string_from_chars(out))
}

/// Parse the part `cs[start..end]` of a duration after its sign.
#[verifier::rlimit(100)]
fn parse_duration_body(cs: &Vec<char>, start: usize, end: usize, negative: bool) -> (r: Result<
    (i64, i32),
    &'static str,
>)
    requires
        start <= end <= cs@.len(),
    ensures
        r == spec_duration_body(cs@.subrange(start as int, end as int), negative),
{
    let ghost body = cs@.subrange(start as int, end as int);
    if start < end && (cs[start] == '-' || cs[start] == '+') {
        assert(body[0] == cs@[start as int]);
        return Err("malformed sign");
    }
    let dot = find_in(cs, start, end, '.');
    let (sec_end, nano_start): (usize, usize) = match dot {
        Some(d) => (start + d, start + d + 1),
        None => (end, end),
    };
    assert(cs@.subrange(start as int, sec_end as int) =~= match find_char(body, '.') {
        Some(d) => body.subrange(0, d),
        None => body,
    });
    assert(cs@.subrange(nano_start as int, end as int) =~= match find_char(body, '.') {
        Some(d) => body.subrange(d + 1, body.len() as int),
        None => Seq::<char>::empty(),
    });
    let abs_secs: i64 = match parse_i64(cs, start, sec_end) {
        None => {
            return Err("bad seconds");
        },
        Some(v) => v,
    };
    proof {
        let sec_str = cs@.subrange(start as int, sec_end as int);
        if sec_str.len() > 0 {
            assert(sec_str[0] == body[0]);
            assert(body[0] == cs@[start as int]);
        }
        if all_digits(sec_str) {
            lemma_digits_bound(sec_str);
        }
    }
    let abs_nanos: i32 = match parse_fraction(cs, nano_start, end) {
        Err(e) => {
            return Err(e);
        },
        Ok(v) => v,
    };
    let secs: i64 = if negative {
        -abs_secs
    } else {
        abs_secs
    };
    let nanos: i32 = if negative {
        -abs_nanos
    } else {
        abs_nanos
    };
    match validate_duration(secs, nanos) {
        Err(e) => Err(e),
        Ok(()) => Ok((secs, nanos)),
    }
}

/// Parse a `"3.5s"`-style decimal seconds string into `(seconds, nanos)`.
///
/// # Errors
///
/// Returns an error on a malformed string or a value outside the `Duration`
/// range.
pub fn parse_duration(s: &str) -> (r: Result<(i64, i32), &'static str>)
    ensures
        r == spec_parse_duration(s@),
{
    let cs = str_chars(s);
    let n: usize = cs.len();
    if n == 0 || cs[n - 1] != 's' {
        return Err("missing 's' suffix");
    }
    let ghost body0 = cs@.drop_last();
    assert(body0 =~= cs@.subrange(0, n - 1));
    let end: usize = n - 1;
    let negative = end > 0 && cs[0] == '-';
    let start: usize = if negative {
        1
    } else {
        0
    };
    assert(cs@.subrange(start as int, end as int) =~= (if negative {
        body0.drop_first()
    } else {
        body0
    }));
    parse_duration_body(&cs, start, end, negative)
}

// ── Round trips ─────────────────────────────────────────────────────────────

/// The fractional seconds that `nanos_text` writes read back as `nanos`.
proof fn lemma_nanos_text(n: int)
    requires
        0 <= n < 1_000_000_000,
    ensures
        n == 0 ==> nanos_text(n).len() == 0,
        n != 0 ==> {
            let t = nanos_text(n);
            let digits = t.drop_first();
            &&& t.len() >= 2
            &&& t[0] == '.'
            &&& 1 <= digits.len() <= 9
            &&& all_digits(digits)
            &&& frac_nanos(digits) == n
        },
{
    lemma_pow10_nine();
    if n != 0 {
        let t = nanos_text(n);
        if n % 1_000_000 == 0 {
            let q = n / 1_000_000;
            lemma_fixed_digits(q as nat, 3);
            assert(t.drop_first() =~= fixed_digits(q as nat, 3));
            assert(q < 1000 && q * 1_000_000 == n);
            vstd::arithmetic::div_mod::lemma_small_mod(q as nat, 1000);
        } else if n % 1_000 == 0 {
            let q = n / 1_000;
            lemma_fixed_digits(q as nat, 6);
            assert(t.drop_first() =~= fixed_digits(q as nat, 6));
            assert(q < 1_000_000 && q * 1_000 == n);
            vstd::arithmetic::div_mod::lemma_small_mod(q as nat, 1_000_000);
        } else {
            lemma_fixed_digits(n as nat, 9);
            assert(t.drop_first() =~= fixed_digits(n as nat, 9));
            assert(pow10(0) == 1);
        }
    }
}

/// A run of digits holds no `.`, so the first `.` after it is the first.
proof fn lemma_find_after_digits(digits: Seq<char>, rest: Seq<char>, c: char)
    requires
        all_digits(digits),
        !is_digit(c),
    ensures
        find_char(digits + rest, c) == match find_char(rest, c) {
            Some(i) => Some(digits.len() + i),
            None => None::<int>,
        },
{
    let s = digits + rest;
    lemma_find_char(rest, c);
    assert forall|j: int| 0 <= j < digits.len() implies s[j] != c by {
        assert(is_digit(digits[j]));
    }
    match find_char(rest, c) {
        Some(i) => {
            let k = digits.len() + i;
            assert(s[k] == c);
            assert forall|j: int| 0 <= j < k implies s[j] != c by {
                if j >= digits.len() {
                    assert(s[j] == rest[j - digits.len()]);
                }
            }
            lemma_find_char_first(s, c, k);
        },
        None => {
            assert forall|j: int| 0 <= j < s.len() implies s[j] != c by {
                if j >= digits.len() {
                    assert(s[j] == rest[j - digits.len()]);
                }
            }
            lemma_find_char_none(s, c);
        },
    }
}

/// A numeral without a sign reads back through integer parsing.
proof fn lemma_parse_numeral(digits: Seq<char>)
    requires
        digits.len() >= 1,
        all_digits(digits),
        digits_value(digits) <= i64::MAX,
    ensures
        spec_parse_i64(digits) == Some(digits_value(digits) as i64),
        spec_parse_u8(digits) == (if digits_value(digits) <= 255 {
            Some(digits_value(digits) as u8)
        } else {
            None
        }),
{
    assert(is_digit(digits[0]));
    lemma_digits_bound(digits);
}

/// Formatting a valid duration and parsing the text gives the duration back.
#[verifier::rlimit(100)]
#[verifier::spinoff_prover]
pub proof fn lemma_duration_round_trip(secs: int, nanos: int)
    requires
        spec_validate_duration(secs, nanos) is Ok,
    ensures
        spec_parse_duration(duration_text(secs, nanos)) == Ok::<(i64, i32), &'static str>(
            (secs as i64, nanos as i32),
        ),
{
    let negative = secs < 0 || (secs == 0 && nanos < 0);
    let sign: Seq<char> = if negative {
        seq!['-']
    } else {
        Seq::empty()
    };
    let dec = dec_digits(abs(secs) as nat);
    let nt = nanos_text(abs(nanos));
    let t = duration_text(secs, nanos);
    lemma_dec_digits(abs(secs) as nat);
    lemma_nanos_text(abs(nanos));
    assert(t.drop_last() =~= sign + (dec + nt));
    let body0 = t.drop_last();
    assert(is_digit(dec[0]));
    if negative {
        assert(body0[0] == '-');
        assert(body0.drop_first() =~= dec + nt);
    } else {
        assert(body0 =~= dec + nt);
        assert(body0[0] == dec[0]);
    }
    let body = dec + nt;
    assert(body[0] == dec[0]);
    lemma_find_after_digits(dec, nt, '.');
    if nt.len() > 0 {
        lemma_find_char_first(nt, '.', 0);
        assert(body.subrange(0, dec.len() as int) =~= dec);
        assert(body.subrange(dec.len() as int + 1, body.len() as int) =~= nt.drop_first());
    } else {
        assert(body =~= dec);
    }
    lemma_parse_numeral(dec);
}

/// A duration written with one to nine fractional digits, whatever their
/// number, reads as its whole seconds and the digits as the leading digits
/// of the nanoseconds (`"1.5s"` is 1 s and 500 000 000 ns), both negated
/// after a `-`, for every whole number of seconds in range.
#[verifier::rlimit(100)]
#[verifier::spinoff_prover]
pub proof fn lemma_duration_fraction(negative: bool, secs: nat, digits: Seq<char>)
    requires
        secs <= MAX_DURATION_SECS,
        1 <= digits.len() <= 9,
        all_digits(digits),
    ensures
        ({
            let nanos = digits_value(digits) * pow10((9 - digits.len()) as nat);
            spec_parse_duration(
                (if negative { seq!['-'] } else { Seq::<char>::empty() }) + dec_digits(secs) + seq!['.']
                    + digits + seq!['s'],
            ) == Ok::<(i64, i32), &'static str>(
                if negative {
                    ((-secs) as i64, (-nanos) as i32)
                } else {
                    (secs as i64, nanos as i32)
                },
            )
        }),
{
    let sign: Seq<char> = if negative { seq!['-'] } else { Seq::<char>::empty() };
    let dec = dec_digits(secs);
    let rest = seq!['.'] + digits;
    let t = sign + dec + seq!['.'] + digits + seq!['s'];
    lemma_dec_digits(secs);
    lemma_digits_bound(digits);
    let len = digits.len();
    lemma_pow10_add(len as nat, (9 - len) as nat);
    lemma_pow10_nine();
    lemma_pow10_positive((9 - len) as nat);
    lemma_pow10_positive(len as nat);
    let nanos = digits_value(digits) * pow10((9 - len) as nat);
    assert(0 <= nanos < 1_000_000_000) by (nonlinear_arith)
        requires
            0 <= digits_value(digits) < pow10(len as nat),
            nanos == digits_value(digits) * pow10((9 - len) as nat),
            pow10((9 - len) as nat) > 0,
            pow10(len as nat) * pow10((9 - len) as nat) == 1_000_000_000,
    ;
    assert(t.drop_last() =~= sign + (dec + rest));
    let body0 = t.drop_last();
    assert(is_digit(dec[0]));
    if negative {
        assert(body0[0] == '-');
        assert(body0.drop_first() =~= dec + rest);
    } else {
        assert(body0 =~= dec + rest);
        assert(body0[0] == dec[0]);
    }
    let body = dec + rest;
    assert(body[0] == dec[0]);
    lemma_find_char_first(rest, '.', 0);
    lemma_find_after_digits(dec, rest, '.');
    assert(body.subrange(0, dec.len() as int) =~= dec);
    assert(body.subrange(dec.len() as int + 1, body.len() as int) =~= digits);
    lemma_parse_numeral(dec);
    assert(spec_fraction(digits) == Ok::<i32, &'static str>(nanos as i32));
}

/// A duration with more than nine fractional digits, or whole seconds past
/// the `Duration` range, is refused.
#[verifier::rlimit(100)]
#[verifier::spinoff_prover]
pub proof fn lemma_duration_rejects(negative: bool, secs: nat, digits: Seq<char>)
    requires
        digits.len() > 9 || secs > MAX_DURATION_SECS,
        all_digits(digits),
    ensures
        spec_parse_duration(
            (if negative { seq!['-'] } else { Seq::<char>::empty() }) + dec_digits(secs) + seq!['.'] + digits
                + seq!['s'],
        ) is Err,
{
    let sign: Seq<char> = if negative { seq!['-'] } else { Seq::<char>::empty() };
    let dec = dec_digits(secs);
    let rest = seq!['.'] + digits;
    let t = sign + dec + seq!['.'] + digits + seq!['s'];
    lemma_dec_digits(secs);
    assert(t.drop_last() =~= sign + (dec + rest));
    let body0 = t.drop_last();
    assert(is_digit(dec[0]));
    if negative {
        assert(body0[0] == '-');
        assert(body0.drop_first() =~= dec + rest);
    } else {
        assert(body0 =~= dec + rest);
        assert(body0[0] == dec[0]);
    }
    let body = dec + rest;
    assert(body[0] == dec[0]);
    lemma_find_char_first(rest, '.', 0);
    lemma_find_after_digits(dec, rest, '.');
    assert(body.subrange(0, dec.len() as int) =~= dec);
    assert(body.subrange(dec.len() as int + 1, body.len() as int) =~= digits);
    if digits.len() > 9 {
        assert(spec_fraction(digits) is Err);
    } else {
        assert(is_digit(dec[0]));
        if digits_value(dec) <= i64::MAX {
            lemma_parse_numeral(dec);
        }
    }
}

/// Every character of the text that a timestamp is written in is ASCII.
proof fn lemma_digits_ascii(s: Seq<char>)
    requires
        all_digits(s),
    ensures
        vstd::utf8::is_ascii_chars(s),
{
    assert forall|i: int| 0 <= i < s.len() implies '\0' <= #[trigger] s[i] <= '\u{7f}' by {
        assert(is_digit(s[i]));
    }
}

/// What the date part of a timestamp reads back as.
proof fn lemma_date_text(y: int, m: int, d: int)
    requires
        1 <= y <= 9999,
        is_valid_date(y, m, d),
    ensures
        ({
            let t = date_text(y, m, d);
            &&& t.len() == 10
            &&& vstd::utf8::is_ascii_chars(t)
            &&& forall|j: int| 0 <= j < 10 ==> t[j] != 'T'
            &&& t[4] == '-' && t[7] == '-'
            &&& spec_parse_digits(t.subrange(0, 4)) == Some(y)
            &&& spec_parse_digits(t.subrange(5, 7)) == Some(m)
            &&& spec_parse_digits(t.subrange(8, 10)) == Some(d)
        }),
{
    let ys = fixed_digits(y as nat, 4);
    let ms = fixed_digits(m as nat, 2);
    let ds = fixed_digits(d as nat, 2);
    lemma_fixed_digits(y as nat, 4);
    lemma_fixed_digits(m as nat, 2);
    lemma_fixed_digits(d as nat, 2);
    lemma_pow10_nine();
    assert(pow10(2) == 100 && pow10(4) == 10_000) by {
        reveal_with_fuel(pow10, 5);
    }
    let t = date_text(y, m, d);
    vstd::arithmetic::div_mod::lemma_small_mod(y as nat, pow10(4) as nat);
    vstd::arithmetic::div_mod::lemma_small_mod(m as nat, pow10(2) as nat);
    vstd::arithmetic::div_mod::lemma_small_mod(d as nat, pow10(2) as nat);
    assert(t.subrange(0, 4) =~= ys);
    assert(t.subrange(5, 7) =~= ms);
    assert(t.subrange(8, 10) =~= ds);
    lemma_parse_numeral(ys);
    lemma_parse_numeral(ms);
    lemma_parse_numeral(ds);
    lemma_digits_ascii(ys);
    lemma_digits_ascii(ms);
    lemma_digits_ascii(ds);
    assert forall|j: int| 0 <= j < 10 implies t[j] != 'T' && '\0' <= #[trigger] t[j] <= '\u{7f}' by {
        if j < 4 {
            assert(t[j] == ys[j] && is_digit(ys[j]));
        } else if 4 < j < 7 {
            assert(t[j] == ms[j - 5] && is_digit(ms[j - 5]));
        } else if 7 < j {
            assert(t[j] == ds[j - 8] && is_digit(ds[j - 8]));
        }
    }
}

/// What the time-of-day part of a timestamp reads back as.
proof fn lemma_time_text(tod: int, nanos: int)
    requires
        0 <= tod < 86_400,
        0 <= nanos < 1_000_000_000,
    ensures
        ({
            let t = time_text(tod, nanos);
            &&& t.len() >= 8
            &&& vstd::utf8::is_ascii_chars(t)
            &&& t[2] == ':' && t[5] == ':'
            &&& spec_parse_digits(t.subrange(0, 2)) == Some(tod / 3600)
            &&& spec_parse_digits(t.subrange(3, 5)) == Some((tod % 3600) / 60)
            &&& spec_parse_digits(t.subrange(6, 8)) == Some(tod % 60)
            &&& spec_timestamp_nanos(t) == Ok::<i32, &'static str>(nanos as i32)
        }),
{
    let hs = fixed_digits((tod / 3600) as nat, 2);
    let ms = fixed_digits(((tod % 3600) / 60) as nat, 2);
    let ss = fixed_digits((tod % 60) as nat, 2);
    let nt = nanos_text(nanos);
    lemma_fixed_digits((tod / 3600) as nat, 2);
    lemma_fixed_digits(((tod % 3600) / 60) as nat, 2);
    lemma_fixed_digits((tod % 60) as nat, 2);
    assert(pow10(2) == 100) by {
        reveal_with_fuel(pow10, 3);
    }
    lemma_nanos_text(nanos);
    let t = time_text(tod, nanos);
    vstd::arithmetic::div_mod::lemma_small_mod((tod / 3600) as nat, pow10(2) as nat);
    vstd::arithmetic::div_mod::lemma_small_mod(((tod % 3600) / 60) as nat, pow10(2) as nat);
    vstd::arithmetic::div_mod::lemma_small_mod((tod % 60) as nat, pow10(2) as nat);
    assert(t.subrange(0, 2) =~= hs);
    assert(t.subrange(3, 5) =~= ms);
    assert(t.subrange(6, 8) =~= ss);
    lemma_parse_numeral(hs);
    lemma_parse_numeral(ms);
    lemma_parse_numeral(ss);
    lemma_digits_ascii(hs);
    lemma_digits_ascii(ms);
    lemma_digits_ascii(ss);
    if nanos != 0 {
        lemma_digits_ascii(nt.drop_first());
        assert(t.subrange(9, t.len() as int) =~= nt.drop_first());
        assert(t[8] == nt[0]);
    }
    assert forall|j: int| 0 <= j < t.len() implies '\0' <= #[trigger] t[j] <= '\u{7f}' by {
        if j < 2 {
            assert(t[j] == hs[j]);
        } else if 2 < j < 5 {
            assert(t[j] == ms[j - 3]);
        } else if 5 < j < 8 {
            assert(t[j] == ss[j - 6]);
        } else if j > 8 {
            assert(t[j] == nt.drop_first()[j - 9]);
        }
    }
}

/// The date and time of day of a timestamp in range read back as the
/// timestamp.
#[verifier::rlimit(60)]
#[verifier::spinoff_prover]
proof fn lemma_date_time_back(secs: int, nanos: int, y: int, m: int, d: int)
    requires
        spec_timestamp_check(secs, nanos) is Ok,
        is_valid_date(y, m, d),
        civil_days(y, m, d) == secs / 86_400,
    ensures
        spec_date_time(date_text(y, m, d), time_text(secs % 86_400, nanos), 0) == Ok::<
            (i64, i32),
            &'static str,
        >((secs as i64, nanos as i32)),
{
    let tod = secs % 86_400;
    lemma_civil_days_range(y, m, d);
    lemma_date_text(y, m, d);
    lemma_time_text(tod, nanos);
    assert(civil_days(y, m, d) * 86_400 + (tod / 3600) * 3600 + ((tod % 3600) / 60) * 60 + tod
        % 60 == secs);
}

/// Formatting a timestamp in range and parsing the text gives the timestamp
/// back.
pub proof fn lemma_timestamp_round_trip(secs: int, nanos: int)
    requires
        spec_timestamp_check(secs, nanos) is Ok,
    ensures
        spec_parse_timestamp(timestamp_text(secs, nanos)) == Ok::<(i64, i32), &'static str>(
            (secs as i64, nanos as i32),
        ),
{
    let day = secs / 86_400;
    let tod = secs % 86_400;
    let (y, m, d) = date_of_day_witness(day);
    lemma_date_of_day(day, y, m, d);
    lemma_civil_days_range(y, m, d);
    let dtext = date_text(y, m, d);
    let ttext = time_text(tod, nanos);
    lemma_date_text(y, m, d);
    lemma_time_text(tod, nanos);
    lemma_date_time_back(secs, nanos, y, m, d);
    let t = timestamp_text(secs, nanos);
    let dt = dtext + seq!['T'] + ttext;
    assert(t =~= dt + seq!['Z']);
    assert(t.drop_last() =~= dt);
    assert forall|j: int| 0 <= j < t.len() implies '\0' <= #[trigger] t[j] <= '\u{7f}' by {
        if j < 10 {
            assert(t[j] == dtext[j]);
        } else if 10 < j < t.len() - 1 {
            assert(t[j] == ttext[j - 11]);
        }
    }
    assert(dt[10] == 'T');
    lemma_find_char_first(dt, 'T', 10);
    assert(dt.subrange(0, 10) =~= dtext);
    assert(dt.subrange(11, dt.len() as int) =~= ttext);
}

/// A timestamp written with a `+HH:MM` or `-HH:MM` offset reads as the UTC
/// instant its local date and time stand for: the instant that the same
/// date and time written with `Z` read as, less `HH` hours and `MM` minutes
/// for `+`, more for `-`, for every hour 0 to 23 and minute 0 to 59, as long
/// as that instant is in range.
#[verifier::rlimit(100)]
#[verifier::spinoff_prover]
pub proof fn lemma_timestamp_offset(body: Seq<char>, plus: bool, hours: nat, minutes: nat)
    requires
        hours <= 23,
        minutes <= 59,
        match spec_parse_timestamp(body.push('Z')) {
            Ok((utc, _)) => {
                let shift = hours * 3600 + minutes * 60;
                let instant = if plus {
                    utc - shift
                } else {
                    utc + shift
                };
                MIN_TIMESTAMP_SECS <= instant <= MAX_TIMESTAMP_SECS
            },
            Err(_) => false,
        },
    ensures
        match spec_parse_timestamp(body.push('Z')) {
            Ok((utc, nanos)) => {
                let shift = hours * 3600 + minutes * 60;
                let instant = if plus {
                    utc - shift
                } else {
                    utc + shift
                };
                spec_parse_timestamp(
                    body + seq![if plus { '+' } else { '-' }] + fixed_digits(hours, 2) + seq![':']
                        + fixed_digits(minutes, 2),
                ) == Ok::<(i64, i32), &'static str>((instant as i64, nanos))
            },
            Err(_) => true,
        },
{
    let z = body.push('Z');
    let hh = fixed_digits(hours, 2);
    let mm = fixed_digits(minutes, 2);
    let sign: char = if plus { '+' } else { '-' };
    let t = body + seq![sign] + hh + seq![':'] + mm;
    lemma_fixed_digits(hours, 2);
    lemma_fixed_digits(minutes, 2);
    assert(pow10(2) == 100) by {
        assert(pow10(1) == 10 * pow10(0));
    }
    vstd::arithmetic::div_mod::lemma_small_mod(hours, 100);
    vstd::arithmetic::div_mod::lemma_small_mod(minutes, 100);
    let n = body.len() as int;
    assert(t.len() == n + 6);
    assert(z.drop_last() =~= body);
    assert(t[n] == sign);
    assert(t[n + 3] == ':');
    assert(t.subrange(n + 1, n + 3) =~= hh);
    assert(t.subrange(n + 4, n + 6) =~= mm);
    assert(t.subrange(0, n) =~= body);
    assert(t.last() == mm[1]);
    assert(is_digit(mm[1]));
    // The text is ASCII as the `Z` form is.
    assert(vstd::utf8::is_ascii_chars(z));
    assert forall|j: int| 0 <= j < t.len() implies '\0' <= #[trigger] t[j] <= '\u{7f}' by {
        if j < n {
            assert(t[j] == z[j]);
        } else if n + 1 <= j < n + 3 {
            assert(t[j] == hh[j - n - 1]);
            assert(is_digit(hh[j - n - 1]));
        } else if n + 4 <= j {
            assert(t[j] == mm[j - n - 4]);
            assert(is_digit(mm[j - n - 4]));
        }
    }
    assert(spec_timezone(z) == Ok::<(Seq<char>, int), &'static str>((body, 0)));
    let offset: int = if plus { -(hours * 3600 + minutes * 60) } else { (hours * 3600 + minutes * 60) as int };
    assert(spec_parse_digits(hh) == Some(hours as int));
    assert(spec_parse_digits(mm) == Some(minutes as int));
    assert(t.last() != 'Z');
    assert(t[t.len() - 6] == '+' || t[t.len() - 6] == '-');
    assert(t[t.len() - 3] == ':');
    assert(t.subrange(t.len() - 5, t.len() - 3) =~= hh);
    assert(t.subrange(t.len() - 2, t.len() as int) =~= mm);
    assert(!(t.len() > 0 && t.last() == 'Z'));
    assert(t.len() >= 6);
    assert(0 <= hours <= 23 && 0 <= minutes <= 59);
    assert((t[t.len() - 6] == '+') == plus);
    assert(t.subrange(0, t.len() - 6) =~= body);
    let sg: int = if plus { -1 } else { 1 };
    let x: int = (hours * 3600 + minutes * 60) as int;
    assert(sg * x == offset) by (nonlinear_arith)
        requires
            sg == (if plus { -1int } else { 1int }),
            offset == (if plus { -x } else { x }),
    ;
    assert(spec_timezone(t) == Ok::<(Seq<char>, int), &'static str>((body, offset)));
}

/// Fractional seconds of one to nine digits, whatever their number, after
/// the seconds of a timestamp (`local` is the date, `T` and `HH:MM:SS`)
/// read as the leading digits of the nanoseconds (`.5` is 500 000 000 ns)
/// and change nothing else.
#[verifier::rlimit(100)]
#[verifier::spinoff_prover]
pub proof fn lemma_timestamp_fraction(local: Seq<char>, digits: Seq<char>)
    requires
        1 <= digits.len() <= 9,
        all_digits(digits),
        local.len() >= 9,
        find_char(local, 'T') == Some(local.len() - 9),
        spec_parse_timestamp(local.push('Z')) is Ok,
    ensures
        match spec_parse_timestamp(local.push('Z')) {
            Ok((secs, _)) => spec_parse_timestamp(local + seq!['.'] + digits + seq!['Z'])
                == Ok::<(i64, i32), &'static str>(
                (secs, (digits_value(digits) * pow10((9 - digits.len()) as nat)) as i32),
            ),
            Err(_) => true,
        },
{
    let z = local.push('Z');
    let dt = local + seq!['.'] + digits;
    let t = dt.push('Z');
    assert(local + seq!['.'] + digits + seq!['Z'] == t);
    let k = local.len() - 9;
    assert(z.drop_last() =~= local);
    assert(t.drop_last() =~= dt);
    assert(t.last() == 'Z');
    assert(vstd::utf8::is_ascii_chars(z));
    lemma_digits_ascii(digits);
    assert forall|j: int| 0 <= j < t.len() implies '\0' <= #[trigger] t[j] <= '\u{7f}' by {
        if j < local.len() {
            assert(t[j] == z[j]);
        } else if local.len() < j < t.len() - 1 {
            assert(t[j] == digits[j - local.len() - 1]);
        }
    }
    lemma_find_char(local, 'T');
    assert(dt[k] == 'T');
    lemma_find_char_first(dt, 'T', k);
    assert(dt.subrange(0, k) =~= local.subrange(0, k));
    let time = local.subrange(k + 1, local.len() as int);
    let time2 = dt.subrange(k + 1, dt.len() as int);
    assert(time.len() == 8);
    assert(time2 =~= time + seq!['.'] + digits);
    assert(time2.subrange(0, 2) =~= time.subrange(0, 2));
    assert(time2.subrange(3, 5) =~= time.subrange(3, 5));
    assert(time2.subrange(6, 8) =~= time.subrange(6, 8));
    assert(time2[2] == time[2] && time2[5] == time[5] && time2[8] == '.');
    assert(time2.subrange(9, time2.len() as int) =~= digits);
    lemma_digits_bound(digits);
    let len = digits.len();
    lemma_pow10_add(len as nat, (9 - len) as nat);
    lemma_pow10_nine();
    lemma_pow10_positive((9 - len) as nat);
    lemma_pow10_positive(len as nat);
    let nanos = digits_value(digits) * pow10((9 - len) as nat);
    assert(0 <= nanos < 1_000_000_000) by (nonlinear_arith)
        requires
            0 <= digits_value(digits) < pow10(len as nat),
            nanos == digits_value(digits) * pow10((9 - len) as nat),
            pow10((9 - len) as nat) > 0,
            pow10(len as nat) * pow10((9 - len) as nat) == 1_000_000_000,
    ;
    assert(spec_timestamp_nanos(time2) == Ok::<i32, &'static str>(nanos as i32));
    assert(spec_timestamp_nanos(time) == Ok::<i32, &'static str>(0));
}

/// An offset whose hours are past 23 or whose minutes are past 59 is
/// refused, whatever comes before it.
#[verifier::rlimit(100)]
#[verifier::spinoff_prover]
pub proof fn lemma_timestamp_offset_range(body: Seq<char>, plus: bool, hours: nat, minutes: nat)
    requires
        hours <= 99,
        minutes <= 99,
        hours > 23 || minutes > 59,
    ensures
        spec_parse_timestamp(
            body + seq![if plus { '+' } else { '-' }] + fixed_digits(hours, 2) + seq![':'] + fixed_digits(
                minutes,
                2,
            ),
        ) is Err,
{
    let hh = fixed_digits(hours, 2);
    let mm = fixed_digits(minutes, 2);
    let sign: char = if plus { '+' } else { '-' };
    let t = body + seq![sign] + hh + seq![':'] + mm;
    lemma_fixed_digits(hours, 2);
    lemma_fixed_digits(minutes, 2);
    assert(pow10(2) == 100) by {
        assert(pow10(1) == 10 * pow10(0));
    }
    vstd::arithmetic::div_mod::lemma_small_mod(hours, 100);
    vstd::arithmetic::div_mod::lemma_small_mod(minutes, 100);
    assert(spec_parse_digits(hh) == Some(hours as int));
    assert(spec_parse_digits(mm) == Some(minutes as int));
    assert(t.last() == mm[1] && is_digit(mm[1]));
    assert(t[t.len() - 6] == sign);
    assert(t[t.len() - 3] == ':');
    assert(t.subrange(t.len() - 5, t.len() - 3) =~= hh);
    assert(t.subrange(t.len() - 2, t.len() as int) =~= mm);
    assert(spec_timezone(t) is Err);
}

/// More than nine fractional digits after a timestamp's seconds are
/// refused.
#[verifier::rlimit(100)]
#[verifier::spinoff_prover]
pub proof fn lemma_timestamp_fraction_length(local: Seq<char>, digits: Seq<char>)
    requires
        digits.len() > 9,
        local.len() >= 9,
        find_char(local, 'T') == Some(local.len() - 9),
    ensures
        spec_parse_timestamp(local + seq!['.'] + digits + seq!['Z']) is Err,
{
    let dt = local + seq!['.'] + digits;
    let t = dt.push('Z');
    assert(local + seq!['.'] + digits + seq!['Z'] == t);
    assert(t.drop_last() =~= dt);
    let k = local.len() - 9;
    lemma_find_char(local, 'T');
    assert(dt[k] == 'T');
    lemma_find_char_first(dt, 'T', k);
    let time2 = dt.subrange(k + 1, dt.len() as int);
    assert(time2[8] == '.');
    assert(time2.subrange(9, time2.len() as int) =~= digits);
    assert(spec_timestamp_nanos(time2) is Err);
}

/// A date with the day count `day`, for the days that `days_to_date` can
/// convert.
proof fn date_of_day_witness(day: int) -> (r: (int, int, int))
    requires
        day_count_fits(day),
    ensures
        is_valid_date(r.0, r.1, r.2),
        civil_days(r.0, r.1, r.2) == day,
{
    let z = day + 719_468;
    let era = z / 146_097;
    let doe = z % 146_097;
    vstd::arithmetic::div_mod::lemma_fundamental_div_mod(z, 146_097);
    vstd::arithmetic::div_mod::lemma_mod_bound(z, 146_097);
    lemma_era_day(doe as u32);
    let yoe = (doe - doe / 1460 + doe / 36_524 - doe / 146_096) / 365;
    let doy = doe - (365 * yoe + yoe / 4 - yoe / 100);
    lemma_year_day(doy as u32);
    let mp = (5 * doy + 2) / 153;
    let d = doy - (153 * mp + 2) / 5 + 1;
    let m = if mp < 10 {
        mp + 3
    } else {
        mp - 9
    };
    let y = if m <= 2 {
        yoe + era * 400 + 1
    } else {
        yoe + era * 400
    };
    lemma_era_div(era, yoe);
    lemma_era_div(era, yoe + 1);
    lemma_march_form(y, m, d);
    (y, m, d)
}

// ── FieldMask ───────────────────────────────────────────────────────────────

/// A snake_case field-mask path in lowerCamelCase: every `_` is dropped and
/// the character after it, unless it is a `.` or another `_`, is uppercased;
/// each `.`-separated component starts afresh.
pub open spec fn snake_to_camel_chars(p: Seq<char>) -> Seq<char>
    decreases p.len(),
{
    if p.len() == 0 {
        Seq::empty()
    } else {
        let q = p.drop_last();
        let c = p.last();
        snake_to_camel_chars(q) + if c == '_' {
            Seq::empty()
        } else if c == '.' {
            seq!['.']
        } else if q.len() > 0 && q.last() == '_' {
            upper_chars(c)
        } else {
            seq![c]
        }
    }
}

/// A lowerCamelCase field-mask path in snake_case: every uppercase
/// character is lowercased, with a `_` before it unless it begins its
/// `.`-separated component.
pub open spec fn camel_to_snake_chars(p: Seq<char>) -> Seq<char>
    decreases p.len(),
{
    if p.len() == 0 {
        Seq::empty()
    } else {
        let q = p.drop_last();
        let c = p.last();
        camel_to_snake_chars(q) + if c == '.' {
            seq!['.']
        } else if is_upper(c) {
            (if q.len() > 0 && q.last() != '.' {
                seq!['_']
            } else {
                Seq::empty()
            }) + lower_chars(c)
        } else {
            seq![c]
        }
    }
}

/// The characters of `snake_to_camel`.
fn snake_to_camel_vec(cs: &Vec<char>) -> (r: Vec<char>)
    ensures
        r@ == snake_to_camel_chars(cs@),
{
    let mut out: Vec<char> = Vec::new();
    let mut capitalize_next = false;
    let mut i: usize = 0;
    while i < cs.len()
        invariant
            i <= cs@.len(),
            out@ == snake_to_camel_chars(cs@.subrange(0, i as int)),
            capitalize_next == (i > 0 && cs@[i - 1] == '_'),
        decreases cs@.len() - i,
    {
        let ch = cs[i];
        let ghost q = cs@.subrange(0, i as int);
        assert(cs@.subrange(0, i + 1).drop_last() =~= q);
        if ch == '_' {
            capitalize_next = true;
        } else if ch == '.' {
            out.push('.');
            capitalize_next = false;
        } else if capitalize_next {
            let upper = to_uppercase(ch);
            push_all(&mut out, &upper);
            capitalize_next = false;
        } else {
            out.push(ch);
        }
        i = i + 1;
        assert(out@ =~= snake_to_camel_chars(cs@.subrange(0, i as int)));
    }
    assert(cs@.subrange(0, i as int) =~= cs@);
    out
}

/// The characters of `camel_to_snake`.
fn camel_to_snake_vec(cs: &Vec<char>) -> (r: Vec<char>)
    ensures
        r@ == camel_to_snake_chars(cs@),
{
    let mut out: Vec<char> = Vec::new();
    // Where the output of the current component begins.
    let mut component: usize = 0;
    let mut i: usize = 0;
    while i < cs.len()
        invariant
            i <= cs@.len(),
            component <= out@.len(),
            out@ == camel_to_snake_chars(cs@.subrange(0, i as int)),
            (out@.len() > component) == (i > 0 && cs@[i - 1] != '.'),
        decreases cs@.len() - i,
    {
        let ch = cs[i];
        let ghost q = cs@.subrange(0, i as int);
        assert(cs@.subrange(0, i + 1).drop_last() =~= q);
        if ch == '.' {
            out.push('.');
            component = out.len();
        } else if is_uppercase(ch) {
            // No underscore before the first char of a component,
            // even if it's uppercase (PascalCase → snake, not _snake).
            if out.len() > component {
                out.push('_');
            }
            let lower = to_lowercase(ch);
            push_all(&mut out, &lower);
        } else {
            out.push(ch);
        }
        i = i + 1;
        assert(out@ =~= camel_to_snake_chars(cs@.subrange(0, i as int)));
    }
    assert(cs@.subrange(0, i as int) =~= cs@);
    out
}

/// Convert a snake_case field-mask path to lowerCamelCase, handling dotted
/// sub-paths.
///
/// Does **not** validate round-trip safety — pair with a
/// `field_mask_path_round_trips` check before serializing per the spec.
pub fn snake_to_camel(path: &str) -> (r: String)
    ensures
        r@ == snake_to_camel_chars(path@),
{
    let cs = str_chars(path);
    string_from_chars(snake_to_camel_vec(&cs))
}

/// Convert a lowerCamelCase field-mask path to snake_case, handling dotted
/// sub-paths.
pub fn camel_to_snake(path: &str) -> (r: String)
    ensures
        r@ == camel_to_snake_chars(path@),
{
    let cs = str_chars(path);
    string_from_chars(camel_to_snake_vec(&cs))
}

/// Position `i` of `p` is as a path that survives the round trip has it:
/// not one of `A` to `Z`, and, if it is `_`, followed by one of `a` to `z`.
pub open spec fn snake_at(p: Seq<char>, i: int) -> bool {
    &&& !is_ascii_upper(p[i])
    &&& p[i] == '_' ==> i + 1 < p.len() && is_ascii_lower(p[i + 1])
}

/// Every position of `p` is as [`snake_at`] asks.
pub open spec fn snake_form(p: Seq<char>) -> bool {
    forall|i: int| 0 <= i < p.len() ==> #[trigger] snake_at(p, i)
}

/// The camelCase form of an ASCII path is ASCII and holds no `_`.
proof fn lemma_camel_has_no_underscore(p: Seq<char>)
    requires
        vstd::utf8::is_ascii_chars(p),
    ensures
        vstd::utf8::is_ascii_chars(snake_to_camel_chars(p)),
        forall|i: int|
            0 <= i < snake_to_camel_chars(p).len() ==> #[trigger] snake_to_camel_chars(p)[i]
                != '_',
    decreases p.len(),
{
    if p.len() > 0 {
        let q = p.drop_last();
        let c = p.last();
        assert(vstd::utf8::is_ascii_chars(q)) by {
            assert forall|i: int| 0 <= i < q.len() implies '\0' <= #[trigger] q[i] <= '\u{7f}' by {
                assert(q[i] == p[i]);
            }
        }
        assert('\0' <= p[p.len() - 1] <= '\u{7f}');
        lemma_camel_has_no_underscore(q);
    }
}

/// The snake_case form of an ASCII path with no `_` has every position as
/// [`snake_at`] asks.
proof fn lemma_snake_of_camel(x: Seq<char>)
    requires
        vstd::utf8::is_ascii_chars(x),
        forall|i: int| 0 <= i < x.len() ==> #[trigger] x[i] != '_',
    ensures
        snake_form(camel_to_snake_chars(x)),
    decreases x.len(),
{
    if x.len() > 0 {
        let q = x.drop_last();
        let c = x.last();
        assert(vstd::utf8::is_ascii_chars(q)) by {
            assert forall|i: int| 0 <= i < q.len() implies '\0' <= #[trigger] q[i] <= '\u{7f}' by {
                assert(q[i] == x[i]);
            }
        }
        assert forall|i: int| 0 <= i < q.len() implies #[trigger] q[i] != '_' by {
            assert(q[i] == x[i]);
        }
        lemma_snake_of_camel(q);
        assert('\0' <= x[x.len() - 1] <= '\u{7f}');
        assert(x[x.len() - 1] != '_');
        let a = camel_to_snake_chars(q);
        let r = camel_to_snake_chars(x);
        let piece = r.subrange(a.len() as int, r.len() as int);
        assert(r == a + piece);
        if is_upper(c) {
            let l = ((c as u32) + 32) as char;
            assert(is_ascii_lower(l));
        }
        assert forall|i: int| 0 <= i < r.len() implies #[trigger] snake_at(r, i) by {
            if i < a.len() {
                assert(snake_at(a, i));
                assert(r[i] == a[i]);
                if a[i] == '_' {
                    assert(r[i + 1] == a[i + 1]);
                }
            }
        }
    }
}

/// A field-mask path that a round trip through camelCase gives back has no
/// uppercase letter and has each `_` followed by a lowercase letter: a
/// double underscore (`foo__bar`), a digit after an underscore
/// (`foo_3_bar`), an uppercase letter (`fooBar`) or a trailing underscore
/// each make the round trip fail. Stated of ASCII paths.
pub proof fn lemma_field_mask_rejects(path: Seq<char>)
    requires
        vstd::utf8::is_ascii_chars(path),
        !snake_form(path),
    ensures
        camel_to_snake_chars(snake_to_camel_chars(path)) != path,
{
    lemma_camel_has_no_underscore(path);
    lemma_snake_of_camel(snake_to_camel_chars(path));
}

/// Whether a snake_case `FieldMask` path round-trips through camelCase
/// without information loss.
///
/// The proto3 JSON spec requires rejecting paths that can't round-trip:
/// double underscores (`foo__bar`), digits after underscores (`foo_3_bar`),
/// and uppercase in the snake form (`fooBar`) all violate the invariant
/// `camel_to_snake(snake_to_camel(p)) == p`.
pub fn field_mask_path_round_trips(path: &str) -> (r: bool)
    ensures
        r == (camel_to_snake_chars(snake_to_camel_chars(path@)) == path@),
{
    let cs = str_chars(path);
    let back = camel_to_snake_vec(&snake_to_camel_vec(&cs));
    chars_equal(&back, &cs)
}

// ── Civil calendar ──────────────────────────────────────────────────────────

/// Whether `year` is a leap year of the proleptic Gregorian calendar.
pub open spec fn is_leap(year: int) -> bool {
    year % 4 == 0 && (year % 100 != 0 || year % 400 == 0)
}

/// The length of `month` (1 to 12) of `year`, or 0 for any other month.
pub open spec fn spec_days_in_month(year: int, month: int) -> int {
    if month == 2 {
        if is_leap(year) { 29 } else { 28 }
    } else if month == 4 || month == 6 || month == 9 || month == 11 {
        30
    } else if 1 <= month <= 12 {
        31
    } else {
        0
    }
}

/// Whether `(year, month, day)` names a day of the proleptic Gregorian
/// calendar.
pub open spec fn is_valid_date(year: int, month: int, day: int) -> bool {
    1 <= month <= 12 && 1 <= day <= spec_days_in_month(year, month)
}

/// The number of days in the months of `year` before `month`.
pub open spec fn days_before_month(year: int, month: int) -> int {
    let base: int = if month == 1 { 0 }
        else if month == 2 { 31 }
        else if month == 3 { 59 }
        else if month == 4 { 90 }
        else if month == 5 { 120 }
        else if month == 6 { 151 }
        else if month == 7 { 181 }
        else if month == 8 { 212 }
        else if month == 9 { 243 }
        else if month == 10 { 273 }
        else if month == 11 { 304 }
        else { 334 };
    base + if month > 2 && is_leap(year) { 1int } else { 0int }
}

/// The number of days from `0001-01-01` to the first day of `year`.
pub open spec fn days_before_year(year: int) -> int {
    365 * (year - 1) + (year - 1) / 4 - (year - 1) / 100 + (year - 1) / 400
}

/// The number of days from `1970-01-01` to `(year, month, day)`, negative
/// before it.
pub open spec fn civil_days(year: int, month: int, day: int) -> int {
    days_before_year(year) + days_before_month(year, month) + day - 1 - 719_162
}

/// Whether the day count of a date leaves room in an `i64` for the
/// arithmetic that computes it, whose last step subtracts 719 468.
pub open spec fn day_count_fits(days: int) -> bool {
    i64::MIN <= days && days + 719_468 <= i64::MAX
}

/// Days in `month` of `year` (1-indexed month). Validates the Gregorian
/// leap-year rule.
#[verifier::rlimit(30)]
fn days_in_month(year: i64, month: u32) -> (r: u32)
    ensures
        r == spec_days_in_month(year as int, month as int),
{
    if month == 2 {
        if year % 4 == 0 && (year % 100 != 0 || year % 400 == 0) {
            29
        } else {
            28
        }
    } else if month == 4 || month == 6 || month == 9 || month == 11 {
        30
    } else if month == 1 || month == 3 || month == 5 || month == 7 || month == 8 || month == 10
        || month == 12 {
        31
    } else {
        0
    }
}

/// `(400 * era + r) / k` and `% k` for the divisors of 400 that the calendar
/// uses.
proof fn lemma_era_div(era: int, r: int)
    ensures
        (400 * era + r) / 4 == 100 * era + r / 4,
        (400 * era + r) / 100 == 4 * era + r / 100,
        (400 * era + r) / 400 == era + r / 400,
        (400 * era + r) % 4 == r % 4,
        (400 * era + r) % 100 == r % 100,
        (400 * era + r) % 400 == r % 400,
{
    lemma_fundamental_div_mod_converse(400 * era + r, 4, 100 * era + r / 4, r % 4);
    lemma_fundamental_div_mod_converse(400 * era + r, 100, 4 * era + r / 100, r % 100);
    lemma_fundamental_div_mod_converse(400 * era + r, 400, era + r / 400, r % 400);
}

/// A quotient by `k` grows by one exactly at the multiples of `k`.
proof fn lemma_div_step(x: int, k: int)
    requires
        k > 0,
    ensures
        x / k == (x - 1) / k + (if x % k == 0 { 1int } else { 0int }),
{
    vstd::arithmetic::div_mod::lemma_fundamental_div_mod(x, k);
    vstd::arithmetic::div_mod::lemma_mod_bound(x, k);
    let q = x / k;
    assert((q - 1) * k == k * q - k) by (nonlinear_arith);
    assert(q * k == k * q) by (nonlinear_arith);
    if x % k == 0 {
        lemma_fundamental_div_mod_converse(x - 1, k, q - 1, k - 1);
    } else {
        lemma_fundamental_div_mod_converse(x - 1, k, q, x % k - 1);
    }
}

/// The leap-year rule as a count: one for a leap year, zero otherwise.
proof fn lemma_leap_count(y: int)
    ensures
        (if is_leap(y) { 1int } else { 0int }) == (if y % 4 == 0 { 1int } else { 0int }) - (if y
            % 100 == 0 { 1int } else { 0int }) + (if y % 400 == 0 { 1int } else { 0int }),
{
    if y % 100 == 0 {
        lemma_fundamental_div_mod_converse(y, 4, 25 * (y / 100), 0);
    }
    if y % 400 == 0 {
        lemma_fundamental_div_mod_converse(y, 100, 4 * (y / 400), 0);
    }
}

/// The days before a year, counted from a March-based year `yy` in the
/// form the conversions compute: `365 * yy + yy / 4 - yy / 100 + yy / 400`
/// is the count before the first of March of the year after `yy`.
proof fn lemma_days_before_year_step(y: int)
    ensures
        days_before_year(y) + 365 + (if is_leap(y) { 1int } else { 0int }) == 365 * y + y / 4 - y
            / 100 + y / 400,
{
    lemma_div_step(y, 4);
    lemma_div_step(y, 100);
    lemma_div_step(y, 400);
    lemma_leap_count(y);
}

/// The day count of `(yy, mp, d)` in the form of the conversions, where
/// `yy` is the year that begins on the first of March and `mp` the month
/// counted from March, equals `civil_days` of the date it names.
proof fn lemma_march_form(y: int, m: int, d: int)
    requires
        1 <= m <= 12,
    ensures
        ({
            let yy = if m <= 2 { y - 1 } else { y };
            let mp = if m > 2 { m - 3 } else { m + 9 };
            let doy = (153 * mp + 2) / 5 + d - 1;
            365 * yy + yy / 4 - yy / 100 + yy / 400 + doy - 719_468 == civil_days(y, m, d)
        }),
{
    if m <= 2 {
        lemma_days_before_year_step(y - 1);
    } else {
        lemma_days_before_year_step(y);
    }
}

/// The length of the month `mp` of a year that begins on the first of
/// March, `mp` counted from 0 for March, with 29 days for February.
pub open spec fn march_month_max(mp: int) -> int {
    if mp == 11 { 29 }
    else if mp == 1 || mp == 3 || mp == 6 || mp == 8 { 30 }
    else { 31 }
}

/// The year and day of a day of a 400-year era: the year of the era `yoe`
/// and the day of that year `doy`, both counted from the first of March.
proof fn lemma_era_day(doe: u32)
    requires
        doe < 146_097,
    ensures
        ({
            let yoe: int = (doe - doe / 1460 + doe / 36_524 - doe / 146_096) / 365;
            let doy: int = doe - (365 * yoe + yoe / 4 - yoe / 100);
            &&& 0 <= yoe < 400
            &&& 0 <= doy <= 365
            &&& (doy == 365 ==> ((yoe + 1) % 4 == 0 && ((yoe + 1) % 100 != 0 || (yoe + 1) % 400
                == 0)))
        }),
{
    assert({
        let yoe: int = (doe - doe / 1460 + doe / 36_524 - doe / 146_096) / 365;
        let doy: int = doe - (365 * yoe + yoe / 4 - yoe / 100);
        &&& 0 <= yoe < 400
        &&& 0 <= doy <= 365
        &&& (doy == 365 ==> ((yoe + 1) % 4 == 0 && ((yoe + 1) % 100 != 0 || (yoe + 1) % 400
            == 0)))
    }) by (bit_vector)
        requires
            doe < 146_097,
    ;
}

/// The month and day of a day of a March-based year.
proof fn lemma_year_day(doy: u32)
    requires
        doy <= 365,
    ensures
        ({
            let mp: int = (5 * doy + 2) / 153;
            let d: int = doy - (153 * mp + 2) / 5 + 1;
            &&& 0 <= mp < 12
            &&& 1 <= d
            &&& d <= march_month_max(mp)
            &&& (mp == 11 && d == 29 ==> doy == 365)
        }),
{
    assert({
        let mp: int = (5 * doy + 2) / 153;
        let d: int = doy - (153 * mp + 2) / 5 + 1;
        &&& 0 <= mp < 12
        &&& 1 <= d
        &&& (mp == 11 ==> d <= 29)
        &&& ((mp == 1 || mp == 3 || mp == 6 || mp == 8) ==> d <= 30)
        &&& d <= 31
        &&& (mp == 11 && d == 29 ==> doy == 365)
    }) by (bit_vector)
        requires
            doy <= 365,
    ;
}

/// Convert days-since-unix-epoch to a proleptic Gregorian `(year, month, day)`.
pub fn days_to_date(z: i64) -> (r: (i64, u8, u8))
    requires
        day_count_fits(z as int),
    ensures
        is_valid_date(r.0 as int, r.1 as int, r.2 as int),
        civil_days(r.0 as int, r.1 as int, r.2 as int) == z,
{
    let z: i64 = z + 719_468;
    let era: i64 = match z.checked_div_euclid(146_097) {
        Some(q) => q,
        None => 0,
    };
    let doe: i64 = match z.checked_rem_euclid(146_097) {
        Some(r) => r,
        None => 0,
    };
    proof {
        vstd::arithmetic::div_mod::lemma_fundamental_div_mod(z as int, 146_097);
        vstd::arithmetic::div_mod::lemma_mod_bound(z as int, 146_097);
        lemma_era_day(doe as u32);
    }
    let yoe: i64 = (doe - doe / 1460 + doe / 36_524 - doe / 146_096) / 365;
    let y: i64 = yoe + era * 400;
    let doy: i64 = doe - (365 * yoe + yoe / 4 - yoe / 100);
    proof {
        lemma_year_day(doy as u32);
    }
    let mp: i64 = (5 * doy + 2) / 153;
    let d: u8 = (doy - (153 * mp + 2) / 5 + 1) as u8;
    let m: u8 = if mp < 10 {
        mp + 3
    } else {
        mp - 9
    } as u8;
    let year: i64 = if m <= 2 {
        y + 1
    } else {
        y
    };
    proof {
        lemma_era_div(era as int, yoe as int);
        lemma_era_div(era as int, yoe + 1);
        lemma_march_form(year as int, m as int, d as int);
    }
    (year, m, d)
}

/// Convert a proleptic Gregorian `(year, month, day)` to days-since-unix-epoch.
///
/// Returns `None` if the date is invalid (out-of-range month, or day exceeding
/// the Gregorian month length including the leap-year rule for February).
pub fn date_to_days(y: i64, m: u8, d: u8) -> (r: Option<i64>)
    requires
        is_valid_date(y as int, m as int, d as int) ==> day_count_fits(
            civil_days(y as int, m as int, d as int),
        ),
    ensures
        match r {
            Some(days) => is_valid_date(y as int, m as int, d as int) && days == civil_days(
                y as int,
                m as int,
                d as int,
            ),
            None => !is_valid_date(y as int, m as int, d as int),
        },
{
    if !(1 <= m && m <= 12) || d == 0 || (d as u32) > days_in_month(y, m as u32) {
        return None;
    }
    let yy: i64 = if m <= 2 {
        y - 1
    } else {
        y
    };
    let era: i64 = match yy.checked_div_euclid(400) {
        Some(q) => q,
        None => 0,
    };
    let yoe: i64 = match yy.checked_rem_euclid(400) {
        Some(r) => r,
        None => 0,
    };
    proof {
        vstd::arithmetic::div_mod::lemma_fundamental_div_mod(yy as int, 400);
        vstd::arithmetic::div_mod::lemma_mod_bound(yy as int, 400);
        lemma_era_div(era as int, yoe as int);
        lemma_march_form(y as int, m as int, d as int);
    }
    let mp: i64 = if m > 2 {
        (m - 3) as i64
    } else {
        (m + 9) as i64
    };
    let doy: i64 = (153 * mp + 2) / 5 + d as i64 - 1;
    let doe: i64 = yoe * 365 + yoe / 4 - yoe / 100 + doy;
    Some(era * 146_097 + doe - 719_468)
}

/// The day of a valid date within its year.
proof fn lemma_day_of_year(y: int, m: int, d: int)
    requires
        is_valid_date(y, m, d),
    ensures
        0 <= days_before_month(y, m) + d - 1 < 365 + (if is_leap(y) { 1int } else { 0int }),
{
}

/// Two valid dates of one year in order have their days in that order.
proof fn lemma_day_of_year_order(y: int, m1: int, d1: int, m2: int, d2: int)
    requires
        is_valid_date(y, m1, d1),
        is_valid_date(y, m2, d2),
        m1 < m2 || (m1 == m2 && d1 < d2),
    ensures
        days_before_month(y, m1) + d1 < days_before_month(y, m2) + d2,
{
}

/// The first day of a later year comes after every day of an earlier one.
proof fn lemma_days_before_year_grows(y1: int, y2: int)
    requires
        y1 < y2,
    ensures
        days_before_year(y1) + 365 + (if is_leap(y1) { 1int } else { 0int }) <= days_before_year(
            y2,
        ),
    decreases y2 - y1,
{
    lemma_days_before_year_step(y1);
    lemma_days_before_year_step(y2 - 1);
    if y1 + 1 < y2 {
        lemma_days_before_year_grows(y1 + 1, y2);
        lemma_days_before_year_step(y1 + 1);
    }
}

/// The calendar conversions undo each other: a day count that
/// [`days_to_date`] accepts has a valid date whose day count it is, and a
/// valid date is the date of its own day count.
pub proof fn lemma_calendar_round_trip(day: int, y: int, m: int, d: int)
    ensures
        day_count_fits(day) ==> is_valid_date(date_of_day(day).0, date_of_day(day).1, date_of_day(day).2)
            && civil_days(date_of_day(day).0, date_of_day(day).1, date_of_day(day).2) == day,
        is_valid_date(y, m, d) ==> date_of_day(civil_days(y, m, d)) == (y, m, d),
{
    if day_count_fits(day) {
        let (y1, m1, d1) = date_of_day_witness(day);
        lemma_date_of_day(day, y1, m1, d1);
    }
    if is_valid_date(y, m, d) {
        lemma_date_of_day(civil_days(y, m, d), y, m, d);
    }
}

/// Distinct valid dates have distinct day counts, so the date that
/// [`days_to_date`] returns is the only one with its day count, and
/// [`date_to_days`] maps it back to the day it came from.
pub proof fn lemma_civil_days_injective(y1: int, m1: int, d1: int, y2: int, m2: int, d2: int)
    requires
        is_valid_date(y1, m1, d1),
        is_valid_date(y2, m2, d2),
        civil_days(y1, m1, d1) == civil_days(y2, m2, d2),
    ensures
        y1 == y2 && m1 == m2 && d1 == d2,
{
    lemma_day_of_year(y1, m1, d1);
    lemma_day_of_year(y2, m2, d2);
    if y1 < y2 {
        lemma_days_before_year_grows(y1, y2);
    } else if y2 < y1 {
        lemma_days_before_year_grows(y2, y1);
    } else if m1 < m2 || (m1 == m2 && d1 < d2) {
        lemma_day_of_year_order(y1, m1, d1, m2, d2);
    } else if m2 < m1 || (m1 == m2 && d2 < d1) {
        lemma_day_of_year_order(y1, m2, d2, m1, d1);
    }
}

} // verus!
