//! Turn the log's assorted timestamp spellings into real wall-clock times.
//!
//! Kernel logs carry three different formats, none directly comparable:
//!
//!   `+767.925606s`              seconds since boot (raw dmesg)
//!   `Sat Jul 18 09:03:34 2026`  wall clock (`dmesg -T`)
//!   `Mar 24 18:41:04`           wall clock, no year (syslog / journalctl)
//!
//! Resolving them matters because "was this five minutes ago or three months
//! ago" is the first question anyone asks during an incident.
//!
//! Times are milliseconds since the Unix epoch. Reading a calendar date is
//! chrono's work, and so is placing it in the local time zone.

use vstd::prelude::*;
use chrono::{Datelike, TimeZone, Timelike};
use crate::container::opt_view;
use crate::model::{events_view, EventView, OomEvent};
use crate::system::find_line_prefix;
use crate::text::{
    all_ascii_digits, chars_of, decimal_int, digits_value, line_bounds, lines, parse_i64,
    parse_i64_spec, push_decimal_signed, trim, trim_bounds,
};

verus! {

/// A local calendar date and time, as chrono reads one: the proleptic
/// Gregorian year, month (1-12), day, hour, minute, second, and nanosecond
/// (at or above one billion during a leap second).
#[derive(Debug, Clone, Copy, PartialEq, Eq, Structural)]
pub struct CalendarTime {
    pub year: i32,
    pub month: u32,
    pub day: u32,
    pub hour: u32,
    pub minute: u32,
    pub second: u32,
    pub nanosecond: u32,
}

/// The date and time chrono reads from `text` in the strftime `format`, if it
/// reads one.
pub uninterp spec fn chrono_parse(text: Seq<char>, format: Seq<char>) -> Option<CalendarTime>;

/// `chrono::NaiveDateTime::parse_from_str`, with the result's fields taken
/// out: what it reads depends on the two strings alone.
#[verifier::external_body]
fn parse_calendar(text: &str, format: &str) -> (r: Option<CalendarTime>)
    ensures
        r == chrono_parse(text@, format@),
{
    match chrono::NaiveDateTime::parse_from_str(text, format) {
        Ok(d) => Some(CalendarTime {
            year: d.year(),
            month: d.month(),
            day: d.day(),
            hour: d.hour(),
            minute: d.minute(),
            second: d.second(),
            nanosecond: d.nanosecond(),
        }),
        Err(_) => None,
    }
}

/// Days from 1970-01-01 to a date of the proleptic Gregorian calendar.
pub open spec fn days_from_civil(year: int, month: int, day: int) -> int {
    let y = if month <= 2 {
        year - 1
    } else {
        year
    };
    let era = y / 400;
    let yoe = y - era * 400;
    let mp = if month > 2 {
        month - 3
    } else {
        month + 9
    };
    let doy = (153 * mp + 2) / 5 + day - 1;
    let doe = yoe * 365 + yoe / 4 - yoe / 100 + doy;
    era * 146097 + doe - 719468
}

/// The milliseconds since the epoch that a calendar time denotes read as UTC
/// (chrono's `and_utc().timestamp_millis()`).
pub open spec fn utc_millis(t: CalendarTime) -> int {
    (days_from_civil(t.year as int, t.month as int, t.day as int) * 86_400 + t.hour * 3600 + t.minute * 60
        + t.second) * 1000 + t.nanosecond / 1_000_000
}

/// `chrono::Local.from_local_datetime(..).single()` on a calendar time,
/// giving the instant (milliseconds since the epoch) and the local offset
/// (seconds east of UTC) in force. Whether the local time exists, and once
/// only, and the offset, depend on the machine's time zone, so they are left
/// unsaid. chrono keeps every offset within a day, and its instant is the
/// local time less the offset.
#[verifier::external_body]
fn local_instant(t: CalendarTime) -> (r: Option<(i64, i32)>)
    ensures
        r matches Some((ms, offset)) ==> -86_400 < offset < 86_400 && ms == utc_millis(t) - offset * 1000,
{
    let date = chrono::NaiveDate::from_ymd_opt(t.year, t.month, t.day)?;
    let at = date.and_hms_nano_opt(t.hour, t.minute, t.second, t.nanosecond)?;
    let local = chrono::Local.from_local_datetime(&at).single()?;
    Some((local.timestamp_millis(), local.offset().local_minus_utc()))
}

/// The years chrono's dates span.
pub open spec fn min_year() -> int {
    -262_143
}

pub open spec fn max_year() -> int {
    262_142
}

pub open spec fn is_leap_year(y: int) -> bool {
    y % 4 == 0 && (y % 100 != 0 || y % 400 == 0)
}

pub open spec fn days_in_month(y: int, m: int) -> int {
    if m == 2 {
        if is_leap_year(y) {
            29
        } else {
            28
        }
    } else if m == 4 || m == 6 || m == 9 || m == 11 {
        30
    } else {
        31
    }
}

/// `chrono::Datelike::with_year` on a date and time: the same month, day
/// and time in `year`, or `None` where that date does not exist (29 February
/// outside a leap year) or the year is beyond chrono's range.
pub open spec fn with_year_spec(t: CalendarTime, year: int) -> Option<CalendarTime> {
    if min_year() <= year <= max_year() && 1 <= t.month <= 12 && 1 <= t.day <= days_in_month(
        year,
        t.month as int,
    ) {
        Some(CalendarTime { year: year as i32, ..t })
    } else {
        None
    }
}

pub fn with_year(t: CalendarTime, year: i32) -> (r: Option<CalendarTime>)
    ensures
        r == with_year_spec(t, year as int),
{
    if year < -262_143 || year > 262_142 || t.month < 1 || t.month > 12 || t.day < 1 {
        return None;
    }
    let leap = year % 4 == 0 && (year % 100 != 0 || year % 400 == 0);
    let days: u32 = if t.month == 2 {
        if leap {
            29
        } else {
            28
        }
    } else if t.month == 4 || t.month == 6 || t.month == 9 || t.month == 11 {
        30
    } else {
        31
    };
    if t.day > days {
        return None;
    }
    Some(CalendarTime { year, ..t })
}

/// One day, in milliseconds.
pub const DAY_MS: i64 = 86_400_000;

/// The seconds of an uptime stamp (`+<seconds>s`).
pub open spec fn uptime_text(raw: Seq<char>) -> Option<Seq<char>> {
    if raw.len() >= 2 && raw[0] == '+' && raw.last() == 's' {
        Some(raw.subrange(1, raw.len() - 1))
    } else {
        None
    }
}

/// The index of the first `.` in `s`, or its length.
pub open spec fn dot_index(s: Seq<char>) -> int {
    crate::text::next_index_of(s, 0, '.')
}

/// The index of the first `e` or `E` at or after `i`, or the length.
pub open spec fn exp_index(s: Seq<char>, i: int) -> int
    decreases s.len() - i,
{
    if i < 0 || i >= s.len() {
        s.len() as int
    } else if s[i] == 'e' || s[i] == 'E' {
        i
    } else {
        exp_index(s, i + 1)
    }
}

/// 1 when `s` begins with a sign, else 0.
pub open spec fn sign_len(s: Seq<char>) -> int {
    if s.len() > 0 && (s[0] == '+' || s[0] == '-') {
        1
    } else {
        0
    }
}

/// An exponent: an optional sign, then at least one digit.
pub open spec fn exponent_value(x: Seq<char>) -> Option<int> {
    let d = x.skip(sign_len(x));
    if d.len() > 0 && all_ascii_digits(d) {
        Some(
            if sign_len(x) == 1 && x[0] == '-' {
                -digits_value(d)
            } else {
                digits_value(d) as int
            },
        )
    } else {
        None
    }
}

pub open spec fn pow10(n: nat) -> nat
    decreases n,
{
    if n == 0 {
        1
    } else {
        10 * pow10((n - 1) as nat)
    }
}

/// `value` times ten to the power `k`, cut toward zero when `k` is negative.
pub open spec fn scaled(value: nat, k: int) -> nat {
    if k >= 0 {
        value * pow10(k as nat)
    } else {
        value / pow10((-k) as nat)
    }
}

/// The parts of a number written as Rust reads a decimal float: whether it is
/// negative (an optional sign), its digits (at least one, with an optional
/// point among them), how many follow the point, and its exponent (an
/// optional `e` or `E`, an optional sign and at least one digit).
pub open spec fn seconds_parts(s: Seq<char>) -> Option<(bool, Seq<char>, nat, int)> {
    let n = sign_len(s);
    let e = exp_index(s, n);
    let mant = s.subrange(n, e);
    let d = dot_index(mant);
    let whole = mant.take(d);
    let frac = if d < mant.len() {
        mant.skip(d + 1)
    } else {
        Seq::empty()
    };
    let exp = if e < s.len() {
        exponent_value(s.skip(e + 1))
    } else {
        Some(0int)
    };
    if all_ascii_digits(whole) && all_ascii_digits(frac) && whole.len() + frac.len() > 0 && exp is Some {
        Some((n == 1 && s[0] == '-', whole + frac, frac.len(), exp->0))
    } else {
        None
    }
}

/// A number of seconds written as Rust reads a decimal float, in
/// milliseconds, cut toward zero, computed exactly.
pub open spec fn seconds_millis(s: Seq<char>) -> Option<int> {
    match seconds_parts(s) {
        Some((negative, digits, f, x)) => {
            let m = scaled(digits_value(digits), x - f + 3) as int;
            Some(
                if negative {
                    -m
                } else {
                    m
                },
            )
        },
        None => None,
    }
}

/// An uptime stamp anchored to the boot time: boot plus the offset, when both
/// are known and the offset (at most `i64::MAX` milliseconds either way, as a
/// chrono `TimeDelta` holds) and the sum are representable in milliseconds.
pub open spec fn anchor_uptime(seconds: Seq<char>, boot_ms: Option<i64>) -> Option<i64> {
    match (seconds_millis(seconds), boot_ms) {
        (Some(ms), Some(b)) => if -(i64::MAX as int) <= ms <= i64::MAX && i64::MIN <= b + ms <= i64::MAX {
            Some((b + ms) as i64)
        } else {
            None
        },
        _ => None,
    }
}

/// The calendar formats tried, in order: `dmesg -T` (which carries a year),
/// then syslog (which does not, so the year is supplied).
pub open spec fn dmesg_format(k: int) -> Seq<char> {
    if k == 0 {
        "%a %b %e %H:%M:%S %Y"@
    } else {
        "%a %b %d %H:%M:%S %Y"@
    }
}

pub open spec fn syslog_format(k: int) -> Seq<char> {
    if k == 0 {
        "%b %e %H:%M:%S %Y"@
    } else {
        "%b %d %H:%M:%S %Y"@
    }
}

/// A syslog stamp with the year appended.
pub open spec fn with_year_text(raw: Seq<char>, year: i32) -> Seq<char> {
    raw + " "@ + decimal_int(year as int)
}

/// The date a `dmesg -T` stamp spells, in the first format that reads it.
pub open spec fn dmesg_date(raw: Seq<char>) -> Option<CalendarTime> {
    if chrono_parse(raw, dmesg_format(0)) is Some {
        chrono_parse(raw, dmesg_format(0))
    } else {
        chrono_parse(raw, dmesg_format(1))
    }
}

/// The date a syslog stamp spells with `year` appended, in the first format
/// that reads it.
pub open spec fn syslog_date(raw: Seq<char>, year: i32) -> Option<CalendarTime> {
    let text = with_year_text(raw, year);
    if chrono_parse(text, syslog_format(0)) is Some {
        chrono_parse(text, syslog_format(0))
    } else {
        chrono_parse(text, syslog_format(1))
    }
}

/// `o` is an outcome of placing the calendar time `t` in some time zone: no
/// instant, or `t` read as UTC less a whole number of seconds under a day.
pub open spec fn local_reading(t: CalendarTime, o: Option<i64>) -> bool {
    o matches Some(ms) ==> (utc_millis(t) - ms) % 1000 == 0 && -86_400_000 < utc_millis(t) - ms < 86_400_000
}

/// `o` is an outcome of placing the date `t` in the year before `year`.
pub open spec fn previous_year_reading(t: CalendarTime, year: i32, o: Option<i64>) -> bool {
    if year == i32::MIN {
        o is None
    } else {
        match with_year_spec(t, year - 1) {
            Some(earlier) => local_reading(earlier, o),
            None => o is None,
        }
    }
}

/// What `resolve` gives for `raw`, the local time zone's readings aside: an
/// uptime stamp is exactly its anchor; a `dmesg -T` date is its instant in the
/// local zone; a syslog date in the current year is its instant, or, more than
/// a day ahead of now, the same date's instant a year earlier
/// (`syslog_instant_spec`); any other text is left unresolved.
pub open spec fn resolve_outcome(
    raw: Seq<char>,
    boot_ms: Option<i64>,
    now_ms: i64,
    now_year: i32,
    r: Option<i64>,
) -> bool {
    match uptime_text(raw) {
        Some(seconds) => r == anchor_uptime(seconds, boot_ms),
        None => match dmesg_date(raw) {
            Some(d) => local_reading(d, r),
            None => match syslog_date(raw, now_year) {
                Some(d) => exists|c: Option<i64>, p: Option<i64>|
                    #![trigger local_reading(d, c), previous_year_reading(d, now_year, p)]
                    local_reading(d, c) && previous_year_reading(d, now_year, p) && r == match c {
                        Some(cm) => syslog_instant_spec(cm, p, now_ms),
                        None => None,
                    },
                None => r is None,
            },
        },
    }
}

/// A syslog date that lands more than a day after now really belongs to the
/// previous year - the classic New Year's Eve log-reading bug.
pub fn syslog_year_rollover(candidate_ms: i64, now_ms: i64) -> (r: bool)
    ensures
        r == (candidate_ms > now_ms + DAY_MS),
{
    if now_ms > i64::MAX - DAY_MS {
        false
    } else {
        candidate_ms > now_ms + DAY_MS
    }
}

/// The instant of a syslog stamp: the date in the current year
/// (`candidate_ms`), unless that lies more than a day after now, in which
/// case the same date a year earlier (`previous_year_ms`, `None` where that
/// date does not exist or has no single local time).
pub open spec fn syslog_instant_spec(candidate_ms: i64, previous_year_ms: Option<i64>, now_ms: i64) -> Option<i64> {
    if candidate_ms > now_ms + DAY_MS {
        previous_year_ms
    } else {
        Some(candidate_ms)
    }
}

pub fn syslog_instant(candidate_ms: i64, previous_year_ms: Option<i64>, now_ms: i64) -> (r: Option<i64>)
    ensures
        r == syslog_instant_spec(candidate_ms, previous_year_ms, now_ms),
{
    if syslog_year_rollover(candidate_ms, now_ms) {
        previous_year_ms
    } else {
        Some(candidate_ms)
    }
}

/// Whether `s[a..b]` is all ASCII digits.
fn all_digits_in(s: &Vec<char>, a: usize, b: usize) -> (r: bool)
    requires
        a <= b <= s.len(),
    ensures
        r == all_ascii_digits(s@.subrange(a as int, b as int)),
{
    let mut i = a;
    while i < b
        invariant
            a <= i <= b <= s.len(),
            forall|k: int| a <= k < i ==> crate::text::is_ascii_digit(#[trigger] s@[k]),
        decreases b - i,
    {
        if !('0' <= s[i] && s[i] <= '9') {
            assert(!crate::text::is_ascii_digit(s@.subrange(a as int, b as int)[i - a]));
            return false;
        }
        i = i + 1;
    }
    assert forall|k: int| 0 <= k < b - a implies crate::text::is_ascii_digit(
        #[trigger] s@.subrange(a as int, b as int)[k],
    ) by {
        assert(s@.subrange(a as int, b as int)[k] == s@[a + k]);
    }
    true
}

proof fn lemma_pow10_grows(a: nat, b: nat)
    requires
        a <= b,
    ensures
        1 <= pow10(a) <= pow10(b),
    decreases b,
{
    if b > a {
        lemma_pow10_grows(a, (b - 1) as nat);
    } else if a > 0 {
        lemma_pow10_grows(0, (a - 1) as nat);
    }
}

proof fn lemma_digits_below(s: Seq<char>)
    requires
        all_ascii_digits(s),
    ensures
        digits_value(s) < pow10(s.len()),
    decreases s.len(),
{
    if s.len() > 0 {
        let d = s.drop_last();
        assert(all_ascii_digits(d)) by {
            assert forall|i: int| 0 <= i < d.len() implies crate::text::is_ascii_digit(#[trigger] d[i]) by {
                assert(d[i] == s[i]);
            }
        }
        lemma_digits_below(d);
        assert(crate::text::is_ascii_digit(s[s.len() - 1]));
        let x = digits_value(d);
        let c = crate::text::digit_value(s.last());
        let p = pow10(d.len());
        assert(c < 10);
        assert(x * 10 + c < 10 * p) by (nonlinear_arith)
            requires
                x < p,
                c < 10,
        ;
    }
}

/// Dropping the last `m` digits divides the value by ten `m` times.
proof fn lemma_digits_prefix(s: Seq<char>, m: nat)
    requires
        all_ascii_digits(s),
        m <= s.len(),
    ensures
        digits_value(s.take(s.len() - m)) == digits_value(s) / pow10(m),
    decreases m,
{
    if m == 0 {
        assert(s.take(s.len() as int) =~= s);
    } else {
        lemma_digits_prefix(s, (m - 1) as nat);
        let t = s.take(s.len() - m + 1);
        assert(t.drop_last() =~= s.take(s.len() - m));
        assert(crate::text::is_ascii_digit(t.last())) by {
            assert(t.last() == s[s.len() - m]);
        }
        let q = digits_value(t.drop_last());
        let c = crate::text::digit_value(t.last());
        assert(c < 10);
        assert((q * 10 + c) / 10 == q) by (nonlinear_arith)
            requires
                c < 10,
                q >= 0,
        ;
        lemma_pow10_grows(0, (m - 1) as nat);
        vstd::arithmetic::div_mod::lemma_div_denominator(
            digits_value(s) as int,
            pow10((m - 1) as nat) as int,
            10,
        );
        assert(pow10(m) == 10 * pow10((m - 1) as nat));
        assert((pow10((m - 1) as nat) as int) * 10 == pow10(m) as int);
    }
}

/// The parts of the number written in `t` (see `seconds_parts`): its sign,
/// its digits, how many follow the point, and its exponent's sign and value
/// (`None` for a value beyond `u64::MAX`, whose digits then take at least
/// twenty characters of `t`).
#[verifier::rlimit(50)]
fn seconds_parts_exec(t: &Vec<char>) -> (r: Option<(bool, Vec<char>, usize, bool, Option<u64>)>)
    ensures
        match seconds_parts(t@) {
            None => r is None,
            Some((negative, digits, f, x)) => r matches Some((neg2, dg, fl, xneg, xv)) && neg2 == negative
                && dg@ == digits && fl == f && match xv {
                Some(v) => x == (if xneg {
                    -(v as int)
                } else {
                    v as int
                }),
                None => (if xneg {
                    x < -(u64::MAX as int)
                } else {
                    x > u64::MAX
                }) && dg@.len() + 21 <= t@.len(),
            },
        },
{
    let ghost ts = t@;
    let len = t.len();
    let n: usize = if len > 0 && (t[0] == '+' || t[0] == '-') {
        1
    } else {
        0
    };
    let negative = n == 1 && t[0] == '-';
    let mut e = n;
    while e < len && t[e] != 'e' && t[e] != 'E'
        invariant
            n <= e <= len == t.len(),
            ts == t@,
            exp_index(ts, e as int) == exp_index(ts, n as int),
        decreases len - e,
    {
        e = e + 1;
    }
    let ghost mant = ts.subrange(n as int, e as int);
    let mut d = n;
    while d < e && t[d] != '.'
        invariant
            n <= d <= e <= len == t.len(),
            ts == t@,
            mant == ts.subrange(n as int, e as int),
            crate::text::next_index_of(mant, (d - n) as int, '.') == crate::text::next_index_of(mant, 0, '.'),
        decreases e - d,
    {
        assert(mant[d - n] == ts[d as int]);
        d = d + 1;
    }
    if d < e {
        assert(mant[d - n] == ts[d as int]);
    }
    let fstart = if d < e {
        d + 1
    } else {
        e
    };
    proof {
        assert(mant.take(d - n) =~= ts.subrange(n as int, d as int));
        if d < e {
            assert(mant.skip(d - n + 1) =~= ts.subrange(fstart as int, e as int));
        } else {
            assert(ts.subrange(fstart as int, e as int) =~= Seq::<char>::empty());
        }
    }
    if !all_digits_in(t, n, d) || !all_digits_in(t, fstart, e) || (d == n && fstart == e) {
        return None;
    }
    let mut xneg = false;
    let mut xv: Option<u64> = Some(0);
    if e < len {
        let xs = e + 1;
        let xn: usize = if xs < len && (t[xs] == '+' || t[xs] == '-') {
            1
        } else {
            0
        };
        let ghost x = ts.skip(xs as int);
        assert(x.skip(xn as int) =~= ts.subrange((xs + xn) as int, len as int));
        if xs + xn >= len || !all_digits_in(t, xs + xn, len) {
            return None;
        }
        xneg = xn == 1 && t[xs] == '-';
        xv = crate::text::digits_upto(t, xs + xn, len, u64::MAX);
        proof {
            let xd = ts.subrange((xs + xn) as int, len as int);
            if xv is None {
                lemma_digits_below(xd);
                assert(pow10(19) == 10_000_000_000_000_000_000nat) by {
                    reveal_with_fuel(pow10, 20);
                }
                if xd.len() <= 19 {
                    lemma_pow10_grows(xd.len(), 19);
                }
            }
        }
    }
    let mut dg = crate::text::sub_vec(t, n, d);
    let mut j = fstart;
    while j < e
        invariant
            fstart <= j <= e <= len == t.len(),
            ts == t@,
            dg@ == ts.subrange(n as int, d as int) + ts.subrange(fstart as int, j as int),
        decreases e - j,
    {
        dg.push(t[j]);
        j = j + 1;
        assert(dg@ =~= ts.subrange(n as int, d as int) + ts.subrange(fstart as int, j as int));
    }
    Some((negative, dg, e - fstart, xneg, xv))
}

/// `value` of the digits `dg` scaled by ten to the power `k` (see `scaled`),
/// when that fits in an `i64`.
fn scaled_exec(dg: &Vec<char>, k: i128) -> (r: Option<u64>)
    requires
        all_ascii_digits(dg@),
        -0x1_0000_0000_0000_0000_0000 <= k,
    ensures
        scaled(digits_value(dg@), k as int) <= i64::MAX ==> r == Some(scaled(digits_value(dg@), k as int) as u64),
        scaled(digits_value(dg@), k as int) > i64::MAX ==> r is None,
{
    let ghost value = digits_value(dg@);
    let total = dg.len();
    assert(dg@.subrange(0, total as int) =~= dg@);
    if k >= 0 {
        let v = match crate::text::digits_upto(dg, 0, total, 0x7fff_ffff_ffff_ffff) {
            Some(v) => v,
            None => {
                proof {
                    lemma_pow10_grows(0, k as nat);
                    assert(value * pow10(k as nat) >= value) by (nonlinear_arith)
                        requires
                            pow10(k as nat) >= 1,
                    ;
                }
                return None;
            },
        };
        assert(v == value);
        if v == 0 {
            assert(value * pow10(k as nat) == 0) by (nonlinear_arith)
                requires
                    value == 0,
            ;
            return Some(0);
        }
        let mut acc: u64 = v;
        let mut i: i128 = 0;
        assert(pow10(0) == 1);
        assert(v * pow10(0) == v);
        while i < k
            invariant
                0 <= i <= k,
                v > 0,
                v == value,
                value == digits_value(dg@),
                acc == v * pow10(i as nat),
                acc <= 0x7fff_ffff_ffff_ffff,
            decreases k - i,
        {
            proof {
                assert(pow10((i + 1) as nat) == 10 * pow10(i as nat));
                assert(acc * 10 == v * pow10((i + 1) as nat)) by (nonlinear_arith)
                    requires
                        pow10((i + 1) as nat) == 10 * pow10(i as nat),
                        acc == v * pow10(i as nat),
                ;
            }
            if acc > 0x7fff_ffff_ffff_ffff / 10 {
                proof {
                    lemma_pow10_grows((i + 1) as nat, k as nat);
                    assert(v * pow10(k as nat) >= v * pow10((i + 1) as nat)) by (nonlinear_arith)
                        requires
                            pow10(k as nat) >= pow10((i + 1) as nat),
                            v > 0,
                    ;
                    let big = v * pow10(k as nat);
                    assert(acc * 10 > 0x7fff_ffff_ffff_ffff);
                    assert(big > 0x7fff_ffff_ffff_ffff);
                    assert(scaled(value, k as int) == big);
                }
                return None;
            }
            acc = acc * 10;
            i = i + 1;
        }
        Some(acc)
    } else {
        let m: i128 = -k;
        if m >= total as i128 {
            proof {
                lemma_digits_below(dg@);
                lemma_pow10_grows(total as nat, m as nat);
                assert(value / pow10(m as nat) == 0) by (nonlinear_arith)
                    requires
                        0 <= value < pow10(m as nat),
                ;
            }
            Some(0)
        } else {
            let keep = total - m as usize;
            proof {
                lemma_digits_prefix(dg@, m as nat);
                assert(dg@.take(keep as int) =~= dg@.subrange(0, keep as int));
                assert(all_ascii_digits(dg@.subrange(0, keep as int))) by {
                    assert forall|i: int| 0 <= i < keep implies crate::text::is_ascii_digit(
                        #[trigger] dg@.subrange(0, keep as int)[i],
                    ) by {
                        assert(dg@.subrange(0, keep as int)[i] == dg@[i]);
                    }
                }
            }
            crate::text::digits_upto(dg, 0, keep, 0x7fff_ffff_ffff_ffff)
        }
    }
}

/// The milliseconds of a number of seconds written in `s[a..b]` (see
/// `seconds_millis`); `None` where it is not one, or the milliseconds do not
/// fit in a `TimeDelta`.
fn seconds_millis_exec(s: &Vec<char>, a: usize, b: usize) -> (r: Option<i64>)
    requires
        a <= b <= s.len(),
    ensures
        match seconds_millis(s@.subrange(a as int, b as int)) {
            Some(ms) => (-(i64::MAX as int) <= ms <= i64::MAX ==> r == Some(ms as i64)) && (!(-(i64::MAX
                as int) <= ms <= i64::MAX) ==> r is None),
            None => r is None,
        },
{
    let t = crate::text::sub_vec(s, a, b);
    let (negative, dg, flen, xneg, xv) = match seconds_parts_exec(&t) {
        Some(p) => p,
        None => return None,
    };
    let ghost value = digits_value(dg@);
    proof {
        let (_, digits, f, x) = seconds_parts(t@)->0;
        assert(all_ascii_digits(dg@)) by {
            let n = sign_len(t@);
            let e = exp_index(t@, n);
            let mant = t@.subrange(n, e);
            let d = dot_index(mant);
            let whole = mant.take(d);
            let frac = if d < mant.len() {
                mant.skip(d + 1)
            } else {
                Seq::empty()
            };
            assert(digits == whole + frac);
            assert forall|i: int| 0 <= i < digits.len() implies crate::text::is_ascii_digit(#[trigger] digits[i]) by {
                if i < whole.len() {
                    assert(digits[i] == whole[i]);
                } else {
                    assert(digits[i] == frac[i - whole.len()]);
                }
            }
        }
    }
    let ghost parts = seconds_parts(t@)->0;
    let ghost x = parts.3;
    let ghost f = parts.2;
    let ghost k = x - f + 3;
    let ghost mag = scaled(value, k);
    assert(f <= dg@.len());
    let magnitude: u64 = match xv {
        None => {
            proof {
                lemma_digits_below(dg@);
            }
            if xneg {
                proof {
                    lemma_pow10_grows(dg@.len(), (-k) as nat);
                    assert(value / pow10((-k) as nat) == 0) by (nonlinear_arith)
                        requires
                            0 <= value < pow10((-k) as nat),
                    ;
                }
                0
            } else {
                let total = dg.len();
                assert(dg@.subrange(0, total as int) =~= dg@);
                match crate::text::digits_upto(&dg, 0, total, 0) {
                    Some(_) => {
                        assert(mag == 0) by (nonlinear_arith)
                            requires
                                value == 0,
                                mag == value * pow10(k as nat),
                        ;
                        0
                    },
                    None => {
                        proof {
                            lemma_pow10_grows(19, k as nat);
                            assert(pow10(19) == 10_000_000_000_000_000_000nat) by {
                                reveal_with_fuel(pow10, 20);
                            }
                            assert(value * pow10(k as nat) >= pow10(k as nat)) by (nonlinear_arith)
                                requires
                                    value >= 1,
                            ;
                        }
                        return None;
                    },
                }
            }
        },
        Some(xv) => {
            let kk: i128 = (if xneg {
                -(xv as i128)
            } else {
                xv as i128
            }) - flen as i128 + 3;
            assert(kk == k);
            match scaled_exec(&dg, kk) {
                Some(m) => m,
                None => return None,
            }
        },
    };
    assert(magnitude == mag);
    if negative {
        Some(-(magnitude as i64))
    } else {
        Some(magnitude as i64)
    }
}

/// Anchors an uptime stamp's seconds `s[a..b]` to the boot time.
fn anchor_uptime_exec(s: &Vec<char>, a: usize, b: usize, boot_ms: Option<i64>) -> (r: Option<i64>)
    requires
        a <= b <= s.len(),
    ensures
        r == anchor_uptime(s@.subrange(a as int, b as int), boot_ms),
{
    let ms = match seconds_millis_exec(s, a, b) {
        Some(ms) => ms,
        None => return None,
    };
    match boot_ms {
        Some(boot) => {
            if (boot > 0 && ms > i64::MAX - boot) || (boot < 0 && ms < i64::MIN - boot) {
                None
            } else {
                Some(boot + ms)
            }
        },
        None => None,
    }
}

/// `raw` with the year appended (`format!("{raw} {year}")`).
fn append_year(raw: &str, year: i32) -> (r: String)
    ensures
        r@ == with_year_text(raw@, year),
{
    let mut r = String::new();
    r.append(raw);
    r.append(" ");
    push_decimal_signed(&mut r, year as i64);
    r
}

/// The wall-clock time, in milliseconds since the epoch, of a log timestamp.
///
/// An uptime stamp (`+<seconds>s`) is anchored to `boot_ms`, and left
/// unresolved without one; a `dmesg -T` stamp carries its own year; a syslog
/// stamp has none, so `now_year` is assumed, and a date that would then lie
/// more than a day after `now_ms` is taken from the year before.
///
/// The seconds of an uptime stamp are read in every spelling Rust accepts for
/// a decimal float (a sign, a point, an exponent) and turned into milliseconds
/// exactly, cut toward zero. A float would round instead (`+1.005s` gives
/// 1004 ms there, 1005 here), and would also read `inf` and `nan`, which are
/// left unresolved here; an offset beyond what a chrono `TimeDelta` holds is
/// left unresolved too.
pub fn resolve(raw: &str, boot_ms: Option<i64>, now_ms: i64, now_year: i32) -> (r: Option<i64>)
    ensures
        resolve_outcome(raw@, boot_ms, now_ms, now_year, r),
{
    let v = chars_of(raw);
    if v.len() >= 2 && v[0] == '+' && v[v.len() - 1] == 's' {
        return anchor_uptime_exec(&v, 1, v.len() - 1, boot_ms);
    }
    let dmesg = match parse_calendar(raw, "%a %b %e %H:%M:%S %Y") {
        Some(d) => Some(d),
        None => parse_calendar(raw, "%a %b %d %H:%M:%S %Y"),
    };
    if let Some(d) = dmesg {
        return match local_instant(d) {
            Some((ms, _)) => Some(ms),
            None => None,
        };
    }
    let text = append_year(raw, now_year);
    let syslog = match parse_calendar(text.as_str(), "%b %e %H:%M:%S %Y") {
        Some(d) => Some(d),
        None => parse_calendar(text.as_str(), "%b %d %H:%M:%S %Y"),
    };
    let d = match syslog {
        Some(d) => d,
        None => return None,
    };
    let candidate = match local_instant(d) {
        Some((ms, _)) => ms,
        None => {
            assert(local_reading(d, None::<i64>) && previous_year_reading(d, now_year, None::<i64>));
            return None;
        },
    };
    let previous = if now_year == i32::MIN {
        None
    } else {
        match with_year(d, now_year - 1) {
            Some(earlier) => match local_instant(earlier) {
                Some((ms, _)) => Some(ms),
                None => None,
            },
            None => None,
        }
    };
    let r = syslog_instant(candidate, previous, now_ms);
    assert(local_reading(d, Some(candidate)) && previous_year_reading(d, now_year, previous));
    r
}

/// Fill in `occurred_at` for every event that can be dated; nothing else of
/// an event changes.
///
/// `boot_ms` should be `None` whenever the log did not come from this
/// machine's current boot; uptime-based stamps are then left unresolved rather
/// than being anchored to the wrong epoch.
pub fn resolve_all(events: &mut Vec<OomEvent>, boot_ms: Option<i64>, now_ms: i64, now_year: i32)
    ensures
        final(events)@.len() == old(events)@.len(),
        forall|i: int|
            0 <= i < old(events)@.len() ==> {
                &&& (#[trigger] final(events)@[i])@ == (EventView {
                    occurred_at: final(events)@[i].occurred_at,
                    ..old(events)@[i]@
                })
                &&& match old(events)@[i].timestamp {
                    Some(raw) => resolve_outcome(raw@, boot_ms, now_ms, now_year, final(events)@[i].occurred_at),
                    None => final(events)@[i].occurred_at is None,
                }
            },
{
    let mut i: usize = 0;
    while i < events.len()
        invariant
            i <= events.len(),
            events@.len() == old(events)@.len(),
            forall|j: int|
                0 <= j < i ==> {
                    &&& (#[trigger] events@[j])@ == (EventView {
                        occurred_at: events@[j].occurred_at,
                        ..old(events)@[j]@
                    })
                    &&& match old(events)@[j].timestamp {
                        Some(raw) => resolve_outcome(raw@, boot_ms, now_ms, now_year, events@[j].occurred_at),
                        None => events@[j].occurred_at is None,
                    }
                },
            forall|j: int| i <= j < events@.len() ==> #[trigger] events@[j] == old(events)@[j],
        decreases events.len() - i,
    {
        let at = match &events[i].timestamp {
            Some(raw) => resolve(raw.as_str(), boot_ms, now_ms, now_year),
            None => None,
        };
        events[i].occurred_at = at;
        i = i + 1;
    }
}

/// The boot time, in milliseconds since the epoch, from the text of
/// `/proc/stat` (its `btime` line, in seconds).
pub open spec fn boot_time_spec(stat: Seq<char>) -> Option<i64> {
    match find_line_prefix(lines(stat), "btime "@, None) {
        Some(rest) => match parse_i64_spec(trim(rest)) {
            Some(secs) => if i64::MIN <= secs * 1000 <= i64::MAX {
                Some((secs * 1000) as i64)
            } else {
                None
            },
            None => None,
        },
        None => None,
    }
}

/// When this machine booted, read from the text of `/proc/stat`.
///
/// Only meaningful for logs produced by *this* machine. Resolving an uptime
/// stamp from a log copied off another host against the local boot time would
/// produce a confidently wrong answer, so callers must not supply it there.
pub fn boot_time_from_stat(stat: &str) -> (r: Option<i64>)
    ensures
        r == boot_time_spec(stat@),
{
    let v = chars_of(stat);
    let (a, b) = match crate::system::find_line_prefix_exec(&v, "btime ", None) {
        Some(x) => x,
        None => return None,
    };
    let (x, y) = trim_bounds(&v, a, b);
    let secs = match parse_i64(&v, x, y) {
        Some(s) => s,
        None => return None,
    };
    if secs > 9_223_372_036_854_775 || secs < -9_223_372_036_854_775 {
        return None;
    }
    Some(secs * 1000)
}


/// An uptime stamp from a log this machine did not produce (no boot time to
/// anchor it) is never given a date.
pub proof fn lemma_foreign_uptime_stays_undated(raw: Seq<char>, now_ms: i64, now_year: i32, r: Option<i64>)
    requires
        uptime_text(raw) is Some,
        resolve_outcome(raw, None, now_ms, now_year, r),
    ensures
        r is None,
{
}

} // verus!
