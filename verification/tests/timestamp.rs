use chrono::{Datelike, Local, TimeZone};
use oom_tui::timestamp::{
    boot_time_from_stat, resolve, resolve_all, syslog_instant, syslog_year_rollover, with_year, CalendarTime,
};
use oom_tui::model::OomEvent;

/// A local time, in milliseconds since the epoch, and its year.
fn at(y: i32, m: u32, d: u32, h: u32, mi: u32) -> (i64, i32) {
    (Local.with_ymd_and_hms(y, m, d, h, mi, 0).unwrap().timestamp_millis(), y)
}

fn local(ms: i64) -> chrono::DateTime<Local> {
    Local.timestamp_millis_opt(ms).unwrap()
}

#[test]
fn uptime_is_anchored_to_boot_time() {
    let (boot, _) = at(2026, 7, 18, 9, 0);
    let (now, year) = at(2026, 7, 18, 10, 0);
    let resolved = resolve("+120.5s", Some(boot), now, year).unwrap();
    assert_eq!(resolved, boot + 120_500);
}

#[test]
fn uptime_is_left_unresolved_without_a_trustworthy_boot_time() {
    // A log from another machine must not be dated against our own boot.
    let (now, year) = at(2026, 7, 18, 10, 0);
    assert!(resolve("+120.5s", None, now, year).is_none());
}

#[test]
fn dmesg_human_format_is_parsed() {
    let (now, year) = at(2026, 7, 18, 10, 0);
    let resolved = local(resolve("Sat Jul 18 09:03:34 2026", None, now, year).unwrap());
    assert_eq!(resolved.year(), 2026);
    assert_eq!(resolved.month(), 7);
    assert_eq!(resolved.day(), 18);
}

#[test]
fn syslog_without_a_year_assumes_the_current_one() {
    let (now, year) = at(2026, 7, 18, 10, 0);
    let resolved = local(resolve("Mar 24 18:41:04", None, now, year).unwrap());
    assert_eq!(resolved.year(), 2026);
    assert_eq!(resolved.month(), 3);
}

#[test]
fn a_future_syslog_date_is_treated_as_last_year() {
    // Reading a December log on New Year's Day.
    let (now, year) = at(2026, 1, 2, 10, 0);
    let resolved = local(resolve("Dec 24 18:41:04", None, now, year).unwrap());
    assert_eq!(resolved.year(), 2025);
    assert_eq!(resolved.month(), 12);
}

#[test]
fn unrecognised_text_is_not_invented_into_a_date() {
    let (now, year) = at(2026, 7, 18, 10, 0);
    assert!(resolve("not a timestamp", None, now, year).is_none());
}

#[test]
fn uptime_offsets_are_whole_milliseconds() {
    assert_eq!(resolve("+0.0015s", Some(1_000), 0, 2026), Some(1_001));
    assert_eq!(resolve("+767.925606s", Some(0), 0, 2026), Some(767_925));
    assert_eq!(resolve("+12s", Some(0), 0, 2026), Some(12_000));
    assert_eq!(resolve("+12.s", Some(0), 0, 2026), Some(12_000));
    assert!(resolve("+s", Some(0), 0, 2026).is_none());
    assert!(resolve("+1x.5s", Some(0), 0, 2026).is_none());
    assert!(resolve("+99999999999999999999s", Some(0), 0, 2026).is_none());
}

#[test]
fn the_rollover_allows_one_day_of_clock_skew() {
    assert!(!syslog_year_rollover(86_400_000, 0));
    assert!(syslog_year_rollover(86_400_001, 0));
    assert!(!syslog_year_rollover(i64::MAX, i64::MAX - 5));
}

#[test]
fn resolving_all_events_only_fills_in_their_times() {
    let mut events = vec![
        OomEvent { timestamp: Some("+1.5s".to_string()), victim_pid: 1, ..Default::default() },
        OomEvent { timestamp: None, victim_pid: 2, ..Default::default() },
        OomEvent { timestamp: Some("garbage".to_string()), victim_pid: 3, ..Default::default() },
    ];
    resolve_all(&mut events, Some(10_000), 0, 2026);
    assert_eq!(events[0].occurred_at, Some(11_500));
    assert_eq!(events[1].occurred_at, None);
    assert_eq!(events[2].occurred_at, None);
    assert_eq!(events[2].victim_pid, 3);
}

#[test]
fn boot_time_comes_from_the_btime_line() {
    let stat = "cpu  1 2 3\nintr 5\nbtime 1752829200\nprocesses 9\n";
    assert_eq!(boot_time_from_stat(stat), Some(1_752_829_200_000));
    assert_eq!(boot_time_from_stat("cpu 1\n"), None);
    assert_eq!(boot_time_from_stat("btime soon\n"), None);
}

#[test]
fn a_syslog_date_more_than_a_day_ahead_takes_last_years_instant() {
    let day = 86_400_000;
    assert_eq!(syslog_instant(5 * day, Some(-360 * day), 0), Some(-360 * day));
    assert_eq!(syslog_instant(day, Some(-364 * day), 0), Some(day));
    assert_eq!(syslog_instant(day + 1, None, 0), None);
    assert_eq!(syslog_instant(-3 * day, None, 0), Some(-3 * day));
}

#[test]
fn a_date_moved_to_another_year_must_exist_there() {
    let leap = CalendarTime { year: 2024, month: 2, day: 29, hour: 1, minute: 2, second: 3, nanosecond: 0 };
    assert_eq!(with_year(leap, 2023), None);
    assert_eq!(with_year(leap, 2028), Some(CalendarTime { year: 2028, ..leap }));
    let dec = CalendarTime { month: 12, day: 24, ..leap };
    assert_eq!(with_year(dec, 2025), Some(CalendarTime { year: 2025, ..dec }));
    assert_eq!(with_year(dec, 300_000), None);
}

/// The day count the library's contracts state for chrono's dates, written
/// out in plain arithmetic (floor division, as in the specification).
fn days_from_civil(year: i64, month: i64, day: i64) -> i64 {
    let y = if month <= 2 { year - 1 } else { year };
    let era = y.div_euclid(400);
    let yoe = y - era * 400;
    let mp = if month > 2 { month - 3 } else { month + 9 };
    let doy = (153 * mp + 2) / 5 + day - 1;
    let doe = yoe * 365 + yoe / 4 - yoe / 100 + doy;
    era * 146_097 + doe - 719_468
}

#[test]
fn the_stated_day_count_is_chronos() {
    for year in (-2000..=3000).step_by(7).chain([1969, 1970, 2000, 2024, 2100, 262_142, -262_143]) {
        for month in 1..=12u32 {
            for day in [1u32, 15, 28, 29, 30, 31] {
                if let Some(date) = chrono::NaiveDate::from_ymd_opt(year, month, day) {
                    let at = date.and_hms_milli_opt(13, 14, 15, 678).unwrap();
                    let stated = (days_from_civil(year as i64, month as i64, day as i64) * 86_400
                        + 13 * 3600 + 14 * 60 + 15) * 1000 + 678;
                    assert_eq!(at.and_utc().timestamp_millis(), stated, "{year}-{month}-{day}");
                }
            }
        }
    }
}

#[test]
fn uptime_seconds_are_read_in_every_spelling_of_a_decimal_float() {
    let boot = 1_000_000_000;
    let now = 2_000_000_000;
    let at = |raw: &str| resolve(raw, Some(boot), now, 2026);
    assert_eq!(at("+1e3s"), Some(boot + 1_000_000));
    assert_eq!(at("++5s"), Some(boot + 5_000));
    assert_eq!(at("+-1s"), Some(boot - 1_000));
    assert_eq!(at("+1.5E-1s"), Some(boot + 150));
    assert_eq!(at("+.5s"), Some(boot + 500));
    assert_eq!(at("+5.s"), Some(boot + 5_000));
    assert_eq!(at("+1.001s"), Some(boot + 1_001));
    assert_eq!(at("+0.0009s"), Some(boot));
    assert_eq!(at("+-0.0009s"), Some(boot));
    assert_eq!(at("+0e99999999999999999999999s"), Some(boot));
    assert_eq!(at("+7e-99999999999999999999999s"), Some(boot));
    assert_eq!(at("+1e400s"), None);
    assert_eq!(at("+.s"), None);
    assert_eq!(at("+1e+s"), None);
    assert_eq!(at("+infs"), None);
}
