//! Checkpoint clock and calendar behavior, cross-checked against chrono.

use chrono::{Datelike, FixedOffset, NaiveDate, TimeZone, Timelike};
use daka_core::calendar::{civil_from_day_number, day_number, parse_date};
use daka_core::clock::{checkpoint, date_checkpoint};
use daka_core::textfmt::{dec_text, hhmm_text, two_digit_text};

fn bot_tz() -> FixedOffset {
    FixedOffset::east_opt(8 * 3600).expect("offset")
}

fn local_ts(y: i32, m: u32, d: u32, h: u32, mi: u32, s: u32) -> i64 {
    bot_tz()
        .with_ymd_and_hms(y, m, d, h, mi, s)
        .single()
        .expect("local time")
        .timestamp()
}

#[test]
fn checkpoint_boundary_at_four() {
    // exactly 04:00:00 local: the checkpoint is this very instant
    let t = local_ts(2024, 5, 1, 4, 0, 0);
    assert_eq!(checkpoint(t), t);
}

#[test]
fn checkpoint_boundary_before_four() {
    // 03:59:59 local: the checkpoint is still yesterday's 04:00
    let t = local_ts(2024, 5, 1, 3, 59, 59);
    assert_eq!(checkpoint(t), local_ts(2024, 4, 30, 4, 0, 0));
}

#[test]
fn checkpoint_idempotent_across_one_day() {
    // every instant of one attendance day maps to the same checkpoint
    let base = local_ts(2024, 5, 1, 23, 0, 0);
    let c = checkpoint(base);
    let mut t = c;
    while t < c + 86400 {
        assert_eq!(checkpoint(t), c);
        t += 3600;
    }
    assert_eq!(checkpoint(c + 86400), c + 86400);
}

#[test]
fn checkpoint_matches_chrono() {
    // the checkpoint is 04:00 local of today when the local time is past
    // 04:00, else 04:00 local of yesterday
    let mut t = local_ts(2021, 12, 30, 0, 0, 0);
    let end = local_ts(2022, 1, 3, 0, 0, 0);
    while t < end {
        let local = bot_tz().timestamp_opt(t, 0).single().expect("ts");
        let date = if local.num_seconds_from_midnight() >= 4 * 3600 {
            local.date_naive()
        } else {
            local.date_naive().pred_opt().expect("prev date")
        };
        let expected = bot_tz()
            .from_local_datetime(&date.and_hms_opt(4, 0, 0).expect("time"))
            .single()
            .expect("dt")
            .timestamp();
        assert_eq!(checkpoint(t), expected);
        t += 977;
    }
}

#[test]
fn day_numbers_match_chrono() {
    // spot-check the civil calendar in both directions against chrono over
    // several eras, leap and non-leap
    let epoch_ce = NaiveDate::from_ymd_opt(1970, 1, 1).expect("date").num_days_from_ce();
    let mut n: i64 = -300000;
    while n < 700000 {
        let date = NaiveDate::from_num_days_from_ce_opt(epoch_ce + n as i32).expect("date");
        let (y, m, d) = civil_from_day_number(n);
        assert_eq!((y, m, d), (date.year() as i64, date.month() as i64, date.day() as i64));
        assert_eq!(day_number(y, m, d), n);
        n += 7919;
    }
}

#[test]
fn day_number_of_leap_day() {
    let date = NaiveDate::from_ymd_opt(2024, 2, 29).expect("date");
    let epoch_ce = NaiveDate::from_ymd_opt(1970, 1, 1).expect("date").num_days_from_ce();
    assert_eq!(day_number(2024, 2, 29), (date.num_days_from_ce() - epoch_ce) as i64);
}

#[test]
fn date_checkpoint_is_four_am_local() {
    let c = date_checkpoint(2024, 5, 1);
    assert_eq!(c, local_ts(2024, 5, 1, 4, 0, 0));
    // a requested day's checkpoint is a fixed point of the clock
    assert_eq!(checkpoint(c), c);
}

#[test]
fn parse_date_accepts_real_days() {
    assert_eq!(parse_date("2024-05-01"), Some((2024, 5, 1)));
    assert_eq!(parse_date("2024-02-29"), Some((2024, 2, 29)));
    assert_eq!(parse_date("0000-01-01"), Some((0, 1, 1)));
    assert_eq!(parse_date("9999-12-31"), Some((9999, 12, 31)));
}

#[test]
fn parse_date_rejects_bad_input() {
    assert_eq!(parse_date("2023-02-29"), None); // not a leap year
    assert_eq!(parse_date("2024-13-01"), None);
    assert_eq!(parse_date("2024-00-10"), None);
    assert_eq!(parse_date("2024-04-31"), None);
    assert_eq!(parse_date("2024-4-1"), None); // must be zero padded
    assert_eq!(parse_date("20240401"), None);
    assert_eq!(parse_date(""), None);
    assert_eq!(parse_date("abcd-ef-gh"), None);
    assert_eq!(parse_date("2024-05-011"), None);
}

#[test]
fn decimal_rendering() {
    assert_eq!(dec_text(0), "0");
    assert_eq!(dec_text(7), "7");
    assert_eq!(dec_text(10), "10");
    assert_eq!(dec_text(40961), "40961");
    assert_eq!(two_digit_text(3), "03");
    assert_eq!(two_digit_text(59), "59");
}

#[test]
fn hhmm_renders_local_time() {
    assert_eq!(hhmm_text(local_ts(2024, 5, 1, 9, 30, 12)), "09:30");
    assert_eq!(hhmm_text(local_ts(2024, 5, 1, 0, 5, 0)), "00:05");
    assert_eq!(hhmm_text(local_ts(2024, 5, 1, 23, 59, 59)), "23:59");
}
