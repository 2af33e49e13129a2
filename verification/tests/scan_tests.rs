//! Absence scanner: missed and warning cohorts over the ten-day lookback.

use chrono::{FixedOffset, TimeZone};
use daka_core::models::GroupMember;
use daka_core::service::Service;

fn local_ts(y: i32, m: u32, d: u32, h: u32, mi: u32, s: u32) -> i64 {
    FixedOffset::east_opt(8 * 3600)
        .expect("offset")
        .with_ymd_and_hms(y, m, d, h, mi, s)
        .single()
        .expect("local time")
        .timestamp()
}

fn member(uid: &str, uin: u32, card: &str) -> GroupMember {
    GroupMember {
        uid: uid.to_string(),
        uin,
        member_name: Some(card.to_string()),
        member_card: Some(card.to_string()),
    }
}

#[test]
fn missed_and_warning_cohorts() {
    // C's last event is 11 days old (outside the lookback): missed.
    // D's last event is 8 days old: warned, but not missed.
    let mut svc = Service::new();
    let c = svc.upsert_member(&member("u1", 11, "C")).expect("upsert");
    let d = svc.upsert_member(&member("u2", 22, "D")).expect("upsert");
    let now = local_ts(2024, 5, 20, 12, 0, 0);
    let window_end = local_ts(2024, 5, 20, 4, 0, 0);
    svc.check_in(c, window_end - 11 * 86400).expect("store");
    svc.check_in(d, window_end - 8 * 86400).expect("store");
    let (missed, warning) = svc.query_missed_and_warning(now).expect("scan");
    assert_eq!(missed, vec!["C".to_string()]);
    assert_eq!(warning, vec!["D".to_string()]);
}

#[test]
fn recent_check_in_is_neither_missed_nor_warned() {
    let mut svc = Service::new();
    let a = svc.upsert_member(&member("u1", 11, "A")).expect("upsert");
    let now = local_ts(2024, 5, 20, 12, 0, 0);
    let window_end = local_ts(2024, 5, 20, 4, 0, 0);
    svc.check_in(a, window_end - 3 * 86400).expect("store");
    let (missed, warning) = svc.query_missed_and_warning(now).expect("scan");
    assert!(missed.is_empty());
    assert!(warning.is_empty());
}

#[test]
fn member_with_no_events_is_missed_only() {
    let mut svc = Service::new();
    svc.upsert_member(&member("u1", 11, "A")).expect("upsert");
    let now = local_ts(2024, 5, 20, 12, 0, 0);
    let (missed, warning) = svc.query_missed_and_warning(now).expect("scan");
    assert_eq!(missed, vec!["A".to_string()]);
    assert!(warning.is_empty());
}

#[test]
fn seven_day_boundary() {
    // exactly 7 days old means not yet behind the warning boundary; one
    // second older means warned
    let mut svc = Service::new();
    let a = svc.upsert_member(&member("u1", 11, "A")).expect("upsert");
    let b = svc.upsert_member(&member("u2", 22, "B")).expect("upsert");
    let now = local_ts(2024, 5, 20, 12, 0, 0);
    let window_end = local_ts(2024, 5, 20, 4, 0, 0);
    svc.check_in(a, window_end - 7 * 86400).expect("store");
    svc.check_in(b, window_end - 7 * 86400 - 1).expect("store");
    let (missed, warning) = svc.query_missed_and_warning(now).expect("scan");
    assert!(missed.is_empty());
    assert_eq!(warning, vec!["B".to_string()]);
}

#[test]
fn scan_lists_keep_roster_order() {
    let mut svc = Service::new();
    let a = svc.upsert_member(&member("u1", 11, "A")).expect("upsert");
    let b = svc.upsert_member(&member("u2", 22, "B")).expect("upsert");
    let c = svc.upsert_member(&member("u3", 33, "C")).expect("upsert");
    assert!(svc.set_sort_key(a, 3));
    assert!(svc.set_sort_key(b, 2));
    assert!(svc.set_sort_key(c, 1));
    let now = local_ts(2024, 5, 20, 12, 0, 0);
    let (missed, warning) = svc.query_missed_and_warning(now).expect("scan");
    assert_eq!(missed, vec!["C".to_string(), "B".to_string(), "A".to_string()]);
    assert!(warning.is_empty());
}

#[test]
fn absence_message_fallback() {
    let mut svc = Service::new();
    let a = svc.upsert_member(&member("u1", 11, "A")).expect("upsert");
    let now = local_ts(2024, 5, 20, 12, 0, 0);
    let window_end = local_ts(2024, 5, 20, 4, 0, 0);
    svc.check_in(a, window_end - 86400).expect("store");
    let r = svc.handle_absence_scan(now);
    assert!(r.ok);
    assert_eq!(r.message, "没有人咕咕");
}

#[test]
fn absence_message_both_cohorts() {
    let mut svc = Service::new();
    let c = svc.upsert_member(&member("u1", 11, "C")).expect("upsert");
    let d = svc.upsert_member(&member("u2", 22, "D")).expect("upsert");
    let now = local_ts(2024, 5, 20, 12, 0, 0);
    let window_end = local_ts(2024, 5, 20, 4, 0, 0);
    svc.check_in(c, window_end - 11 * 86400).expect("store");
    svc.check_in(d, window_end - 8 * 86400).expect("store");
    let r = svc.handle_absence_scan(now);
    assert!(r.ok);
    assert_eq!(r.message, "💢 10天没打卡：\nC\n⚠️ 7天没打卡：\nD");
}

#[test]
fn absence_message_warning_only() {
    let mut svc = Service::new();
    let d = svc.upsert_member(&member("u2", 22, "D")).expect("upsert");
    let now = local_ts(2024, 5, 20, 12, 0, 0);
    let window_end = local_ts(2024, 5, 20, 4, 0, 0);
    svc.check_in(d, window_end - 8 * 86400).expect("store");
    let r = svc.handle_absence_scan(now);
    assert!(r.ok);
    assert_eq!(r.message, "\n⚠️ 7天没打卡：\nD");
}
