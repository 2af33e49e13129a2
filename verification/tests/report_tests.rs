//! Daily report formatting and the raw day listing.

use chrono::{FixedOffset, TimeZone};
use daka_core::models::GroupMember;
use daka_core::service::Service;

fn local_ts(y: i32, m: u32, d: u32, h: u32, mi: u32, s: u32) -> i64 {
    FixedOffset::east_opt(8 * 3600)
        .expect("offset")
        .with_ymd_and_hms(y, m, d, h, mi, s)
        .single()
        .expect("local time")
        .timestamp()
}

fn member(uid: &str, uin: u32, card: &str) -> GroupMember {
    GroupMember {
        uid: uid.to_string(),
        uin,
        member_name: Some(card.to_string()),
        member_card: Some(card.to_string()),
    }
}

#[test]
fn report_nobody_checked_in() {
    let mut svc = Service::new();
    svc.upsert_member(&member("u1", 11, "A")).expect("upsert");
    svc.upsert_member(&member("u2", 22, "B")).expect("upsert");
    let now = local_ts(2024, 5, 1, 12, 0, 0);
    assert_eq!(svc.build_daily_report(now), "今日无人打卡");
}

#[test]
fn report_single_absentee() {
    // members A (sort key 1) and B (sort key 2); only B checks in at the
    // window start
    let mut svc = Service::new();
    let a = svc.upsert_member(&member("u1", 11, "A")).expect("upsert");
    let b = svc.upsert_member(&member("u2", 22, "B")).expect("upsert");
    assert!(svc.set_sort_key(a, 1));
    assert!(svc.set_sort_key(b, 2));
    let start = local_ts(2024, 5, 1, 4, 0, 0);
    svc.check_in(b, start).expect("store");
    let report = svc.build_daily_report(local_ts(2024, 5, 1, 12, 0, 0));
    assert_eq!(report, "5/1\nB ✅\nA ❌");
}

#[test]
fn report_all_present() {
    let mut svc = Service::new();
    let a = svc.upsert_member(&member("u1", 11, "A")).expect("upsert");
    let b = svc.upsert_member(&member("u2", 22, "B")).expect("upsert");
    svc.check_in(a, local_ts(2024, 5, 1, 8, 0, 0)).expect("store");
    svc.check_in(b, local_ts(2024, 5, 1, 9, 0, 0)).expect("store");
    let report = svc.build_daily_report(local_ts(2024, 5, 1, 12, 0, 0));
    // the absent line is empty
    assert_eq!(report, "5/1\nA\u{3000}B ✅\n ❌");
}

#[test]
fn report_orders_present_by_time() {
    let mut svc = Service::new();
    let a = svc.upsert_member(&member("u1", 11, "A")).expect("upsert");
    let b = svc.upsert_member(&member("u2", 22, "B")).expect("upsert");
    let c = svc.upsert_member(&member("u3", 33, "C")).expect("upsert");
    // sort keys would put A first, but check-in time wins
    assert!(svc.set_sort_key(a, 1));
    assert!(svc.set_sort_key(b, 2));
    assert!(svc.set_sort_key(c, 3));
    svc.check_in(c, local_ts(2024, 5, 1, 6, 0, 0)).expect("store");
    svc.check_in(a, local_ts(2024, 5, 1, 7, 0, 0)).expect("store");
    svc.check_in(b, local_ts(2024, 5, 1, 8, 0, 0)).expect("store");
    let report = svc.build_daily_report(local_ts(2024, 5, 1, 12, 0, 0));
    assert_eq!(report, "5/1\nC\u{3000}A\u{3000}B ✅\n ❌");
}

#[test]
fn report_orders_absent_by_sort_key() {
    let mut svc = Service::new();
    let a = svc.upsert_member(&member("u1", 11, "A")).expect("upsert");
    let b = svc.upsert_member(&member("u2", 22, "B")).expect("upsert");
    let c = svc.upsert_member(&member("u3", 33, "C")).expect("upsert");
    assert!(svc.set_sort_key(a, 9));
    assert!(svc.set_sort_key(b, 5));
    svc.check_in(c, local_ts(2024, 5, 1, 6, 0, 0)).expect("store");
    let report = svc.build_daily_report(local_ts(2024, 5, 1, 12, 0, 0));
    // absent: B (key 5) before A (key 9); C is present
    assert_eq!(report, "5/1\nC ✅\nB\u{3000}A ❌");
}

#[test]
fn listing_for_today() {
    let mut svc = Service::new();
    let a = svc.upsert_member(&member("u1", 11, "A")).expect("upsert");
    svc.upsert_member(&member("u2", 22, "B")).expect("upsert");
    svc.check_in(a, local_ts(2024, 5, 1, 9, 30, 0)).expect("store");
    let rows = svc
        .query_records_for_date(None, local_ts(2024, 5, 1, 12, 0, 0))
        .expect("listing");
    assert_eq!(
        rows,
        vec![("A".to_string(), Some("09:30".to_string())), ("B".to_string(), None)]
    );
}

#[test]
fn listing_for_requested_date() {
    let mut svc = Service::new();
    let a = svc.upsert_member(&member("u1", 11, "A")).expect("upsert");
    svc.check_in(a, local_ts(2024, 4, 30, 23, 45, 0)).expect("store");
    let now = local_ts(2024, 5, 2, 12, 0, 0);
    let rows = svc.query_records_for_date(Some("2024-04-30"), now).expect("listing");
    assert_eq!(rows, vec![("A".to_string(), Some("23:45".to_string()))]);
    // the same member is absent on the following day
    let rows = svc.query_records_for_date(Some("2024-05-01"), now).expect("listing");
    assert_eq!(rows, vec![("A".to_string(), None)]);
}

#[test]
fn listing_rejects_bad_date() {
    let svc = Service::new();
    let now = local_ts(2024, 5, 2, 12, 0, 0);
    assert_eq!(svc.query_records_for_date(Some("2024-13-01"), now), Err("invalid date".to_string()));
    assert_eq!(svc.query_records_for_date(Some("yesterday"), now), Err("invalid date".to_string()));
}

#[test]
fn handle_check_in_replies_with_report() {
    let mut svc = Service::new();
    let a = svc.upsert_member(&member("u1", 11, "A")).expect("upsert");
    let now = local_ts(2024, 5, 1, 8, 0, 0);
    let r = svc.handle_check_in(a, now);
    assert!(r.ok);
    assert_eq!(r.message, "5/1\nA ✅\n ❌");
    let r = svc.handle_check_in(a, now);
    assert!(r.ok);
    assert_eq!(r.message, "您今天已经打过卡莉");
}

#[test]
fn report_header_multi_digit_month_day() {
    let mut svc = Service::new();
    let a = svc.upsert_member(&member("u1", 11, "A")).expect("upsert");
    svc.check_in(a, local_ts(2024, 12, 25, 8, 0, 0)).expect("store");
    let report = svc.build_daily_report(local_ts(2024, 12, 25, 12, 0, 0));
    assert_eq!(report, "12/25\nA ✅\n ❌");
}

#[test]
fn report_header_crosses_year_boundary() {
    // at 02:00 local on January 1st the attendance day still belongs to
    // December 31st
    let mut svc = Service::new();
    let a = svc.upsert_member(&member("u1", 11, "A")).expect("upsert");
    svc.check_in(a, local_ts(2024, 1, 1, 2, 0, 0)).expect("store");
    let report = svc.build_daily_report(local_ts(2024, 1, 1, 3, 0, 0));
    assert_eq!(report, "12/31\nA ✅\n ❌");
}

#[test]
fn report_empty_roster() {
    let svc = Service::new();
    assert_eq!(svc.build_daily_report(local_ts(2024, 5, 1, 12, 0, 0)), "今日无人打卡");
}

#[test]
fn report_uses_latest_nickname() {
    let mut svc = Service::new();
    let a = svc.upsert_member(&member("u1", 11, "Old")).expect("upsert");
    svc.check_in(a, local_ts(2024, 5, 1, 8, 0, 0)).expect("store");
    svc.upsert_member(&member("u1", 11, "New")).expect("upsert");
    let report = svc.build_daily_report(local_ts(2024, 5, 1, 12, 0, 0));
    assert_eq!(report, "5/1\nNew ✅\n ❌");
}
