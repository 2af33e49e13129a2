//! Check-in ledger behavior: idempotent insert and window-scoped undo.

use chrono::{FixedOffset, TimeZone};
use daka_core::ledger::{CheckInOutcome, UndoOutcome};
use daka_core::models::GroupMember;
use daka_core::service::Service;

fn local_ts(y: i32, m: u32, d: u32, h: u32, mi: u32, s: u32) -> i64 {
    FixedOffset::east_opt(8 * 3600)
        .expect("offset")
        .with_ymd_and_hms(y, m, d, h, mi, s)
        .single()
        .expect("local time")
        .timestamp()
}

fn member(uid: &str, uin: u32, card: &str) -> GroupMember {
    GroupMember {
        uid: uid.to_string(),
        uin,
        member_name: Some(card.to_string()),
        member_card: Some(card.to_string()),
    }
}

#[test]
fn check_in_twice_within_window() {
    let mut svc = Service::new();
    let id = svc.upsert_member(&member("u1", 11, "A")).expect("upsert");
    let now = local_ts(2024, 5, 1, 12, 0, 0);
    assert_eq!(svc.check_in(id, now).expect("store"), CheckInOutcome::Recorded);
    assert_eq!(svc.check_in(id, now).expect("store"), CheckInOutcome::AlreadyPresent);
    // later the same attendance day (past midnight, before 04:00)
    let late = local_ts(2024, 5, 2, 3, 30, 0);
    assert_eq!(svc.check_in(id, late).expect("store"), CheckInOutcome::AlreadyPresent);
    assert_eq!(svc.events.len(), 1);
}

#[test]
fn check_in_next_day_records_again() {
    let mut svc = Service::new();
    let id = svc.upsert_member(&member("u1", 11, "A")).expect("upsert");
    assert_eq!(
        svc.check_in(id, local_ts(2024, 5, 1, 12, 0, 0)).expect("store"),
        CheckInOutcome::Recorded
    );
    assert_eq!(
        svc.check_in(id, local_ts(2024, 5, 2, 4, 0, 0)).expect("store"),
        CheckInOutcome::Recorded
    );
    assert_eq!(svc.events.len(), 2);
}

#[test]
fn undo_after_check_in() {
    let mut svc = Service::new();
    let id = svc.upsert_member(&member("u1", 11, "A")).expect("upsert");
    let now = local_ts(2024, 5, 1, 12, 0, 0);
    assert_eq!(svc.check_in(id, now).expect("store"), CheckInOutcome::Recorded);
    assert_eq!(svc.undo_check_in(id, now), UndoOutcome::Removed);
    assert_eq!(svc.undo_check_in(id, now), UndoOutcome::NothingToUndo);
    assert_eq!(svc.events.len(), 0);
}

#[test]
fn undo_without_check_in() {
    let mut svc = Service::new();
    let id = svc.upsert_member(&member("u1", 11, "A")).expect("upsert");
    assert_eq!(svc.undo_check_in(id, local_ts(2024, 5, 1, 12, 0, 0)), UndoOutcome::NothingToUndo);
}

#[test]
fn undo_leaves_other_days_and_members() {
    let mut svc = Service::new();
    let a = svc.upsert_member(&member("u1", 11, "A")).expect("upsert");
    let b = svc.upsert_member(&member("u2", 22, "B")).expect("upsert");
    svc.check_in(a, local_ts(2024, 4, 30, 12, 0, 0)).expect("store");
    svc.check_in(a, local_ts(2024, 5, 1, 12, 0, 0)).expect("store");
    svc.check_in(b, local_ts(2024, 5, 1, 13, 0, 0)).expect("store");
    // undo A's check-in of May 1st only
    assert_eq!(svc.undo_check_in(a, local_ts(2024, 5, 1, 20, 0, 0)), UndoOutcome::Removed);
    assert_eq!(svc.events.len(), 2);
    assert!(svc.events.iter().all(|e| e.member_id != a || e.created_at < local_ts(2024, 5, 1, 4, 0, 0)));
}

#[test]
fn check_in_after_undo_records() {
    let mut svc = Service::new();
    let id = svc.upsert_member(&member("u1", 11, "A")).expect("upsert");
    let now = local_ts(2024, 5, 1, 12, 0, 0);
    svc.check_in(id, now).expect("store");
    svc.undo_check_in(id, now);
    assert_eq!(svc.check_in(id, now + 60).expect("store"), CheckInOutcome::Recorded);
}

#[test]
fn handle_undo_messages() {
    let mut svc = Service::new();
    let id = svc.upsert_member(&member("u1", 11, "A")).expect("upsert");
    let now = local_ts(2024, 5, 1, 12, 0, 0);
    let r = svc.handle_undo_check_in(id, now);
    assert!(r.ok);
    assert_eq!(r.message, "确实");
    svc.check_in(id, now).expect("store");
    let r = svc.handle_undo_check_in(id, now);
    assert!(r.ok);
    assert_eq!(r.message, "行吧");
}
