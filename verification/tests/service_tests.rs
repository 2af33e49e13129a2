//! Member directory and credential operations.

use daka_core::models::{GroupMember, LoginRequest, ResetPasswordRequest, ServiceResponse};
use daka_core::service::Service;

fn member(uid: &str, uin: u32, name: Option<&str>, card: Option<&str>) -> GroupMember {
    GroupMember {
        uid: uid.to_string(),
        uin,
        member_name: name.map(|s| s.to_string()),
        member_card: card.map(|s| s.to_string()),
    }
}

#[test]
fn upsert_twice_keeps_one_row_with_latest_names() {
    let mut svc = Service::new();
    let id1 = svc
        .upsert_member(&member("u1", 11, Some("old name"), Some("old card")))
        .expect("upsert");
    let id2 = svc
        .upsert_member(&member("u1", 11, Some("new name"), Some("new card")))
        .expect("upsert");
    assert_eq!(id1, id2);
    assert_eq!(svc.members.len(), 1);
    assert_eq!(svc.members[0].nickname, "new name");
    assert_eq!(svc.members[0].group_nickname, "new card");
    assert_eq!(svc.members[0].external_uid, "u1");
}

#[test]
fn upsert_assigns_fresh_ids() {
    let mut svc = Service::new();
    let a = svc.upsert_member(&member("u1", 11, Some("A"), None)).expect("upsert");
    let b = svc.upsert_member(&member("u2", 22, Some("B"), None)).expect("upsert");
    assert_ne!(a, b);
    assert_eq!(svc.members.len(), 2);
}

#[test]
fn upsert_name_fallbacks() {
    let mut svc = Service::new();
    // no card: group nickname falls back to the account name
    svc.upsert_member(&member("u1", 11, Some("A"), None)).expect("upsert");
    assert_eq!(svc.members[0].nickname, "A");
    assert_eq!(svc.members[0].group_nickname, "A");
    // no names at all: both stored names are empty
    svc.upsert_member(&member("u2", 22, None, None)).expect("upsert");
    assert_eq!(svc.members[1].nickname, "");
    assert_eq!(svc.members[1].group_nickname, "");
}

#[test]
fn group_member_name_accessors() {
    let gm = member("u1", 11, Some("A"), Some("Card"));
    assert_eq!(gm.nickname(), "A");
    assert_eq!(gm.group_nickname(), "Card");
    let gm = member("u1", 11, Some("A"), None);
    assert_eq!(gm.group_nickname(), "A");
    let gm = member("u1", 11, None, None);
    assert_eq!(gm.nickname(), "");
    assert_eq!(gm.group_nickname(), "");
}

#[test]
fn find_member_by_uin_returns_id_and_credential() {
    let mut svc = Service::new();
    let a = svc.upsert_member(&member("u1", 11, Some("A"), None)).expect("upsert");
    svc.upsert_member(&member("u2", 22, Some("B"), None)).expect("upsert");
    assert_eq!(svc.find_member_by_uin(11), Some((a, String::new())));
    assert_eq!(svc.find_member_by_uin(99), None);
}

#[test]
fn password_round_trip() {
    let mut svc = Service::new();
    let a = svc.upsert_member(&member("u1", 11, Some("A"), None)).expect("upsert");
    assert_eq!(svc.get_password_by_id(a), Some(String::new()));
    svc.update_password_by_id(a, "SECRET-REDACTED").expect("update");
    assert_eq!(svc.get_password_by_id(a), Some("SECRET-REDACTED".to_string()));
    assert_eq!(svc.find_member_by_uin(11), Some((a, "SECRET-REDACTED".to_string())));
    assert_eq!(svc.get_password_by_id(a + 1), None);
}

#[test]
fn update_password_unknown_member() {
    let mut svc = Service::new();
    assert_eq!(svc.update_password_by_id(7, "x"), Err("no rows updated".to_string()));
    let e = svc.set_password_for_member_id(7, "x").expect_err("absent row");
    assert!(!e.ok);
    assert_eq!(e.message, "no rows updated");
}

#[test]
fn set_password_for_member() {
    let mut svc = Service::new();
    let a = svc.upsert_member(&member("u1", 11, Some("A"), None)).expect("upsert");
    svc.set_password_for_member_id(a, "hash").expect("set");
    assert_eq!(svc.get_password_by_id(a), Some("hash".to_string()));
}

#[test]
fn set_sort_key_only_for_known_ids() {
    let mut svc = Service::new();
    let a = svc.upsert_member(&member("u1", 11, Some("A"), None)).expect("upsert");
    assert!(svc.set_sort_key(a, 42));
    assert_eq!(svc.members[0].sort_key, 42);
    assert!(!svc.set_sort_key(a + 1, 1));
}

#[test]
fn service_response_constructors() {
    let r = ServiceResponse::ok("fine".to_string());
    assert!(r.ok);
    assert_eq!(r.message, "fine");
    let r = ServiceResponse::err("broken".to_string());
    assert!(!r.ok);
    assert_eq!(r.message, "broken");
}

#[test]
fn request_models_carry_fields() {
    let login = LoginRequest { uin: 12, password: "pw".to_string() };
    assert_eq!(login.uin, 12);
    assert_eq!(login.password, "pw");
    let reset = ResetPasswordRequest { qq_uin: 34, new_password: "np".to_string() };
    assert_eq!(reset.qq_uin, 34);
    assert_eq!(reset.new_password, "np");
}
