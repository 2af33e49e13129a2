//! The service facade: one shared in-memory store and the member-directory
//! and credential operations on it. The attendance ledger, report builder
//! and absence scanner live in their own modules as further `impl` blocks.

use vstd::prelude::*;

verus! {

use crate::models::{GroupMember, ServiceResponse};
use crate::store::{
    CheckInEvent, EventV, Member, MemberV, StoreModel, find_id_at, find_uid_at, find_uin_at,
    lemma_find_id_at_props, lemma_find_uid_at_props, lemma_find_uin_at_props, store_wf,
};
use vstd::string::StringExecFns;

/// The attendance engine over one shared store: a member directory and a
/// check-in event ledger, with strictly growing row ids.
pub struct Service {
    pub members: Vec<Member>,
    pub events: Vec<CheckInEvent>,
    pub next_member_id: i64,
    pub next_event_id: i64,
}

impl View for Service {
    type V = StoreModel;

    open spec fn view(&self) -> StoreModel {
        StoreModel {
            members: self.members@.map_values(|m: Member| m@),
            events: self.events@.map_values(|e: CheckInEvent| e@),
            next_member_id: self.next_member_id as int,
            next_event_id: self.next_event_id as int,
        }
    }
}

/// The store after a member upsert, and the id of the touched row: an
/// existing row with the same identity gets the new display names in place;
/// otherwise a fresh row is appended under the next id.
pub open spec fn spec_upsert(
    s: StoreModel,
    uid: Seq<char>,
    uin: int,
    nickname: Seq<char>,
    group_nickname: Seq<char>,
) -> (StoreModel, int) {
    match find_uid_at(s.members, uid) {
        Some(i) => (
            StoreModel {
                members: s.members.update(
                    i,
                    MemberV { nickname: nickname, group_nickname: group_nickname, ..s.members[i] },
                ),
                ..s
            },
            s.members[i].id,
        ),
        None => (
            StoreModel {
                members: s.members.push(
                    MemberV {
                        id: s.next_member_id,
                        external_uid: uid,
                        external_uin: uin,
                        nickname: nickname,
                        group_nickname: group_nickname,
                        sort_key: 0,
                        credential: Seq::empty(),
                    },
                ),
                next_member_id: s.next_member_id + 1,
                ..s
            },
            s.next_member_id,
        ),
    }
}

impl Service {
    /// The store invariant: see [`store_wf`].
    pub open spec fn wf(&self) -> bool {
        store_wf(self@)
    }

    /// A fresh, empty store.
    pub fn new() -> (s: Service)
        ensures
            s.wf(),
            s@.members == Seq::<MemberV>::empty(),
            s@.events == Seq::<EventV>::empty(),
            s@.next_member_id == 1,
            s@.next_event_id == 1,
    {
        let s = Service {
            members: Vec::new(),
            events: Vec::new(),
            next_member_id: 1,
            next_event_id: 1,
        };
        proof {
            assert(s@.members =~= Seq::<MemberV>::empty());
            assert(s@.events =~= Seq::<EventV>::empty());
        }
        s
    }

    /// Index of the member with this external identity, if any.
    fn find_index_by_uid(&self, uid: &String) -> (r: Option<usize>)
        ensures
            match r {
                Some(i) => i < self.members.len() && find_uid_at(self@.members, uid@) == Some(
                    i as int,
                ),
                None => find_uid_at(self@.members, uid@) is None,
            },
    {
        let ghost ms = self@.members;
        proof {
            lemma_find_uid_at_props(ms, uid@);
        }
        let mut i: usize = 0;
        while i < self.members.len()
            invariant
                i <= self.members.len(),
                ms == self@.members,
                forall|k: int| 0 <= k < i ==> (#[trigger] ms[k]).external_uid != uid@,
            decreases self.members.len() - i,
        {
            if self.members[i].external_uid == *uid {
                proof {
                    lemma_find_uid_at_props(ms, uid@);
                    assert(ms[i as int].external_uid == uid@);
                    let fo = find_uid_at(ms, uid@);
                    if fo is Some {
                        let i0 = fo->Some_0;
                        if i0 < i as int {
                            assert(ms[i0].external_uid != uid@);
                        }
                        if i0 > i as int {
                            assert(ms[i as int].external_uid != uid@);
                        }
                    }
                }
                return Some(i);
            }
            i = i + 1;
        }
        None
    }

    /// Index of the member with this row id, if any.
    fn find_index_by_id(&self, member_id: i64) -> (r: Option<usize>)
        ensures
            match r {
                Some(i) => i < self.members.len() && find_id_at(
                    self@.members,
                    member_id as int,
                ) == Some(i as int),
                None => find_id_at(self@.members, member_id as int) is None,
            },
    {
        let ghost ms = self@.members;
        proof {
            lemma_find_id_at_props(ms, member_id as int);
        }
        let mut i: usize = 0;
        while i < self.members.len()
            invariant
                i <= self.members.len(),
                ms == self@.members,
                forall|k: int| 0 <= k < i ==> (#[trigger] ms[k]).id != member_id as int,
            decreases self.members.len() - i,
        {
            if self.members[i].id == member_id {
                proof {
                    lemma_find_id_at_props(ms, member_id as int);
                    assert(ms[i as int].id == member_id as int);
                    let fo = find_id_at(ms, member_id as int);
                    if fo is Some {
                        let i0 = fo->Some_0;
                        if i0 < i as int {
                            assert(ms[i0].id != member_id as int);
                        }
                        if i0 > i as int {
                            assert(ms[i as int].id != member_id as int);
                        }
                    }
                }
                return Some(i);
            }
            i = i + 1;
        }
        None
    }

    /// Index of the member with this external account number, if any.
    fn find_index_by_uin(&self, qq_uin: u32) -> (r: Option<usize>)
        ensures
            match r {
                Some(i) => i < self.members.len() && find_uin_at(
                    self@.members,
                    qq_uin as int,
                ) == Some(i as int),
                None => find_uin_at(self@.members, qq_uin as int) is None,
            },
    {
        let ghost ms = self@.members;
        proof {
            lemma_find_uin_at_props(ms, qq_uin as int);
        }
        let mut i: usize = 0;
        while i < self.members.len()
            invariant
                i <= self.members.len(),
                ms == self@.members,
                forall|k: int| 0 <= k < i ==> (#[trigger] ms[k]).external_uin != qq_uin as int,
            decreases self.members.len() - i,
        {
            if self.members[i].external_uin == qq_uin {
                proof {
                    lemma_find_uin_at_props(ms, qq_uin as int);
                    assert(ms[i as int].external_uin == qq_uin as int);
                    let fo = find_uin_at(ms, qq_uin as int);
                    if fo is Some {
                        let i0 = fo->Some_0;
                        if i0 < i as int {
                            assert(ms[i0].external_uin != qq_uin as int);
                        }
                        if i0 > i as int {
                            assert(ms[i as int].external_uin != qq_uin as int);
                        }
                    }
                }
                return Some(i);
            }
            i = i + 1;
        }
        None
    }

    /// Replace the member row at `i` and leave every other row alone.
    fn replace_member_at(&mut self, i: usize, m: Member)
        requires
            i < old(self).members@.len(),
        ensures
            final(self).members@ == old(self).members@.update(i as int, m),
            final(self).events == old(self).events,
            final(self).next_member_id == old(self).next_member_id,
            final(self).next_event_id == old(self).next_event_id,
    {
        let _ = self.members.remove(i);
        self.members.insert(i, m);
        proof {
            assert(self.members@ =~= old(self).members@.update(i as int, m));
        }
    }

    /// Ensure a row for this member exists and carry its display names:
    /// overwrite the names of an existing row with the same `uid`, or insert
    /// a new row. Returns the row id. Fails only when the store's id space
    /// is exhausted.
    pub fn upsert_member(&mut self, gm: &GroupMember) -> (r: Result<i64, ServiceResponse>)
        requires
            old(self).wf(),
        ensures
            final(self).wf(),
            ({
                let (s2, id) = spec_upsert(
                    old(self)@,
                    gm.uid@,
                    gm.uin as int,
                    gm.nickname_view(),
                    gm.group_nickname_view(),
                );
                if find_uid_at(old(self)@.members, gm.uid@) is Some || old(self)@.next_member_id
                    < i64::MAX {
                    &&& r matches Ok(i) && i as int == id
                    &&& final(self)@ == s2
                } else {
                    &&& r matches Err(e) && e.message@ == "member id space exhausted"@ && !e.ok
                    &&& final(self)@ == old(self)@
                }
            }),
    {
        let nickname = gm.nickname().to_owned();
        let group_nickname = gm.group_nickname().to_owned();
        proof {
            // a None from the lookup means no row holds the identity
            lemma_find_uid_at_props(self@.members, gm.uid@);
        }
        match self.find_index_by_uid(&gm.uid) {
            Some(i) => {
                let old_m = &self.members[i];
                let m = Member {
                    id: old_m.id,
                    external_uid: old_m.external_uid.clone(),
                    external_uin: old_m.external_uin,
                    nickname,
                    group_nickname,
                    sort_key: old_m.sort_key,
                    credential: old_m.credential.clone(),
                };
                let id = m.id;
                self.replace_member_at(i, m);
                proof {
                    let f = |m: Member| m@;
                    assert(self.members@.map_values(f) =~= old(self).members@.map_values(f).update(
                        i as int,
                        MemberV {
                            nickname: gm.nickname_view(),
                            group_nickname: gm.group_nickname_view(),
                            ..old(self)@.members[i as int]
                        },
                    ));
                    assert(self@ =~= spec_upsert(
                        old(self)@,
                        gm.uid@,
                        gm.uin as int,
                        gm.nickname_view(),
                        gm.group_nickname_view(),
                    ).0);
                }
                Ok(id)
            },
            None => {
                if self.next_member_id == i64::MAX {
                    return Err(ServiceResponse::err("member id space exhausted".to_owned()));
                }
                let id = self.next_member_id;
                self.members.push(
                    Member {
                        id,
                        external_uid: gm.uid.clone(),
                        external_uin: gm.uin,
                        nickname,
                        group_nickname,
                        sort_key: 0,
                        credential: String::new(),
                    },
                );
                self.next_member_id = id + 1;
                proof {
                    let f = |m: Member| m@;
                    assert(self.members@.map_values(f) =~= old(self).members@.map_values(f).push(
                        MemberV {
                            id: id as int,
                            external_uid: gm.uid@,
                            external_uin: gm.uin as int,
                            nickname: gm.nickname_view(),
                            group_nickname: gm.group_nickname_view(),
                            sort_key: 0,
                            credential: Seq::empty(),
                        },
                    ));
                    assert(self@ =~= spec_upsert(
                        old(self)@,
                        gm.uid@,
                        gm.uin as int,
                        gm.nickname_view(),
                        gm.group_nickname_view(),
                    ).0);
                }
                Ok(id)
            },
        }
    }

    /// Roster maintenance: set a member's ordering key. The backing store
    /// keeps `sort_key` as plain row data with no write path in the engine's
    /// own operations; operators set it directly.
    pub fn set_sort_key(&mut self, member_id: i64, sort_key: i64) -> (r: bool)
        requires
            old(self).wf(),
        ensures
            final(self).wf(),
            match find_id_at(old(self)@.members, member_id as int) {
                Some(i) => r && final(self)@ == (StoreModel {
                    members: old(self)@.members.update(
                        i,
                        MemberV { sort_key: sort_key as int, ..old(self)@.members[i] },
                    ),
                    ..old(self)@
                }),
                None => !r && final(self)@ == old(self)@,
            },
    {
        match self.find_index_by_id(member_id) {
            Some(i) => {
                let old_m = &self.members[i];
                let m = Member {
                    id: old_m.id,
                    external_uid: old_m.external_uid.clone(),
                    external_uin: old_m.external_uin,
                    nickname: old_m.nickname.clone(),
                    group_nickname: old_m.group_nickname.clone(),
                    sort_key,
                    credential: old_m.credential.clone(),
                };
                self.replace_member_at(i, m);
                proof {
                    let f = |m: Member| m@;
                    assert(self.members@.map_values(f) =~= old(self).members@.map_values(f).update(
                        i as int,
                        MemberV { sort_key: sort_key as int, ..old(self)@.members[i as int] },
                    ));
                    assert(self@ =~= (StoreModel {
                        members: old(self)@.members.update(
                            i as int,
                            MemberV { sort_key: sort_key as int, ..old(self)@.members[i as int] },
                        ),
                        ..old(self)@
                    }));
                }
                true
            },
            None => false,
        }
    }

    /// Find a member's row id and stored credential by external account
    /// number; the engine hands the credential out uninterpreted.
    pub fn find_member_by_uin(&self, qq_uin: u32) -> (r: Option<(i64, String)>)
        ensures
            match find_uin_at(self@.members, qq_uin as int) {
                Some(i) => r matches Some(p) && p.0 as int == self@.members[i].id && p.1@
                    == self@.members[i].credential,
                None => r is None,
            },
    {
        match self.find_index_by_uin(qq_uin) {
            Some(i) => Some((self.members[i].id, self.members[i].credential.clone())),
            None => None,
        }
    }

    /// Stored credential of the member with this row id.
    pub fn get_password_by_id(&self, member_id: i64) -> (r: Option<String>)
        ensures
            match find_id_at(self@.members, member_id as int) {
                Some(i) => r matches Some(p) && p@ == self@.members[i].credential,
                None => r is None,
            },
    {
        match self.find_index_by_id(member_id) {
            Some(i) => Some(self.members[i].credential.clone()),
            None => None,
        }
    }

    /// Overwrite the stored credential of the member with this row id.
    pub fn update_password_by_id(&mut self, member_id: i64, hashed: &str) -> (r: Result<
        (),
        String,
    >)
        requires
            old(self).wf(),
        ensures
            final(self).wf(),
            match find_id_at(old(self)@.members, member_id as int) {
                Some(i) => r is Ok && final(self)@ == (StoreModel {
                    members: old(self)@.members.update(
                        i,
                        MemberV { credential: hashed@, ..old(self)@.members[i] },
                    ),
                    ..old(self)@
                }),
                None => r matches Err(e) && e@ == "no rows updated"@ && final(self)@ == old(
                    self,
                )@,
            },
    {
        match self.find_index_by_id(member_id) {
            Some(i) => {
                let old_m = &self.members[i];
                let m = Member {
                    id: old_m.id,
                    external_uid: old_m.external_uid.clone(),
                    external_uin: old_m.external_uin,
                    nickname: old_m.nickname.clone(),
                    group_nickname: old_m.group_nickname.clone(),
                    sort_key: old_m.sort_key,
                    credential: hashed.to_owned(),
                };
                self.replace_member_at(i, m);
                proof {
                    let f = |m: Member| m@;
                    assert(self.members@.map_values(f) =~= old(self).members@.map_values(f).update(
                        i as int,
                        MemberV { credential: hashed@, ..old(self)@.members[i as int] },
                    ));
                    assert(self@ =~= (StoreModel {
                        members: old(self)@.members.update(
                            i as int,
                            MemberV { credential: hashed@, ..old(self)@.members[i as int] },
                        ),
                        ..old(self)@
                    }));
                }
                Ok(())
            },
            None => Err("no rows updated".to_owned()),
        }
    }

    /// Set a member's credential, wrapping failures for the caller.
    pub fn set_password_for_member_id(&mut self, member_id: i64, hashed_password: &str) -> (r:
        Result<(), ServiceResponse>)
        requires
            old(self).wf(),
        ensures
            final(self).wf(),
            match find_id_at(old(self)@.members, member_id as int) {
                Some(i) => r is Ok && final(self)@ == (StoreModel {
                    members: old(self)@.members.update(
                        i,
                        MemberV { credential: hashed_password@, ..old(self)@.members[i] },
                    ),
                    ..old(self)@
                }),
                None => r matches Err(e) && e.message@ == "no rows updated"@ && !e.ok
                    && final(self)@ == old(self)@,
            },
    {
        match self.update_password_by_id(member_id, hashed_password) {
            Ok(_) => Ok(()),
            Err(e) => Err(ServiceResponse::err(e)),
        }
    }
}

} // verus!

verus! {

/// Upserting the same external identity twice leaves exactly one row for
/// it — no duplicate is created — and that row carries the display names of
/// the later call and the id the later call returned.
pub proof fn lemma_upsert_round_trip(
    s: StoreModel,
    uid: Seq<char>,
    uin1: int,
    uin2: int,
    n1: Seq<char>,
    g1: Seq<char>,
    n2: Seq<char>,
    g2: Seq<char>,
)
    requires
        store_wf(s),
    ensures
        ({
            let s1 = spec_upsert(s, uid, uin1, n1, g1).0;
            let (s2, id2) = spec_upsert(s1, uid, uin2, n2, g2);
            &&& s2.members.len() == s1.members.len()
            &&& match find_uid_at(s2.members, uid) {
                Some(i) => {
                    &&& s2.members[i].external_uid == uid
                    &&& s2.members[i].nickname == n2
                    &&& s2.members[i].group_nickname == g2
                    &&& s2.members[i].id == id2
                    &&& forall|k: int|
                        0 <= k < s2.members.len() && k != i ==> (
                        #[trigger] s2.members[k]).external_uid != uid
                },
                None => false,
            }
        }),
{
    let s1 = spec_upsert(s, uid, uin1, n1, g1).0;
    let s2 = spec_upsert(s1, uid, uin2, n2, g2).0;
    lemma_find_uid_at_props(s.members, uid);
    match find_uid_at(s.members, uid) {
        Some(i) => {
            // the first upsert updated row i in place; nothing else matches,
            // because the starting roster held the identity only at i
            assert(s1.members[i].external_uid == uid);
            assert forall|k: int|
                0 <= k < s1.members.len() && k != i implies (
            #[trigger] s1.members[k]).external_uid != uid by {
                assert(s1.members[k] == s.members[k]);
            }
            lemma_find_uid_at_props(s1.members, uid);
            let i1 = find_uid_at(s1.members, uid)->Some_0;
            assert(s1.members[i1].external_uid == uid);
            assert(i1 == i);
            assert(s2.members[i].external_uid == uid);
            assert forall|k: int|
                0 <= k < s2.members.len() && k != i implies (
            #[trigger] s2.members[k]).external_uid != uid by {
                assert(s2.members[k] == s1.members[k]);
            }
            lemma_find_uid_at_props(s2.members, uid);
            let i2 = find_uid_at(s2.members, uid)->Some_0;
            assert(s2.members[i2].external_uid == uid);
            assert(i2 == i);
        },
        None => {
            // the first upsert appended the row at the end
            let n = s1.members.len() - 1;
            assert(s1.members[n].external_uid == uid);
            assert forall|k: int|
                0 <= k < s1.members.len() && k != n implies (
            #[trigger] s1.members[k]).external_uid != uid by {
                assert(s1.members[k] == s.members[k]);
            }
            lemma_find_uid_at_props(s1.members, uid);
            let i1 = find_uid_at(s1.members, uid)->Some_0;
            assert(s1.members[i1].external_uid == uid);
            assert(i1 == n);
            assert(s2.members[n].external_uid == uid);
            assert forall|k: int|
                0 <= k < s2.members.len() && k != n implies (
            #[trigger] s2.members[k]).external_uid != uid by {
                assert(s2.members[k] == s1.members[k]);
            }
            lemma_find_uid_at_props(s2.members, uid);
            let i2 = find_uid_at(s2.members, uid)->Some_0;
            assert(s2.members[i2].external_uid == uid);
            assert(i2 == n);
        },
    }
}

} // verus!

verus! {

/// Upserting is idempotent: repeating a call with the very same input
/// changes nothing further and returns the same row id.
pub proof fn lemma_upsert_idempotent(
    s: StoreModel,
    uid: Seq<char>,
    uin: int,
    nickname: Seq<char>,
    group_nickname: Seq<char>,
)
    requires
        store_wf(s),
    ensures
        ({
            let (s1, id1) = spec_upsert(s, uid, uin, nickname, group_nickname);
            let (s2, id2) = spec_upsert(s1, uid, uin, nickname, group_nickname);
            s2 == s1 && id2 == id1
        }),
{
    let s1 = spec_upsert(s, uid, uin, nickname, group_nickname).0;
    lemma_find_uid_at_props(s.members, uid);
    match find_uid_at(s.members, uid) {
        Some(i) => {
            assert(s1.members[i].external_uid == uid);
            assert forall|k: int|
                0 <= k < s1.members.len() && k != i implies (
            #[trigger] s1.members[k]).external_uid != uid by {
                assert(s1.members[k] == s.members[k]);
            }
            lemma_find_uid_at_props(s1.members, uid);
            let i1 = find_uid_at(s1.members, uid)->Some_0;
            assert(s1.members[i1].external_uid == uid);
            assert(i1 == i);
            // rewriting the names a second time writes the same row back
            assert(s1.members.update(
                i,
                MemberV { nickname: nickname, group_nickname: group_nickname, ..s1.members[i] },
            ) =~= s1.members);
            assert(spec_upsert(s1, uid, uin, nickname, group_nickname).0 =~= s1);
        },
        None => {
            let n = s1.members.len() - 1;
            assert(s1.members[n].external_uid == uid);
            assert forall|k: int|
                0 <= k < s1.members.len() && k != n implies (
            #[trigger] s1.members[k]).external_uid != uid by {
                assert(s1.members[k] == s.members[k]);
            }
            lemma_find_uid_at_props(s1.members, uid);
            let i1 = find_uid_at(s1.members, uid)->Some_0;
            assert(s1.members[i1].external_uid == uid);
            assert(i1 == n);
            assert(s1.members.update(
                n,
                MemberV { nickname: nickname, group_nickname: group_nickname, ..s1.members[n] },
            ) =~= s1.members);
            assert(spec_upsert(s1, uid, uin, nickname, group_nickname).0 =~= s1);
        },
    }
}

} // verus!
