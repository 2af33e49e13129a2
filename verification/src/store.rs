//! The engine's store model: member and check-in-event records, the store's
//! well-formedness invariant, and the spec-level queries the contracts are
//! written over.
//!
//! Records live in insertion order; row ids grow strictly, so insertion
//! order and id order coincide.

use vstd::prelude::*;

verus! {

use crate::clock::{checkpoint_of, valid_instant};

/// A member row: stable external identity plus display data.
pub struct Member {
    pub id: i64,
    pub external_uid: String,
    pub external_uin: u32,
    pub nickname: String,
    pub group_nickname: String,
    pub sort_key: i64,
    pub credential: String,
}

/// Spec-level image of a member row.
#[verifier::ext_equal]
pub ghost struct MemberV {
    pub id: int,
    pub external_uid: Seq<char>,
    pub external_uin: int,
    pub nickname: Seq<char>,
    pub group_nickname: Seq<char>,
    pub sort_key: int,
    pub credential: Seq<char>,
}

impl View for Member {
    type V = MemberV;

    open spec fn view(&self) -> MemberV {
        MemberV {
            id: self.id as int,
            external_uid: self.external_uid@,
            external_uin: self.external_uin as int,
            nickname: self.nickname@,
            group_nickname: self.group_nickname@,
            sort_key: self.sort_key as int,
            credential: self.credential@,
        }
    }
}

/// A check-in event row: one member's presence at one instant.
#[derive(Clone, Copy)]
pub struct CheckInEvent {
    pub id: i64,
    pub member_id: i64,
    pub created_at: i64,
}

/// Spec-level image of an event row.
#[verifier::ext_equal]
pub ghost struct EventV {
    pub id: int,
    pub member_id: int,
    pub created_at: int,
}

impl View for CheckInEvent {
    type V = EventV;

    open spec fn view(&self) -> EventV {
        EventV {
            id: self.id as int,
            member_id: self.member_id as int,
            created_at: self.created_at as int,
        }
    }
}

/// Spec-level image of the whole store.
#[verifier::ext_equal]
pub ghost struct StoreModel {
    pub members: Seq<MemberV>,
    pub events: Seq<EventV>,
    pub next_member_id: int,
    pub next_event_id: int,
}

/// Member rows are well formed: positive ids below the id counter, strictly
/// increasing (so unique), and unique external identities.
pub open spec fn members_wf(members: Seq<MemberV>, id_bound: int) -> bool {
    &&& forall|i: int| 0 <= i < members.len() ==> 0 < (#[trigger] members[i]).id < id_bound
    &&& forall|i: int, j: int|
        0 <= i < j < members.len() ==> (#[trigger] members[i]).id < (#[trigger] members[j]).id
    &&& forall|i: int, j: int|
        0 <= i < j < members.len() ==> (#[trigger] members[i]).external_uid != (
        #[trigger] members[j]).external_uid
}

/// Event rows are well formed: positive ids below the id counter, strictly
/// increasing, timestamps in range, and — the ledger invariant — any earlier
/// event of a member lies strictly before the attendance day of any later
/// event of the same member.
pub open spec fn events_wf(events: Seq<EventV>, id_bound: int) -> bool {
    &&& forall|i: int| 0 <= i < events.len() ==> 0 < (#[trigger] events[i]).id < id_bound
    &&& forall|i: int, j: int|
        0 <= i < j < events.len() ==> (#[trigger] events[i]).id < (#[trigger] events[j]).id
    &&& forall|i: int|
        0 <= i < events.len() ==> valid_instant((#[trigger] events[i]).created_at)
    &&& forall|i: int, j: int|
        0 <= i < j < events.len() && (#[trigger] events[i]).member_id == (
        #[trigger] events[j]).member_id ==> events[i].created_at < checkpoint_of(
            events[j].created_at,
        )
}

pub open spec fn store_wf(s: StoreModel) -> bool {
    &&& 0 < s.next_member_id
    &&& 0 < s.next_event_id
    &&& members_wf(s.members, s.next_member_id)
    &&& events_wf(s.events, s.next_event_id)
}

/// Index of the first member with the given external identity.
pub open spec fn find_uid_at(members: Seq<MemberV>, uid: Seq<char>) -> Option<int>
    decreases members.len(),
{
    if members.len() == 0 {
        None
    } else if members[0].external_uid == uid {
        Some(0int)
    } else {
        match find_uid_at(members.skip(1), uid) {
            Some(j) => Some(j + 1),
            None => None,
        }
    }
}

/// What `find_uid_at` returns: the first match, or nothing when no row
/// carries the identity.
pub proof fn lemma_find_uid_at_props(members: Seq<MemberV>, uid: Seq<char>)
    ensures
        match find_uid_at(members, uid) {
            Some(i) => {
                &&& 0 <= i < members.len()
                &&& members[i].external_uid == uid
                &&& forall|k: int| 0 <= k < i ==> (#[trigger] members[k]).external_uid != uid
            },
            None => forall|k: int|
                0 <= k < members.len() ==> (#[trigger] members[k]).external_uid != uid,
        },
    decreases members.len(),
{
    if members.len() > 0 && members[0].external_uid != uid {
        lemma_find_uid_at_props(members.skip(1), uid);
        assert(forall|k: int|
            1 <= k < members.len() ==> #[trigger] members[k] == members.skip(1)[k - 1]);
    }
}

/// Index of the first member with the given external account number.
pub open spec fn find_uin_at(members: Seq<MemberV>, uin: int) -> Option<int>
    decreases members.len(),
{
    if members.len() == 0 {
        None
    } else if members[0].external_uin == uin {
        Some(0int)
    } else {
        match find_uin_at(members.skip(1), uin) {
            Some(j) => Some(j + 1),
            None => None,
        }
    }
}

pub proof fn lemma_find_uin_at_props(members: Seq<MemberV>, uin: int)
    ensures
        match find_uin_at(members, uin) {
            Some(i) => {
                &&& 0 <= i < members.len()
                &&& members[i].external_uin == uin
                &&& forall|k: int| 0 <= k < i ==> (#[trigger] members[k]).external_uin != uin
            },
            None => forall|k: int|
                0 <= k < members.len() ==> (#[trigger] members[k]).external_uin != uin,
        },
    decreases members.len(),
{
    if members.len() > 0 && members[0].external_uin != uin {
        lemma_find_uin_at_props(members.skip(1), uin);
        assert(forall|k: int|
            1 <= k < members.len() ==> #[trigger] members[k] == members.skip(1)[k - 1]);
    }
}

/// Index of the first member with the given row id.
pub open spec fn find_id_at(members: Seq<MemberV>, id: int) -> Option<int>
    decreases members.len(),
{
    if members.len() == 0 {
        None
    } else if members[0].id == id {
        Some(0int)
    } else {
        match find_id_at(members.skip(1), id) {
            Some(j) => Some(j + 1),
            None => None,
        }
    }
}

pub proof fn lemma_find_id_at_props(members: Seq<MemberV>, id: int)
    ensures
        match find_id_at(members, id) {
            Some(i) => {
                &&& 0 <= i < members.len()
                &&& members[i].id == id
                &&& forall|k: int| 0 <= k < i ==> (#[trigger] members[k]).id != id
            },
            None => forall|k: int| 0 <= k < members.len() ==> (#[trigger] members[k]).id != id,
        },
    decreases members.len(),
{
    if members.len() > 0 && members[0].id != id {
        lemma_find_id_at_props(members.skip(1), id);
        assert(forall|k: int|
            1 <= k < members.len() ==> #[trigger] members[k] == members.skip(1)[k - 1]);
    }
}

/// Whether the member has any event at or after the checkpoint `c`.
pub open spec fn has_event_since(events: Seq<EventV>, member_id: int, c: int) -> bool {
    exists|i: int|
        0 <= i < events.len() && (#[trigger] events[i]).member_id == member_id
            && events[i].created_at >= c
}

/// Timestamp of the member's most recent event with `lo <= created_at < hi`
/// — most recent meaning the one inserted last.
pub open spec fn last_event_in_window(
    events: Seq<EventV>,
    member_id: int,
    lo: int,
    hi: int,
) -> Option<int>
    decreases events.len(),
{
    if events.len() == 0 {
        None
    } else if events.last().member_id == member_id && lo <= events.last().created_at
        < hi {
        Some(events.last().created_at)
    } else {
        last_event_in_window(events.drop_last(), member_id, lo, hi)
    }
}

/// A found timestamp belongs to a stored event, so it inherits the stored
/// events' bounds.
pub proof fn lemma_last_event_is_stored(events: Seq<EventV>, member_id: int, lo: int, hi: int)
    ensures
        match last_event_in_window(events, member_id, lo, hi) {
            Some(t) => exists|i: int|
                0 <= i < events.len() && (#[trigger] events[i]).member_id == member_id
                    && events[i].created_at == t && lo <= t < hi,
            None => true,
        },
    decreases events.len(),
{
    if events.len() > 0 {
        if !(events.last().member_id == member_id && lo <= events.last().created_at < hi) {
            lemma_last_event_is_stored(events.drop_last(), member_id, lo, hi);
            if last_event_in_window(events, member_id, lo, hi) is Some {
                let t = last_event_in_window(events, member_id, lo, hi)->Some_0;
                let i = choose|i: int|
                    0 <= i < events.drop_last().len() && (#[trigger] events.drop_last()[i]).member_id
                        == member_id && events.drop_last()[i].created_at == t && lo <= t < hi;
                assert(events[i].member_id == member_id && events[i].created_at == t);
            }
        }
    }
}

} // verus!

verus! {

/// The ledger invariant, read at window level: within one attendance day
/// (an aligned half-open 24-hour window) a member has at most one event, so
/// two events of one member inside the window are one and the same.
pub proof fn lemma_one_event_per_window(events: Seq<EventV>, bound: int, c: int, i: int, j: int)
    requires
        events_wf(events, bound),
        crate::clock::is_checkpoint(c),
        0 <= i < events.len(),
        0 <= j < events.len(),
        events[i].member_id == events[j].member_id,
        c <= events[i].created_at < c + crate::clock::SECS_PER_DAY,
        c <= events[j].created_at < c + crate::clock::SECS_PER_DAY,
    ensures
        i == j,
{
    if i < j {
        crate::clock::lemma_checkpoint_idempotent(c, events[j].created_at);
    }
    if j < i {
        crate::clock::lemma_checkpoint_idempotent(c, events[i].created_at);
    }
}

} // verus!
