//! The check-in ledger: an idempotent conditional insert and a
//! window-scoped undo, one event at most per member per attendance day.

use vstd::prelude::*;

verus! {

use crate::clock::{checkpoint, checkpoint_of, valid_instant};
use crate::service::Service;
use crate::store::{CheckInEvent, EventV, StoreModel, events_wf, has_event_since};

/// Result of a check-in.
#[derive(Clone, Copy, PartialEq, Eq, Structural, Debug)]
pub enum CheckInOutcome {
    /// A new event was inserted for this attendance day.
    Recorded,
    /// The member already had an event in this attendance day.
    AlreadyPresent,
}

/// Result of an undo.
#[derive(Clone, Copy, PartialEq, Eq, Structural, Debug)]
pub enum UndoOutcome {
    /// At least one event of this attendance day was deleted.
    Removed,
    /// The member had no event in this attendance day.
    NothingToUndo,
}

/// Engine failure: the store could not take the write.
#[derive(Clone, Copy, PartialEq, Eq, Structural, Debug)]
pub enum EngineError {
    Storage,
}

/// The outcome and store after a check-in at `now`: one new event for the
/// member, unless the member already has an event at or after the current
/// checkpoint.
pub open spec fn spec_check_in(s: StoreModel, member_id: int, now: int) -> (
    CheckInOutcome,
    StoreModel,
) {
    if has_event_since(s.events, member_id, checkpoint_of(now)) {
        (CheckInOutcome::AlreadyPresent, s)
    } else {
        (
            CheckInOutcome::Recorded,
            StoreModel {
                events: s.events.push(
                    EventV { id: s.next_event_id, member_id: member_id, created_at: now },
                ),
                next_event_id: s.next_event_id + 1,
                ..s
            },
        )
    }
}

/// Events kept by an undo: everything except the member's events at or
/// after the checkpoint `c`.
pub open spec fn remove_events_since(events: Seq<EventV>, member_id: int, c: int) -> Seq<EventV>
    decreases events.len(),
{
    if events.len() == 0 {
        Seq::empty()
    } else {
        let rest = remove_events_since(events.drop_last(), member_id, c);
        let e = events.last();
        if e.member_id == member_id && e.created_at >= c {
            rest
        } else {
            rest.push(e)
        }
    }
}

/// The outcome and store after an undo at `now`: all of the member's events
/// at or after the current checkpoint are deleted.
pub open spec fn spec_undo_check_in(s: StoreModel, member_id: int, now: int) -> (
    UndoOutcome,
    StoreModel,
) {
    if has_event_since(s.events, member_id, checkpoint_of(now)) {
        (
            UndoOutcome::Removed,
            StoreModel {
                events: remove_events_since(s.events, member_id, checkpoint_of(now)),
                ..s
            },
        )
    } else {
        (UndoOutcome::NothingToUndo, s)
    }
}

/// Deleting rows keeps the event log well formed: every kept row was
/// already stored, and kept rows keep their relative order.
pub proof fn lemma_remove_events_wf(events: Seq<EventV>, member_id: int, c: int, bound: int)
    requires
        events_wf(events, bound),
    ensures
        events_wf(remove_events_since(events, member_id, c), bound),
        forall|i: int|
            0 <= i < remove_events_since(events, member_id, c).len() ==> exists|j: int|
                0 <= j < events.len() && #[trigger] remove_events_since(events, member_id, c)[i]
                    == #[trigger] events[j],
    decreases events.len(),
{
    let r = remove_events_since(events, member_id, c);
    if events.len() > 0 {
        let prev = events.drop_last();
        assert(forall|k: int| 0 <= k < prev.len() ==> prev[k] == events[k]);
        assert(events_wf(prev, bound));
        lemma_remove_events_wf(prev, member_id, c, bound);
        let rest = remove_events_since(prev, member_id, c);
        let e = events.last();
        assert forall|i: int| 0 <= i < r.len() implies exists|j: int|
            0 <= j < events.len() && #[trigger] r[i] == #[trigger] events[j] by {
            if i < rest.len() {
                let j0 = choose|j: int| 0 <= j < prev.len() && rest[i] == prev[j];
                assert(r[i] == events[j0]);
            } else {
                assert(r[i] == events[events.len() - 1]);
            }
        }
        if !(e.member_id == member_id && e.created_at >= c) {
            // r == rest.push(e): pairs inside rest come from the induction
            // hypothesis; pairs against e come from e being the last stored
            // row, which carries the largest id.
            assert forall|i: int, j: int| 0 <= i < j < r.len() implies (#[trigger] r[i]).id < (
            #[trigger] r[j]).id by {
                if j == r.len() - 1 {
                    let j0 = choose|k: int| 0 <= k < prev.len() && rest[i] == prev[k];
                    assert(r[i] == events[j0]);
                    assert(r[j] == events[events.len() - 1]);
                }
            }
            assert forall|i: int, j: int|
                0 <= i < j < r.len() && (#[trigger] r[i]).member_id == (
                #[trigger] r[j]).member_id implies r[i].created_at < checkpoint_of(
                r[j].created_at,
            ) by {
                if j == r.len() - 1 {
                    let j0 = choose|k: int| 0 <= k < prev.len() && rest[i] == prev[k];
                    assert(r[i] == events[j0]);
                    assert(r[j] == events[events.len() - 1]);
                }
            }
        }
    }
}

/// After an undo, no event of the member remains at or after `c`.
pub proof fn lemma_remove_events_complete(events: Seq<EventV>, member_id: int, c: int)
    ensures
        !has_event_since(remove_events_since(events, member_id, c), member_id, c),
    decreases events.len(),
{
    let r = remove_events_since(events, member_id, c);
    if events.len() > 0 {
        let prev = events.drop_last();
        lemma_remove_events_complete(prev, member_id, c);
        let rest = remove_events_since(prev, member_id, c);
        let e = events.last();
        if has_event_since(r, member_id, c) {
            let i = choose|i: int|
                0 <= i < r.len() && (#[trigger] r[i]).member_id == member_id && r[i].created_at
                    >= c;
            if !(e.member_id == member_id && e.created_at >= c) {
                if i < rest.len() {
                    assert(rest[i].member_id == member_id && rest[i].created_at >= c);
                } else {
                    assert(r[i] == e);
                }
            }
        }
    }
}

impl Service {
    /// Whether the member has any stored event at or after the checkpoint.
    fn has_member_event_since(&self, member_id: i64, c: i64) -> (r: bool)
        ensures
            r == has_event_since(self@.events, member_id as int, c as int),
    {
        let ghost evs = self@.events;
        let mut i: usize = 0;
        while i < self.events.len()
            invariant
                i <= self.events.len(),
                evs == self@.events,
                forall|k: int|
                    0 <= k < i ==> !((#[trigger] evs[k]).member_id == member_id as int
                        && evs[k].created_at >= c as int),
            decreases self.events.len() - i,
        {
            if self.events[i].member_id == member_id && self.events[i].created_at >= c {
                proof {
                    assert(evs[i as int].member_id == member_id as int && evs[i as int].created_at
                        >= c as int);
                }
                return true;
            }
            i = i + 1;
        }
        false
    }

    /// Record the member's presence for the attendance day of `now`: insert
    /// one event unless one already exists at or after the checkpoint.
    /// Fails only when the store's id space is exhausted.
    pub fn check_in(&mut self, member_id: i64, now: i64) -> (r: Result<
        CheckInOutcome,
        EngineError,
    >)
        requires
            old(self).wf(),
            valid_instant(now as int),
        ensures
            final(self).wf(),
            ({
                let (outcome, s2) = spec_check_in(old(self)@, member_id as int, now as int);
                if outcome == CheckInOutcome::AlreadyPresent || old(self)@.next_event_id
                    < i64::MAX {
                    &&& r matches Ok(o) && o == outcome
                    &&& final(self)@ == s2
                } else {
                    &&& r matches Err(e) && e == EngineError::Storage
                    &&& final(self)@ == old(self)@
                }
            }),
    {
        let c = checkpoint(now);
        if self.has_member_event_since(member_id, c) {
            Ok(CheckInOutcome::AlreadyPresent)
        } else {
            if self.next_event_id == i64::MAX {
                return Err(EngineError::Storage);
            }
            let id = self.next_event_id;
            self.events.push(CheckInEvent { id, member_id, created_at: now });
            self.next_event_id = id + 1;
            proof {
                let f = |e: CheckInEvent| e@;
                let newv = EventV {
                    id: id as int,
                    member_id: member_id as int,
                    created_at: now as int,
                };
                assert(self.events@.map_values(f) =~= old(self).events@.map_values(f).push(newv));
                assert(self@ =~= spec_check_in(old(self)@, member_id as int, now as int).1);
                // the new event is in bounds and later than every event of
                // this member, so the log stays well formed
                let evs = self@.events;
                let olds = old(self)@.events;
                assert forall|i: int, j: int|
                    0 <= i < j < evs.len() && (#[trigger] evs[i]).member_id == (
                    #[trigger] evs[j]).member_id implies evs[i].created_at < checkpoint_of(
                    evs[j].created_at,
                ) by {
                    if j == evs.len() - 1 {
                        assert(!(olds[i].member_id == member_id as int && olds[i].created_at
                            >= checkpoint_of(now as int)));
                    }
                }
            }
            Ok(CheckInOutcome::Recorded)
        }
    }

    /// Delete all of the member's events in the attendance day of `now`
    /// (a defensive cleanup: every matching row goes, not just one).
    pub fn undo_check_in(&mut self, member_id: i64, now: i64) -> (r: UndoOutcome)
        requires
            old(self).wf(),
            valid_instant(now as int),
        ensures
            final(self).wf(),
            ({
                let (outcome, s2) = spec_undo_check_in(old(self)@, member_id as int, now as int);
                r == outcome && final(self)@ == s2
            }),
    {
        let c = checkpoint(now);
        let ghost evs = old(self)@.events;
        let mut kept: Vec<CheckInEvent> = Vec::new();
        let mut removed_any = false;
        let mut i: usize = 0;
        proof {
            assert(kept@.map_values(|e: CheckInEvent| e@) =~= remove_events_since(
                evs.take(0),
                member_id as int,
                c as int,
            ));
        }
        while i < self.events.len()
            invariant
                i <= self.events.len(),
                self == old(self),
                evs == self@.events,
                c as int == checkpoint_of(now as int),
                kept@.map_values(|e: CheckInEvent| e@) == remove_events_since(
                    evs.take(i as int),
                    member_id as int,
                    c as int,
                ),
                removed_any == has_event_since(evs.take(i as int), member_id as int, c as int),
            decreases self.events.len() - i,
        {
            let e = self.events[i];
            proof {
                assert(evs.take(i as int + 1).drop_last() =~= evs.take(i as int));
                assert(evs.take(i as int + 1).last() == evs[i as int]);
            }
            if e.member_id == member_id && e.created_at >= c {
                proof {
                    assert(evs.take(i as int + 1)[i as int].member_id == member_id as int
                        && evs.take(i as int + 1)[i as int].created_at >= c as int);
                }
                removed_any = true;
            } else {
                kept.push(e);
                proof {
                    assert(kept@.map_values(|e: CheckInEvent| e@) =~= remove_events_since(
                        evs.take(i as int + 1),
                        member_id as int,
                        c as int,
                    ));
                    // an event here neither creates nor destroys a match
                    if has_event_since(evs.take(i as int + 1), member_id as int, c as int) {
                        let w = choose|k: int|
                            0 <= k < evs.take(i as int + 1).len() && (#[trigger] evs.take(
                                i as int + 1,
                            )[k]).member_id == member_id as int && evs.take(
                                i as int + 1,
                            )[k].created_at >= c as int;
                        assert(evs.take(i as int)[w].member_id == member_id as int && evs.take(
                            i as int,
                        )[w].created_at >= c as int);
                    }
                    if has_event_since(evs.take(i as int), member_id as int, c as int) {
                        let w = choose|k: int|
                            0 <= k < evs.take(i as int).len() && (#[trigger] evs.take(
                                i as int,
                            )[k]).member_id == member_id as int && evs.take(
                                i as int,
                            )[k].created_at >= c as int;
                        assert(evs.take(i as int + 1)[w].member_id == member_id as int && evs.take(
                            i as int + 1,
                        )[w].created_at >= c as int);
                    }
                }
            }
            i = i + 1;
        }
        proof {
            assert(evs.take(self.events.len() as int) =~= evs);
        }
        if removed_any {
            self.events = kept;
            proof {
                lemma_remove_events_wf(
                    old(self)@.events,
                    member_id as int,
                    c as int,
                    old(self)@.next_event_id,
                );
                assert(self@ =~= spec_undo_check_in(old(self)@, member_id as int, now as int).1);
            }
            UndoOutcome::Removed
        } else {
            UndoOutcome::NothingToUndo
        }
    }
}

/// Within one attendance day a second check-in changes nothing: whatever
/// the first call did, a second call whose `now` has the same checkpoint
/// reports the member as already present and leaves the store as it was.
pub proof fn lemma_check_in_idempotent(s: StoreModel, member_id: int, now1: int, now2: int)
    requires
        checkpoint_of(now1) <= now1,
        checkpoint_of(now2) == checkpoint_of(now1),
    ensures
        spec_check_in(spec_check_in(s, member_id, now1).1, member_id, now2) == (
            CheckInOutcome::AlreadyPresent,
            spec_check_in(s, member_id, now1).1,
        ),
{
    let c = checkpoint_of(now1);
    let s1 = spec_check_in(s, member_id, now1).1;
    if has_event_since(s.events, member_id, c) {
        assert(s1 == s);
    } else {
        let n = s1.events.len() - 1;
        assert(s1.events[n].member_id == member_id && s1.events[n].created_at >= c);
    }
    assert(has_event_since(s1.events, member_id, checkpoint_of(now2)));
}

/// After any check-in, an undo in the same attendance day removes the
/// member's events; a second undo right after finds nothing and changes
/// nothing.
pub proof fn lemma_undo_round_trip(s: StoreModel, member_id: int, now1: int, now2: int, now3: int)
    requires
        checkpoint_of(now1) <= now1,
        checkpoint_of(now2) == checkpoint_of(now1),
        checkpoint_of(now3) == checkpoint_of(now1),
    ensures
        spec_undo_check_in(spec_check_in(s, member_id, now1).1, member_id, now2).0
            == UndoOutcome::Removed,
        ({
            let s2 = spec_undo_check_in(spec_check_in(s, member_id, now1).1, member_id, now2).1;
            spec_undo_check_in(s2, member_id, now3) == (UndoOutcome::NothingToUndo, s2)
        }),
{
    let c = checkpoint_of(now1);
    let s1 = spec_check_in(s, member_id, now1).1;
    if has_event_since(s.events, member_id, c) {
        assert(s1 == s);
    } else {
        let n = s1.events.len() - 1;
        assert(s1.events[n].member_id == member_id && s1.events[n].created_at >= c);
    }
    assert(has_event_since(s1.events, member_id, checkpoint_of(now2)));
    lemma_remove_events_complete(s1.events, member_id, c);
}

} // verus!
