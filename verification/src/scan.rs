//! The absence scanner: over a ten-day lookback ending at the current
//! checkpoint, find members who never checked in at all, and members whose
//! most recent check-in is older than a seven-day warning boundary.

use vstd::prelude::*;

verus! {

use crate::clock::{SECS_PER_DAY, checkpoint, checkpoint_of, valid_instant};
use crate::daka::row_names;
use crate::models::ServiceResponse;
use crate::report::{ReportRow, RowV, sort_report_rows, sort_rows};
use crate::service::Service;
use crate::store::{EventV, MemberV, StoreModel, last_event_in_window};
use crate::textfmt::joined;
use vstd::string::StringExecFns;

/// Days of lookback: a member with no event this far back has missed.
pub const MISSED_LOOKBACK_DAYS: i64 = 10;

/// Days of warning: a member whose last event is older gets warned.
pub const WARNING_LOOKBACK_DAYS: i64 = 7;

/// Rows of members with no event at all in `[lo, hi)`, in roster order,
/// keyed by sort key then row id.
pub open spec fn missed_rows(members: Seq<MemberV>, events: Seq<EventV>, lo: int, hi: int) -> Seq<
    RowV,
>
    decreases members.len(),
{
    if members.len() == 0 {
        Seq::empty()
    } else {
        let rest = missed_rows(members.drop_last(), events, lo, hi);
        let m = members.last();
        match last_event_in_window(events, m.id, lo, hi) {
            Some(t) => rest,
            None => rest.push(
                RowV { name: m.group_nickname, time: Seq::empty(), k1: m.sort_key, k2: m.id, k3: 0 },
            ),
        }
    }
}

/// Rows of members whose most recent event in `[lo, hi)` lies before
/// `warn`, in roster order, keyed by sort key then row id.
pub open spec fn warning_rows(
    members: Seq<MemberV>,
    events: Seq<EventV>,
    lo: int,
    hi: int,
    warn: int,
) -> Seq<RowV>
    decreases members.len(),
{
    if members.len() == 0 {
        Seq::empty()
    } else {
        let rest = warning_rows(members.drop_last(), events, lo, hi, warn);
        let m = members.last();
        match last_event_in_window(events, m.id, lo, hi) {
            Some(t) => if t < warn {
                rest.push(
                    RowV {
                        name: m.group_nickname,
                        time: Seq::empty(),
                        k1: m.sort_key,
                        k2: m.id,
                        k3: 0,
                    },
                )
            } else {
                rest
            },
            None => rest,
        }
    }
}

/// The two scan lists for `now`: names of members who missed the whole
/// ten-day lookback, and names of members behind the seven-day warning
/// boundary, each in roster order (sort key, then row id).
pub open spec fn scan_names(s: StoreModel, now: int) -> (Seq<Seq<char>>, Seq<Seq<char>>) {
    let hi = checkpoint_of(now);
    let lo = hi - MISSED_LOOKBACK_DAYS * (SECS_PER_DAY as int);
    let warn = hi - WARNING_LOOKBACK_DAYS * (SECS_PER_DAY as int);
    (
        sort_rows(missed_rows(s.members, s.events, lo, hi)).map_values(|r: RowV| r.name),
        sort_rows(warning_rows(s.members, s.events, lo, hi, warn)).map_values(|r: RowV| r.name),
    )
}

/// The combined absence message: a fixed nobody-is-behind line when both
/// lists are empty, else a missed block and a warning block, each present
/// only when its list has names.
pub open spec fn absence_message(s: StoreModel, now: int) -> Seq<char> {
    let names = scan_names(s, now);
    if names.0.len() == 0 && names.1.len() == 0 {
        "没有人咕咕"@
    } else {
        let missed_block = if names.0.len() == 0 {
            Seq::<char>::empty()
        } else {
            "💢 10天没打卡：\n"@ + joined(names.0)
        };
        let warning_block = if names.1.len() == 0 {
            Seq::<char>::empty()
        } else {
            "⚠️ 7天没打卡：\n"@ + joined(names.1)
        };
        missed_block + "\n"@ + warning_block
    }
}

impl Service {
    /// The missed and warning name lists for the lookback ending at the
    /// checkpoint of `now`.
    pub fn query_missed_and_warning(&self, now: i64) -> (r: Result<
        (Vec<String>, Vec<String>),
        String,
    >)
        requires
            self.wf(),
            valid_instant(now as int),
        ensures
            r matches Ok(p) && p.0@.map_values(|s: String| s@) == scan_names(self@, now as int).0
                && p.1@.map_values(|s: String| s@) == scan_names(self@, now as int).1,
    {
        let hi = checkpoint(now);
        let lo = hi - MISSED_LOOKBACK_DAYS * SECS_PER_DAY;
        let warn = hi - WARNING_LOOKBACK_DAYS * SECS_PER_DAY;
        let ghost ms = self@.members;
        let ghost evs = self@.events;
        let mut missed: Vec<ReportRow> = Vec::new();
        let mut warning: Vec<ReportRow> = Vec::new();
        let mut i: usize = 0;
        proof {
            assert(missed@.map_values(|x: ReportRow| x@) =~= missed_rows(
                ms.take(0),
                evs,
                lo as int,
                hi as int,
            ));
            assert(warning@.map_values(|x: ReportRow| x@) =~= warning_rows(
                ms.take(0),
                evs,
                lo as int,
                hi as int,
                warn as int,
            ));
        }
        while i < self.members.len()
            invariant
                i <= self.members.len(),
                ms == self@.members,
                evs == self@.events,
                missed@.map_values(|x: ReportRow| x@) == missed_rows(
                    ms.take(i as int),
                    evs,
                    lo as int,
                    hi as int,
                ),
                warning@.map_values(|x: ReportRow| x@) == warning_rows(
                    ms.take(i as int),
                    evs,
                    lo as int,
                    hi as int,
                    warn as int,
                ),
            decreases self.members.len() - i,
        {
            proof {
                assert(ms.take(i as int + 1).drop_last() =~= ms.take(i as int));
                assert(ms.take(i as int + 1).last() == ms[i as int]);
            }
            let m = &self.members[i];
            match self.last_member_event_in_window(m.id, lo, hi) {
                Some(t) => {
                    if t < warn {
                        warning.push(
                            ReportRow {
                                name: m.group_nickname.clone(),
                                time: String::new(),
                                k1: m.sort_key,
                                k2: m.id,
                                k3: 0,
                            },
                        );
                        proof {
                            assert(warning@.map_values(|x: ReportRow| x@) =~= warning_rows(
                                ms.take(i as int + 1),
                                evs,
                                lo as int,
                                hi as int,
                                warn as int,
                            ));
                        }
                    }
                },
                None => {
                    missed.push(
                        ReportRow {
                            name: m.group_nickname.clone(),
                            time: String::new(),
                            k1: m.sort_key,
                            k2: m.id,
                            k3: 0,
                        },
                    );
                    proof {
                        assert(missed@.map_values(|x: ReportRow| x@) =~= missed_rows(
                            ms.take(i as int + 1),
                            evs,
                            lo as int,
                            hi as int,
                        ));
                    }
                },
            }
            i = i + 1;
        }
        proof {
            assert(ms.take(self.members.len() as int) =~= ms);
        }
        let missed = sort_report_rows(missed);
        let warning = sort_report_rows(warning);
        Ok((row_names(&missed), row_names(&warning)))
    }

    /// Serve an absence-scan command: report both cohorts, or say that
    /// nobody is behind.
    pub fn handle_absence_scan(&self, now: i64) -> (r: ServiceResponse)
        requires
            self.wf(),
            valid_instant(now as int),
        ensures
            r.ok,
            r.message@ == absence_message(self@, now as int),
    {
        let (missed, warn) = match self.query_missed_and_warning(now) {
            Ok(p) => p,
            Err(_) => {
                return ServiceResponse::err("咕咕查询失败：数据库错误".to_owned());
            },
        };
        if missed.is_empty() && warn.is_empty() {
            return ServiceResponse::ok("没有人咕咕".to_owned());
        }
        let mut msg = String::new();
        if !missed.is_empty() {
            msg.append("💢 10天没打卡：\n");
            let missed_line = crate::textfmt::join_names(&missed);
            msg.append(missed_line.as_str());
        }
        msg.append("\n");
        if !warn.is_empty() {
            msg.append("⚠️ 7天没打卡：\n");
            let warn_line = crate::textfmt::join_names(&warn);
            msg.append(warn_line.as_str());
        }
        ServiceResponse::ok(msg)
    }
}

} // verus!

verus! {

use crate::store::members_wf;

proof fn lemma_missed_rows_from_members(
    members: Seq<MemberV>,
    events: Seq<EventV>,
    lo: int,
    hi: int,
)
    ensures
        forall|i: int|
            0 <= i < missed_rows(members, events, lo, hi).len() ==> exists|j: int|
                0 <= j < members.len() && #[trigger] missed_rows(members, events, lo, hi)[i].k2
                    == (#[trigger] members[j]).id && last_event_in_window(
                    events,
                    members[j].id,
                    lo,
                    hi,
                ) is None,
    decreases members.len(),
{
    let r = missed_rows(members, events, lo, hi);
    if members.len() > 0 {
        let prev = members.drop_last();
        assert(forall|k: int| 0 <= k < prev.len() ==> #[trigger] prev[k] == members[k]);
        lemma_missed_rows_from_members(prev, events, lo, hi);
        let rest = missed_rows(prev, events, lo, hi);
        assert forall|i: int| 0 <= i < r.len() implies exists|j: int|
            0 <= j < members.len() && #[trigger] r[i].k2 == (#[trigger] members[j]).id
                && last_event_in_window(events, members[j].id, lo, hi) is None by {
            if i < rest.len() {
                let j0 = choose|j: int|
                    0 <= j < prev.len() && #[trigger] rest[i].k2 == (#[trigger] prev[j]).id
                        && last_event_in_window(events, prev[j].id, lo, hi) is None;
                assert(r[i].k2 == members[j0].id);
            } else {
                let n = members.len() - 1;
                assert(r[i].k2 == members[n].id);
            }
        }
    }
}

proof fn lemma_warning_rows_from_members(
    members: Seq<MemberV>,
    events: Seq<EventV>,
    lo: int,
    hi: int,
    warn: int,
)
    ensures
        forall|i: int|
            0 <= i < warning_rows(members, events, lo, hi, warn).len() ==> exists|j: int|
                0 <= j < members.len() && #[trigger] warning_rows(
                    members,
                    events,
                    lo,
                    hi,
                    warn,
                )[i].k2 == (#[trigger] members[j]).id && last_event_in_window(
                    events,
                    members[j].id,
                    lo,
                    hi,
                ) is Some,
    decreases members.len(),
{
    let r = warning_rows(members, events, lo, hi, warn);
    if members.len() > 0 {
        let prev = members.drop_last();
        assert(forall|k: int| 0 <= k < prev.len() ==> #[trigger] prev[k] == members[k]);
        lemma_warning_rows_from_members(prev, events, lo, hi, warn);
        let rest = warning_rows(prev, events, lo, hi, warn);
        assert forall|i: int| 0 <= i < r.len() implies exists|j: int|
            0 <= j < members.len() && #[trigger] r[i].k2 == (#[trigger] members[j]).id
                && last_event_in_window(events, members[j].id, lo, hi) is Some by {
            if i < rest.len() {
                let j0 = choose|j: int|
                    0 <= j < prev.len() && #[trigger] rest[i].k2 == (#[trigger] prev[j]).id
                        && last_event_in_window(events, prev[j].id, lo, hi) is Some;
                assert(r[i].k2 == members[j0].id);
            } else {
                let n = members.len() - 1;
                assert(r[i].k2 == members[n].id);
            }
        }
    }
}

/// The two cohorts come from disjoint predicates: a member missed the
/// whole lookback exactly when no event exists there, while a warning
/// needs one, so no member row lands in both lists.
pub proof fn lemma_cohorts_disjoint(
    members: Seq<MemberV>,
    events: Seq<EventV>,
    lo: int,
    hi: int,
    warn: int,
    id_bound: int,
)
    requires
        members_wf(members, id_bound),
    ensures
        forall|i: int, j: int|
            0 <= i < missed_rows(members, events, lo, hi).len() && 0 <= j < warning_rows(
                members,
                events,
                lo,
                hi,
                warn,
            ).len() ==> #[trigger] missed_rows(members, events, lo, hi)[i].k2 != #[trigger] warning_rows(
                members,
                events,
                lo,
                hi,
                warn,
            )[j].k2,
{
    lemma_missed_rows_from_members(members, events, lo, hi);
    lemma_warning_rows_from_members(members, events, lo, hi, warn);
    let m = missed_rows(members, events, lo, hi);
    let w = warning_rows(members, events, lo, hi, warn);
    assert forall|i: int, j: int| 0 <= i < m.len() && 0 <= j < w.len() implies #[trigger] m[i].k2
        != #[trigger] w[j].k2 by {
        let j1 = choose|k: int|
            0 <= k < members.len() && #[trigger] m[i].k2 == (#[trigger] members[k]).id
                && last_event_in_window(events, members[k].id, lo, hi) is None;
        let j2 = choose|k: int|
            0 <= k < members.len() && #[trigger] w[j].k2 == (#[trigger] members[k]).id
                && last_event_in_window(events, members[k].id, lo, hi) is Some;
        if m[i].k2 == w[j].k2 {
            // distinct member ids force the two witnesses together, but one
            // member cannot both lack and have an event in the lookback
            if j1 < j2 {
                assert(members[j1].id < members[j2].id);
            }
            if j2 < j1 {
                assert(members[j2].id < members[j1].id);
            }
            assert(j1 == j2);
        }
    }
}

} // verus!
