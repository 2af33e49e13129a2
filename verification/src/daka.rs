//! The daily report builder and day listing: join the roster with the
//! ledger for one attendance day, partition present from absent, order both
//! sides, and render the report text.

use vstd::prelude::*;

verus! {

use crate::calendar::{
    day_of_date_str, is_valid_date_str, month_of_date_str, parse_date, year_of_date_str,
};
use crate::clock::{
    MAX_INSTANT, SECS_PER_DAY, checkpoint, checkpoint_of, checkpoint_of_date, civil_of_checkpoint,
    date_checkpoint, checkpoint_civil, lemma_checkpoint_monotonic, valid_instant,
};
use crate::report::{ReportRow, RowV, sort_report_rows, sort_rows};
use crate::service::Service;
use crate::store::{EventV, MemberV, StoreModel, last_event_in_window, lemma_last_event_is_stored};
use crate::textfmt::{dec_str, dec_text, hhmm_str, hhmm_text, join_names, joined};
use vstd::string::StringExecFns;

/// An executable optional instant, as a spec value.
pub open spec fn opt_instant(o: Option<i64>) -> Option<int> {
    match o {
        Some(t) => Some(t as int),
        None => None,
    }
}

/// Rows of members with a check-in in `[c, c + 24h)`, in roster order,
/// keyed for the report's present line: check-in time, then sort key, then
/// row id.
pub open spec fn present_rows(members: Seq<MemberV>, events: Seq<EventV>, c: int) -> Seq<RowV>
    decreases members.len(),
{
    if members.len() == 0 {
        Seq::empty()
    } else {
        let rest = present_rows(members.drop_last(), events, c);
        let m = members.last();
        match last_event_in_window(events, m.id, c, c + SECS_PER_DAY as int) {
            Some(t) => rest.push(
                RowV { name: m.group_nickname, time: hhmm_str(t), k1: t, k2: m.sort_key, k3: m.id },
            ),
            None => rest,
        }
    }
}

/// Rows of members without a check-in in `[c, c + 24h)`, in roster order,
/// keyed for the report's absent line: sort key, then row id.
pub open spec fn absent_rows(members: Seq<MemberV>, events: Seq<EventV>, c: int) -> Seq<RowV>
    decreases members.len(),
{
    if members.len() == 0 {
        Seq::empty()
    } else {
        let rest = absent_rows(members.drop_last(), events, c);
        let m = members.last();
        match last_event_in_window(events, m.id, c, c + SECS_PER_DAY as int) {
            Some(t) => rest,
            None => rest.push(
                RowV { name: m.group_nickname, time: Seq::empty(), k1: m.sort_key, k2: m.id, k3: 0 },
            ),
        }
    }
}

/// The daily report text for the attendance day of `now`: the fixed
/// nobody-checked-in message when no member has an event in the window;
/// otherwise a month/day header, the present names ordered by check-in time
/// (ties by sort key, then id) with a success glyph, and the absent names
/// ordered by sort key then id with a failure glyph.
pub open spec fn report_str(s: StoreModel, now: int) -> Seq<char> {
    let c = checkpoint_of(now);
    let present = sort_rows(present_rows(s.members, s.events, c));
    if present.len() == 0 {
        "今日无人打卡"@
    } else {
        let absent = sort_rows(absent_rows(s.members, s.events, c));
        let md = civil_of_checkpoint(c);
        dec_str(md.1) + "/"@ + dec_str(md.2) + "\n"@ + joined(
            present.map_values(|r: RowV| r.name),
        ) + " ✅\n"@ + joined(absent.map_values(|r: RowV| r.name)) + " ❌"@
    }
}

impl Service {
    /// Timestamp of the member's most recent stored event inside the
    /// half-open window `[lo, hi)`.
    pub(crate) fn last_member_event_in_window(&self, member_id: i64, lo: i64, hi: i64) -> (r: Option<i64>)
        ensures
            opt_instant(r) == last_event_in_window(
                self@.events,
                member_id as int,
                lo as int,
                hi as int,
            ),
    {
        let ghost evs = self@.events;
        let mut found: Option<i64> = None;
        let mut i: usize = 0;
        while i < self.events.len()
            invariant
                i <= self.events.len(),
                evs == self@.events,
                opt_instant(found) == last_event_in_window(
                    evs.take(i as int),
                    member_id as int,
                    lo as int,
                    hi as int,
                ),
            decreases self.events.len() - i,
        {
            let e = self.events[i];
            proof {
                assert(evs.take(i as int + 1).drop_last() =~= evs.take(i as int));
                assert(evs.take(i as int + 1).last() == evs[i as int]);
            }
            if e.member_id == member_id && lo <= e.created_at && e.created_at < hi {
                found = Some(e.created_at);
            }
            i = i + 1;
        }
        proof {
            assert(evs.take(self.events.len() as int) =~= evs);
        }
        found
    }

    /// The present and absent rows of the attendance day starting at the
    /// checkpoint `c`, in roster order.
    fn window_rows(&self, c: i64) -> (r: (Vec<ReportRow>, Vec<ReportRow>))
        requires
            self.wf(),
            c <= MAX_INSTANT,
        ensures
            r.0@.map_values(|x: ReportRow| x@) == present_rows(
                self@.members,
                self@.events,
                c as int,
            ),
            r.1@.map_values(|x: ReportRow| x@) == absent_rows(self@.members, self@.events, c as int),
    {
        let ghost ms = self@.members;
        let ghost evs = self@.events;
        let hi = c + SECS_PER_DAY;
        let mut present: Vec<ReportRow> = Vec::new();
        let mut absent: Vec<ReportRow> = Vec::new();
        let mut i: usize = 0;
        proof {
            assert(present@.map_values(|x: ReportRow| x@) =~= present_rows(
                ms.take(0),
                evs,
                c as int,
            ));
            assert(absent@.map_values(|x: ReportRow| x@) =~= absent_rows(ms.take(0), evs, c as int));
        }
        while i < self.members.len()
            invariant
                i <= self.members.len(),
                ms == self@.members,
                evs == self@.events,
                self.wf(),
                hi as int == c as int + SECS_PER_DAY as int,
                present@.map_values(|x: ReportRow| x@) == present_rows(
                    ms.take(i as int),
                    evs,
                    c as int,
                ),
                absent@.map_values(|x: ReportRow| x@) == absent_rows(
                    ms.take(i as int),
                    evs,
                    c as int,
                ),
            decreases self.members.len() - i,
        {
            proof {
                assert(ms.take(i as int + 1).drop_last() =~= ms.take(i as int));
                assert(ms.take(i as int + 1).last() == ms[i as int]);
            }
            let m = &self.members[i];
            match self.last_member_event_in_window(m.id, c, hi) {
                Some(t) => {
                    proof {
                        // the timestamp comes from a stored event, so it is
                        // a valid instant and safe to render
                        lemma_last_event_is_stored(evs, m.id as int, c as int, hi as int);
                        let j = choose|j: int|
                            0 <= j < evs.len() && (#[trigger] evs[j]).member_id == m.id as int
                                && evs[j].created_at == t as int && c as int <= t as int
                                && (t as int) < hi as int;
                        assert(valid_instant(evs[j].created_at));
                    }
                    let time = hhmm_text(t);
                    present.push(
                        ReportRow {
                            name: m.group_nickname.clone(),
                            time,
                            k1: t,
                            k2: m.sort_key,
                            k3: m.id,
                        },
                    );
                    proof {
                        assert(present@.map_values(|x: ReportRow| x@) =~= present_rows(
                            ms.take(i as int + 1),
                            evs,
                            c as int,
                        ));
                    }
                },
                None => {
                    absent.push(
                        ReportRow {
                            name: m.group_nickname.clone(),
                            time: String::new(),
                            k1: m.sort_key,
                            k2: m.id,
                            k3: 0,
                        },
                    );
                    proof {
                        assert(absent@.map_values(|x: ReportRow| x@) =~= absent_rows(
                            ms.take(i as int + 1),
                            evs,
                            c as int,
                        ));
                    }
                },
            }
            i = i + 1;
        }
        proof {
            assert(ms.take(self.members.len() as int) =~= ms);
        }
        (present, absent)
    }

    /// Build the formatted report for the attendance day of `now`.
    pub fn build_daily_report(&self, now: i64) -> (r: String)
        requires
            self.wf(),
            valid_instant(now as int),
        ensures
            r@ == report_str(self@, now as int),
    {
        let c = checkpoint(now);
        let (present, absent) = self.window_rows(c);
        let present = sort_report_rows(present);
        if present.len() == 0 {
            return "今日无人打卡".to_owned();
        }
        let absent = sort_report_rows(absent);
        proof {
            lemma_checkpoint_monotonic(0, now as int);
        }
        let md = checkpoint_civil(c);
        let present_names = row_names(&present);
        let absent_names = row_names(&absent);
        let mut out = dec_text(md.1);
        out.append("/");
        let day_text = dec_text(md.2);
        out.append(day_text.as_str());
        out.append("\n");
        let present_line = join_names(&present_names);
        out.append(present_line.as_str());
        out.append(" ✅\n");
        let absent_line = join_names(&absent_names);
        out.append(absent_line.as_str());
        out.append(" ❌");
        out
    }
}

/// Display names of rows, in order.
pub(crate) fn row_names(rows: &Vec<ReportRow>) -> (r: Vec<String>)
    ensures
        r@.map_values(|s: String| s@) == rows@.map_values(|x: ReportRow| x@).map_values(
            |v: RowV| v.name,
        ),
{
    let mut names: Vec<String> = Vec::new();
    let mut i: usize = 0;
    proof {
        assert(names@.map_values(|s: String| s@) =~= rows@.map_values(|x: ReportRow| x@).map_values(
            |v: RowV| v.name,
        ).take(0));
    }
    while i < rows.len()
        invariant
            i <= rows.len(),
            names@.map_values(|s: String| s@) == rows@.map_values(|x: ReportRow| x@).map_values(
                |v: RowV| v.name,
            ).take(i as int),
        decreases rows.len() - i,
    {
        let ghost pre = names@;
        let name = rows[i].name.clone();
        names.push(name);
        proof {
            let f = |s: String| s@;
            let full = rows@.map_values(|x: ReportRow| x@).map_values(|v: RowV| v.name);
            assert(pre.map_values(f).len() == pre.len());
            assert(pre.len() == i as int);
            assert(names@ == pre.push(name));
            assert forall|k: int| 0 <= k < i as int + 1 implies #[trigger] names@.map_values(f)[k]
                == full.take(i as int + 1)[k] by {
                if k < i as int {
                    assert(names@[k] == pre[k]);
                    assert(pre.map_values(f)[k] == full.take(i as int)[k]);
                } else {
                    assert(names@[k]@ == rows@[i as int].name@);
                    assert(full[i as int] == rows@.map_values(|x: ReportRow| x@)[i as int].name);
                }
            }
            assert(names@.map_values(f) =~= full.take(i as int + 1));
        }
        i = i + 1;
    }
    proof {
        let full = rows@.map_values(|x: ReportRow| x@).map_values(|v: RowV| v.name);
        assert(full.take(rows@.len() as int) =~= full);
    }
    names
}

} // verus!

verus! {

use crate::ledger::{CheckInOutcome, spec_check_in, spec_undo_check_in, UndoOutcome};
use crate::models::ServiceResponse;

/// One listing line as a spec value: the display name, and the rendered
/// local check-in time when there is one.
pub open spec fn pair_view(p: (String, Option<String>)) -> (Seq<char>, Option<Seq<char>>) {
    (
        p.0@,
        match p.1 {
            Some(t) => Some(t@),
            None => None,
        },
    )
}

/// The raw day listing for the attendance day starting at `c`: present
/// members first (by check-in time, then sort key, then id) with their
/// `HH:MM` local times, then absent members (by sort key, then id) without.
pub open spec fn listing_of(s: StoreModel, c: int) -> Seq<(Seq<char>, Option<Seq<char>>)> {
    sort_rows(present_rows(s.members, s.events, c)).map_values(
        |r: RowV| (r.name, Some(r.time)),
    ) + sort_rows(absent_rows(s.members, s.events, c)).map_values(
        |r: RowV| (r.name, Option::<Seq<char>>::None),
    )
}

impl Service {
    /// The day listing for a requested `YYYY-MM-DD` date, or for the
    /// attendance day of `now` when no date is given. An unparsable or
    /// impossible date is rejected.
    pub fn query_records_for_date(&self, date_str: Option<&str>, now: i64) -> (r: Result<
        Vec<(String, Option<String>)>,
        String,
    >)
        requires
            self.wf(),
            valid_instant(now as int),
        ensures
            match date_str {
                Some(ds) => if is_valid_date_str(ds@) {
                    r matches Ok(v) && v@.map_values(|p: (String, Option<String>)| pair_view(p))
                        == listing_of(
                        self@,
                        checkpoint_of_date(
                            year_of_date_str(ds@),
                            month_of_date_str(ds@),
                            day_of_date_str(ds@),
                        ),
                    )
                } else {
                    r matches Err(e) && e@ == "invalid date"@
                },
                None => r matches Ok(v) && v@.map_values(|p: (String, Option<String>)| pair_view(p))
                    == listing_of(self@, checkpoint_of(now as int)),
            },
    {
        let c: i64 = match date_str {
            Some(ds) => match parse_date(ds) {
                Some((y, m, d)) => date_checkpoint(y, m, d),
                None => {
                    return Err("invalid date".to_owned());
                },
            },
            None => checkpoint(now),
        };
        let (present, absent) = self.window_rows(c);
        let present = sort_report_rows(present);
        let absent = sort_report_rows(absent);
        let ghost sp = present@.map_values(|x: ReportRow| x@);
        let ghost sa = absent@.map_values(|x: ReportRow| x@);
        let ghost target = sp.map_values(|r: RowV| (r.name, Some(r.time))) + sa.map_values(
            |r: RowV| (r.name, Option::<Seq<char>>::None),
        );
        let mut out: Vec<(String, Option<String>)> = Vec::new();
        let mut i: usize = 0;
        proof {
            assert(out@.map_values(|p: (String, Option<String>)| pair_view(p)) =~= target.take(0));
        }
        while i < present.len()
            invariant
                i <= present.len(),
                sp == present@.map_values(|x: ReportRow| x@),
                sa == absent@.map_values(|x: ReportRow| x@),
                target == sp.map_values(|r: RowV| (r.name, Some(r.time))) + sa.map_values(
                    |r: RowV| (r.name, Option::<Seq<char>>::None),
                ),
                out@.map_values(|p: (String, Option<String>)| pair_view(p)) == target.take(
                    i as int,
                ),
            decreases present.len() - i,
        {
            let ghost pre = out@;
            let name = present[i].name.clone();
            let time = present[i].time.clone();
            out.push((name, Some(time)));
            proof {
                let pv = |p: (String, Option<String>)| pair_view(p);
                assert(pre.len() == i as int) by {
                    assert(pre.map_values(pv).len() == pre.len());
                }
                assert forall|k: int| 0 <= k < i as int + 1 implies #[trigger] out@.map_values(
                    pv,
                )[k] == target.take(i as int + 1)[k] by {
                    if k < i as int {
                        assert(out@[k] == pre[k]);
                        assert(pre.map_values(pv)[k] == target.take(i as int)[k]);
                    } else {
                        assert(out@[k].0@ == sp[i as int].name);
                        assert(target[i as int] == (sp[i as int].name, Some(sp[i as int].time)));
                    }
                }
                assert(out@.map_values(pv) =~= target.take(i as int + 1));
            }
            i = i + 1;
        }
        let mut j: usize = 0;
        while j < absent.len()
            invariant
                j <= absent.len(),
                i == present.len(),
                sp == present@.map_values(|x: ReportRow| x@),
                sa == absent@.map_values(|x: ReportRow| x@),
                target == sp.map_values(|r: RowV| (r.name, Some(r.time))) + sa.map_values(
                    |r: RowV| (r.name, Option::<Seq<char>>::None),
                ),
                out@.map_values(|p: (String, Option<String>)| pair_view(p)) == target.take(
                    i as int + j as int,
                ),
            decreases absent.len() - j,
        {
            let ghost pre = out@;
            let name = absent[j].name.clone();
            out.push((name, None));
            proof {
                let pv = |p: (String, Option<String>)| pair_view(p);
                assert(pre.len() == i as int + j as int) by {
                    assert(pre.map_values(pv).len() == pre.len());
                }
                assert forall|k: int| 0 <= k < pre.len() as int + 1 implies #[trigger] out@.map_values(
                    pv,
                )[k] == target.take(pre.len() as int + 1)[k] by {
                    if k < pre.len() {
                        assert(out@[k] == pre[k]);
                        assert(pre.map_values(pv)[k] == target.take(pre.len() as int)[k]);
                    } else {
                        assert(out@[k].0@ == sa[j as int].name);
                        assert(target[i as int + j as int] == (
                            sa[j as int].name,
                            Option::<Seq<char>>::None,
                        ));
                    }
                }
                assert(out@.map_values(pv) =~= target.take(pre.len() as int + 1));
            }
            j = j + 1;
        }
        proof {
            assert(target.take(i as int + j as int) =~= target);
        }
        Ok(out)
    }

    /// Serve a check-in command: record the member and reply with the fresh
    /// daily report, or tell the member they already checked in today.
    pub fn handle_check_in(&mut self, user_id: i64, now: i64) -> (r: ServiceResponse)
        requires
            old(self).wf(),
            valid_instant(now as int),
        ensures
            final(self).wf(),
            ({
                let (outcome, s2) = spec_check_in(old(self)@, user_id as int, now as int);
                if outcome == CheckInOutcome::AlreadyPresent {
                    &&& r.ok
                    &&& r.message@ == "您今天已经打过卡莉"@
                    &&& final(self)@ == old(self)@
                } else if old(self)@.next_event_id < i64::MAX {
                    &&& r.ok
                    &&& r.message@ == report_str(s2, now as int)
                    &&& final(self)@ == s2
                } else {
                    &&& !r.ok
                    &&& r.message@ == "打卡失败：数据库错误"@
                    &&& final(self)@ == old(self)@
                }
            }),
    {
        match self.check_in(user_id, now) {
            Ok(CheckInOutcome::AlreadyPresent) => ServiceResponse::ok(
                "您今天已经打过卡莉".to_owned(),
            ),
            Ok(CheckInOutcome::Recorded) => {
                let report = self.build_daily_report(now);
                ServiceResponse::ok(report)
            },
            Err(_) => ServiceResponse::err("打卡失败：数据库错误".to_owned()),
        }
    }

    /// Serve an undo command: delete the member's events of this attendance
    /// day, acknowledging either way.
    pub fn handle_undo_check_in(&mut self, user_id: i64, now: i64) -> (r: ServiceResponse)
        requires
            old(self).wf(),
            valid_instant(now as int),
        ensures
            final(self).wf(),
            ({
                let (outcome, s2) = spec_undo_check_in(old(self)@, user_id as int, now as int);
                &&& r.ok
                &&& final(self)@ == s2
                &&& r.message@ == if outcome == UndoOutcome::Removed {
                    "行吧"@
                } else {
                    "确实"@
                }
            }),
    {
        match self.undo_check_in(user_id, now) {
            UndoOutcome::Removed => ServiceResponse::ok("行吧".to_owned()),
            UndoOutcome::NothingToUndo => ServiceResponse::ok("确实".to_owned()),
        }
    }
}

/// With no check-in event in the attendance day of `now`, the report is the
/// fixed nobody-checked-in message.
pub proof fn lemma_report_empty_window(s: StoreModel, now: int)
    requires
        forall|i: int|
            0 <= i < s.events.len() ==> !(checkpoint_of(now) <= (
            #[trigger] s.events[i]).created_at < checkpoint_of(now) + SECS_PER_DAY),
    ensures
        report_str(s, now) == "今日无人打卡"@,
{
    lemma_present_rows_empty(s.members, s.events, checkpoint_of(now));
}

proof fn lemma_present_rows_empty(members: Seq<MemberV>, events: Seq<EventV>, c: int)
    requires
        forall|i: int|
            0 <= i < events.len() ==> !(c <= (#[trigger] events[i]).created_at < c + SECS_PER_DAY),
    ensures
        present_rows(members, events, c).len() == 0,
    decreases members.len(),
{
    if members.len() > 0 {
        lemma_present_rows_empty(members.drop_last(), events, c);
        let m = members.last();
        if last_event_in_window(events, m.id, c, c + SECS_PER_DAY as int) is Some {
            lemma_last_event_is_stored(events, m.id, c, c + SECS_PER_DAY as int);
        }
    }
}

/// When every member has a check-in in the attendance day of `now`, the
/// absent side of the report is empty.
pub proof fn lemma_report_all_present(s: StoreModel, now: int)
    requires
        forall|i: int|
            0 <= i < s.members.len() ==> last_event_in_window(
                s.events,
                (#[trigger] s.members[i]).id,
                checkpoint_of(now),
                checkpoint_of(now) + SECS_PER_DAY,
            ) is Some,
    ensures
        absent_rows(s.members, s.events, checkpoint_of(now)).len() == 0,
        present_rows(s.members, s.events, checkpoint_of(now)).len() == s.members.len(),
        joined(
            sort_rows(absent_rows(s.members, s.events, checkpoint_of(now))).map_values(
                |r: RowV| r.name,
            ),
        ) == Seq::<char>::empty(),
{
    lemma_all_present_rows(s.members, s.events, checkpoint_of(now));
}

proof fn lemma_all_present_rows(members: Seq<MemberV>, events: Seq<EventV>, c: int)
    requires
        forall|i: int|
            0 <= i < members.len() ==> last_event_in_window(
                events,
                (#[trigger] members[i]).id,
                c,
                c + SECS_PER_DAY,
            ) is Some,
    ensures
        absent_rows(members, events, c).len() == 0,
        present_rows(members, events, c).len() == members.len(),
    decreases members.len(),
{
    if members.len() > 0 {
        assert(forall|k: int|
            0 <= k < members.len() - 1 ==> #[trigger] members.drop_last()[k] == members[k]);
        lemma_all_present_rows(members.drop_last(), events, c);
        assert(members.last() == members[members.len() - 1]);
    }
}

} // verus!
