//! The checkpoint clock: maps an instant to the start of the attendance day
//! that contains it.
//!
//! An attendance day runs from 04:00 to 04:00 of the next day in a fixed
//! UTC+8 civil time, so a night session is never split across two calendar
//! days. Instants are UTC Unix timestamps in whole seconds.

use vstd::prelude::*;

verus! {

/// Seconds east of UTC of the engine's fixed civil time zone (UTC+8).
pub const TZ_OFFSET_SECS: i64 = 28800;

/// Seconds after local midnight at which an attendance day starts (04:00:00).
pub const DAY_ANCHOR_SECS: i64 = 14400;

/// Seconds in one day.
pub const SECS_PER_DAY: i64 = 86400;

/// Latest instant the engine accepts: the last second of the attendance day
/// anchored at 9999-12-31 04:00 UTC+8 (9999-12-31 19:59:59 UTC).
pub const MAX_INSTANT: i64 = 253402286399;

/// Instants the engine works on: the Unix epoch through year 9999.
pub open spec fn valid_instant(now: int) -> bool {
    0 <= now <= MAX_INSTANT
}

/// Civil time-of-day in UTC+8, as seconds since local midnight.
pub open spec fn local_time_of_day(now: int) -> int {
    (now + TZ_OFFSET_SECS) % (SECS_PER_DAY as int)
}

/// The checkpoint of `now`: the greatest instant `c <= now` whose UTC+8
/// time-of-day is exactly 04:00:00. Subtracting the distance from `now`
/// back to the last 04:00 boundary expresses that directly.
pub open spec fn checkpoint_of(now: int) -> int {
    now - ((now + DAY_ANCHOR_SECS) % (SECS_PER_DAY as int))
}

/// An instant that is itself a 04:00 (UTC+8) day boundary.
pub open spec fn is_checkpoint(c: int) -> bool {
    checkpoint_of(c) == c
}

/// Start of the attendance day containing `now`.
pub fn checkpoint(now: i64) -> (c: i64)
    requires
        valid_instant(now as int),
    ensures
        c as int == checkpoint_of(now as int),
        c <= now < c + SECS_PER_DAY,
{
    proof {
        lemma_checkpoint_bounds(now as int);
    }
    now - ((now + DAY_ANCHOR_SECS) % SECS_PER_DAY)
}

/// The checkpoint lies at most one day behind its argument.
pub proof fn lemma_checkpoint_bounds(now: int)
    ensures
        checkpoint_of(now) <= now < checkpoint_of(now) + SECS_PER_DAY,
{
    let day: int = SECS_PER_DAY as int;
    vstd::arithmetic::div_mod::lemma_mod_bound(now + DAY_ANCHOR_SECS, day);
}

/// The checkpoint is idempotent under a moving clock: any instant inside
/// the attendance day `[checkpoint_of(now), checkpoint_of(now) + 24h)`
/// has the same checkpoint as `now` itself.
pub proof fn lemma_checkpoint_idempotent(now: int, later: int)
    requires
        checkpoint_of(now) <= later < checkpoint_of(now) + SECS_PER_DAY,
    ensures
        checkpoint_of(later) == checkpoint_of(now),
{
    let day: int = SECS_PER_DAY as int;
    let c = checkpoint_of(now);
    let q = (now + DAY_ANCHOR_SECS) / day;
    let d = later - c;
    vstd::arithmetic::div_mod::lemma_fundamental_div_mod(now + DAY_ANCHOR_SECS, day);
    assert(c + DAY_ANCHOR_SECS == day * q);
    assert(later + DAY_ANCHOR_SECS == day * q + d);
    vstd::arithmetic::div_mod::lemma_mod_multiples_vanish(q, d, day);
    vstd::arithmetic::div_mod::lemma_small_mod(d as nat, day as nat);
    assert((later + DAY_ANCHOR_SECS) % day == d);
}

/// A checkpoint is a fixed point: recomputing on the boundary itself moves
/// nothing.
pub proof fn lemma_checkpoint_fixed_point(now: int)
    ensures
        is_checkpoint(checkpoint_of(now)),
{
    lemma_checkpoint_bounds(now);
    lemma_checkpoint_idempotent(now, checkpoint_of(now));
}

/// The checkpoint never moves backwards as time advances.
pub proof fn lemma_checkpoint_monotonic(a: int, b: int)
    requires
        a <= b,
    ensures
        checkpoint_of(a) <= checkpoint_of(b),
{
    if checkpoint_of(b) < checkpoint_of(a) {
        lemma_checkpoint_bounds(a);
        lemma_checkpoint_bounds(b);
        // checkpoint_of(a) lies inside b's attendance day but is a fixed
        // point of its own, which forces the two checkpoints together.
        lemma_checkpoint_idempotent(b, checkpoint_of(a));
        lemma_checkpoint_fixed_point(a);
    }
}

/// The 04:00:00 boundary in both directions: an instant whose UTC+8
/// time-of-day is exactly 04:00:00 is its own checkpoint, and one second
/// before such a boundary the checkpoint is still the previous day's 04:00.
pub proof fn lemma_checkpoint_boundary(now: int)
    ensures
        local_time_of_day(now) == DAY_ANCHOR_SECS ==> checkpoint_of(now) == now,
        local_time_of_day(now) == DAY_ANCHOR_SECS - 1 ==> checkpoint_of(now) == now + 1
            - SECS_PER_DAY,
{
    let day: int = SECS_PER_DAY as int;
    let q = (now + TZ_OFFSET_SECS) / day;
    vstd::arithmetic::div_mod::lemma_fundamental_div_mod(now + TZ_OFFSET_SECS, day);
    if local_time_of_day(now) == DAY_ANCHOR_SECS {
        // now + anchor == day * q, so the distance back to the boundary is 0.
        assert(now + DAY_ANCHOR_SECS == day * q + 0);
        vstd::arithmetic::div_mod::lemma_mod_multiples_vanish(q, 0, day);
        vstd::arithmetic::div_mod::lemma_small_mod(0nat, day as nat);
    }
    if local_time_of_day(now) == DAY_ANCHOR_SECS - 1 {
        // now + anchor == day * (q - 1) + (day - 1): one second short of a boundary.
        assert(day * q - day == day * (q - 1)) by (nonlinear_arith);
        assert(now + DAY_ANCHOR_SECS == day * (q - 1) + (day - 1));
        vstd::arithmetic::div_mod::lemma_mod_multiples_vanish(q - 1, day - 1, day);
        vstd::arithmetic::div_mod::lemma_small_mod((day - 1) as nat, day as nat);
    }
}

} // verus!

verus! {

use crate::calendar::{
    civil_from_day_number, civil_of_day_number, day_number, day_number_of, valid_date,
    valid_day_number,
};

/// The checkpoint of an explicitly requested calendar day: 04:00:00 (UTC+8)
/// of that day, as a UTC instant.
pub open spec fn checkpoint_of_date(y: int, m: int, d: int) -> int {
    day_number_of(y, m, d) * (SECS_PER_DAY as int) + DAY_ANCHOR_SECS - TZ_OFFSET_SECS
}

/// Every requested-day checkpoint is a 04:00 boundary.
pub proof fn lemma_date_checkpoint_aligned(y: int, m: int, d: int)
    ensures
        is_checkpoint(checkpoint_of_date(y, m, d)),
{
    let day: int = SECS_PER_DAY as int;
    let n = day_number_of(y, m, d);
    let c = checkpoint_of_date(y, m, d);
    assert(c + DAY_ANCHOR_SECS == n * day);
    assert(n * day == day * n) by (nonlinear_arith);
    vstd::arithmetic::div_mod::lemma_mod_multiples_vanish(n, 0, day);
    vstd::arithmetic::div_mod::lemma_small_mod(0nat, day as nat);
}

/// Start of the attendance day of the requested date `y`-`m`-`d`.
pub fn date_checkpoint(y: i64, m: i64, d: i64) -> (c: i64)
    requires
        valid_date(y as int, m as int, d as int),
    ensures
        c as int == checkpoint_of_date(y as int, m as int, d as int),
        is_checkpoint(c as int),
        c <= MAX_INSTANT,
{
    proof {
        crate::calendar::lemma_days_before_year_bounds(y as int);
        crate::calendar::lemma_days_before_month_bounds(y as int, m as int);
        crate::calendar::lemma_date_within_year(y as int, m as int, d as int);
        crate::calendar::lemma_days_before_year_monotonic(y as int + 1, 10000);
        crate::calendar::lemma_calendar_days();
        lemma_date_checkpoint_aligned(y as int, m as int, d as int);
    }
    let n = day_number(y, m, d);
    n * SECS_PER_DAY + DAY_ANCHOR_SECS - TZ_OFFSET_SECS
}

/// The calendar date whose attendance day starts at the checkpoint `c`.
pub open spec fn civil_of_checkpoint(c: int) -> (int, int, int) {
    civil_of_day_number((c + DAY_ANCHOR_SECS) / (SECS_PER_DAY as int))
}

/// Recover the calendar date of a checkpoint within the engine's instant
/// range (used for the report header's month and day).
pub fn checkpoint_civil(c: i64) -> (r: (i64, i64, i64))
    requires
        is_checkpoint(c as int),
        checkpoint_of(0) <= c <= MAX_INSTANT,
    ensures
        (r.0 as int, r.1 as int, r.2 as int) == civil_of_checkpoint(c as int),
        valid_date(r.0 as int, r.1 as int, r.2 as int),
{
    let day = SECS_PER_DAY;
    let ghost cs = c as int;
    proof {
        // c is aligned, so c + anchor is an exact multiple of one day.
        vstd::arithmetic::div_mod::lemma_fundamental_div_mod(cs + DAY_ANCHOR_SECS, day as int);
        crate::calendar::lemma_calendar_days();
        vstd::arithmetic::div_mod::lemma_div_is_ordered(0, cs + DAY_ANCHOR_SECS, day as int);
        vstd::arithmetic::div_mod::lemma_div_is_ordered(
            cs + DAY_ANCHOR_SECS,
            MAX_INSTANT as int + DAY_ANCHOR_SECS,
            day as int,
        );
    }
    let n = (c + DAY_ANCHOR_SECS) / day;
    proof {
        assert(n as int == (cs + DAY_ANCHOR_SECS) / (day as int));
        assert((day as int) * (n as int) == cs + DAY_ANCHOR_SECS);
        assert(valid_day_number(n as int));
    }
    civil_from_day_number(n)
}

} // verus!
