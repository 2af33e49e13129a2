//! Text building blocks for the engine's report strings: decimal numbers,
//! `HH:MM` local times, and name lists joined by a full-width space.

use vstd::prelude::*;

verus! {

use vstd::string::StrSliceExecFns;
use vstd::string::StringExecFns;
use crate::clock::{SECS_PER_DAY, TZ_OFFSET_SECS, valid_instant};

/// The single decimal digit `n` as text.
pub open spec fn digit_str(n: int) -> Seq<char> {
    if n == 0 {
        "0"@
    } else if n == 1 {
        "1"@
    } else if n == 2 {
        "2"@
    } else if n == 3 {
        "3"@
    } else if n == 4 {
        "4"@
    } else if n == 5 {
        "5"@
    } else if n == 6 {
        "6"@
    } else if n == 7 {
        "7"@
    } else if n == 8 {
        "8"@
    } else {
        "9"@
    }
}

/// `n` in decimal without padding, most significant digit first.
pub open spec fn dec_str(n: int) -> Seq<char>
    decreases n,
{
    if n < 10 {
        digit_str(n)
    } else {
        dec_str(n / 10) + digit_str(n % 10)
    }
}

/// `n` in decimal, zero-padded to two digits.
pub open spec fn two_digit_str(n: int) -> Seq<char> {
    digit_str(n / 10) + digit_str(n % 10)
}

/// Local (UTC+8) time of day of the instant `t`, rendered `HH:MM`.
pub open spec fn hhmm_str(t: int) -> Seq<char> {
    let tod = (t + TZ_OFFSET_SECS) % (SECS_PER_DAY as int);
    two_digit_str(tod / 3600) + ":"@ + two_digit_str((tod % 3600) / 60)
}

fn digit_text(d: i64) -> (r: &'static str)
    requires
        0 <= d <= 9,
    ensures
        r@ == digit_str(d as int),
{
    match d {
        0 => "0",
        1 => "1",
        2 => "2",
        3 => "3",
        4 => "4",
        5 => "5",
        6 => "6",
        7 => "7",
        8 => "8",
        _ => "9",
    }
}

/// Render `n` in decimal.
pub fn dec_text(n: i64) -> (r: String)
    requires
        n >= 0,
    ensures
        r@ == dec_str(n as int),
    decreases n,
{
    if n < 10 {
        digit_text(n).to_owned()
    } else {
        let mut s = dec_text(n / 10);
        s.append(digit_text(n % 10));
        s
    }
}

/// Render `n` zero-padded to two digits.
pub fn two_digit_text(n: i64) -> (r: String)
    requires
        0 <= n < 100,
    ensures
        r@ == two_digit_str(n as int),
{
    let mut s = digit_text(n / 10).to_owned();
    s.append(digit_text(n % 10));
    s
}

/// Render the local (UTC+8) time of day of `t` as `HH:MM`.
pub fn hhmm_text(t: i64) -> (r: String)
    requires
        valid_instant(t as int),
    ensures
        r@ == hhmm_str(t as int),
{
    proof {
        vstd::arithmetic::div_mod::lemma_mod_bound(
            t as int + TZ_OFFSET_SECS,
            SECS_PER_DAY as int,
        );
    }
    let tod = (t + TZ_OFFSET_SECS) % SECS_PER_DAY;
    proof {
        vstd::arithmetic::div_mod::lemma_mod_bound(tod as int, 3600);
    }
    let hh = tod / 3600;
    let mm = (tod % 3600) / 60;
    let mut s = two_digit_text(hh);
    s.append(":");
    let tail = two_digit_text(mm);
    s.append(tail.as_str());
    s
}

/// The full-width space that separates names on a report line.
pub open spec fn name_sep() -> Seq<char> {
    "\u{3000}"@
}

/// Names joined by the full-width space, in order.
pub open spec fn joined(names: Seq<Seq<char>>) -> Seq<char>
    decreases names.len(),
{
    if names.len() == 0 {
        Seq::empty()
    } else if names.len() == 1 {
        names[0]
    } else {
        joined(names.drop_last()) + name_sep() + names.last()
    }
}

/// Join names with the full-width space.
pub fn join_names(names: &Vec<String>) -> (r: String)
    ensures
        r@ == joined(names@.map_values(|s: String| s@)),
{
    let ghost views = names@.map_values(|s: String| s@);
    let mut r = String::new();
    let mut i: usize = 0;
    while i < names.len()
        invariant
            i <= names.len(),
            views == names@.map_values(|s: String| s@),
            views.len() == names@.len(),
            r@ == joined(views.take(i as int)),
        decreases names.len() - i,
    {
        if i > 0 {
            r.append("\u{3000}");
        }
        r.append(names[i].as_str());
        proof {
            assert(views.take(i as int + 1).drop_last() =~= views.take(i as int));
            assert(views.take(i as int + 1).last() == views[i as int]);
            if i == 0 {
                assert(r@ =~= joined(views.take(1)));
            }
        }
        i = i + 1;
    }
    proof {
        assert(views.take(names@.len() as int) =~= views);
    }
    r
}

} // verus!
