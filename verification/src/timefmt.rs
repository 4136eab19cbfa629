//! Display of creation times: the epoch sentinel reads "unknown", recent
//! times read as a relative age ("30 minutes ago", "2 weeks ago"), and
//! anything at least thirty days old is shown as a calendar date.
//!
//! The calendar rendering and the current time are the only places the
//! library leans on the `chrono` crate; both are reached through trusted
//! wrappers, and every decision around them is verified for every value
//! they could return.

use vstd::prelude::*;
use crate::bytes::{dec_spec, lit_bytes};
use crate::bytes::{lit, push_all, u64_to_dec};

verus! {

/// The `%Y-%m-%d` rendering of a UTC timestamp: a function of the seconds
/// alone, computed by the calendar code of the `chrono` crate.
pub uninterp spec fn ymd_of(secs: i64) -> Seq<u8>;

/// Relies on chrono's `Utc::now`: the current clock reading in seconds
/// since the epoch. Nothing is promised of the value; chrono itself panics
/// if the system clock is set before the epoch.
#[verifier::external_body]
fn now_secs() -> (r: i64) {
    chrono::Utc::now().timestamp()
}

/// Relies on chrono's `DateTime::from_timestamp` and its `%Y-%m-%d`
/// formatting: the rendered date depends on the timestamp alone, and the
/// documented calendar range (years up to about 262143) covers every
/// timestamp up to the year 9999, so those are always rendered.
#[verifier::external_body]
fn ymd_bytes(secs: i64) -> (r: Option<Vec<u8>>)
    ensures
        match r {
            Some(v) => v@ == ymd_of(secs),
            None => true,
        },
        0 <= secs <= 253402300799 ==> r is Some,
{
    chrono::DateTime::from_timestamp(secs, 0).map(|d| d.format("%Y-%m-%d").to_string().into_bytes())
}

/// The age of a creation time, clamped at zero for clock skew.
pub open spec fn age_secs(created: i64, now: i64) -> nat {
    if now >= created {
        (now - created) as nat
    } else {
        0
    }
}

/// The relative label of an age under thirty days: minutes under an hour,
/// hours under a day, days under a week, weeks otherwise, each pluralized.
pub open spec fn rel_label_spec(d: nat) -> Seq<u8> {
    let h = d / 3600;
    if h < 1 {
        let m = d / 60;
        if m == 1 {
            dec_spec(m) + lit_bytes(" minute ago")
        } else {
            dec_spec(m) + lit_bytes(" minutes ago")
        }
    } else if h < 24 {
        if h == 1 {
            dec_spec(h) + lit_bytes(" hour ago")
        } else {
            dec_spec(h) + lit_bytes(" hours ago")
        }
    } else if h < 168 {
        let days = h / 24;
        if days == 1 {
            dec_spec(days) + lit_bytes(" day ago")
        } else {
            dec_spec(days) + lit_bytes(" days ago")
        }
    } else {
        let w = h / 168;
        if w == 1 {
            dec_spec(w) + lit_bytes(" week ago")
        } else {
            dec_spec(w) + lit_bytes(" weeks ago")
        }
    }
}

fn labelled(n: u64, one: &str, many: &str) -> (r: Vec<u8>)
    requires
        one.is_ascii(),
        many.is_ascii(),
    ensures
        r@ == if n == 1 {
            dec_spec(n as nat) + lit_bytes(one)
        } else {
            dec_spec(n as nat) + lit_bytes(many)
        },
{
    let mut r = u64_to_dec(n);
    if n == 1 {
        let unit = lit(one);
        push_all(&mut r, unit.as_slice());
    } else {
        let unit = lit(many);
        push_all(&mut r, unit.as_slice());
    }
    r
}

/// Renders a creation time against an explicit current time: the zero
/// sentinel reads "unknown"; an age under thirty days is a relative label;
/// an older time is the calendar date, with "unknown" standing in for the
/// rare timestamp chrono cannot render.
pub fn format_created_time_at(created: i64, now: i64) -> (r: Vec<u8>)
    ensures
        created == 0 ==> r@ == lit_bytes("unknown"),
        created != 0 && age_secs(created, now) / 3600 < 720 ==> r@ == rel_label_spec(
            age_secs(created, now),
        ),
        created != 0 && age_secs(created, now) / 3600 >= 720 ==> {
            &&& (r@ == ymd_of(created) || r@ == lit_bytes("unknown"))
            &&& (0 <= created <= 253402300799 ==> r@ == ymd_of(created))
        },
{
    proof {
        reveal_strlit("unknown");
        reveal_strlit(" minute ago");
        reveal_strlit(" minutes ago");
        reveal_strlit(" hour ago");
        reveal_strlit(" hours ago");
        reveal_strlit(" day ago");
        reveal_strlit(" days ago");
        reveal_strlit(" week ago");
        reveal_strlit(" weeks ago");
    }
    if created == 0 {
        return lit("unknown");
    }
    let d: u64 = if now >= created {
        ((now as i128) - (created as i128)) as u64
    } else {
        0
    };
    proof {
        assert(d == age_secs(created, now));
    }
    let h = d / 3600;
    if h < 1 {
        labelled(d / 60, " minute ago", " minutes ago")
    } else if h < 24 {
        labelled(h, " hour ago", " hours ago")
    } else if h < 168 {
        labelled(h / 24, " day ago", " days ago")
    } else if h < 720 {
        labelled(h / 168, " week ago", " weeks ago")
    } else {
        match ymd_bytes(created) {
            Some(v) => v,
            None => lit("unknown"),
        }
    }
}

/// Renders a creation time against the current clock. The zero sentinel
/// always reads "unknown"; for other values the rendering follows
/// `format_created_time_at` at whatever instant the clock returned.
pub fn format_created_time(created: i64) -> (r: Vec<u8>)
    ensures
        created == 0 ==> r@ == lit_bytes("unknown"),
{
    let now = now_secs();
    format_created_time_at(created, now)
}

} // verus!
