//! Expiry text: `YYYY-MM-DD   (N days)` for a certificate's not-after
//! time, as seen at a given moment.

use crate::util::text::{dec, dec_chars, push_all, push_str, string_of};
use vstd::prelude::*;

verus! {

/// The UTC calendar date `YYYY-MM-DD` of Unix timestamp `ts`.
pub uninterp spec fn utc_date_text(ts: i64) -> Seq<char>;

/// `chrono`'s `%Y-%m-%d` rendering of Unix timestamp `ts` in UTC (empty
/// when `chrono` cannot represent it).
#[verifier::external_body]
fn utc_date(ts: i64) -> (r: String)
    ensures
        r@ == utc_date_text(ts),
{
    match chrono::DateTime::from_timestamp(ts, 0) {
        Some(d) => d.format("%Y-%m-%d").to_string(),
        None => String::new(),
    }
}

/// Whole days in `secs` seconds, rounded toward zero.
pub open spec fn whole_days(secs: int) -> int {
    if secs >= 0 {
        secs / 86400
    } else {
        -((-secs) / 86400)
    }
}

/// Days shown until an expiry `secs` seconds away: whole days, plus one
/// for a partial day still ahead.
pub open spec fn days_shown(secs: int) -> int {
    if secs > 0 && secs % 86400 != 0 {
        whole_days(secs) + 1
    } else {
        whole_days(secs)
    }
}

/// Signed decimal text.
pub open spec fn signed_dec(n: int) -> Seq<char> {
    if n < 0 {
        seq!['-'] + dec((-n) as nat)
    } else {
        dec(n as nat)
    }
}

/// The expiry text for not-after `not_after` seen at `now`.
pub open spec fn expiry_text(not_after: i64, now: i64) -> Seq<char> {
    let d = days_shown(not_after - now);
    if d >= 0 {
        utc_date_text(not_after) + "   ("@ + signed_dec(d) + " days)"@
    } else {
        utc_date_text(not_after) + "   (expired "@ + signed_dec(d) + " days ago)"@
    }
}

fn push_signed(out: &mut Vec<char>, n: i128)
    requires
        -0x1_0000_0000_0000_0000 < n < 0x1_0000_0000_0000_0000,
    ensures
        final(out)@ == old(out)@ + signed_dec(n as int),
{
    if n < 0 {
        out.push('-');
        let m = (-n) as u64;
        push_all(out, &dec_chars(m));
    } else {
        push_all(out, &dec_chars(n as u64));
    }
}

/// `YYYY-MM-DD   (N days)` for a certificate expiring at `not_after`
/// (Unix seconds), seen at `now`; `(expired N days ago)` once past, with
/// N negative.
pub fn format_expiry(not_after: i64, now: i64) -> (r: String)
    ensures
        r@ == expiry_text(not_after, now),
{
    let secs: i128 = (not_after as i128) - (now as i128);
    let whole: i128 = if secs >= 0 {
        secs / 86400
    } else {
        -((-secs) / 86400)
    };
    let days: i128 = if secs > 0 && secs % 86400 != 0 {
        whole + 1
    } else {
        whole
    };
    assert(days == days_shown(not_after - now));
    let mut out: Vec<char> = Vec::new();
    let date = utc_date(not_after);
    push_str(&mut out, date.as_str());
    if days >= 0 {
        push_str(&mut out, "   (");
        push_signed(&mut out, days);
        push_str(&mut out, " days)");
    } else {
        push_str(&mut out, "   (expired ");
        push_signed(&mut out, days);
        push_str(&mut out, " days ago)");
    }
    string_of(&out)
}

/// The `YYYY-MM-DD` date (UTC) of Unix timestamp `ts`.
pub fn format_date_only(ts: i64) -> (r: String)
    ensures
        r@ == utc_date_text(ts),
{
    utc_date(ts)
}

} // verus!
