//! Modification times and their text at minute resolution.

use vstd::prelude::*;
use vstd::arithmetic::div_mod::lemma_fundamental_div_mod_converse;

verus! {

/// A moment as whole seconds and nanoseconds since the Unix epoch.
#[derive(Clone, Copy, Debug, PartialEq, Eq, Structural)]
pub struct Timestamp {
    pub secs: i64,
    pub nanos: u32,
}

/// The text of the UTC date and time at `secs` seconds and `nanos`
/// nanoseconds since the Unix epoch, written after `pattern`; `None` where
/// the moment cannot be represented or the pattern cannot be written.
pub uninterp spec fn utc_text(secs: i64, nanos: u32, pattern: Seq<char>) -> Option<Seq<char>>;

/// The chars of a text that may be absent.
pub open spec fn text_of(text: Option<String>) -> Option<Seq<char>> {
    match text {
        Some(t) => Some(t@),
        None => None,
    }
}

/// The text of a modification time: year, month, day, hour and minute.
pub open spec fn modified_text(stamp: Option<Timestamp>) -> Option<Seq<char>> {
    match stamp {
        Some(t) => utc_text(t.secs, t.nanos, "%Y-%m-%d %H:%M"@),
        None => None,
    }
}

/// Calls `chrono::DateTime::from_timestamp` and then, on the moment it
/// gives, `format` and `DelayedFormat::write_to`. The contract only names
/// the result: the text depends on the three arguments alone, and is absent
/// where either call fails.
#[verifier::external_body]
fn format_utc(secs: i64, nanos: u32, pattern: &str) -> (text: Option<String>)
    ensures
        text_of(text) == utc_text(secs, nanos, pattern@),
{
    let mut out = String::new();
    match chrono::DateTime::from_timestamp(secs, nanos) {
        Some(moment) => match moment.format(pattern).write_to(&mut out) {
            Ok(()) => Some(out),
            Err(_) => None,
        },
        None => None,
    }
}

/// The last-modified time as text at minute resolution, absent where the
/// time could not be read or cannot be written.
pub fn get_modified(stamp: Option<Timestamp>) -> (text: Option<String>)
    ensures
        text_of(text) == modified_text(stamp),
{
    match stamp {
        Some(t) => format_utc(t.secs, t.nanos, "%Y-%m-%d %H:%M"),
        None => None,
    }
}

/// The nanoseconds between the epoch and a moment `secs` seconds and `nanos`
/// nanoseconds away from it, counted as negative before the epoch.
pub open spec fn signed_nanos(after: bool, secs: u64, nanos: u32) -> int {
    if after {
        secs as int * 1_000_000_000 + nanos as int
    } else {
        -(secs as int * 1_000_000_000 + nanos as int)
    }
}

/// The timestamp of that moment: whole seconds rounded down, and what is
/// left as nanoseconds. `None` where `nanos` is no part of a second or the
/// seconds cannot be held.
pub open spec fn offset_stamp(after: bool, secs: u64, nanos: u32) -> Option<Timestamp> {
    let total = signed_nanos(after, secs, nanos);
    let whole = total / 1_000_000_000;
    if nanos >= 1_000_000_000 || whole < i64::MIN || whole > i64::MAX {
        None
    } else {
        Some(Timestamp { secs: whole as i64, nanos: (total % 1_000_000_000) as u32 })
    }
}

/// The timestamp of a moment `secs` seconds and `nanos` nanoseconds after
/// the epoch (`after`) or before it.
pub fn from_epoch_offset(after: bool, secs: u64, nanos: u32) -> (r: Option<Timestamp>)
    ensures
        r == offset_stamp(after, secs, nanos),
{
    if nanos >= 1_000_000_000 {
        return None;
    }
    let ghost total = signed_nanos(after, secs, nanos);
    if after {
        proof {
            lemma_fundamental_div_mod_converse(total, 1_000_000_000, secs as int, nanos as int);
        }
        if secs > 9_223_372_036_854_775_807u64 {
            None
        } else {
            Some(Timestamp { secs: secs as i64, nanos })
        }
    } else if nanos == 0 {
        proof {
            lemma_fundamental_div_mod_converse(total, 1_000_000_000, -(secs as int), 0);
        }
        if secs > 9_223_372_036_854_775_808u64 {
            None
        } else if secs == 9_223_372_036_854_775_808u64 {
            Some(Timestamp { secs: i64::MIN, nanos: 0 })
        } else {
            Some(Timestamp { secs: -(secs as i64), nanos: 0 })
        }
    } else {
        proof {
            lemma_fundamental_div_mod_converse(
                total,
                1_000_000_000,
                -(secs as int) - 1,
                1_000_000_000 - nanos as int,
            );
        }
        if secs >= 9_223_372_036_854_775_808u64 {
            None
        } else {
            Some(Timestamp { secs: -(secs as i64) - 1, nanos: 1_000_000_000 - nanos })
        }
    }
}

} // verus!
