//! A feed-subscription engine: it tracks RSS/Atom feeds for subscriber
//! groups, detects which entries are new since the last poll, and plans a
//! bounded number of notification messages per poll cycle.

use vstd::prelude::*;

pub mod codec;
pub mod commands;
pub mod detect;
pub mod feed;
pub mod fingerprint;
pub mod notify;
pub mod parse;
pub mod poll;
pub mod store;
pub mod subscription;
pub mod text;
pub mod wire;

verus! {

/// Seconds per minute, used when turning a feed's refresh hint into a
/// polling interval.
pub const SECONDS_PER_MINUTE: u64 = 60;

/// Largest allowed polling interval, in minutes.
pub const MAX_INTERVAL_MINUTES: u64 = 90;

/// Default polling interval, in minutes, used when a feed gives no usable
/// refresh hint.
pub const DEFAULT_INTERVAL_MINUTES: u64 = 10;

/// The polling interval derived from a feed's advertised refresh hint in
/// minutes: the hint clamped to at most 90 minutes, or 10 minutes when the
/// hint is absent or zero, converted to seconds. Always in (0, 5400].
pub open spec fn spec_interval_seconds(hint: Option<u64>) -> u64 {
    match hint {
        Some(m) => if m == 0 {
            (DEFAULT_INTERVAL_MINUTES * SECONDS_PER_MINUTE) as u64
        } else if m > MAX_INTERVAL_MINUTES {
            (MAX_INTERVAL_MINUTES * SECONDS_PER_MINUTE) as u64
        } else {
            (m * SECONDS_PER_MINUTE) as u64
        },
        None => (DEFAULT_INTERVAL_MINUTES * SECONDS_PER_MINUTE) as u64,
    }
}

/// Turns a feed's refresh hint (minutes) into the subscription's polling
/// interval (seconds). The result is always positive and at most 5400.
pub fn interval_seconds(hint: Option<u64>) -> (r: u64)
    ensures
        r == spec_interval_seconds(hint),
        0 < r <= 5400,
{
    match hint {
        Some(m) => {
            if m == 0 {
                DEFAULT_INTERVAL_MINUTES * SECONDS_PER_MINUTE
            } else if m > MAX_INTERVAL_MINUTES {
                MAX_INTERVAL_MINUTES * SECONDS_PER_MINUTE
            } else {
                m * SECONDS_PER_MINUTE
            }
        },
        None => DEFAULT_INTERVAL_MINUTES * SECONDS_PER_MINUTE,
    }
}

} // verus!
