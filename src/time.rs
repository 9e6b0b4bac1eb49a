//! Pacing of requests to services that limit how often they may be asked.
use vstd::prelude::*;

verus! {

/// The least time between two requests to the Ensembl service, in milliseconds.
pub const ENSEMBL_REQUEST_INTERVAL_MS: u64 = 67;

/// The least time between two requests to the UCSC service, in milliseconds.
pub const UCSC_REQUEST_INTERVAL_MS: u64 = 15000;

/// How long to wait, at `now_ms`, until `milliseconds` have passed since
/// `timestamp_ms`; nothing where they have passed already.
pub fn remaining_wait(timestamp_ms: u64, now_ms: u64, milliseconds: u64) -> (r: u64)
    requires
        timestamp_ms + milliseconds <= u64::MAX,
    ensures
        r == if timestamp_ms + milliseconds > now_ms {
            timestamp_ms + milliseconds - now_ms
        } else {
            0
        },
{
    let until = timestamp_ms + milliseconds;
    if until > now_ms {
        until - now_ms
    } else {
        0
    }
}

} // verus!
