//! The wall clock.

use vstd::prelude::*;
use std::time::{SystemTime, UNIX_EPOCH};

verus! {

/// `SystemTime::now`: the current time in whole milliseconds since the Unix
/// epoch, or zero where the clock stands before the epoch. Nothing is
/// promised of the value: two readings may differ in either direction.
#[verifier::external_body]
pub(crate) fn now_millis() -> (now: u64) {
    match SystemTime::now().duration_since(UNIX_EPOCH) {
        Ok(elapsed) => elapsed.as_millis() as u64,
        Err(_) => 0,
    }
}

} // verus!
