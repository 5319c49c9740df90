//! The retry policy of block fetches: which failures mean that a block is
//! not there yet, and how often such a fetch is tried.

use crate::text::{str_contains, text_contains};
use vstd::prelude::*;

verus! {

/// The most attempts that one slot's fetch is given.
pub const MAX_FETCH_ATTEMPTS: u32 = 5;

/// The wait after an attempt that found the block unavailable, in milliseconds.
pub const RETRY_DELAY_MILLIS: u64 = 500;

/// A failure says that the block is not available when its message holds
/// this marker.
pub open spec fn is_unavailable(message: Seq<char>) -> bool {
    text_contains(message, "Block not available for slot"@)
}

/// The class of a failed fetch.
#[derive(Debug, Clone, Copy, PartialEq, Eq, Structural)]
pub enum FetchFailure {
    /// The slot was skipped, or its block is not produced yet.
    Unavailable,
    /// Anything else: the fetch is given up and the failure is passed on.
    Fatal,
}

/// Classifies a failed fetch by its message.
pub fn classify_failure(message: &str) -> (class: FetchFailure)
    ensures
        class == if is_unavailable(message@) {
            FetchFailure::Unavailable
        } else {
            FetchFailure::Fatal
        },
{
    if str_contains(message, "Block not available for slot") {
        FetchFailure::Unavailable
    } else {
        FetchFailure::Fatal
    }
}

/// What follows the wait after attempt number `attempt` found the block
/// unavailable.
#[derive(Debug, Clone, Copy, PartialEq, Eq, Structural)]
pub enum AfterWait {
    /// The fetch is tried again, as attempt number `attempt`.
    Retry { attempt: u32 },
    /// The attempts are used up: the slot counts as unavailable.
    GiveUp,
}

/// The decision after the wait that follows attempt number `attempt`.
pub open spec fn after_wait_of(attempt: u32) -> AfterWait {
    if attempt < MAX_FETCH_ATTEMPTS {
        AfterWait::Retry { attempt: (attempt + 1) as u32 }
    } else {
        AfterWait::GiveUp
    }
}

/// Decides what follows the wait after attempt number `attempt`.
pub fn after_wait(attempt: u32) -> (next: AfterWait)
    ensures
        next == after_wait_of(attempt),
{
    if attempt < MAX_FETCH_ATTEMPTS {
        AfterWait::Retry { attempt: attempt + 1 }
    } else {
        AfterWait::GiveUp
    }
}

} // verus!
