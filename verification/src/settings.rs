//! The fixed numbers of a run.

use vstd::prelude::*;

verus! {

/// How many delete requests of one batch may be under way at once.
pub const CONCURRENCY_LIMIT: usize = 2;

/// How long a worker rests after each delete attempt, in seconds.
pub const DELETE_PAUSE_SECS: u64 = 2;

/// How long the run rests between a finished batch and the next fetch, in
/// seconds.
pub const BATCH_PAUSE_SECS: u64 = 1;

/// The status with which the server hands out a page.
pub const STATUS_OK: u16 = 200;

/// The status with which the server confirms a deletion.
pub const STATUS_NO_CONTENT: u16 = 204;

} // verus!
