//! What the two sides of a transfer share: the limits they keep and the way a session
//! comes about.

use vstd::prelude::*;

verus! {

/// The limits that both sides of a transfer keep.
#[derive(Copy, Clone, Debug, PartialEq, Eq)]
pub struct Config {
    /// How long a session waits without traffic before it acts, in clock units.
    pub idle_timeout: u64,
    /// The least time between two chunks of a push, in clock units.
    pub chunk_interval: u64,
    /// How often a receiver asks again for missing chunks before it gives up.
    pub max_naks: u32,
    /// How often a sender announces its file again before it gives up.
    pub max_rounds: u32,
    /// How often a session bears with a fault of the content store before it gives up.
    pub max_io_retries: u32,
}

/// Whether `timeout` clock units have passed since `since`.
pub open spec fn elapsed(now: u64, since: u64, timeout: u64) -> bool {
    now - since >= timeout
}

/// Whether `timeout` clock units have passed since `since`.
pub fn has_elapsed(now: u64, since: u64, timeout: u64) -> (r: bool)
    ensures
        r == elapsed(now, since, timeout),
{
    if now < since {
        false
    } else {
        now - since >= timeout
    }
}

/// How a session came about.
#[derive(Copy, Clone, Debug, PartialEq, Eq)]
pub enum Origin {
    /// An export: the sending side offered the file.
    Export,
    /// An import: the receiving side asked for the file.
    Import,
}

} // verus!
