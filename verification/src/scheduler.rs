//! A process-id allocator for virtual machines handed to background
//! workers. Spawning the worker itself is host plumbing and lives outside
//! the library.

use vstd::prelude::*;

verus! {

/// Hands out process ids for machines run in the background.
#[derive(Debug, Default)]
pub struct Scheduler {
    pub next_pid: u32,
    pub max_pid: u32,
}

impl Scheduler {
    pub fn new() -> (r: Scheduler)
        ensures
            r.next_pid == 0,
            r.max_pid == 50000,
    {
        Scheduler { next_pid: 0, max_pid: 50000 }
    }
}

} // verus!
