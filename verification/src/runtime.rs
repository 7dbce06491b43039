//! The assembled runtime: the block number the host is processing plus
//! the data-feed engine.  The host's deterministic pipeline applies the
//! engine's operations one at a time; once per block the offchain pass
//! reads the state and says which fetches are due.

use vstd::prelude::*;
use crate::types::{AccountId, BlockNumber};
use crate::feed::{DataFeed, KeyEntry};
use crate::offchain::{FetchTask, offchain_tasks, spec_due, task_valid};

verus! {

/// The runtime's whole state.
pub struct Runtime {
    /// The block currently being processed.
    pub block_number: BlockNumber,
    /// The data-feed engine's state.
    pub data_feed: DataFeed,
}

impl Runtime {
    /// The genesis runtime: block zero, empty engine.
    pub fn new() -> (r: Runtime)
        ensures
            r.data_feed.wf(),
            r.block_number == 0,
            r.data_feed.providers@ =~= Seq::<AccountId>::empty(),
            r.data_feed.entries@ =~= Seq::<KeyEntry>::empty(),
    {
        Runtime { block_number: 0, data_feed: DataFeed::new() }
    }

    /// Starts processing block `n`; the engine's state is untouched.
    pub fn initialize_block(&mut self, n: BlockNumber)
        ensures
            final(self).block_number == n,
            final(self).data_feed == old(self).data_feed,
    {
        self.block_number = n;
    }

    /// The offchain pass for the current block: the fetch tasks that are
    /// due.  Read-only; performing them and submitting the results is
    /// the caller's I/O.
    pub fn offchain_worker(&self) -> (r: Vec<FetchTask>)
        requires
            self.data_feed.wf(),
        ensures
            forall|t: int| 0 <= t < r@.len()
                ==> task_valid(self.data_feed, #[trigger] r@[t], self.block_number),
            forall|k: Seq<u8>| spec_due(self.data_feed, k, self.block_number) ==> exists|t: int|
                0 <= t < r@.len() && (#[trigger] r@[t]).key@ == k,
    {
        offchain_tasks(&self.data_feed, self.block_number)
    }
}

} // verus!
