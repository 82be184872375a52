//! The interface of block I/O schedulers.
use crate::block::bio_request::BioReq;
use crate::block::block_core::{BlockManager, BlockOp};
use crate::block::block_error::BlockError;
use vstd::prelude::*;

verus! {

/// A block I/O scheduler: it queues requests and performs them one at a time.
pub trait BioScheduler {
    /// The number of requests waiting.
    spec fn pending_count(&self) -> nat;

    /// Add a request to the scheduler.
    fn enqueue(&mut self, r: &mut BioReq)
        ensures
            final(self).pending_count() == old(self).pending_count() + 1,
    ;

    /// Perform one waiting request on `manager`; hands back the request (holding
    /// the data read, for a read) and the outcome.
    fn wait<D: BlockOp>(&mut self, manager: &mut BlockManager<D>) -> (r: (BioReq, Result<(), BlockError>))
        requires
            old(self).pending_count() > 0,
            old(manager).wf(),
        ensures
            final(self).pending_count() == old(self).pending_count() - 1,
            final(manager).wf(),
            final(manager).infos() == old(manager).infos(),
    ;
}

} // verus!
