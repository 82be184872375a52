//! A scheduler without scheduling logic.
use crate::block::bio_core::BioScheduler;
use crate::block::bio_request::{BioOp, BioReq};
use crate::block::block_core::{writable, BlockManager, BlockOp, BLOCK_SECTOR_SIZE};
use crate::block::block_error::BlockError;
use vstd::prelude::*;

verus! {

/// A NOOP scheduler: it performs the most recently queued request first, on
/// block `block`.
pub struct NoopScheduler {
    pub block: usize,
    pub queue: Vec<BioReq>,
}

impl NoopScheduler {
    pub fn new(block: usize) -> (r: Self)
        ensures
            r.block == block,
            r.queue@.len() == 0,
    {
        Self { block, queue: Vec::new() }
    }
}

impl BioScheduler for NoopScheduler {
    open spec fn pending_count(&self) -> nat {
        self.queue@.len()
    }

    fn enqueue(&mut self, r: &mut BioReq) {
        self.queue.push(r.clone());
    }

    /// Pops the most recent request and performs it; a write to a block that
    /// leads to a foreign block is refused with `WriteError`.
    fn wait<D: BlockOp>(&mut self, manager: &mut BlockManager<D>) -> (r: (BioReq, Result<(), BlockError>)) {
        let mut r = self.queue.pop().unwrap();
        if r.op == BioOp::BioRead {
            if r.buffer.len() != BLOCK_SECTOR_SIZE {
                return (r, Err(BlockError::BufferInvalid));
            }
            let res = manager.read(self.block, r.sector, r.buffer.as_mut_slice());
            (r, res)
        } else {
            if !is_writable(manager, self.block) {
                return (r, Err(BlockError::WriteError));
            }
            let res = manager.write(self.block, r.sector, r.buffer.as_slice());
            (r, res)
        }
    }
}

/// Whether a write to block `idx` of `manager` never reaches a foreign block.
pub fn is_writable<D: BlockOp>(manager: &BlockManager<D>, idx: usize) -> (r: bool)
    requires
        manager.wf(),
    ensures
        r == writable(manager.all_blocks@, idx as int),
    decreases idx,
{
    if idx >= manager.all_blocks.len() {
        return true;
    }
    if manager.all_blocks[idx].block_type == crate::block::block_core::BlockType::Foreign {
        return false;
    }
    match &manager.all_blocks[idx].driver {
        crate::block::block_core::BlockDriver::Device(_) => true,
        crate::block::block_core::BlockDriver::Partition(p) => is_writable(manager, p.block_idx),
    }
}

} // verus!
