//! Block I/O requests.
use crate::block::block_core::BlockSector;
use vstd::prelude::*;

verus! {

/// The operation a request performs.
#[derive(Clone, Copy, Debug, PartialEq, Eq, Structural)]
pub enum BioOp {
    BioRead,
    BioWrite,
}

/// A request to read or write one sector. The request owns its sector buffer:
/// a write takes its data from it, a read leaves its data in it.
#[derive(Clone)]
pub struct BioReq {
    pub sector: BlockSector,
    pub buffer: Vec<u8>,
    pub op: BioOp,
    /// Deadline
    pub ddl: u64,
    pub priority: u8,
}

impl BioReq {
    pub fn new(sector: BlockSector, buffer: Vec<u8>, op: BioOp, ddl: u64, priority: u8) -> (r: Self)
        ensures
            r.sector == sector,
            r.buffer@ == buffer@,
            r.op == op,
            r.ddl == ddl,
            r.priority == priority,
    {
        Self { sector, buffer, op, ddl, priority }
    }
}

} // verus!
