//! The entry points of the handlers for interrupts nothing else handles.
use vstd::prelude::*;

verus! {

/// The length in bytes of one `call` instruction in the table of handlers.
pub const CALL_INSTRUCTION_LEN: usize = 5;

/// The address of the handler for interrupt `i`, in a table of `call`
/// instructions that starts at `table`. The address must fit.
pub fn get_unhandled_handler(table: usize, i: u8) -> (r: usize)
    requires
        table + i * 5 <= usize::MAX,
    ensures
        r == table + i * 5,
{
    table + (i as usize) * CALL_INSTRUCTION_LEN
}

} // verus!
