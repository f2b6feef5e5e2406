//! Runtime faults.
//!
//! Every way execution can stop abnormally. All of them are fatal and
//! unrecoverable: once a memory operation or the dispatch engine reports a
//! fault, no further instruction is executed.

use vstd::prelude::*;

verus! {

/// A fatal runtime fault.
#[derive(Clone, Copy, Debug, PartialEq, Eq, Structural)]
pub enum Fault {
    /// Address 0 was dereferenced.
    NullAddress,
    /// An access landed in a page slot that is empty, or past the page table.
    Unmapped,
    /// A page was freed that is not currently allocated.
    FreeUnallocated,
    /// The page table reached its maximum size.
    OutOfPages,
    /// The return-address stack grew below the bottom of the fast region.
    StackOverflow,
    /// The return-address stack was popped while empty.
    StackUnderflow,
    /// An integer division or remainder by zero.
    DivideByZero,
    /// A reserved or extension opcode was reached.
    ReservedOpcode,
    /// An opcode byte outside the defined table was fetched.
    UnknownOpcode,
}

} // verus!
