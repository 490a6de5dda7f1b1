//! The ways in which an operation of the kernel can fail.

use vstd::prelude::*;

verus! {

/// Why an operation on expressions gave no result.
#[derive(Clone, Copy, Debug, PartialEq, Eq, Structural, Hash)]
pub enum KernelError {
    /// The result would hold a de Bruijn index that does not fit in 32 bits.
    IndexOverflow,
    /// Reduction did not reach a normal form within the database's limit on
    /// the number of nested reduction steps.
    ReductionLimit,
    /// A match expression has no case for the variant of its subject. This
    /// cannot happen in an expression that was type checked.
    MissingCase,
}

} // verus!
