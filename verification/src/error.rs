//! Why an operation failed.

use vstd::prelude::*;

verus! {

/// The error of a fallible operation.
#[derive(Clone, Copy, Debug, PartialEq, Eq, Structural)]
pub enum Error {
    /// Memory for an intermediate node could not be allocated.
    ENOMEM,
}

} // verus!
