//! Failures of store operations.

use vstd::prelude::*;

verus! {

/// Why an operation on the world was refused. A refused operation leaves the
/// world as it was.
#[derive(Clone, Copy, Debug, PartialEq, Eq, Structural)]
pub enum StoreError {
    /// A component row was offered for an entity that the registry does not hold.
    UnknownEntity,
    /// A row that may exist only once exists already.
    DuplicateRow,
    /// The world has no player row.
    NoPlayer,
    /// A sum or difference left the range of a 64-bit signed integer.
    Overflow,
    /// The registry has handed out its last identifier.
    IdsExhausted,
}

} // verus!
