use vstd::prelude::*;

verus! {

/// Why a table operation did not go through.
#[derive(Debug, Clone, Copy, PartialEq, Eq, Structural)]
pub enum DbError {
    /// A writer failed while it held exclusive access: the table refuses all
    /// further access until the process restarts.
    Poisoned,
    /// A file could not be created, read, written or copied.
    Io,
    /// The persisted content could not be encoded or decoded.
    Serialization,
}

} // verus!
