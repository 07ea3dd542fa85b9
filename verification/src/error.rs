//! The closed set of reasons for which a registry operation is rejected.

use vstd::prelude::*;

verus! {

/// Why a call was rejected. A rejected call leaves the registry as it was.
#[derive(Debug, Clone, Copy, PartialEq, Eq, Structural)]
pub enum Error {
    /// The caller of an administrative operation is not the administrator.
    NotAdmin,
    /// No record is stored under the given content id.
    ContentNotFound,
    /// The caller of a transfer is not the record's current owner.
    NotOwner,
    /// The id counter cannot be advanced any further.
    CounterOverflow,
    /// The fingerprint does not satisfy the current validation rule.
    InvalidContent,
}

} // verus!
