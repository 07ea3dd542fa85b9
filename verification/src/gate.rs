//! How a registry decides which fingerprints it admits.

use vstd::prelude::*;

verus! {

/// The kind of validation that a registry applies to new fingerprints. It is
/// chosen when the registry is created and stays for good.
#[derive(Debug, Clone, Copy, PartialEq, Eq, Structural)]
pub enum Gate {
    /// A fingerprint is admitted when it begins with the validation rule.
    Oracle,
    /// Every fingerprint is admitted, whatever the validation rule says.
    Open,
}

} // verus!
