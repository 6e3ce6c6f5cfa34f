use vstd::prelude::*;

verus! {

/// Why an operation was rejected. A rejected operation changes nothing.
#[derive(Clone, Copy, Debug, PartialEq, Eq, Structural)]
pub enum MintError {
    /// No bump gives a valid derived address for the seed label.
    DerivationExhausted,
    /// A supplied account is not the derived authority, or does not record it.
    AuthorityMismatch,
    /// The supply counter already exists.
    AlreadyInitialized,
    /// The token ledger or the metadata program refused the call.
    ExternalProgramFailure,
}

} // verus!
