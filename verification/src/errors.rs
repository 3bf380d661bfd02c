use vstd::prelude::*;

verus! {

/// Failures that mnemonic generation and address derivation can report.
#[derive(Clone, Copy, Debug, PartialEq, Eq, Structural)]
pub enum Error {
    /// The mnemonic's word count, a word's membership, or the checksum is not valid.
    InvalidMnemonic,
    /// An (account, index) pair that the subaddress rules reject.
    InvalidSubaddressIndex,
    /// The secure random source failed to produce entropy.
    RandomSourceFailure,
}

} // verus!
