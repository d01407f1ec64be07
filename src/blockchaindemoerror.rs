//! Errors of the ledger's command surface.
use vstd::prelude::*;

verus! {

/// Errors that the ledger itself raises; errors of I/O and decoding are
/// passed on unchanged by whoever performs them.
#[derive(Debug, Clone, Copy, PartialEq, Eq, Structural)]
pub enum BlockChainDemoError {
    /// Malformed or missing input from the user.
    UsageError,
    /// An invariant that the code relies on turned out false.
    InternalError,
    /// The chain has no valid first block.
    GenesisError,
    /// The chain failed verification.
    VerifyError,
}

impl BlockChainDemoError {
    /// A one-line description of the error.
    pub fn message(&self) -> (r: &'static str)
        ensures
            r@ == match self {
                BlockChainDemoError::UsageError => "Usage error"@,
                BlockChainDemoError::InternalError => "Internal unexpected error"@,
                BlockChainDemoError::GenesisError => "Genesis block is invalid or missing"@,
                BlockChainDemoError::VerifyError => "Block chain verification failed"@,
            },
    {
        match self {
            BlockChainDemoError::UsageError => "Usage error",
            BlockChainDemoError::InternalError => "Internal unexpected error",
            BlockChainDemoError::GenesisError => "Genesis block is invalid or missing",
            BlockChainDemoError::VerifyError => "Block chain verification failed",
        }
    }
}

} // verus!
