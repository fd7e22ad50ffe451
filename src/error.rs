//! The errors of the chain engine.
use vstd::prelude::*;

verus! {

#[derive(Clone, Copy, Debug, PartialEq, Eq, Structural)]
pub enum BtcError {
    /// A structural, header, unspent-output or coinbase rule of a block failed.
    InvalidBlock,
    /// The Merkle root of a block's transactions differs from its header's.
    InvalidMerkleRoot,
    /// A transaction was refused by the mempool.
    InvalidTransaction,
    /// A signature did not verify.
    InvalidSignature,
}

impl BtcError {
    /// A short description of the error.
    pub fn message(&self) -> (r: &'static str) {
        match self {
            BtcError::InvalidBlock => "invalid block",
            BtcError::InvalidMerkleRoot => "invalid merkle root",
            BtcError::InvalidTransaction => "invalid transaction",
            BtcError::InvalidSignature => "invalid signature",
        }
    }
}

} // verus!
