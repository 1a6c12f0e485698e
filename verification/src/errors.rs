use vstd::prelude::*;

verus! {

/// Why an operation of the ledger was refused.
#[derive(Debug, Clone, Copy, PartialEq, Eq, Structural)]
pub enum ChainError {
    /// Bytes could not be encoded, or stored bytes could not be decoded.
    SerializationError,
    /// The store holds no tip pointer.
    UninitializedChain,
    /// No transaction (or no output of it) answers a reference.
    TransactionNotFound,
    /// The spendable outputs of the sender do not cover the amount.
    InsufficientFunds,
    /// A transaction offered for inclusion does not verify.
    InvalidSignature,
    /// The stored chain does not lead back to a genesis block, or a new
    /// block cannot be linked to it.
    CorruptChain,
    /// The text is not an address.
    InvalidAddress,
    /// An amount is negative.
    InvalidAmount,
    /// A signing key does not have the length of an Ed25519 secret key.
    InvalidKey,
    /// No nonce of the whole range seals the block.
    NonceExhausted,
    /// The system clock reads a time before the Unix epoch.
    ClockUnavailable,
}

} // verus!
