use vstd::prelude::*;

verus! {

/// Why an operation of the ledger was refused.
#[derive(Clone, Copy, Debug, PartialEq, Eq, Structural)]
pub enum LedgerError {
    /// A content hash, a commitment or a signature check was asked of a
    /// transaction that is not signed: it lacks its signature or its key.
    UnsignedTransaction,
    /// The stored signature is not hexadecimal, or its bytes are not a P-256
    /// signature.
    MalformedSignature,
    /// The signature is well formed and does not verify.
    InvalidSignature,
    /// The sender has no balance entry.
    UnknownSender,
    /// The sender's balance is below the amount.
    InsufficientFunds,
    /// The content hash was admitted before.
    DuplicateTransaction,
    /// Block `index` does not link to its predecessor, or its cached hash is
    /// stale.
    ChainIntegrityViolation { index: usize },
    /// A parameter cannot be worked with: a difficulty longer than a hash, an
    /// empty batch, an index past the end, an adjustment interval of zero.
    ConfigurationError,
    /// No nonce within the search budget meets the difficulty target.
    MiningBudgetExhausted,
    /// Crediting a receiver would exceed the largest representable balance.
    BalanceOverflow,
}

} // verus!
