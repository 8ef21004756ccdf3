use vstd::prelude::*;

verus! {

/// Why an operation on a channel was rejected. Every rejection leaves the
/// channel state as it was.
#[derive(Debug, Clone, Copy, PartialEq, Eq, Structural)]
pub enum ChannelError {
    /// A channel for the (payer, payee) pair is already open.
    ChannelAlreadyOpen,
    /// The payer and the payee are the same account.
    SelfChannelNotAllowed,
    /// No channel is open for the (payer, payee) pair.
    ChannelNotFound,
    /// The sequence number was already settled on this channel.
    NonceAlreadyConsumed,
    /// The payer's identifier is not a 33-byte compressed secp256k1 public key.
    InvalidAccountKeyEncoding,
    /// The signature is not 64 bytes long.
    InvalidSignatureEncoding,
    /// The signature does not authenticate the claim's commitment digest.
    SignatureVerificationFailed,
    /// The currency transfer was refused.
    InsufficientFunds,
}

} // verus!
