//! Stable error codes for every way a request can be rejected.

use vstd::prelude::*;

verus! {

/// Why an operation was rejected. Every failure leaves all state unchanged.
#[derive(Clone, Copy, Debug, PartialEq, Eq, Structural)]
pub enum ErrorCode {
    /// Protocol is currently paused.
    ProtocolPaused,
    /// Call nonce must be within 30 seconds of the current time.
    InvalidCallNonce,
    /// Claim must be 1-280 bytes.
    InvalidClaimLength,
    /// Stake amount below the required floor.
    StakeTooLow,
    /// Confidence must be one of 60, 65, 70, 75, 80, 85, 90, 95.
    InvalidConfidence,
    /// Deadline must be at least 24 hours from now.
    DeadlineTooSoon,
    /// Missing token address or target price for a price-target call.
    MissingPriceData,
    /// Missing token address for a rug-prediction call.
    MissingTokenAddress,
    /// Cannot challenge your own call.
    CannotChallengeOwnCall,
    /// Wallet already participated in this call.
    AlreadyParticipated,
    /// Maximum challengers reached.
    MaxChallengersReached,
    /// Maximum participants reached.
    MaxParticipantsReached,
    /// Call is not active.
    CallNotActive,
    /// Call already resolved.
    AlreadyResolved,
    /// Deadline has not been reached yet.
    DeadlineNotReached,
    /// Deadline has already passed.
    DeadlinePassed,
    /// Fewer than the required number of distinct oracle votes.
    InsufficientOracleSignatures,
    /// The attestation bundle could not be read at all.
    InvalidInstructionSysvar,
    /// Challenge does not belong to this call.
    ChallengeMismatch,
    /// A supplied challenge record could not be decoded.
    InvalidChallengeAccount,
    /// Wrong number of supplied challenge records or wallets.
    InvalidRemainingAccounts,
    /// Challenger wallet does not match its challenge record.
    InvalidChallengerWallet,
    /// Caller wallet does not match the call record.
    InvalidCallerWallet,
    /// Arithmetic overflow; no funds move.
    ArithmeticOverflow,
    /// Auto-refund not yet available (must wait 24 hours past the deadline).
    RefundNotYetAvailable,
}

} // verus!
