//! The data model: calls, challenges, escrow custody, and protocol
//! configuration, together with their well-formedness invariants.

use vstd::prelude::*;

verus! {

/// A participant identity: a 32-byte public key.
pub type Pubkey = [u8; 32];

/// Minimum stake to create a call (0.05 SOL in lamports).
pub const CALL_MIN_STAKE: u64 = 50_000_000;

/// Minimum stake to open a challenge (0.01 SOL in lamports).
pub const CHALLENGE_MIN_STAKE: u64 = 10_000_000;

/// Longest permitted claim text, in bytes.
pub const MAX_CLAIM_LENGTH: usize = 280;

/// Capacity of the participant list, the caller included.
pub const MAX_PARTICIPANTS: usize = 20;

/// Separately documented nominal challenger limit. The participant list's
/// capacity binds first, so this limit is checked but never the one that
/// rejects a challenge; which of the two numbers is authoritative is an open
/// question of the protocol, and both checks are kept.
pub const NOMINAL_MAX_CHALLENGERS: u8 = 50;

/// Seconds in the 24-hour windows (minimum deadline distance, refund grace).
pub const DAY_SECONDS: i64 = 86400;

/// How far a call nonce may drift from the current time, in seconds.
pub const NONCE_WINDOW: i64 = 30;

/// Number of configured oracle identities.
pub const ORACLE_COUNT: usize = 3;

/// Distinct oracle votes required to resolve a call.
pub const QUORUM_THRESHOLD: usize = 2;

/// Protocol fee in basis points, set at initialization. Present in the
/// configuration but not consumed by the settlement path.
pub const PROTOCOL_FEE_BPS: u16 = 500;

/// What a resolution request claims happened.
#[derive(Clone, Copy, Debug, PartialEq, Eq, Structural)]
pub enum Outcome {
    CallerWins,
    CallerLoses,
}

/// The kind of prediction a call makes.
#[derive(Clone, Copy, Debug, PartialEq, Eq, Structural)]
pub enum CallCategory {
    TokenPrice,
    RugPrediction,
}

/// The call's state machine: `Active` is initial, the rest are terminal.
#[derive(Clone, Copy, Debug, PartialEq, Eq, Structural)]
pub enum CallStatus {
    Active,
    ResolvedCallerWins,
    ResolvedCallerLoses,
    AutoRefunded,
}

/// True of every state a call can never leave.
pub open spec fn is_terminal(s: CallStatus) -> bool {
    s != CallStatus::Active
}

/// True of the discrete confidence levels the protocol accepts.
pub open spec fn spec_valid_confidence(c: u8) -> bool {
    ||| c == 60
    ||| c == 65
    ||| c == 70
    ||| c == 75
    ||| c == 80
    ||| c == 85
    ||| c == 90
    ||| c == 95
}

/// Checks that a confidence level is one of the accepted discrete values.
pub fn valid_confidence(c: u8) -> (r: bool)
    ensures
        r == spec_valid_confidence(c),
{
    c == 60 || c == 65 || c == 70 || c == 75 || c == 80 || c == 85 || c == 90 || c == 95
}

/// One prediction: a staked, falsifiable claim with a deadline.
#[derive(Clone, Debug, PartialEq, Eq)]
pub struct Call {
    /// The call's own identity (the address of its record).
    pub id: Pubkey,
    /// Identity of the caller who staked behind the claim.
    pub caller: Pubkey,
    /// The claim text, as UTF-8 bytes.
    pub claim: Vec<u8>,
    pub category: CallCategory,
    pub token_address: Option<Pubkey>,
    pub target_price: Option<i64>,
    pub creation_price: Option<i64>,
    /// The caller's stake, in lamports.
    pub stake: u64,
    /// Declared confidence level.
    pub confidence: u8,
    /// Unix timestamp at which the call can be resolved.
    pub deadline: i64,
    pub created_at: i64,
    pub status: CallStatus,
    /// Number of challenges opened against this call.
    pub challengers_count: u8,
    /// Every participant in join order; slot 0 is always the caller.
    pub participants: Vec<Pubkey>,
}

impl Call {
    /// The structural invariant every stored call satisfies: the participant
    /// list holds exactly the caller plus one entry per challenger, within
    /// capacity, and the creation-time validations held.
    pub open spec fn wf(self) -> bool {
        &&& self.participants.len() == self.challengers_count + 1
        &&& self.participants.len() <= MAX_PARTICIPANTS
        &&& self.participants[0]@ == self.caller@
        &&& self.stake >= CALL_MIN_STAKE
        &&& 1 <= self.claim.len() <= MAX_CLAIM_LENGTH
        &&& spec_valid_confidence(self.confidence)
        &&& self.deadline >= 0
    }
}

/// One opposing stake against a call.
#[derive(Clone, Copy, Debug, PartialEq, Eq)]
pub struct Challenge {
    /// Identity of the call this challenge opposes.
    pub call_id: Pubkey,
    /// Identity of the challenger.
    pub challenger: Pubkey,
    /// The challenger's stake, in lamports.
    pub stake: u64,
    /// Declared confidence level.
    pub confidence: u8,
    pub created_at: i64,
}

impl Challenge {
    /// The invariant every stored challenge satisfies.
    pub open spec fn wf(self) -> bool {
        &&& self.stake >= CHALLENGE_MIN_STAKE
        &&& spec_valid_confidence(self.confidence)
    }
}

/// The value-holding account bound to one call. All deposits and payouts for
/// the call and its challenges pass through it.
#[derive(Clone, Copy, Debug, PartialEq, Eq)]
pub struct Escrow {
    /// Funds currently held for the call, in lamports.
    pub balance: u64,
}

/// Process-wide protocol state, initialized once and read-only thereafter.
#[derive(Clone, Debug, PartialEq, Eq)]
pub struct GlobalConfig {
    /// The administering identity.
    pub authority: Pubkey,
    /// The set of authorized oracle identities.
    pub oracle_signers: Vec<Pubkey>,
    /// Fee parameter, unused by the settlement path.
    pub protocol_fee_bps: u16,
    /// When set, call creation and challenges are rejected.
    pub is_paused: bool,
}

impl GlobalConfig {
    /// Exactly three pairwise-distinct oracle identities are configured, so
    /// that a vote count over them is a count of distinct signers.
    pub open spec fn wf(self) -> bool {
        &&& self.oracle_signers.len() == ORACLE_COUNT
        &&& forall|i: int, j: int|
            0 <= i < j < self.oracle_signers.len() ==> self.oracle_signers[i]@
                != self.oracle_signers[j]@
    }
}

/// One fund movement out of escrow, for the runtime to execute.
#[derive(Clone, Copy, Debug, PartialEq, Eq)]
pub struct Payout {
    /// The receiving wallet.
    pub to: Pubkey,
    /// Amount in lamports.
    pub amount: u64,
}

/// Sum of the stakes of the first `k` challenges.
pub open spec fn sum_stakes_to(chs: Seq<Challenge>, k: int) -> int
    decreases k,
{
    if k <= 0 {
        0
    } else {
        sum_stakes_to(chs, k - 1) + chs[k - 1].stake
    }
}

/// Sum of the stakes of all the challenges.
pub open spec fn sum_stakes(chs: Seq<Challenge>) -> int {
    sum_stakes_to(chs, chs.len() as int)
}

/// Sum of the first `k` entries of a list of amounts.
pub open spec fn sum_amounts_to(s: Seq<u64>, k: int) -> int
    decreases k,
{
    if k <= 0 {
        0
    } else {
        sum_amounts_to(s, k - 1) + s[k - 1]
    }
}

/// Sum of the amounts of the first `k` payouts.
pub open spec fn sum_payouts_to(ps: Seq<Payout>, k: int) -> int
    decreases k,
{
    if k <= 0 {
        0
    } else {
        sum_payouts_to(ps, k - 1) + ps[k - 1].amount
    }
}

/// Every partial stake sum is at least the previous one, and nonnegative.
pub proof fn lemma_sum_stakes_monotonic(chs: Seq<Challenge>, j: int, k: int)
    requires
        0 <= j <= k,
    ensures
        0 <= sum_stakes_to(chs, j) <= sum_stakes_to(chs, k),
    decreases k,
{
    if k > 0 && j < k {
        lemma_sum_stakes_monotonic(chs, j, k - 1);
    } else if k > 0 {
        lemma_sum_stakes_monotonic(chs, 0, j - 1);
    }
}

/// Every partial amount sum is at least the previous one, and nonnegative.
pub proof fn lemma_sum_amounts_monotonic(s: Seq<u64>, j: int, k: int)
    requires
        0 <= j <= k,
    ensures
        0 <= sum_amounts_to(s, j) <= sum_amounts_to(s, k),
    decreases k,
{
    if k > 0 && j < k {
        lemma_sum_amounts_monotonic(s, j, k - 1);
    } else if k > 0 {
        lemma_sum_amounts_monotonic(s, 0, j - 1);
    }
}

/// A payout list built from an amounts list entry by entry carries the same
/// sum.
pub proof fn lemma_sum_payouts_matches(ps: Seq<Payout>, amounts: Seq<u64>, k: int)
    requires
        forall|j: int| 0 <= j < k ==> ps[j].amount == amounts[j],
    ensures
        sum_payouts_to(ps, k) == sum_amounts_to(amounts, k),
    decreases k,
{
    if k > 0 {
        lemma_sum_payouts_matches(ps, amounts, k - 1);
    }
}

/// Compares two identities byte for byte.
pub fn pubkey_eq(a: &Pubkey, b: &Pubkey) -> (r: bool)
    ensures
        r == (a@ == b@),
{
    let mut i: usize = 0;
    while i < 32
        invariant
            0 <= i <= 32,
            forall|j: int| 0 <= j < i ==> a@[j] == b@[j],
        decreases 32 - i,
    {
        if a[i] != b[i] {
            return false;
        }
        i = i + 1;
    }
    proof {
        assert(a@ =~= b@);
    }
    true
}

} // verus!
