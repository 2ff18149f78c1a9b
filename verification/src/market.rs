//! Creation-side operations: protocol initialization, call creation and
//! challenge opening. These populate the records and the escrow that the
//! settlement engine later consumes.

use vstd::prelude::*;

use crate::errors::ErrorCode;
use crate::state::{
    pubkey_eq, spec_valid_confidence, valid_confidence, Call, CallCategory, CallStatus, Challenge,
    Escrow, GlobalConfig, Pubkey, CALL_MIN_STAKE, CHALLENGE_MIN_STAKE, DAY_SECONDS, MAX_CLAIM_LENGTH,
    MAX_PARTICIPANTS, NOMINAL_MAX_CHALLENGERS, NONCE_WINDOW, ORACLE_COUNT, PROTOCOL_FEE_BPS,
};

verus! {

/// Creates the process-wide configuration: the administering identity and
/// the fixed set of three distinct oracle identities, unpaused, with the
/// default fee parameter.
pub fn initialize(authority: Pubkey, oracle_signers: Vec<Pubkey>) -> (r: GlobalConfig)
    requires
        oracle_signers.len() == ORACLE_COUNT,
        forall|i: int, j: int|
            0 <= i < j < oracle_signers.len() ==> oracle_signers@[i]@ != oracle_signers@[j]@,
    ensures
        r.wf(),
        r.authority@ == authority@,
        r.oracle_signers == oracle_signers,
        r.protocol_fee_bps == PROTOCOL_FEE_BPS,
        !r.is_paused,
{
    GlobalConfig {
        authority,
        oracle_signers,
        protocol_fee_bps: PROTOCOL_FEE_BPS,
        is_paused: false,
    }
}

/// The first reason a call-creation request is rejected, or `None` when it
/// succeeds: the checks run in this order, and a rejected request creates
/// nothing.
pub open spec fn make_call_error(
    config: GlobalConfig,
    now: i64,
    claim: Seq<u8>,
    category: CallCategory,
    token_address: Option<Pubkey>,
    target_price: Option<i64>,
    stake: u64,
    confidence: u8,
    deadline: i64,
    call_nonce: i64,
) -> Option<ErrorCode> {
    if config.is_paused {
        Some(ErrorCode::ProtocolPaused)
    } else if claim.len() < 1 || claim.len() > MAX_CLAIM_LENGTH {
        Some(ErrorCode::InvalidClaimLength)
    } else if call_nonce < now - NONCE_WINDOW || call_nonce > now + NONCE_WINDOW {
        Some(ErrorCode::InvalidCallNonce)
    } else if stake < CALL_MIN_STAKE {
        Some(ErrorCode::StakeTooLow)
    } else if !spec_valid_confidence(confidence) {
        Some(ErrorCode::InvalidConfidence)
    } else if deadline < now + DAY_SECONDS {
        Some(ErrorCode::DeadlineTooSoon)
    } else if category == CallCategory::TokenPrice && (token_address is None
        || target_price is None) {
        Some(ErrorCode::MissingPriceData)
    } else if category == CallCategory::RugPrediction && token_address is None {
        Some(ErrorCode::MissingTokenAddress)
    } else {
        None
    }
}

/// Validates a call-creation request and, when it passes, returns the new
/// active call together with its freshly funded escrow: the claim is
/// bounded, the nonce is within the drift window of the current time, the
/// stake meets the floor, the confidence level is one of the accepted
/// values, the deadline is at least a day away, and the category's required
/// fields are present. The caller is the sole participant.
pub fn make_call(
    config: &GlobalConfig,
    now: i64,
    call_id: Pubkey,
    caller: Pubkey,
    claim: Vec<u8>,
    category: CallCategory,
    token_address: Option<Pubkey>,
    target_price: Option<i64>,
    stake: u64,
    confidence: u8,
    deadline: i64,
    call_nonce: i64,
) -> (r: Result<(Call, Escrow), ErrorCode>)
    requires
        0 <= now <= i64::MAX - DAY_SECONDS,
    ensures
        match make_call_error(
            *config,
            now,
            claim@,
            category,
            token_address,
            target_price,
            stake,
            confidence,
            deadline,
            call_nonce,
        ) {
            Some(e) => r == Err::<(Call, Escrow), ErrorCode>(e),
            None => r matches Ok(created) && {
                &&& created.0.wf()
                &&& created.0.id@ == call_id@
                &&& created.0.caller@ == caller@
                &&& created.0.claim == claim
                &&& created.0.category == category
                &&& created.0.token_address == token_address
                &&& created.0.target_price == target_price
                &&& created.0.creation_price is None
                &&& created.0.stake == stake
                &&& created.0.confidence == confidence
                &&& created.0.deadline == deadline
                &&& created.0.created_at == now
                &&& created.0.status == CallStatus::Active
                &&& created.0.challengers_count == 0
                &&& created.0.participants.len() == 1
                &&& created.0.participants[0]@ == caller@
                &&& created.1.balance == stake
            },
        },
{
    if config.is_paused {
        return Err(ErrorCode::ProtocolPaused);
    }
    if claim.len() < 1 || claim.len() > MAX_CLAIM_LENGTH {
        return Err(ErrorCode::InvalidClaimLength);
    }
    if call_nonce < now - NONCE_WINDOW || call_nonce > now + NONCE_WINDOW {
        return Err(ErrorCode::InvalidCallNonce);
    }
    if stake < CALL_MIN_STAKE {
        return Err(ErrorCode::StakeTooLow);
    }
    if !valid_confidence(confidence) {
        return Err(ErrorCode::InvalidConfidence);
    }
    if deadline < now + DAY_SECONDS {
        return Err(ErrorCode::DeadlineTooSoon);
    }
    match category {
        CallCategory::TokenPrice => {
            if token_address.is_none() || target_price.is_none() {
                return Err(ErrorCode::MissingPriceData);
            }
        },
        CallCategory::RugPrediction => {
            if token_address.is_none() {
                return Err(ErrorCode::MissingTokenAddress);
            }
        },
    }
    let mut participants: Vec<Pubkey> = Vec::new();
    participants.push(caller);
    let call = Call {
        id: call_id,
        caller,
        claim,
        category,
        token_address,
        target_price,
        creation_price: None,
        stake,
        confidence,
        deadline,
        created_at: now,
        status: CallStatus::Active,
        challengers_count: 0,
        participants,
    };
    let escrow = Escrow { balance: stake };
    Ok((call, escrow))
}

/// Whether an identity already holds a slot in the call's participant list;
/// slot 0 is the caller.
pub open spec fn already_participant(call: Call, challenger: Pubkey) -> bool {
    exists|i: int| 0 <= i < call.participants.len() && call.participants[i]@ == challenger@
}

/// The first reason a challenge request is rejected, or `None` when it
/// succeeds: the checks run in this order, and a rejected request changes
/// nothing. The nominal challenger limit is checked before the participant
/// list's capacity, though the capacity binds first.
pub open spec fn challenge_error(
    call: Call,
    config: GlobalConfig,
    now: i64,
    challenger: Pubkey,
    stake: u64,
    confidence: u8,
) -> Option<ErrorCode> {
    if call.status != CallStatus::Active {
        Some(ErrorCode::CallNotActive)
    } else if call.deadline <= now {
        Some(ErrorCode::DeadlinePassed)
    } else if config.is_paused {
        Some(ErrorCode::ProtocolPaused)
    } else if challenger@ == call.caller@ {
        Some(ErrorCode::CannotChallengeOwnCall)
    } else if already_participant(call, challenger) {
        Some(ErrorCode::AlreadyParticipated)
    } else if call.challengers_count >= NOMINAL_MAX_CHALLENGERS {
        Some(ErrorCode::MaxChallengersReached)
    } else if !spec_valid_confidence(confidence) {
        Some(ErrorCode::InvalidConfidence)
    } else if stake < CHALLENGE_MIN_STAKE {
        Some(ErrorCode::StakeTooLow)
    } else if call.challengers_count as int + 1 >= MAX_PARTICIPANTS {
        Some(ErrorCode::MaxParticipantsReached)
    } else {
        None
    }
}

/// Opens a challenge against an active call before its deadline: the
/// challenger must be a new participant other than the caller, the stake
/// must meet the floor, and a participant slot must be free. On success the
/// stake joins the escrow, the challenger joins the participant list, and
/// the new challenge record is returned.
#[verifier::loop_isolation(false)]
pub fn challenge_call(
    call: &mut Call,
    escrow: &mut Escrow,
    config: &GlobalConfig,
    now: i64,
    challenger: Pubkey,
    stake: u64,
    confidence: u8,
) -> (r: Result<Challenge, ErrorCode>)
    requires
        old(call).wf(),
        old(escrow).balance + stake <= u64::MAX,
    ensures
        final(call).wf(),
        match challenge_error(*old(call), *config, now, challenger, stake, confidence) {
            Some(e) => {
                &&& r == Err::<Challenge, ErrorCode>(e)
                &&& *final(call) == *old(call)
                &&& *final(escrow) == *old(escrow)
            },
            None => {
                &&& r matches Ok(ch) && ch == (Challenge {
                    call_id: old(call).id,
                    challenger,
                    stake,
                    confidence,
                    created_at: now,
                })
                &&& (r matches Ok(ch) ==> ch.wf())
                &&& final(escrow).balance == old(escrow).balance + stake
                &&& final(call).challengers_count == old(call).challengers_count + 1
                &&& final(call).participants@ == old(call).participants@.push(challenger)
                &&& *final(call) == (Call {
                    challengers_count: final(call).challengers_count,
                    participants: final(call).participants,
                    ..*old(call)
                })
            },
        },
{
    if call.status != CallStatus::Active {
        return Err(ErrorCode::CallNotActive);
    }
    if call.deadline <= now {
        return Err(ErrorCode::DeadlinePassed);
    }
    if config.is_paused {
        return Err(ErrorCode::ProtocolPaused);
    }
    if pubkey_eq(&challenger, &call.caller) {
        return Err(ErrorCode::CannotChallengeOwnCall);
    }
    let mut i: usize = 0;
    let plen = call.participants.len();
    while i < plen
        invariant
            0 <= i <= plen,
            plen == call.participants.len(),
            forall|j: int| 0 <= j < i ==> call.participants@[j]@ != challenger@,
        decreases plen - i,
    {
        if pubkey_eq(&call.participants[i], &challenger) {
            return Err(ErrorCode::AlreadyParticipated);
        }
        i = i + 1;
    }
    if call.challengers_count >= NOMINAL_MAX_CHALLENGERS {
        return Err(ErrorCode::MaxChallengersReached);
    }
    if !valid_confidence(confidence) {
        return Err(ErrorCode::InvalidConfidence);
    }
    if stake < CHALLENGE_MIN_STAKE {
        return Err(ErrorCode::StakeTooLow);
    }
    let next_slot = call.challengers_count as usize + 1;
    if next_slot >= MAX_PARTICIPANTS {
        return Err(ErrorCode::MaxParticipantsReached);
    }
    escrow.balance = escrow.balance + stake;
    call.participants.push(challenger);
    call.challengers_count = call.challengers_count + 1;
    Ok(Challenge { call_id: call.id, challenger, stake, confidence, created_at: now })
}

} // verus!
