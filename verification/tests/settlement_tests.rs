//! Tests for payout computation and the resolve transition.

use callit::errors::ErrorCode;
use callit::market::initialize;
use callit::quorum::{resolution_message, Instruction};
use callit::settlement::{compute_challenger_payouts, resolve_call};
use callit::state::{
    Call, CallCategory, CallStatus, Challenge, Escrow, GlobalConfig, Outcome, Pubkey,
};

fn pk(tag: u8) -> Pubkey {
    let mut k = [0u8; 32];
    k[0] = tag;
    k[31] = tag;
    k
}

fn ed25519_id() -> Pubkey {
    let mut k = [0u8; 32];
    k[0] = 0xed;
    k[1] = 0x25;
    k[2] = 0x51;
    k[3] = 0x09;
    k
}

fn config() -> GlobalConfig {
    initialize(pk(0xad), vec![pk(0xa1), pk(0xa2), pk(0xa3)])
}

fn vote_ix(signer: Pubkey, msg: &[u8]) -> Instruction {
    let mut data = vec![1u8, 0u8];
    data.resize(16, 0u8);
    let pk_off = data.len() as u16;
    data.extend_from_slice(&signer);
    let msg_off = data.len() as u16;
    data.extend_from_slice(msg);
    let msg_len = msg.len() as u16;
    data[8..10].copy_from_slice(&pk_off.to_le_bytes());
    data[12..14].copy_from_slice(&msg_off.to_le_bytes());
    data[14..16].copy_from_slice(&msg_len.to_le_bytes());
    Instruction {
        program_id: ed25519_id(),
        data,
    }
}

/// An attestation bundle with two distinct authorized oracle votes.
fn quorum_bundle(call_id: &Pubkey, outcome: Outcome, now: i64) -> Vec<Instruction> {
    let msg = resolution_message(call_id, outcome, now);
    vec![vote_ix(pk(0xa1), &msg), vote_ix(pk(0xa2), &msg)]
}

fn active_call(stake: u64, challengers: &[Pubkey]) -> Call {
    let caller = pk(1);
    let mut participants = vec![caller];
    participants.extend_from_slice(challengers);
    Call {
        id: pk(9),
        caller,
        claim: b"ghost chain halts within the week".to_vec(),
        category: CallCategory::RugPrediction,
        token_address: Some(pk(7)),
        target_price: None,
        creation_price: None,
        stake,
        confidence: 80,
        deadline: 1_000_000,
        created_at: 0,
        status: CallStatus::Active,
        challengers_count: challengers.len() as u8,
        participants,
    }
}

fn challenge_for(call: &Call, who: Pubkey, stake: u64) -> Challenge {
    Challenge {
        call_id: call.id,
        challenger: who,
        stake,
        confidence: 70,
        created_at: 10,
    }
}

fn challenge(stake: u64) -> Challenge {
    Challenge {
        call_id: pk(9),
        challenger: pk(2),
        stake,
        confidence: 70,
        created_at: 10,
    }
}

#[test]
fn payouts_stake_100_challengers_60_40() {
    // Pot 100 against stakes 60 and 40: the first challenger's raw share is
    // floor(100*60/100) = 60, under the cap of 90, so they get 60+60 = 120;
    // the last gets 40 + (100 - 60) = 80. Total 200 = pot + both stakes.
    let chs = vec![challenge(60), challenge(40)];
    let payouts = compute_challenger_payouts(100, &chs).unwrap();
    assert_eq!(payouts, vec![120, 80]);
    assert_eq!(payouts.iter().sum::<u64>(), 200);
}

#[test]
fn payouts_last_challenger_absorbs_dust() {
    // Pot 10 against stakes 3, 5, 7 (total 15): shares floor(30/15)=2 and
    // floor(50/15)=3, so the last challenger absorbs 10-5 = 5 of the pot.
    let chs = vec![challenge(3), challenge(5), challenge(7)];
    let payouts = compute_challenger_payouts(10, &chs).unwrap();
    assert_eq!(payouts, vec![5, 8, 12]);
    assert_eq!(payouts.iter().sum::<u64>(), 25);
}

#[test]
fn payouts_cap_limits_small_stake() {
    // Stake 1 against a pot of 1000: the raw share floor(1000/101) = 9 is
    // cut to the cap floor(1*15/10) = 1, so the payout is 2 <= 2.5x stake.
    // The last challenger absorbs the capped-away remainder without bound.
    let chs = vec![challenge(1), challenge(100)];
    let payouts = compute_challenger_payouts(1000, &chs).unwrap();
    assert_eq!(payouts, vec![2, 1099]);
    assert_eq!(payouts.iter().sum::<u64>(), 1101);
}

#[test]
fn payouts_cap_overflow_aborts() {
    let chs = vec![challenge(u64::MAX / 2), challenge(1)];
    let r = compute_challenger_payouts(1, &chs);
    assert_eq!(r, Err(ErrorCode::ArithmeticOverflow));
}

#[test]
fn caller_loses_pays_challengers_proportionally() {
    let w1 = pk(2);
    let w2 = pk(3);
    let mut call = active_call(100_000_000, &[w1, w2]);
    let chs = vec![
        challenge_for(&call, w1, 60_000_000),
        challenge_for(&call, w2, 40_000_000),
    ];
    let mut escrow = Escrow {
        balance: 200_000_000,
    };
    let now: i64 = 1_000_000;
    let bundle = quorum_bundle(&call.id, Outcome::CallerLoses, now);
    let caller_wallet = call.caller;
    let ps = resolve_call(
        &mut call,
        &mut escrow,
        &config(),
        now,
        Outcome::CallerLoses,
        &bundle,
        &chs,
        &vec![w1, w2],
        &caller_wallet,
    )
    .unwrap();
    assert_eq!(ps.len(), 2);
    assert_eq!(ps[0].to, w1);
    assert_eq!(ps[0].amount, 120_000_000);
    assert_eq!(ps[1].to, w2);
    assert_eq!(ps[1].amount, 80_000_000);
    assert_eq!(ps.iter().map(|p| p.amount).sum::<u64>(), 200_000_000);
    assert_eq!(escrow.balance, 0);
    assert_eq!(call.status, CallStatus::ResolvedCallerLoses);
}

#[test]
fn caller_wins_takes_whole_pot() {
    let w1 = pk(2);
    let w2 = pk(3);
    let mut call = active_call(100_000_000, &[w1, w2]);
    let chs = vec![
        challenge_for(&call, w1, 60_000_000),
        challenge_for(&call, w2, 40_000_000),
    ];
    let mut escrow = Escrow {
        balance: 200_000_000,
    };
    let now: i64 = 1_000_000;
    let bundle = quorum_bundle(&call.id, Outcome::CallerWins, now);
    let caller_wallet = call.caller;
    let ps = resolve_call(
        &mut call,
        &mut escrow,
        &config(),
        now,
        Outcome::CallerWins,
        &bundle,
        &chs,
        &vec![w1, w2],
        &caller_wallet,
    )
    .unwrap();
    assert_eq!(ps.len(), 1);
    assert_eq!(ps[0].to, caller_wallet);
    assert_eq!(ps[0].amount, 200_000_000);
    assert_eq!(escrow.balance, 0);
    assert_eq!(call.status, CallStatus::ResolvedCallerWins);
}

#[test]
fn zero_challengers_defaults_to_caller_wins() {
    let mut call = active_call(100_000_000, &[]);
    let mut escrow = Escrow {
        balance: 100_000_000,
    };
    let now: i64 = 1_000_000;
    // The claimed outcome is irrelevant with nobody on the other side.
    let bundle = quorum_bundle(&call.id, Outcome::CallerLoses, now);
    let caller_wallet = call.caller;
    let ps = resolve_call(
        &mut call,
        &mut escrow,
        &config(),
        now,
        Outcome::CallerLoses,
        &bundle,
        &Vec::new(),
        &Vec::new(),
        &caller_wallet,
    )
    .unwrap();
    assert_eq!(ps.len(), 1);
    assert_eq!(ps[0].to, caller_wallet);
    assert_eq!(ps[0].amount, 100_000_000);
    assert_eq!(escrow.balance, 0);
    assert_eq!(call.status, CallStatus::ResolvedCallerWins);
}

#[test]
fn second_resolution_fails_with_state_error() {
    let mut call = active_call(100_000_000, &[]);
    let mut escrow = Escrow {
        balance: 100_000_000,
    };
    let now: i64 = 1_000_000;
    let bundle = quorum_bundle(&call.id, Outcome::CallerWins, now);
    let caller_wallet = call.caller;
    resolve_call(
        &mut call,
        &mut escrow,
        &config(),
        now,
        Outcome::CallerWins,
        &bundle,
        &Vec::new(),
        &Vec::new(),
        &caller_wallet,
    )
    .unwrap();
    let status_after_first = call.status;
    let r = resolve_call(
        &mut call,
        &mut escrow,
        &config(),
        now,
        Outcome::CallerWins,
        &bundle,
        &Vec::new(),
        &Vec::new(),
        &caller_wallet,
    );
    assert_eq!(r, Err(ErrorCode::AlreadyResolved));
    assert_eq!(call.status, status_after_first);
    assert_eq!(escrow.balance, 0);
}

#[test]
fn resolve_before_deadline_fails() {
    let mut call = active_call(100_000_000, &[]);
    let mut escrow = Escrow {
        balance: 100_000_000,
    };
    let now: i64 = 999_999;
    let bundle = quorum_bundle(&call.id, Outcome::CallerWins, now);
    let caller_wallet = call.caller;
    let r = resolve_call(
        &mut call,
        &mut escrow,
        &config(),
        now,
        Outcome::CallerWins,
        &bundle,
        &Vec::new(),
        &Vec::new(),
        &caller_wallet,
    );
    assert_eq!(r, Err(ErrorCode::DeadlineNotReached));
    assert_eq!(call.status, CallStatus::Active);
    assert_eq!(escrow.balance, 100_000_000);
}

#[test]
fn resolve_without_quorum_fails() {
    let mut call = active_call(100_000_000, &[]);
    let mut escrow = Escrow {
        balance: 100_000_000,
    };
    let caller_wallet = call.caller;
    let r = resolve_call(
        &mut call,
        &mut escrow,
        &config(),
        1_000_000,
        Outcome::CallerWins,
        &Vec::new(),
        &Vec::new(),
        &Vec::new(),
        &caller_wallet,
    );
    assert_eq!(r, Err(ErrorCode::InsufficientOracleSignatures));
    assert_eq!(escrow.balance, 100_000_000);
}

#[test]
fn resolve_with_missing_proofs_fails() {
    let w1 = pk(2);
    let w2 = pk(3);
    let mut call = active_call(100_000_000, &[w1, w2]);
    let chs = vec![challenge_for(&call, w1, 60_000_000)];
    let mut escrow = Escrow {
        balance: 200_000_000,
    };
    let now: i64 = 1_000_000;
    let bundle = quorum_bundle(&call.id, Outcome::CallerLoses, now);
    let caller_wallet = call.caller;
    let r = resolve_call(
        &mut call,
        &mut escrow,
        &config(),
        now,
        Outcome::CallerLoses,
        &bundle,
        &chs,
        &vec![w1],
        &caller_wallet,
    );
    assert_eq!(r, Err(ErrorCode::InvalidRemainingAccounts));
}

#[test]
fn resolve_with_foreign_challenge_fails() {
    let w1 = pk(2);
    let mut call = active_call(100_000_000, &[w1]);
    let mut foreign = challenge_for(&call, w1, 60_000_000);
    foreign.call_id = pk(0x66);
    let chs = vec![foreign];
    let mut escrow = Escrow {
        balance: 160_000_000,
    };
    let now: i64 = 1_000_000;
    let bundle = quorum_bundle(&call.id, Outcome::CallerLoses, now);
    let caller_wallet = call.caller;
    let r = resolve_call(
        &mut call,
        &mut escrow,
        &config(),
        now,
        Outcome::CallerLoses,
        &bundle,
        &chs,
        &vec![w1],
        &caller_wallet,
    );
    assert_eq!(r, Err(ErrorCode::ChallengeMismatch));
    assert_eq!(call.status, CallStatus::Active);
}

#[test]
fn resolve_with_substituted_challenger_wallet_fails() {
    let w1 = pk(2);
    let mut call = active_call(100_000_000, &[w1]);
    let chs = vec![challenge_for(&call, w1, 60_000_000)];
    let mut escrow = Escrow {
        balance: 160_000_000,
    };
    let now: i64 = 1_000_000;
    let bundle = quorum_bundle(&call.id, Outcome::CallerLoses, now);
    let caller_wallet = call.caller;
    let r = resolve_call(
        &mut call,
        &mut escrow,
        &config(),
        now,
        Outcome::CallerLoses,
        &bundle,
        &chs,
        &vec![pk(0x44)],
        &caller_wallet,
    );
    assert_eq!(r, Err(ErrorCode::InvalidChallengerWallet));
    assert_eq!(escrow.balance, 160_000_000);
}

#[test]
fn resolve_with_substituted_caller_wallet_fails() {
    let w1 = pk(2);
    let mut call = active_call(100_000_000, &[w1]);
    let chs = vec![challenge_for(&call, w1, 60_000_000)];
    let mut escrow = Escrow {
        balance: 160_000_000,
    };
    let now: i64 = 1_000_000;
    let bundle = quorum_bundle(&call.id, Outcome::CallerLoses, now);
    let r = resolve_call(
        &mut call,
        &mut escrow,
        &config(),
        now,
        Outcome::CallerLoses,
        &bundle,
        &chs,
        &vec![w1],
        &pk(0x45),
    );
    assert_eq!(r, Err(ErrorCode::InvalidCallerWallet));
    assert_eq!(escrow.balance, 160_000_000);
}
