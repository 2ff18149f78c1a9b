//! Tests for protocol initialization, call creation and challenge opening.

use callit::errors::ErrorCode;
use callit::market::{challenge_call, initialize, make_call};
use callit::state::{
    CallCategory, CallStatus, Escrow, GlobalConfig, Pubkey, CALL_MIN_STAKE, CHALLENGE_MIN_STAKE,
    DAY_SECONDS, MAX_PARTICIPANTS, PROTOCOL_FEE_BPS,
};

fn pk(tag: u8) -> Pubkey {
    let mut k = [0u8; 32];
    k[0] = tag;
    k[31] = tag;
    k
}

fn config() -> GlobalConfig {
    initialize(pk(0xad), vec![pk(0xa1), pk(0xa2), pk(0xa3)])
}

const NOW: i64 = 1_700_000_000;

fn good_call_args() -> (Vec<u8>, CallCategory, Option<Pubkey>, Option<i64>, u64, u8, i64, i64) {
    (
        b"token price doubles".to_vec(),
        CallCategory::TokenPrice,
        Some(pk(7)),
        Some(42),
        CALL_MIN_STAKE,
        80,
        NOW + DAY_SECONDS,
        NOW,
    )
}

#[test]
fn initialize_sets_configuration() {
    let cfg = config();
    assert_eq!(cfg.authority, pk(0xad));
    assert_eq!(cfg.oracle_signers, vec![pk(0xa1), pk(0xa2), pk(0xa3)]);
    assert_eq!(cfg.protocol_fee_bps, PROTOCOL_FEE_BPS);
    assert!(!cfg.is_paused);
}

#[test]
fn make_call_creates_active_funded_call() {
    let (claim, cat, token, target, stake, conf, deadline, nonce) = good_call_args();
    let (call, escrow) = make_call(
        &config(),
        NOW,
        pk(9),
        pk(1),
        claim.clone(),
        cat,
        token,
        target,
        stake,
        conf,
        deadline,
        nonce,
    )
    .unwrap();
    assert_eq!(call.id, pk(9));
    assert_eq!(call.caller, pk(1));
    assert_eq!(call.claim, claim);
    assert_eq!(call.stake, stake);
    assert_eq!(call.confidence, conf);
    assert_eq!(call.deadline, deadline);
    assert_eq!(call.created_at, NOW);
    assert_eq!(call.status, CallStatus::Active);
    assert_eq!(call.challengers_count, 0);
    assert_eq!(call.participants, vec![pk(1)]);
    assert_eq!(call.creation_price, None);
    assert_eq!(escrow.balance, stake);
}

#[test]
fn make_call_rejections() {
    let (claim, cat, token, target, stake, conf, deadline, nonce) = good_call_args();
    let cfg = config();
    let mut paused = config();
    paused.is_paused = true;
    let run = |cfg: &GlobalConfig,
               claim: Vec<u8>,
               cat: CallCategory,
               token: Option<Pubkey>,
               target: Option<i64>,
               stake: u64,
               conf: u8,
               deadline: i64,
               nonce: i64| {
        make_call(cfg, NOW, pk(9), pk(1), claim, cat, token, target, stake, conf, deadline, nonce)
            .map(|_| ())
    };
    assert_eq!(
        run(&paused, claim.clone(), cat, token, target, stake, conf, deadline, nonce),
        Err(ErrorCode::ProtocolPaused)
    );
    assert_eq!(
        run(&cfg, Vec::new(), cat, token, target, stake, conf, deadline, nonce),
        Err(ErrorCode::InvalidClaimLength)
    );
    assert_eq!(
        run(&cfg, vec![b'x'; 281], cat, token, target, stake, conf, deadline, nonce),
        Err(ErrorCode::InvalidClaimLength)
    );
    assert_eq!(
        run(&cfg, claim.clone(), cat, token, target, stake, conf, deadline, NOW + 31),
        Err(ErrorCode::InvalidCallNonce)
    );
    assert_eq!(
        run(&cfg, claim.clone(), cat, token, target, stake - 1, conf, deadline, nonce),
        Err(ErrorCode::StakeTooLow)
    );
    assert_eq!(
        run(&cfg, claim.clone(), cat, token, target, stake, 61, deadline, nonce),
        Err(ErrorCode::InvalidConfidence)
    );
    assert_eq!(
        run(&cfg, claim.clone(), cat, token, target, stake, conf, deadline - 1, nonce),
        Err(ErrorCode::DeadlineTooSoon)
    );
    assert_eq!(
        run(&cfg, claim.clone(), CallCategory::TokenPrice, token, None, stake, conf, deadline, nonce),
        Err(ErrorCode::MissingPriceData)
    );
    assert_eq!(
        run(&cfg, claim.clone(), CallCategory::RugPrediction, None, None, stake, conf, deadline, nonce),
        Err(ErrorCode::MissingTokenAddress)
    );
}

#[test]
fn challenge_joins_escrow_and_participants() {
    let (claim, cat, token, target, stake, conf, deadline, nonce) = good_call_args();
    let cfg = config();
    let (mut call, mut escrow) = make_call(
        &cfg,
        NOW,
        pk(9),
        pk(1),
        claim,
        cat,
        token,
        target,
        stake,
        conf,
        deadline,
        nonce,
    )
    .unwrap();
    let ch = challenge_call(
        &mut call,
        &mut escrow,
        &cfg,
        NOW + 100,
        pk(2),
        CHALLENGE_MIN_STAKE,
        65,
    )
    .unwrap();
    assert_eq!(ch.call_id, call.id);
    assert_eq!(ch.challenger, pk(2));
    assert_eq!(ch.stake, CHALLENGE_MIN_STAKE);
    assert_eq!(ch.confidence, 65);
    assert_eq!(ch.created_at, NOW + 100);
    assert_eq!(call.challengers_count, 1);
    assert_eq!(call.participants, vec![pk(1), pk(2)]);
    assert_eq!(escrow.balance, stake + CHALLENGE_MIN_STAKE);
}

#[test]
fn challenge_rejections() {
    let (claim, cat, token, target, stake, conf, deadline, nonce) = good_call_args();
    let cfg = config();
    let (mut call, mut escrow) = make_call(
        &cfg,
        NOW,
        pk(9),
        pk(1),
        claim,
        cat,
        token,
        target,
        stake,
        conf,
        deadline,
        nonce,
    )
    .unwrap();
    let now = NOW + 100;
    let min = CHALLENGE_MIN_STAKE;

    let mut paused = config();
    paused.is_paused = true;
    assert_eq!(
        challenge_call(&mut call, &mut escrow, &paused, now, pk(2), min, 65),
        Err(ErrorCode::ProtocolPaused)
    );
    assert_eq!(
        challenge_call(&mut call, &mut escrow, &cfg, now, pk(1), min, 65),
        Err(ErrorCode::CannotChallengeOwnCall)
    );
    assert_eq!(
        challenge_call(&mut call, &mut escrow, &cfg, now, pk(2), min, 66),
        Err(ErrorCode::InvalidConfidence)
    );
    assert_eq!(
        challenge_call(&mut call, &mut escrow, &cfg, now, pk(2), min - 1, 65),
        Err(ErrorCode::StakeTooLow)
    );
    assert_eq!(
        challenge_call(&mut call, &mut escrow, &cfg, deadline, pk(2), min, 65),
        Err(ErrorCode::DeadlinePassed)
    );
    challenge_call(&mut call, &mut escrow, &cfg, now, pk(2), min, 65).unwrap();
    assert_eq!(
        challenge_call(&mut call, &mut escrow, &cfg, now, pk(2), min, 65),
        Err(ErrorCode::AlreadyParticipated)
    );
    let mut resolved = call.clone();
    resolved.status = CallStatus::ResolvedCallerWins;
    assert_eq!(
        challenge_call(&mut resolved, &mut escrow, &cfg, now, pk(3), min, 65),
        Err(ErrorCode::CallNotActive)
    );
}

#[test]
fn challenge_capacity_is_nineteen() {
    let (claim, cat, token, target, stake, conf, deadline, nonce) = good_call_args();
    let cfg = config();
    let (mut call, mut escrow) = make_call(
        &cfg,
        NOW,
        pk(9),
        pk(1),
        claim,
        cat,
        token,
        target,
        stake,
        conf,
        deadline,
        nonce,
    )
    .unwrap();
    // The 20-slot participant list holds the caller plus at most 19
    // challengers, despite the separately documented limit of 50.
    for i in 0..(MAX_PARTICIPANTS - 1) {
        let r = challenge_call(
            &mut call,
            &mut escrow,
            &cfg,
            NOW + 100,
            pk(10 + i as u8),
            CHALLENGE_MIN_STAKE,
            65,
        );
        assert!(r.is_ok());
    }
    assert_eq!(call.challengers_count as usize, MAX_PARTICIPANTS - 1);
    let r = challenge_call(
        &mut call,
        &mut escrow,
        &cfg,
        NOW + 100,
        pk(200),
        CHALLENGE_MIN_STAKE,
        65,
    );
    assert_eq!(r, Err(ErrorCode::MaxParticipantsReached));
    assert_eq!(call.challengers_count as usize, MAX_PARTICIPANTS - 1);
}

#[test]
fn challenge_stakes_keep_escrow_in_step() {
    let (claim, cat, token, target, stake, conf, deadline, nonce) = good_call_args();
    let cfg = config();
    let (mut call, mut escrow) = make_call(
        &cfg,
        NOW,
        pk(9),
        pk(1),
        claim,
        cat,
        token,
        target,
        stake,
        conf,
        deadline,
        nonce,
    )
    .unwrap();
    let mut expected = stake;
    for (i, extra) in [0u64, 5, 17].iter().enumerate() {
        let amt = CHALLENGE_MIN_STAKE + extra;
        challenge_call(&mut call, &mut escrow, &cfg, NOW + 100, pk(20 + i as u8), amt, 95)
            .unwrap();
        expected += amt;
        assert_eq!(escrow.balance, expected);
    }
}
