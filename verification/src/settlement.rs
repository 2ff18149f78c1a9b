//! The settlement engine: payout computation and the resolve transition.
//!
//! On a caller win the whole pot goes to the caller. On a caller loss the
//! caller's stake is the pot: every challenger but the last receives their
//! stake plus a proportional share of the pot, capped at one and a half
//! times their own stake; the last challenger (by join order) receives their
//! stake plus everything still undistributed, absorbing rounding dust and
//! whatever the caps left over, so the pot is always paid out exactly.

use vstd::arithmetic::div_mod::{
    lemma_div_is_ordered, lemma_div_multiples_vanish, lemma_div_pos_is_pos,
    lemma_fundamental_div_mod, lemma_hoist_over_denominator, lemma_mod_bound,
};
use vstd::arithmetic::mul::{
    lemma_mul_inequality, lemma_mul_is_commutative, lemma_mul_is_distributive_add,
    lemma_mul_is_distributive_add_other_way, lemma_mul_left_inequality, lemma_mul_upper_bound,
};
use vstd::prelude::*;

use crate::errors::ErrorCode;
use crate::quorum::{quorum_count, resolution_message_spec, verify_oracle_signatures, Instruction};
use crate::state::{
    is_terminal, lemma_sum_amounts_monotonic, lemma_sum_payouts_matches,
    lemma_sum_stakes_monotonic, pubkey_eq, sum_amounts_to, sum_payouts_to, sum_stakes,
    sum_stakes_to, Call, CallStatus, Challenge, Escrow, GlobalConfig, Outcome, Payout, Pubkey,
    QUORUM_THRESHOLD,
};

verus! {

/// The smaller of two numbers.
pub open spec fn min_spec(a: int, b: int) -> int {
    if a <= b {
        a
    } else {
        b
    }
}

/// The uncapped proportional share of a challenger holding `stake` out of
/// `total` staked, of a pot of `pot`, rounded down.
pub open spec fn raw_share(stake: int, pot: int, total: int) -> int {
    stake * pot / total
}

/// The most a capped challenger may win beyond their stake: one and a half
/// times the stake, rounded down.
pub open spec fn share_cap(stake: int) -> int {
    stake * 15 / 10
}

/// The share challenger `i` wins beyond their stake, before the last
/// challenger's remainder rule: the proportional share, capped.
pub open spec fn share_of(chs: Seq<Challenge>, pot: int, i: int) -> int {
    min_spec(raw_share(chs[i].stake as int, pot, sum_stakes(chs)), share_cap(chs[i].stake as int))
}

/// Sum of the shares of the first `k` challengers.
pub open spec fn sum_shares_to(chs: Seq<Challenge>, pot: int, k: int) -> int
    decreases k,
{
    if k <= 0 {
        0
    } else {
        sum_shares_to(chs, pot, k - 1) + share_of(chs, pot, k - 1)
    }
}

/// Whether computing some capped challenger's cap would overflow a 64-bit
/// number; the one arithmetic failure the payout computation can meet.
pub open spec fn cap_mul_overflows(chs: Seq<Challenge>) -> bool {
    exists|i: int| 0 <= i < chs.len() - 1 && (chs[i].stake as int) * 15 > u64::MAX
}

/// One challenger's share is nonnegative, at most the raw proportional
/// share, and weighs at most `stake * pot` when scaled by the stake total.
proof fn lemma_share_bounds(chs: Seq<Challenge>, pot: int, i: int)
    requires
        0 <= i < chs.len(),
        pot >= 0,
        sum_stakes(chs) > 0,
    ensures
        0 <= share_of(chs, pot, i),
        share_of(chs, pot, i) * sum_stakes(chs) <= (chs[i].stake as int) * pot,
    decreases chs.len(),
{
    let total = sum_stakes(chs);
    let stake = chs[i].stake as int;
    let a = stake * pot;
    let q = a / total;
    assert(a >= 0) by {
        lemma_mul_inequality(0, stake, pot);
        lemma_mul_is_commutative(stake, pot);
    }
    lemma_div_pos_is_pos(a, total);
    assert(stake * 15 >= 0) by {
        lemma_mul_inequality(0, stake, 15);
        lemma_mul_is_commutative(stake, 15);
    }
    lemma_div_pos_is_pos(stake * 15, 10);
    // q * total <= a, because a == total * q + (a % total) and the remainder
    // is nonnegative.
    lemma_fundamental_div_mod(a, total);
    lemma_mod_bound(a, total);
    lemma_mul_is_commutative(total, q);
    // The chosen share is at most q, so scaling preserves the bound.
    lemma_mul_inequality(share_of(chs, pot, i), q, total);
}

/// The scaled prefix-sum bound behind pot conservation: the sum of the first
/// `k` shares, scaled by the stake total, is at most the pot scaled by the
/// sum of the first `k` stakes.
proof fn lemma_sum_shares_scaled(chs: Seq<Challenge>, pot: int, k: int)
    requires
        0 <= k <= chs.len(),
        pot >= 0,
        sum_stakes(chs) > 0,
    ensures
        0 <= sum_shares_to(chs, pot, k),
        sum_shares_to(chs, pot, k) * sum_stakes(chs) <= pot * sum_stakes_to(chs, k),
    decreases k,
{
    let total = sum_stakes(chs);
    if k == 0 {
        assert(sum_shares_to(chs, pot, 0) * total == 0);
        assert(pot * sum_stakes_to(chs, 0) == 0) by {
            lemma_mul_is_commutative(pot, 0);
        }
    } else {
        lemma_sum_shares_scaled(chs, pot, k - 1);
        lemma_share_bounds(chs, pot, k - 1);
        let prev = sum_shares_to(chs, pot, k - 1);
        let sh = share_of(chs, pot, k - 1);
        let stake = chs[k - 1].stake as int;
        assert((prev + sh) * total == prev * total + sh * total) by {
            lemma_mul_is_distributive_add_other_way(total, prev, sh);
        }
        assert(stake * pot == pot * stake) by {
            lemma_mul_is_commutative(stake, pot);
        }
        assert(pot * (sum_stakes_to(chs, k - 1) + stake) == pot * sum_stakes_to(chs, k - 1) + pot
            * stake) by {
            lemma_mul_is_distributive_add(pot, sum_stakes_to(chs, k - 1), stake);
        }
    }
}

/// Pot conservation's key bound: the capped challengers never receive more
/// of the pot than the pot itself, so the last challenger's remainder is
/// nonnegative.
pub proof fn lemma_sum_shares_le_pot(chs: Seq<Challenge>, pot: int, k: int)
    requires
        0 <= k <= chs.len(),
        pot >= 0,
        sum_stakes(chs) > 0,
    ensures
        0 <= sum_shares_to(chs, pot, k) <= pot,
{
    let total = sum_stakes(chs);
    let s = sum_shares_to(chs, pot, k);
    lemma_sum_shares_scaled(chs, pot, k);
    lemma_sum_stakes_monotonic(chs, k, chs.len() as int);
    assert(pot * sum_stakes_to(chs, k) <= pot * total) by {
        if pot > 0 {
            lemma_mul_left_inequality(pot, sum_stakes_to(chs, k), total);
        } else {
            lemma_mul_is_commutative(pot, sum_stakes_to(chs, k));
            lemma_mul_is_commutative(pot, total);
        }
    }
    if s > pot {
        assert(pot * total < s * total) by {
            lemma_mul_inequality(pot + 1, s, total);
            lemma_mul_is_commutative(pot, total);
            lemma_mul_is_distributive_add_other_way(total, pot, 1);
        }
    }
}

/// No single stake exceeds the total staked.
proof fn lemma_stake_le_total(chs: Seq<Challenge>, i: int)
    requires
        0 <= i < chs.len(),
    ensures
        chs[i].stake <= sum_stakes(chs),
{
    lemma_sum_stakes_monotonic(chs, 0, i);
    lemma_sum_stakes_monotonic(chs, i + 1, chs.len() as int);
}

/// The sum of the first `k` capped payouts splits into stakes plus shares.
proof fn lemma_payout_sum_split(payouts: Seq<u64>, chs: Seq<Challenge>, pot: int, k: int)
    requires
        0 <= k <= payouts.len(),
        k <= chs.len(),
        forall|j: int| 0 <= j < k ==> payouts[j] == chs[j].stake + share_of(chs, pot, j),
    ensures
        sum_amounts_to(payouts, k) == sum_stakes_to(chs, k) + sum_shares_to(chs, pot, k),
    decreases k,
{
    if k > 0 {
        lemma_payout_sum_split(payouts, chs, pot, k - 1);
    }
}

/// A capped payout stays within two and a half times the challenger's own
/// stake: the stake itself plus at most one and a half times the stake.
proof fn lemma_capped_payout_bound(chs: Seq<Challenge>, pot: int, i: int)
    requires
        0 <= i < chs.len(),
        pot >= 0,
        sum_stakes(chs) > 0,
    ensures
        (chs[i].stake as int) + share_of(chs, pot, i) <= (chs[i].stake as int) * 25 / 10,
{
    let stake = chs[i].stake as int;
    assert(stake * 15 / 10 + stake == (stake * 15 + stake * 10) / 10) by {
        lemma_hoist_over_denominator(stake * 15, stake, 10);
    }
    assert(stake * 15 + stake * 10 == stake * 25) by {
        lemma_mul_is_distributive_add(stake, 15, 10);
    }
}

/// Computes the payouts of a lost call: `pot` is the caller's stake, and the
/// result lists one payout per challenger, in join order. Fails only when a
/// cap computation overflows, and then moves nothing.
///
/// Every challenger but the last receives their stake plus their capped
/// proportional share; the last receives their stake plus the undistributed
/// remainder of the pot, so the amounts paid sum to the total staked by
/// challengers plus the entire pot, with no dust stranded.
#[verifier::loop_isolation(false)]
pub fn compute_challenger_payouts(pot: u64, challenges: &Vec<Challenge>) -> (r: Result<
    Vec<u64>,
    ErrorCode,
>)
    requires
        challenges.len() >= 1,
        forall|i: int| 0 <= i < challenges.len() ==> challenges@[i].stake > 0,
        pot + sum_stakes(challenges@) <= u64::MAX,
    ensures
        r is Ok <==> !cap_mul_overflows(challenges@),
        r is Err ==> r == Err::<Vec<u64>, ErrorCode>(ErrorCode::ArithmeticOverflow),
        r matches Ok(payouts) ==> {
            let n = challenges.len() as int;
            &&& payouts.len() == n
            &&& forall|i: int|
                0 <= i < n - 1 ==> payouts@[i] == challenges@[i].stake + share_of(
                    challenges@,
                    pot as int,
                    i,
                )
            &&& payouts@[n - 1] == challenges@[n - 1].stake + pot - sum_shares_to(
                challenges@,
                pot as int,
                n - 1,
            )
            &&& sum_amounts_to(payouts@, n) == sum_stakes(challenges@) + pot
            &&& forall|i: int|
                0 <= i < n - 1 ==> payouts@[i] <= (challenges@[i].stake as int) * 25 / 10
        },
{
    let n = challenges.len();
    let ghost chs = challenges@;
    proof {
        assert(challenges@[0].stake > 0);
        assert(sum_stakes_to(chs, 0) == 0);
        assert(sum_stakes_to(chs, 1) > 0);
        lemma_sum_stakes_monotonic(chs, 1, n as int);
    }

    let mut total: u64 = 0;
    let mut i: usize = 0;
    while i < n
        invariant
            0 <= i <= n,
            total == sum_stakes_to(chs, i as int),
        decreases n - i,
    {
        proof {
            lemma_sum_stakes_monotonic(chs, i as int + 1, n as int);
        }
        total = total + challenges[i].stake;
        i = i + 1;
    }

    let mut payouts: Vec<u64> = Vec::new();
    let mut distributed: u64 = 0;
    let mut i: usize = 0;
    while i < n - 1
        invariant
            0 <= i <= n - 1,
            total == sum_stakes(chs),
            payouts.len() == i,
            distributed == sum_shares_to(chs, pot as int, i as int),
            forall|j: int|
                0 <= j < i ==> payouts@[j] == chs[j].stake + share_of(chs, pot as int, j),
            forall|j: int| 0 <= j < i ==> (chs[j].stake as int) * 15 <= u64::MAX,
        decreases n - 1 - i,
    {
        let stake = challenges[i].stake;
        proof {
            lemma_mul_upper_bound(stake as int, u64::MAX as int, pot as int, u64::MAX as int);
        }
        let numerator: u128 = (stake as u128) * (pot as u128);
        let raw128: u128 = numerator / (total as u128);
        proof {
            lemma_stake_le_total(chs, i as int);
            // stake <= total, so the proportional share is at most the pot.
            assert((stake as int) * (pot as int) <= (total as int) * (pot as int)) by {
                lemma_mul_inequality(stake as int, total as int, pot as int);
            }
            lemma_div_is_ordered(
                (stake as int) * (pot as int),
                (total as int) * (pot as int),
                total as int,
            );
            assert((total as int) * (pot as int) / (total as int) == pot as int) by {
                lemma_div_multiples_vanish(pot as int, total as int);
            }
            lemma_div_pos_is_pos((stake as int) * (pot as int), total as int);
        }
        let raw: u64 = raw128 as u64;
        let max_win: u64 = match stake.checked_mul(15) {
            Some(x) => x / 10,
            None => {
                proof {
                    assert(cap_mul_overflows(chs));
                }
                return Err(ErrorCode::ArithmeticOverflow);
            },
        };
        let share: u64 = if raw < max_win {
            raw
        } else {
            max_win
        };
        proof {
            assert(share == share_of(chs, pot as int, i as int));
            lemma_share_bounds(chs, pot as int, i as int);
            lemma_sum_shares_le_pot(chs, pot as int, i as int + 1);
            lemma_stake_le_total(chs, i as int);
            lemma_capped_payout_bound(chs, pot as int, i as int);
        }
        let payout = stake + share;
        payouts.push(payout);
        distributed = distributed + share;
        i = i + 1;
    }

    let last_stake = challenges[n - 1].stake;
    proof {
        lemma_sum_shares_le_pot(chs, pot as int, n as int - 1);
        lemma_stake_le_total(chs, n as int - 1);
    }
    let remaining = pot - distributed;
    let last_payout = last_stake + remaining;
    payouts.push(last_payout);
    proof {
        lemma_payout_sum_split(payouts@, chs, pot as int, n as int - 1);
        assert(sum_amounts_to(payouts@, n as int) == sum_stakes(chs) + pot);
    }
    Ok(payouts)
}

/// Whether the supplied challenge records are plausibly the call's own: one
/// record per counted challenger, each naming this call. Under this
/// condition the escrow custody invariant ties the escrow balance to the
/// call's stake plus the records' stakes.
pub open spec fn challenges_bound_to(call: Call, chs: Seq<Challenge>) -> bool {
    &&& chs.len() == call.challengers_count
    &&& forall|i: int| 0 <= i < chs.len() ==> chs[i].call_id@ == call.id@
}

/// The terminal status a successful resolution assigns: with no challengers
/// the call defaults to a caller win whatever the claimed outcome.
pub open spec fn resolved_status(call: Call, outcome: Outcome) -> CallStatus {
    if call.challengers_count == 0 {
        CallStatus::ResolvedCallerWins
    } else {
        match outcome {
            Outcome::CallerWins => CallStatus::ResolvedCallerWins,
            Outcome::CallerLoses => CallStatus::ResolvedCallerLoses,
        }
    }
}

/// The first reason a resolution request is rejected, or `None` when it
/// succeeds: the checks run in this order, and every rejection leaves all
/// state unchanged.
pub open spec fn resolve_error(
    call: Call,
    config: GlobalConfig,
    now: i64,
    outcome: Outcome,
    bundle: Seq<Instruction>,
    chs: Seq<Challenge>,
    wallets: Seq<Pubkey>,
    caller_wallet: Pubkey,
) -> Option<ErrorCode> {
    let n = call.challengers_count as int;
    if call.status != CallStatus::Active {
        Some(ErrorCode::AlreadyResolved)
    } else if now < call.deadline {
        Some(ErrorCode::DeadlineNotReached)
    } else if quorum_count(
        bundle,
        config.oracle_signers@,
        resolution_message_spec(call.id@, outcome, now),
    ) < QUORUM_THRESHOLD as int {
        Some(ErrorCode::InsufficientOracleSignatures)
    } else if n == 0 {
        if chs.len() != 0 || wallets.len() != 0 {
            Some(ErrorCode::InvalidRemainingAccounts)
        } else if caller_wallet@ != call.caller@ {
            Some(ErrorCode::InvalidCallerWallet)
        } else {
            None
        }
    } else {
        if chs.len() != n || wallets.len() != n {
            Some(ErrorCode::InvalidRemainingAccounts)
        } else if exists|i: int| 0 <= i < n && chs[i].call_id@ != call.id@ {
            Some(ErrorCode::ChallengeMismatch)
        } else if exists|i: int| 0 <= i < n && wallets[i]@ != chs[i].challenger@ {
            Some(ErrorCode::InvalidChallengerWallet)
        } else if caller_wallet@ != call.caller@ {
            Some(ErrorCode::InvalidCallerWallet)
        } else if outcome == Outcome::CallerLoses && cap_mul_overflows(chs) {
            Some(ErrorCode::ArithmeticOverflow)
        } else {
            None
        }
    }
}

/// What a successful resolution pays out. A caller win, or a call with no
/// challengers, pays the whole escrow to the caller in one transfer. A
/// caller loss pays every challenger in join order: stake plus capped share
/// for all but the last, stake plus the entire remainder for the last, and
/// the amounts sum to the challengers' stakes plus the whole pot.
pub open spec fn resolve_payouts_ok(
    ps: Seq<Payout>,
    call: Call,
    chs: Seq<Challenge>,
    wallets: Seq<Pubkey>,
    caller_wallet: Pubkey,
    outcome: Outcome,
) -> bool {
    let n = call.challengers_count as int;
    if n == 0 || outcome == Outcome::CallerWins {
        &&& ps.len() == 1
        &&& ps[0].to@ == caller_wallet@
        &&& ps[0].amount == call.stake + sum_stakes(chs)
    } else {
        &&& ps.len() == n
        &&& forall|i: int| 0 <= i < n ==> ps[i].to@ == wallets[i]@
        &&& forall|i: int|
            0 <= i < n - 1 ==> ps[i].amount == chs[i].stake + share_of(chs, call.stake as int, i)
        &&& ps[n - 1].amount == chs[n - 1].stake + call.stake - sum_shares_to(
            chs,
            call.stake as int,
            n - 1,
        )
        &&& sum_payouts_to(ps, n) == call.stake + sum_stakes(chs)
    }
}

/// Every challenger of a lost call except the last is paid at most two and
/// a half times their own stake: the stake itself plus a share capped at one
/// and a half times it. The last challenger, who absorbs the remainder, has
/// no such bound.
pub proof fn lemma_capped_payouts_bounded(
    ps: Seq<Payout>,
    call: Call,
    chs: Seq<Challenge>,
    wallets: Seq<Pubkey>,
    caller_wallet: Pubkey,
)
    requires
        resolve_payouts_ok(ps, call, chs, wallets, caller_wallet, Outcome::CallerLoses),
        call.challengers_count > 0,
        chs.len() == call.challengers_count,
        forall|i: int| 0 <= i < chs.len() ==> chs[i].stake > 0,
    ensures
        forall|i: int|
            0 <= i < chs.len() - 1 ==> ps[i].amount <= (chs[i].stake as int) * 25 / 10,
{
    assert(chs[0].stake > 0);
    assert(sum_stakes_to(chs, 0) == 0);
    assert(sum_stakes_to(chs, 1) > 0);
    lemma_sum_stakes_monotonic(chs, 1, chs.len() as int);
    assert forall|i: int| 0 <= i < chs.len() - 1 implies ps[i].amount <= (chs[i].stake as int) * 25
        / 10 by {
        assert(ps[i].amount == chs[i].stake + share_of(chs, call.stake as int, i));
        lemma_capped_payout_bound(chs, call.stake as int, i);
    }
}

/// Resolution happens exactly once: a call that has reached any terminal
/// state no longer satisfies the active-status guard, so whatever outcome,
/// attestation bundle, records and wallets accompany a second attempt, it is
/// rejected with the state error — and by `resolve_call`'s contract a
/// rejected attempt leaves the call and its escrow unchanged, so the first
/// resolution's effects stand.
pub proof fn lemma_second_resolution_rejected(
    call: Call,
    config: GlobalConfig,
    now: i64,
    outcome: Outcome,
    bundle: Seq<Instruction>,
    chs: Seq<Challenge>,
    wallets: Seq<Pubkey>,
    caller_wallet: Pubkey,
)
    requires
        is_terminal(call.status),
    ensures
        resolve_error(call, config, now, outcome, bundle, chs, wallets, caller_wallet) == Some(
            ErrorCode::AlreadyResolved,
        ),
{
}

/// Resolves an active call to a quorum-verified outcome: checks the
/// deadline, the oracle quorum, and that every supplied record and wallet
/// matches, then drains the escrow to the participants and marks the call
/// terminal. Any failure returns the error named by `resolve_error` and
/// changes nothing; success empties the escrow exactly.
#[verifier::loop_isolation(false)]
pub fn resolve_call(
    call: &mut Call,
    escrow: &mut Escrow,
    config: &GlobalConfig,
    now: i64,
    outcome: Outcome,
    bundle: &Vec<Instruction>,
    challenges: &Vec<Challenge>,
    challenger_wallets: &Vec<Pubkey>,
    caller_wallet: &Pubkey,
) -> (r: Result<Vec<Payout>, ErrorCode>)
    requires
        old(call).wf(),
        config.wf(),
        now >= 0,
        forall|i: int| 0 <= i < challenges.len() ==> challenges@[i].stake > 0,
        challenges_bound_to(*old(call), challenges@) ==> old(escrow).balance == old(call).stake
            + sum_stakes(challenges@),
    ensures
        final(call).wf(),
        match resolve_error(
            *old(call),
            *config,
            now,
            outcome,
            bundle@,
            challenges@,
            challenger_wallets@,
            *caller_wallet,
        ) {
            Some(e) => {
                &&& r == Err::<Vec<Payout>, ErrorCode>(e)
                &&& *final(call) == *old(call)
                &&& *final(escrow) == *old(escrow)
            },
            None => {
                &&& r is Ok
                &&& final(escrow).balance == 0
                &&& final(call).status == resolved_status(*old(call), outcome)
                &&& is_terminal(final(call).status)
                &&& *final(call) == (Call { status: final(call).status, ..*old(call) })
                &&& (r matches Ok(ps) ==> resolve_payouts_ok(
                    ps@,
                    *old(call),
                    challenges@,
                    challenger_wallets@,
                    *caller_wallet,
                    outcome,
                ))
            },
        },
{
    if call.status != CallStatus::Active {
        return Err(ErrorCode::AlreadyResolved);
    }
    if now < call.deadline {
        return Err(ErrorCode::DeadlineNotReached);
    }
    match verify_oracle_signatures(
        bundle,
        &config.oracle_signers,
        QUORUM_THRESHOLD,
        &call.id,
        outcome,
        now,
    ) {
        Ok(()) => (),
        Err(e) => {
            return Err(e);
        },
    }
    let n = call.challengers_count as usize;
    let ghost chs = challenges@;

    if n == 0 {
        if challenges.len() != 0 || challenger_wallets.len() != 0 {
            return Err(ErrorCode::InvalidRemainingAccounts);
        }
        if !pubkey_eq(caller_wallet, &call.caller) {
            return Err(ErrorCode::InvalidCallerWallet);
        }
        proof {
            assert(challenges_bound_to(*call, chs));
            assert(sum_stakes(chs) == 0);
        }
        let amount = call.stake;
        escrow.balance = escrow.balance - amount;
        call.status = CallStatus::ResolvedCallerWins;
        let mut ps: Vec<Payout> = Vec::new();
        ps.push(Payout { to: *caller_wallet, amount });
        return Ok(ps);
    }

    if challenges.len() != n || challenger_wallets.len() != n {
        return Err(ErrorCode::InvalidRemainingAccounts);
    }
    let mut i: usize = 0;
    while i < n
        invariant
            0 <= i <= n,
            forall|j: int| 0 <= j < i ==> chs[j].call_id@ == call.id@,
        decreases n - i,
    {
        if !pubkey_eq(&challenges[i].call_id, &call.id) {
            return Err(ErrorCode::ChallengeMismatch);
        }
        i = i + 1;
    }
    let mut i: usize = 0;
    while i < n
        invariant
            0 <= i <= n,
            forall|j: int| 0 <= j < i ==> challenger_wallets@[j]@ == chs[j].challenger@,
        decreases n - i,
    {
        if !pubkey_eq(&challenger_wallets[i], &challenges[i].challenger) {
            return Err(ErrorCode::InvalidChallengerWallet);
        }
        i = i + 1;
    }
    if !pubkey_eq(caller_wallet, &call.caller) {
        return Err(ErrorCode::InvalidCallerWallet);
    }
    proof {
        assert(challenges_bound_to(*call, chs));
    }

    if outcome == Outcome::CallerWins {
        let mut total: u64 = 0;
        let mut i: usize = 0;
        while i < n
            invariant
                0 <= i <= n,
                total == sum_stakes_to(chs, i as int),
            decreases n - i,
        {
            proof {
                lemma_sum_stakes_monotonic(chs, i as int + 1, n as int);
            }
            total = total + challenges[i].stake;
            i = i + 1;
        }
        let amount = call.stake + total;
        escrow.balance = escrow.balance - amount;
        call.status = CallStatus::ResolvedCallerWins;
        let mut ps: Vec<Payout> = Vec::new();
        ps.push(Payout { to: *caller_wallet, amount });
        Ok(ps)
    } else {
        let pot = call.stake;
        let amounts = match compute_challenger_payouts(pot, challenges) {
            Ok(a) => a,
            Err(e) => {
                return Err(e);
            },
        };
        let ghost start_balance = escrow.balance;
        let mut ps: Vec<Payout> = Vec::new();
        let mut i: usize = 0;
        while i < n
            invariant
                0 <= i <= n,
                amounts.len() == n,
                ps.len() == i,
                escrow.balance == start_balance - sum_amounts_to(amounts@, i as int),
                sum_amounts_to(amounts@, n as int) == start_balance,
                forall|j: int| 0 <= j < i ==> ps@[j].to@ == challenger_wallets@[j]@,
                forall|j: int| 0 <= j < i ==> ps@[j].amount == amounts@[j],
            decreases n - i,
        {
            proof {
                lemma_sum_amounts_monotonic(amounts@, i as int + 1, n as int);
                lemma_sum_amounts_monotonic(amounts@, 0, i as int);
            }
            let a = amounts[i];
            escrow.balance = escrow.balance - a;
            ps.push(Payout { to: challenger_wallets[i], amount: a });
            i = i + 1;
        }
        call.status = CallStatus::ResolvedCallerLoses;
        proof {
            lemma_sum_payouts_matches(ps@, amounts@, n as int);
            assert forall|j: int| 0 <= j < n - 1 implies ps@[j].amount == chs[j].stake + share_of(
                chs,
                pot as int,
                j,
            ) by {
                assert(ps@[j].amount == amounts@[j]);
                assert(amounts@[j] == chs[j].stake + share_of(chs, pot as int, j));
            }
        }
        Ok(ps)
    }
}

} // verus!
