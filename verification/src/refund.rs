//! The timeout refund path: the system's liveness guarantee against oracle
//! unavailability.
//!
//! Anyone may invoke it — there is no identity check on the invoker. Once a
//! full day has passed beyond the deadline of a still-active call, every
//! challenge's exact stake goes back to its challenger and the call's exact
//! stake goes back to the caller: no gains, no losses, no proportional
//! logic. The call ends in the auto-refunded terminal state with its escrow
//! empty.

use vstd::prelude::*;

use crate::errors::ErrorCode;
use crate::state::{
    is_terminal, lemma_sum_stakes_monotonic, pubkey_eq, sum_payouts_to, sum_stakes, sum_stakes_to,
    Call, CallStatus, Challenge, Escrow, Payout, Pubkey, DAY_SECONDS,
};
use crate::settlement::challenges_bound_to;

verus! {

/// The first mismatch the per-challenger scan meets at or after index `i`:
/// a challenge naming another call, or a wallet differing from its
/// challenge's challenger — in the order the scan visits them.
pub open spec fn refund_scan_error(
    call: Call,
    chs: Seq<Challenge>,
    wallets: Seq<Pubkey>,
    i: int,
) -> Option<ErrorCode>
    decreases chs.len() - i,
{
    if i >= chs.len() {
        None
    } else if chs[i].call_id@ != call.id@ {
        Some(ErrorCode::ChallengeMismatch)
    } else if wallets[i]@ != chs[i].challenger@ {
        Some(ErrorCode::InvalidChallengerWallet)
    } else {
        refund_scan_error(call, chs, wallets, i + 1)
    }
}

/// The first reason an auto-refund request is rejected, or `None` when it
/// succeeds: the checks run in this order, and every rejection leaves all
/// state unchanged.
pub open spec fn refund_error(
    call: Call,
    now: i64,
    chs: Seq<Challenge>,
    wallets: Seq<Pubkey>,
    caller_wallet: Pubkey,
) -> Option<ErrorCode> {
    let n = call.challengers_count as int;
    if call.status != CallStatus::Active {
        Some(ErrorCode::CallNotActive)
    } else if now <= call.deadline + DAY_SECONDS {
        Some(ErrorCode::RefundNotYetAvailable)
    } else if chs.len() != n || wallets.len() != n {
        Some(ErrorCode::InvalidRemainingAccounts)
    } else if refund_scan_error(call, chs, wallets, 0) is Some {
        refund_scan_error(call, chs, wallets, 0)
    } else if caller_wallet@ != call.caller@ {
        Some(ErrorCode::InvalidCallerWallet)
    } else {
        None
    }
}

/// What a successful auto-refund pays out: each challenger's exact stake in
/// join order, then the caller's exact stake, draining the escrow.
pub open spec fn refund_payouts_ok(
    ps: Seq<Payout>,
    call: Call,
    chs: Seq<Challenge>,
    wallets: Seq<Pubkey>,
    caller_wallet: Pubkey,
) -> bool {
    let n = call.challengers_count as int;
    &&& ps.len() == n + 1
    &&& forall|i: int| 0 <= i < n ==> ps[i].to@ == wallets[i]@
    &&& forall|i: int| 0 <= i < n ==> ps[i].amount == chs[i].stake
    &&& ps[n].to@ == caller_wallet@
    &&& ps[n].amount == call.stake
    &&& sum_payouts_to(ps, n + 1) == call.stake + sum_stakes(chs)
}

/// A refund payout list built stake by stake carries the stakes' sum.
proof fn lemma_sum_refund_payouts(ps: Seq<Payout>, chs: Seq<Challenge>, k: int)
    requires
        forall|j: int| 0 <= j < k ==> ps[j].amount == chs[j].stake,
    ensures
        sum_payouts_to(ps, k) == sum_stakes_to(chs, k),
    decreases k,
{
    if k > 0 {
        lemma_sum_refund_payouts(ps, chs, k - 1);
    }
}

/// Whichever of resolution and auto-refund commits first wins: a call that
/// has reached any terminal state no longer satisfies the active-status
/// guard, so every later refund attempt is rejected with the state error and
/// changes nothing.
pub proof fn lemma_terminal_call_rejects_refund(
    call: Call,
    now: i64,
    chs: Seq<Challenge>,
    wallets: Seq<Pubkey>,
    caller_wallet: Pubkey,
)
    requires
        is_terminal(call.status),
    ensures
        refund_error(call, now, chs, wallets, caller_wallet) == Some(ErrorCode::CallNotActive),
{
}

/// Refunds a stranded call once the grace period has passed: permissionless,
/// with every supplied record and wallet verified against the call before
/// anything is paid. Any failure returns the error named by `refund_error`
/// and changes nothing; success returns every stake verbatim, empties the
/// escrow exactly, and marks the call auto-refunded.
#[verifier::loop_isolation(false)]
pub fn auto_refund(
    call: &mut Call,
    escrow: &mut Escrow,
    now: i64,
    challenges: &Vec<Challenge>,
    challenger_wallets: &Vec<Pubkey>,
    caller_wallet: &Pubkey,
) -> (r: Result<Vec<Payout>, ErrorCode>)
    requires
        old(call).wf(),
        old(call).deadline <= i64::MAX - DAY_SECONDS,
        challenges_bound_to(*old(call), challenges@) ==> old(escrow).balance == old(call).stake
            + sum_stakes(challenges@),
    ensures
        final(call).wf(),
        match refund_error(*old(call), now, challenges@, challenger_wallets@, *caller_wallet) {
            Some(e) => {
                &&& r == Err::<Vec<Payout>, ErrorCode>(e)
                &&& *final(call) == *old(call)
                &&& *final(escrow) == *old(escrow)
            },
            None => {
                &&& r is Ok
                &&& final(escrow).balance == 0
                &&& final(call).status == CallStatus::AutoRefunded
                &&& is_terminal(final(call).status)
                &&& *final(call) == (Call { status: CallStatus::AutoRefunded, ..*old(call) })
                &&& (r matches Ok(ps) ==> refund_payouts_ok(
                    ps@,
                    *old(call),
                    challenges@,
                    challenger_wallets@,
                    *caller_wallet,
                ))
            },
        },
{
    if call.status != CallStatus::Active {
        return Err(ErrorCode::CallNotActive);
    }
    if now <= call.deadline + DAY_SECONDS {
        return Err(ErrorCode::RefundNotYetAvailable);
    }
    let n = call.challengers_count as usize;
    let ghost chs = challenges@;
    if challenges.len() != n || challenger_wallets.len() != n {
        return Err(ErrorCode::InvalidRemainingAccounts);
    }

    let mut i: usize = 0;
    while i < n
        invariant
            0 <= i <= n,
            refund_scan_error(*call, chs, challenger_wallets@, 0) == refund_scan_error(
                *call,
                chs,
                challenger_wallets@,
                i as int,
            ),
            forall|j: int| 0 <= j < i ==> chs[j].call_id@ == call.id@,
        decreases n - i,
    {
        if !pubkey_eq(&challenges[i].call_id, &call.id) {
            proof {
                assert(refund_scan_error(*call, chs, challenger_wallets@, i as int) == Some(
                    ErrorCode::ChallengeMismatch,
                ));
            }
            return Err(ErrorCode::ChallengeMismatch);
        }
        if !pubkey_eq(&challenger_wallets[i], &challenges[i].challenger) {
            proof {
                assert(refund_scan_error(*call, chs, challenger_wallets@, i as int) == Some(
                    ErrorCode::InvalidChallengerWallet,
                ));
            }
            return Err(ErrorCode::InvalidChallengerWallet);
        }
        i = i + 1;
    }
    proof {
        assert(refund_scan_error(*call, chs, challenger_wallets@, n as int) is None);
    }
    if !pubkey_eq(caller_wallet, &call.caller) {
        return Err(ErrorCode::InvalidCallerWallet);
    }
    proof {
        assert(challenges_bound_to(*call, chs));
    }

    let ghost start_balance = escrow.balance;
    let mut ps: Vec<Payout> = Vec::new();
    let mut i: usize = 0;
    while i < n
        invariant
            0 <= i <= n,
            ps.len() == i,
            escrow.balance == start_balance - sum_stakes_to(chs, i as int),
            start_balance == call.stake + sum_stakes(chs),
            forall|j: int| 0 <= j < i ==> ps@[j].to@ == challenger_wallets@[j]@,
            forall|j: int| 0 <= j < i ==> ps@[j].amount == chs[j].stake,
        decreases n - i,
    {
        proof {
            lemma_sum_stakes_monotonic(chs, i as int + 1, n as int);
            lemma_sum_stakes_monotonic(chs, 0, i as int);
        }
        let stake = challenges[i].stake;
        escrow.balance = escrow.balance - stake;
        let ghost ps_before = ps@;
        ps.push(Payout { to: challenger_wallets[i], amount: stake });
        proof {
            assert forall|j: int| 0 <= j < i + 1 implies ps@[j].to@ == challenger_wallets@[j]@ by {
                if j < i as int {
                    assert(ps@[j] == ps_before[j]);
                    assert(ps_before[j].to@ == challenger_wallets@[j]@);
                }
            }
            assert forall|j: int| 0 <= j < i + 1 implies ps@[j].amount == chs[j].stake by {
                if j < i as int {
                    assert(ps@[j] == ps_before[j]);
                    assert(ps_before[j].amount == chs[j].stake);
                }
            }
        }
        i = i + 1;
    }
    let caller_amount = call.stake;
    escrow.balance = escrow.balance - caller_amount;
    ps.push(Payout { to: *caller_wallet, amount: caller_amount });
    call.status = CallStatus::AutoRefunded;
    proof {
        lemma_sum_refund_payouts(ps@, chs, n as int);
    }
    Ok(ps)
}

} // verus!
