//! What holds of every distribution.

use vstd::prelude::*;
use crate::authorization::is_authority;
use crate::error::CustomError;
use crate::distribution::{
    accounts_after, credited, distribution, insider_amount, insiders_phase, reward_pool, total_paid,
    total_points, total_share_bps, treasury_after, winner_share, winners_phase,
    winners_phase_stops, DistributeRewards, Payouts,
};
use crate::state::{Account, InsiderInput, WinnerInput};

verus! {

/// Winners without a single point add up to no points.
pub proof fn no_points_in_total(winners: Seq<WinnerInput>)
    requires
        forall|i: int| 0 <= i < winners.len() ==> (#[trigger] winners[i]).points == 0,
    ensures
        total_points(winners) == 0,
    decreases winners.len(),
{
    if winners.len() > 0 {
        no_points_in_total(winners.drop_last());
    }
}

/// A distribution called by the authority for winners without a single point
/// is rejected as `NoPoints`, whatever the insiders and the handles.
pub proof fn distribution_without_points(
    ctx: DistributeRewards,
    winners: Seq<WinnerInput>,
    insiders: Seq<InsiderInput>,
)
    requires
        is_authority(ctx.config, ctx.authority),
        forall|i: int| 0 <= i < winners.len() ==> (#[trigger] winners[i]).points == 0,
    ensures
        distribution(ctx, winners, insiders) == Err::<Payouts, CustomError>(
            CustomError::NoPoints,
        ),
{
    no_points_in_total(winners);
}

/// What holds of the winners' payouts once every winner was served: each is
/// the winner's share, rounded down; a handle that received something carries
/// the winner's identity and can hold what it received; and the payouts
/// together are covered by the balance.
pub proof fn winners_receive_their_shares(
    pool: nat,
    total: nat,
    winners: Seq<WinnerInput>,
    accounts: Seq<Account>,
    balance: int,
)
    requires
        winners_phase(pool, total, winners, accounts, balance) is Ok,
    ensures
        ({
            let paid = winners_phase(pool, total, winners, accounts, balance)->Ok_0;
            &&& paid.len() == winners.len()
            &&& total_paid(paid) <= balance || total_paid(paid) == 0
            &&& forall|i: int|
                0 <= i < winners.len() ==> {
                    &&& winner_share(pool, (#[trigger] winners[i]).points, total) == Ok::<
                        nat,
                        CustomError,
                    >(paid[i] as nat)
                    &&& paid[i] > 0 ==> accounts[i].key@ == winners[i].wallet@
                    &&& accounts[i].lamports + paid[i] <= u64::MAX
                }
        }),
    decreases winners.len(),
{
    if winners.len() > 0 {
        let front = winners.drop_last();
        winners_receive_their_shares(pool, total, front, accounts, balance);
        let paid = winners_phase(pool, total, winners, accounts, balance)->Ok_0;
        let before = winners_phase(pool, total, front, accounts, balance)->Ok_0;
        assert(paid.drop_last() =~= before);
        assert forall|i: int| 0 <= i < winners.len() implies {
            &&& winner_share(pool, (#[trigger] winners[i]).points, total) == Ok::<
                nat,
                CustomError,
            >(paid[i] as nat)
            &&& paid[i] > 0 ==> accounts[i].key@ == winners[i].wallet@
            &&& accounts[i].lamports + paid[i] <= u64::MAX
        } by {
            if i < winners.len() - 1 {
                assert(winners[i] == front[i]);
                assert(paid[i] == before[i]);
            }
        }
    }
}

/// What holds of the insiders' payouts once every insider was served: each is
/// the insider's amount, rounded down; a handle that received something
/// carries the insider's identity and can hold what it received; and the
/// payouts together are covered by what was left for them.
pub proof fn insiders_receive_their_amounts(
    remaining: nat,
    insiders: Seq<InsiderInput>,
    accounts: Seq<Account>,
    offset: int,
)
    requires
        insiders_phase(remaining, insiders, accounts, offset) is Ok,
    ensures
        ({
            let paid = insiders_phase(remaining, insiders, accounts, offset)->Ok_0;
            &&& paid.len() == insiders.len()
            &&& total_paid(paid) <= remaining
            &&& forall|j: int|
                0 <= j < insiders.len() ==> {
                    &&& paid[j] == insider_amount(remaining, (#[trigger] insiders[j]).share_bps)
                    &&& paid[j] > 0 ==> accounts[offset + j].key@ == insiders[j].wallet@
                    &&& accounts[offset + j].lamports + paid[j] <= u64::MAX
                }
        }),
    decreases insiders.len(),
{
    if insiders.len() > 0 {
        let front = insiders.drop_last();
        insiders_receive_their_amounts(remaining, front, accounts, offset);
        let paid = insiders_phase(remaining, insiders, accounts, offset)->Ok_0;
        let before = insiders_phase(remaining, front, accounts, offset)->Ok_0;
        assert(paid.drop_last() =~= before);
        assert forall|j: int| 0 <= j < insiders.len() implies {
            &&& paid[j] == insider_amount(remaining, (#[trigger] insiders[j]).share_bps)
            &&& paid[j] > 0 ==> accounts[offset + j].key@ == insiders[j].wallet@
            &&& accounts[offset + j].lamports + paid[j] <= u64::MAX
        } by {
            if j < insiders.len() - 1 {
                assert(insiders[j] == front[j]);
                assert(paid[j] == before[j]);
            }
        }
    }
}

/// Distribution conserves the balance: what the treasury holds after a
/// distribution, what the winners received and what the insiders received add
/// up to what the treasury held before it. What rounding left is still in the
/// treasury.
pub proof fn distribution_conserves(
    ctx: DistributeRewards,
    winners: Seq<WinnerInput>,
    insiders: Seq<InsiderInput>,
)
    requires
        distribution(ctx, winners, insiders) is Ok,
    ensures
        ({
            let paid = distribution(ctx, winners, insiders)->Ok_0;
            treasury_after(ctx.treasury, paid).lamports + total_paid(paid.winners) + total_paid(
                paid.insiders,
            ) == ctx.treasury.lamports
        }),
{
    let balance = ctx.treasury.lamports;
    let accounts = ctx.remaining_accounts@;
    let pool = reward_pool(balance, ctx.config.reward_percentage_bps);
    winners_receive_their_shares(pool, total_points(winners), winners, accounts, balance as int);
    let paid = distribution(ctx, winners, insiders)->Ok_0;
    if balance - total_paid(paid.winners) != 0 && insiders.len() > 0 {
        let remaining = (balance - total_paid(paid.winners)) as nat;
        insiders_receive_their_amounts(remaining, insiders, accounts, winners.len() as int);
    }
}

/// The winners' payouts, weighed by all points, stay within the pool weighed
/// by the winners' own points.
pub proof fn winners_paid_by_weight(
    pool: nat,
    total: nat,
    winners: Seq<WinnerInput>,
    accounts: Seq<Account>,
    balance: int,
)
    requires
        total > 0,
        winners_phase(pool, total, winners, accounts, balance) is Ok,
    ensures
        total_paid(winners_phase(pool, total, winners, accounts, balance)->Ok_0) * total <= pool
            * total_points(winners),
    decreases winners.len(),
{
    if winners.len() > 0 {
        let front = winners.drop_last();
        winners_paid_by_weight(pool, total, front, accounts, balance);
        let paid = winners_phase(pool, total, winners, accounts, balance)->Ok_0;
        let before = winners_phase(pool, total, front, accounts, balance)->Ok_0;
        assert(paid.drop_last() =~= before);
        let amount = paid.last() as nat;
        let points = winners.last().points as nat;
        assert(amount == 0 || amount == (pool * points) / total);
        assert(amount * total <= pool * points) by (nonlinear_arith)
            requires
                amount == 0 || amount == (pool * points) / total,
                total > 0,
        ;
        assert((total_paid(before) + amount) * total <= pool * (total_points(front) + points))
            by (nonlinear_arith)
            requires
                total_paid(before) * total <= pool * total_points(front),
                amount * total <= pool * points,
        ;
    } else {
        assert(total_paid(Seq::<u64>::empty()) * total == 0) by (nonlinear_arith)
            requires
                total_paid(Seq::<u64>::empty()) == 0,
        ;
        assert(pool * total_points(winners) >= 0) by (nonlinear_arith);
    }
}

/// The insiders' payouts, times 10,000, stay within what was left for them
/// times the insiders' basis points.
pub proof fn insiders_paid_by_share(
    remaining: nat,
    insiders: Seq<InsiderInput>,
    accounts: Seq<Account>,
    offset: int,
)
    requires
        insiders_phase(remaining, insiders, accounts, offset) is Ok,
    ensures
        total_paid(insiders_phase(remaining, insiders, accounts, offset)->Ok_0) * 10_000
            <= remaining * total_share_bps(insiders),
    decreases insiders.len(),
{
    if insiders.len() > 0 {
        let front = insiders.drop_last();
        insiders_paid_by_share(remaining, front, accounts, offset);
        let paid = insiders_phase(remaining, insiders, accounts, offset)->Ok_0;
        let before = insiders_phase(remaining, front, accounts, offset)->Ok_0;
        assert(paid.drop_last() =~= before);
        let amount = paid.last() as nat;
        let bps = insiders.last().share_bps as nat;
        assert(amount == (remaining * bps) / 10_000);
        assert((total_paid(before) + amount) * 10_000 <= remaining * (total_share_bps(front)
            + bps)) by (nonlinear_arith)
            requires
                total_paid(before) * 10_000 <= remaining * total_share_bps(front),
                amount == (remaining * bps) / 10_000,
        ;
    } else {
        assert(remaining * total_share_bps(insiders) >= 0) by (nonlinear_arith);
    }
}

/// The winners of a distribution never receive more than the reward pool.
pub proof fn distribution_within_pool(
    ctx: DistributeRewards,
    winners: Seq<WinnerInput>,
    insiders: Seq<InsiderInput>,
)
    requires
        distribution(ctx, winners, insiders) is Ok,
    ensures
        total_paid(distribution(ctx, winners, insiders)->Ok_0.winners) <= reward_pool(
            ctx.treasury.lamports,
            ctx.config.reward_percentage_bps,
        ),
{
    let balance = ctx.treasury.lamports;
    let pool = reward_pool(balance, ctx.config.reward_percentage_bps);
    let total = total_points(winners);
    winners_paid_by_weight(pool, total, winners, ctx.remaining_accounts@, balance as int);
    let won = distribution(ctx, winners, insiders)->Ok_0.winners;
    assert(total_paid(won) <= pool) by (nonlinear_arith)
        requires
            total_paid(won) * total <= pool * total,
            total > 0,
    ;
}

/// While the pool is covered by the balance and the winners hold no more than
/// all points, the treasury never runs out while it serves them.
pub proof fn winners_never_lack_funds(
    pool: nat,
    total: nat,
    winners: Seq<WinnerInput>,
    accounts: Seq<Account>,
    balance: int,
)
    requires
        total > 0,
        total_points(winners) <= total,
        pool <= balance,
    ensures
        winners_phase(pool, total, winners, accounts, balance) != Err::<Seq<u64>, CustomError>(
            CustomError::InsufficientFunds,
        ),
    decreases winners.len(),
{
    if winners.len() > 0 {
        let front = winners.drop_last();
        winners_never_lack_funds(pool, total, front, accounts, balance);
        if winners_phase(pool, total, front, accounts, balance) is Ok {
            winners_paid_by_weight(pool, total, front, accounts, balance);
            let before = winners_phase(pool, total, front, accounts, balance)->Ok_0;
            let points = winners.last().points as nat;
            if winner_share(pool, winners.last().points, total) is Ok {
                let share = (pool * points) / total;
                assert(total_paid(before) + share <= pool) by (nonlinear_arith)
                    requires
                        total_paid(before) * total <= pool * total_points(front),
                        share == (pool * points) / total,
                        total_points(front) + points <= total,
                        total > 0,
                ;
            }
        }
    }
}

/// While the insiders' shares add up to no more than 10,000 basis points, the
/// treasury never runs out while it serves them.
pub proof fn insiders_never_lack_funds(
    remaining: nat,
    insiders: Seq<InsiderInput>,
    accounts: Seq<Account>,
    offset: int,
)
    requires
        total_share_bps(insiders) <= 10_000,
    ensures
        insiders_phase(remaining, insiders, accounts, offset) != Err::<Seq<u64>, CustomError>(
            CustomError::InsufficientFunds,
        ),
    decreases insiders.len(),
{
    if insiders.len() > 0 {
        let front = insiders.drop_last();
        insiders_never_lack_funds(remaining, front, accounts, offset);
        if insiders_phase(remaining, front, accounts, offset) is Ok {
            insiders_paid_by_share(remaining, front, accounts, offset);
            let before = insiders_phase(remaining, front, accounts, offset)->Ok_0;
            let bps = insiders.last().share_bps as nat;
            let amount = insider_amount(remaining, insiders.last().share_bps);
            assert(total_paid(before) + amount <= remaining) by (nonlinear_arith)
                requires
                    total_paid(before) * 10_000 <= remaining * total_share_bps(front),
                    amount == (remaining * bps) / 10_000,
                    total_share_bps(front) + bps <= 10_000,
            ;
        }
    }
}

/// With a reward percentage of no more than 10,000 basis points, no
/// distribution is rejected for want of funds: the treasury covers whatever
/// the winners and the insiders are owed.
pub proof fn distribution_is_covered(
    ctx: DistributeRewards,
    winners: Seq<WinnerInput>,
    insiders: Seq<InsiderInput>,
)
    requires
        ctx.config.reward_percentage_bps <= 10_000,
    ensures
        distribution(ctx, winners, insiders) != Err::<Payouts, CustomError>(
            CustomError::InsufficientFunds,
        ),
{
    let balance = ctx.treasury.lamports;
    let bps = ctx.config.reward_percentage_bps;
    let pool = reward_pool(balance, bps);
    let total = total_points(winners);
    let accounts = ctx.remaining_accounts@;
    assert(pool <= balance) by (nonlinear_arith)
        requires
            pool == (balance as nat * bps as nat) / 10_000,
            bps <= 10_000,
    ;
    if total > 0 {
        winners_never_lack_funds(pool, total, winners, accounts, balance as int);
        if winners_phase(pool, total, winners, accounts, balance as int) is Ok {
            winners_receive_their_shares(pool, total, winners, accounts, balance as int);
            let won = winners_phase(pool, total, winners, accounts, balance as int)->Ok_0;
            if total_share_bps(insiders) <= 10_000 {
                insiders_never_lack_funds(
                    (balance - total_paid(won)) as nat,
                    insiders,
                    accounts,
                    winners.len() as int,
                );
            }
        }
    }
}

/// A distribution that reaches the insiders with something left for them is
/// rejected as `InvalidInsiderShares` where their shares add up to more than
/// 10,000 basis points. It reaches them where the caller is the authority,
/// the winners hold points, there is a handle for everyone and every winner
/// was served.
pub proof fn distribution_with_excess_shares(
    ctx: DistributeRewards,
    winners: Seq<WinnerInput>,
    insiders: Seq<InsiderInput>,
)
    requires
        is_authority(ctx.config, ctx.authority),
        total_points(winners) > 0,
        ctx.remaining_accounts@.len() >= winners.len() + insiders.len(),
        winners_phase(
            reward_pool(ctx.treasury.lamports, ctx.config.reward_percentage_bps),
            total_points(winners),
            winners,
            ctx.remaining_accounts@,
            ctx.treasury.lamports as int,
        ) is Ok,
        total_paid(
            winners_phase(
                reward_pool(ctx.treasury.lamports, ctx.config.reward_percentage_bps),
                total_points(winners),
                winners,
                ctx.remaining_accounts@,
                ctx.treasury.lamports as int,
            )->Ok_0,
        ) != ctx.treasury.lamports,
        total_share_bps(insiders) > 10_000,
    ensures
        distribution(ctx, winners, insiders) == Err::<Payouts, CustomError>(
            CustomError::InvalidInsiderShares,
        ),
{
}

/// A distribution whose first winner is owed something, while the first
/// handle carries another identity, is rejected as `Unauthorized`, whatever
/// follows. It gets that far where the caller is the authority, the winners
/// hold points and there is a handle for everyone.
pub proof fn distribution_with_wrong_first_handle(
    ctx: DistributeRewards,
    winners: Seq<WinnerInput>,
    insiders: Seq<InsiderInput>,
)
    requires
        is_authority(ctx.config, ctx.authority),
        total_points(winners) > 0,
        ctx.remaining_accounts@.len() >= winners.len() + insiders.len(),
        winners.len() > 0,
        ctx.remaining_accounts@[0].key@ != winners[0].wallet@,
        winner_share(
            reward_pool(ctx.treasury.lamports, ctx.config.reward_percentage_bps),
            winners[0].points,
            total_points(winners),
        ) is Ok,
        winner_share(
            reward_pool(ctx.treasury.lamports, ctx.config.reward_percentage_bps),
            winners[0].points,
            total_points(winners),
        )->Ok_0 > 0,
    ensures
        distribution(ctx, winners, insiders) == Err::<Payouts, CustomError>(
            CustomError::Unauthorized,
        ),
{
    let pool = reward_pool(ctx.treasury.lamports, ctx.config.reward_percentage_bps);
    let total = total_points(winners);
    let accounts = ctx.remaining_accounts@;
    let balance = ctx.treasury.lamports as int;
    let first = winners.take(1);
    assert(first.drop_last() =~= Seq::<WinnerInput>::empty());
    assert(first.last() == winners[0]);
    assert(winners_phase(pool, total, first.drop_last(), accounts, balance) == Ok::<
        Seq<u64>,
        CustomError,
    >(Seq::empty()));
    assert(winners_phase(pool, total, first, accounts, balance) == Err::<Seq<u64>, CustomError>(
        CustomError::Unauthorized,
    ));
    winners_phase_stops(pool, total, winners, accounts, balance, 1);
}

/// After a distribution every handle carries the identity it carried, the
/// handle of a winner holds what it held and the winner's payout, the handle
/// of an insider what it held and the insider's payout, and a spare handle
/// what it held.
pub proof fn distribution_credits_each_handle(
    ctx: DistributeRewards,
    winners: Seq<WinnerInput>,
    insiders: Seq<InsiderInput>,
)
    requires
        distribution(ctx, winners, insiders) is Ok,
    ensures
        ({
            let paid = distribution(ctx, winners, insiders)->Ok_0;
            let before = ctx.remaining_accounts@;
            let after = accounts_after(before, paid);
            &&& after.len() == before.len()
            &&& paid.winners.len() == winners.len()
            &&& paid.insiders.len() == insiders.len() || paid.insiders.len() == 0
            &&& forall|k: int|
                0 <= k < before.len() ==> (#[trigger] after[k]).key == before[k].key
            &&& forall|k: int|
                0 <= k < winners.len() ==> (#[trigger] after[k]).lamports == before[k].lamports
                    + paid.winners[k]
            &&& forall|k: int|
                winners.len() <= k < winners.len() + paid.insiders.len() ==> (
                #[trigger] after[k]).lamports == before[k].lamports + paid.insiders[k
                    - winners.len()]
            &&& forall|k: int|
                winners.len() + paid.insiders.len() <= k < before.len() ==> (
                #[trigger] after[k]) == before[k]
        }),
{
    let balance = ctx.treasury.lamports;
    let accounts = ctx.remaining_accounts@;
    let pool = reward_pool(balance, ctx.config.reward_percentage_bps);
    winners_receive_their_shares(pool, total_points(winners), winners, accounts, balance as int);
    let paid = distribution(ctx, winners, insiders)->Ok_0;
    if balance - total_paid(paid.winners) != 0 && insiders.len() > 0 {
        let remaining = (balance - total_paid(paid.winners)) as nat;
        insiders_receive_their_amounts(remaining, insiders, accounts, winners.len() as int);
    }
    let first = credited(accounts, 0, paid.winners);
    let after = accounts_after(accounts, paid);
    assert forall|k: int| 0 <= k < winners.len() implies (#[trigger] after[k]).lamports
        == accounts[k].lamports + paid.winners[k] by {
        assert(accounts[k].lamports + paid.winners[k] <= u64::MAX) by {
            let _ = winners[k];
        }
        assert(after[k] == first[k]);
    }
    assert forall|k: int|
        winners.len() <= k < winners.len() + paid.insiders.len() implies (
    #[trigger] after[k]).lamports == accounts[k].lamports + paid.insiders[k - winners.len()] by {
        let j = k - winners.len();
        assert(accounts[winners.len() + j].lamports + paid.insiders[j] <= u64::MAX) by {
            let _ = insiders[j];
        }
        assert(first[k] == accounts[k]);
    }
}

/// The lamports that a list of handles holds together.
pub open spec fn total_held(accounts: Seq<Account>) -> nat
    decreases accounts.len(),
{
    if accounts.len() == 0 {
        0
    } else {
        total_held(accounts.drop_last()) + accounts.last().lamports as nat
    }
}

/// Handles that were credited hold together what they held and the payouts.
pub proof fn credited_handles_hold_the_payouts(
    accounts: Seq<Account>,
    offset: int,
    payouts: Seq<u64>,
)
    requires
        0 <= offset,
        offset + payouts.len() <= accounts.len(),
        forall|k: int|
            0 <= k < payouts.len() ==> (#[trigger] accounts[offset + k]).lamports + payouts[k]
                <= u64::MAX,
    ensures
        total_held(credited(accounts, offset, payouts)) == total_held(accounts) + total_paid(
            payouts,
        ),
    decreases accounts.len(),
{
    let after = credited(accounts, offset, payouts);
    if payouts.len() == 0 {
        assert(after =~= accounts);
    } else {
        let front = accounts.drop_last();
        if offset + payouts.len() == accounts.len() {
            let rest = payouts.drop_last();
            assert forall|k: int| 0 <= k < rest.len() implies (#[trigger] front[offset
                + k]).lamports + rest[k] <= u64::MAX by {
                assert(front[offset + k] == accounts[offset + k]);
            }
            credited_handles_hold_the_payouts(front, offset, rest);
            assert(after.drop_last() =~= credited(front, offset, rest));
            assert(accounts.last() == accounts[offset + (payouts.len() - 1)]);
            assert(after.last().lamports == accounts.last().lamports + payouts.last());
        } else {
            assert forall|k: int| 0 <= k < payouts.len() implies (#[trigger] front[offset
                + k]).lamports + payouts[k] <= u64::MAX by {
                assert(front[offset + k] == accounts[offset + k]);
            }
            credited_handles_hold_the_payouts(front, offset, payouts);
            assert(after.drop_last() =~= credited(front, offset, payouts));
            assert(after.last() == accounts.last());
        }
    }
}

/// A distribution creates and destroys nothing: the treasury and the handles
/// hold together after it what they held together before it.
pub proof fn distribution_conserves_lamports(
    ctx: DistributeRewards,
    winners: Seq<WinnerInput>,
    insiders: Seq<InsiderInput>,
)
    requires
        distribution(ctx, winners, insiders) is Ok,
    ensures
        ({
            let paid = distribution(ctx, winners, insiders)->Ok_0;
            treasury_after(ctx.treasury, paid).lamports + total_held(
                accounts_after(ctx.remaining_accounts@, paid),
            ) == ctx.treasury.lamports + total_held(ctx.remaining_accounts@)
        }),
{
    let balance = ctx.treasury.lamports;
    let accounts = ctx.remaining_accounts@;
    let pool = reward_pool(balance, ctx.config.reward_percentage_bps);
    let paid = distribution(ctx, winners, insiders)->Ok_0;
    distribution_conserves(ctx, winners, insiders);
    winners_receive_their_shares(pool, total_points(winners), winners, accounts, balance as int);
    assert forall|k: int| 0 <= k < paid.winners.len() implies (#[trigger] accounts[0
        + k]).lamports + paid.winners[k] <= u64::MAX by {
        let _ = winners[k];
    }
    credited_handles_hold_the_payouts(accounts, 0, paid.winners);
    let first = credited(accounts, 0, paid.winners);
    if paid.insiders.len() > 0 {
        let remaining = (balance - total_paid(paid.winners)) as nat;
        insiders_receive_their_amounts(remaining, insiders, accounts, winners.len() as int);
        assert forall|k: int| 0 <= k < paid.insiders.len() implies (#[trigger] first[winners.len()
            + k]).lamports + paid.insiders[k] <= u64::MAX by {
            let _ = insiders[k];
            assert(first[winners.len() + k] == accounts[winners.len() + k]);
        }
    }
    credited_handles_hold_the_payouts(first, winners.len() as int, paid.insiders);
}

/// The share that the winner at position `i` is owed.
pub open spec fn share_owed(pool: nat, total: nat, winners: Seq<WinnerInput>, i: int) -> nat {
    (pool * winners[i].points as nat) / total
}

/// The shares that the winners before position `i` are owed, added up.
pub open spec fn shares_owed_before(
    pool: nat,
    total: nat,
    winners: Seq<WinnerInput>,
    i: int,
) -> nat
    decreases i,
{
    if i <= 0 {
        0
    } else {
        shares_owed_before(pool, total, winners, i - 1) + share_owed(pool, total, winners, i - 1)
    }
}

/// Whether the winner at position `i` can be served: its share can be
/// computed, and where it is owed something, its handle carries its identity,
/// the balance covers its share after the shares before it, and its handle
/// can hold the share.
pub open spec fn winner_can_be_served(
    pool: nat,
    total: nat,
    winners: Seq<WinnerInput>,
    accounts: Seq<Account>,
    balance: int,
    i: int,
) -> bool {
    let share = share_owed(pool, total, winners, i);
    &&& pool * winners[i].points as nat <= u128::MAX
    &&& share > 0 ==> {
        &&& accounts[i].key@ == winners[i].wallet@
        &&& share <= u64::MAX
        &&& shares_owed_before(pool, total, winners, i) + share <= balance
        &&& accounts[i].lamports + share <= u64::MAX
    }
}

/// The amounts that the insiders before position `j` are owed, added up.
pub open spec fn amounts_owed_before(remaining: nat, insiders: Seq<InsiderInput>, j: int) -> nat
    decreases j,
{
    if j <= 0 {
        0
    } else {
        amounts_owed_before(remaining, insiders, j - 1) + insider_amount(
            remaining,
            insiders[j - 1].share_bps,
        )
    }
}

/// Whether the insider at position `j` can be served: where it is owed
/// something, its handle carries its identity, what was left covers its
/// amount after the amounts before it, and its handle can hold the amount.
pub open spec fn insider_can_be_served(
    remaining: nat,
    insiders: Seq<InsiderInput>,
    accounts: Seq<Account>,
    offset: int,
    j: int,
) -> bool {
    let amount = insider_amount(remaining, insiders[j].share_bps);
    amount > 0 ==> {
        &&& accounts[offset + j].key@ == insiders[j].wallet@
        &&& amount <= u64::MAX
        &&& amounts_owed_before(remaining, insiders, j) + amount <= remaining
        &&& accounts[offset + j].lamports + amount <= u64::MAX
    }
}

/// What the winners before a position are owed depends on those winners
/// alone.
pub proof fn shares_owed_before_agree(
    pool: nat,
    total: nat,
    winners: Seq<WinnerInput>,
    others: Seq<WinnerInput>,
    i: int,
)
    requires
        0 <= i <= winners.len(),
        i <= others.len(),
        forall|k: int| 0 <= k < i ==> winners[k] == others[k],
    ensures
        shares_owed_before(pool, total, winners, i) == shares_owed_before(pool, total, others, i),
    decreases i,
{
    if i > 0 {
        shares_owed_before_agree(pool, total, winners, others, i - 1);
    }
}

/// What the insiders before a position are owed depends on those insiders
/// alone.
pub proof fn amounts_owed_before_agree(
    remaining: nat,
    insiders: Seq<InsiderInput>,
    others: Seq<InsiderInput>,
    j: int,
)
    requires
        0 <= j <= insiders.len(),
        j <= others.len(),
        forall|k: int| 0 <= k < j ==> insiders[k] == others[k],
    ensures
        amounts_owed_before(remaining, insiders, j) == amounts_owed_before(remaining, others, j),
    decreases j,
{
    if j > 0 {
        amounts_owed_before_agree(remaining, insiders, others, j - 1);
    }
}

/// The winners are all served exactly when each of them can be served, and
/// then they receive together what they are owed together.
pub proof fn winners_served_when_each_can_be(
    pool: nat,
    total: nat,
    winners: Seq<WinnerInput>,
    accounts: Seq<Account>,
    balance: int,
)
    ensures
        winners_phase(pool, total, winners, accounts, balance) is Ok <==> forall|i: int|
            0 <= i < winners.len() ==> #[trigger] winner_can_be_served(
                pool,
                total,
                winners,
                accounts,
                balance,
                i,
            ),
        winners_phase(pool, total, winners, accounts, balance) is Ok ==> total_paid(
            winners_phase(pool, total, winners, accounts, balance)->Ok_0,
        ) == shares_owed_before(pool, total, winners, winners.len() as int),
    decreases winners.len(),
{
    if winners.len() > 0 {
        let n = winners.len() as int;
        let front = winners.drop_last();
        winners_served_when_each_can_be(pool, total, front, accounts, balance);
        shares_owed_before_agree(pool, total, winners, front, n - 1);
        assert forall|i: int| 0 <= i < n - 1 implies winner_can_be_served(
            pool,
            total,
            front,
            accounts,
            balance,
            i,
        ) == winner_can_be_served(pool, total, winners, accounts, balance, i) by {
            shares_owed_before_agree(pool, total, winners, front, i);
            assert(front[i] == winners[i]);
        }
        let whole = winners_phase(pool, total, winners, accounts, balance);
        let part = winners_phase(pool, total, front, accounts, balance);
        if part is Ok {
            let before = part->Ok_0;
            assert(total_paid(before) == shares_owed_before(pool, total, winners, n - 1));
            assert(winners.last() == winners[n - 1]);
            if whole is Ok {
                assert(whole->Ok_0.drop_last() =~= before);
                assert(winner_can_be_served(pool, total, winners, accounts, balance, n - 1));
                assert forall|i: int| 0 <= i < n implies #[trigger] winner_can_be_served(
                    pool,
                    total,
                    winners,
                    accounts,
                    balance,
                    i,
                ) by {
                    if i < n - 1 {
                        assert(winner_can_be_served(pool, total, front, accounts, balance, i));
                    }
                }
            } else {
                assert(!winner_can_be_served(pool, total, winners, accounts, balance, n - 1));
            }
        } else {
            let i = choose|i: int|
                0 <= i < n - 1 && !#[trigger] winner_can_be_served(
                    pool,
                    total,
                    front,
                    accounts,
                    balance,
                    i,
                );
            assert(!winner_can_be_served(pool, total, winners, accounts, balance, i));
        }
    }
}

/// The insiders are all served exactly when each of them can be served, and
/// then they receive together what they are owed together.
pub proof fn insiders_served_when_each_can_be(
    remaining: nat,
    insiders: Seq<InsiderInput>,
    accounts: Seq<Account>,
    offset: int,
)
    ensures
        insiders_phase(remaining, insiders, accounts, offset) is Ok <==> forall|j: int|
            0 <= j < insiders.len() ==> #[trigger] insider_can_be_served(
                remaining,
                insiders,
                accounts,
                offset,
                j,
            ),
        insiders_phase(remaining, insiders, accounts, offset) is Ok ==> total_paid(
            insiders_phase(remaining, insiders, accounts, offset)->Ok_0,
        ) == amounts_owed_before(remaining, insiders, insiders.len() as int),
    decreases insiders.len(),
{
    if insiders.len() > 0 {
        let m = insiders.len() as int;
        let front = insiders.drop_last();
        insiders_served_when_each_can_be(remaining, front, accounts, offset);
        amounts_owed_before_agree(remaining, insiders, front, m - 1);
        assert forall|j: int| 0 <= j < m - 1 implies insider_can_be_served(
            remaining,
            front,
            accounts,
            offset,
            j,
        ) == insider_can_be_served(remaining, insiders, accounts, offset, j) by {
            amounts_owed_before_agree(remaining, insiders, front, j);
            assert(front[j] == insiders[j]);
        }
        let whole = insiders_phase(remaining, insiders, accounts, offset);
        let part = insiders_phase(remaining, front, accounts, offset);
        if part is Ok {
            let before = part->Ok_0;
            assert(total_paid(before) == amounts_owed_before(remaining, insiders, m - 1));
            assert(insiders.last() == insiders[m - 1]);
            if whole is Ok {
                assert(whole->Ok_0.drop_last() =~= before);
                assert(insider_can_be_served(remaining, insiders, accounts, offset, m - 1));
                assert forall|j: int| 0 <= j < m implies #[trigger] insider_can_be_served(
                    remaining,
                    insiders,
                    accounts,
                    offset,
                    j,
                ) by {
                    if j < m - 1 {
                        assert(insider_can_be_served(remaining, front, accounts, offset, j));
                    }
                }
            } else {
                assert(!insider_can_be_served(remaining, insiders, accounts, offset, m - 1));
            }
        } else {
            let j = choose|j: int|
                0 <= j < m - 1 && !#[trigger] insider_can_be_served(
                    remaining,
                    front,
                    accounts,
                    offset,
                    j,
                );
            assert(!insider_can_be_served(remaining, insiders, accounts, offset, j));
        }
    }
}

/// When a distribution goes through: the caller is the authority, the
/// winners hold points, there is a handle for every winner and insider, each
/// winner can be served, and either nothing is left after the winners, or
/// there are no insiders, or the insiders' shares add up to no more than
/// 10,000 basis points and each insider can be served.
pub proof fn distribution_goes_through_exactly_when(
    ctx: DistributeRewards,
    winners: Seq<WinnerInput>,
    insiders: Seq<InsiderInput>,
)
    ensures
        distribution(ctx, winners, insiders) is Ok <==> ({
            let balance = ctx.treasury.lamports;
            let accounts = ctx.remaining_accounts@;
            let pool = reward_pool(balance, ctx.config.reward_percentage_bps);
            let total = total_points(winners);
            let remaining = balance - shares_owed_before(
                pool,
                total,
                winners,
                winners.len() as int,
            );
            &&& is_authority(ctx.config, ctx.authority)
            &&& total > 0
            &&& accounts.len() >= winners.len() + insiders.len()
            &&& forall|i: int|
                0 <= i < winners.len() ==> #[trigger] winner_can_be_served(
                    pool,
                    total,
                    winners,
                    accounts,
                    balance as int,
                    i,
                )
            &&& {
                ||| remaining == 0
                ||| insiders.len() == 0
                ||| {
                    &&& total_share_bps(insiders) <= 10_000
                    &&& forall|j: int|
                        0 <= j < insiders.len() ==> #[trigger] insider_can_be_served(
                            remaining as nat,
                            insiders,
                            accounts,
                            winners.len() as int,
                            j,
                        )
                }
            }
        }),
{
    let balance = ctx.treasury.lamports;
    let accounts = ctx.remaining_accounts@;
    let pool = reward_pool(balance, ctx.config.reward_percentage_bps);
    let total = total_points(winners);
    winners_served_when_each_can_be(pool, total, winners, accounts, balance as int);
    if winners_phase(pool, total, winners, accounts, balance as int) is Ok {
        winners_receive_their_shares(pool, total, winners, accounts, balance as int);
        let won = winners_phase(pool, total, winners, accounts, balance as int)->Ok_0;
        let remaining = balance - total_paid(won);
        if remaining > 0 {
            insiders_served_when_each_can_be(
                remaining as nat,
                insiders,
                accounts,
                winners.len() as int,
            );
        }
    }
}

} // verus!
