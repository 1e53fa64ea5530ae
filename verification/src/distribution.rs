//! Distribution of a reward pool over winners, by points, and of what is left
//! over insiders, by basis points.

use vstd::prelude::*;
use crate::address::Address;
use crate::authorization::{authorize, is_authority};
use crate::error::CustomError;
use crate::state::{Account, Config, DistributedRewardsEvent, InsiderInput, Treasury, WinnerInput};
use crate::transfer::transfer;

verus! {

/// The accounts of a distribution. The first handles of `remaining_accounts`
/// stand for the winners, in their order, and the next ones for the insiders.
/// Each handle holds the balance that its account had when the call began, and
/// is credited on its own: where one account stands at several positions, it
/// is owed the payouts of all of them.
#[derive(Clone, Debug, PartialEq, Eq)]
pub struct DistributeRewards {
    pub config: Config,
    pub treasury: Treasury,
    pub authority: Address,
    pub remaining_accounts: Vec<Account>,
}

/// What a distribution moved.
#[derive(Clone, Debug, PartialEq, Eq)]
pub struct DistributionOutcome {
    /// The sum of what the winners received.
    pub distributed_to_winners: u64,
    /// The sum of what the insiders received.
    pub distributed_to_insiders: u64,
    /// What the treasury paid to each handle that stands for a recipient, by
    /// position: the winners first, then the insiders that were served.
    pub payouts: Vec<u64>,
    /// The record of the distribution.
    pub event: DistributedRewardsEvent,
}

/// What each winner and each insider receives in a distribution that succeeds,
/// position by position.
pub ghost struct Payouts {
    pub winners: Seq<u64>,
    /// Empty where the call ended after the winners, with nothing left or no
    /// insiders to serve.
    pub insiders: Seq<u64>,
}

/// The part of the treasury that goes to the winners: `balance` times the
/// configured basis points over 10,000, rounded down.
pub open spec fn reward_pool(balance: u64, reward_percentage_bps: u16) -> nat {
    (balance as nat * reward_percentage_bps as nat) / 10_000
}

/// The sum of the winners' points.
pub open spec fn total_points(winners: Seq<WinnerInput>) -> nat
    decreases winners.len(),
{
    if winners.len() == 0 {
        0
    } else {
        total_points(winners.drop_last()) + winners.last().points as nat
    }
}

/// The sum of the insiders' shares, in basis points.
pub open spec fn total_share_bps(insiders: Seq<InsiderInput>) -> nat
    decreases insiders.len(),
{
    if insiders.len() == 0 {
        0
    } else {
        total_share_bps(insiders.drop_last()) + insiders.last().share_bps as nat
    }
}

/// The sum of a list of payouts.
pub open spec fn total_paid(payouts: Seq<u64>) -> nat
    decreases payouts.len(),
{
    if payouts.len() == 0 {
        0
    } else {
        total_paid(payouts.drop_last()) + payouts.last() as nat
    }
}

/// A winner's share of the pool: `pool` times its points over all points,
/// rounded down. The product must fit in 128 bits.
pub open spec fn winner_share(pool: nat, points: u64, total: nat) -> Result<nat, CustomError> {
    if pool * points as nat > u128::MAX {
        Err(CustomError::MathOverflow)
    } else {
        Ok((pool * points as nat) / total)
    }
}

/// An insider's amount: `remaining` times its basis points over 10,000,
/// rounded down.
pub open spec fn insider_amount(remaining: nat, share_bps: u16) -> nat {
    (remaining * share_bps as nat) / 10_000
}

/// What the account handle at one position receives for `amount` owed to
/// `recipient`, while the treasury still holds `available`. An amount of zero
/// is skipped without a look at the handle. Any other amount is paid only to a
/// handle that carries the recipient's identity, and only if the transfer
/// leaves both balances in range.
pub open spec fn payout(amount: nat, recipient: Address, account: Account, available: int) -> Result<
    u64,
    CustomError,
> {
    if amount == 0 {
        Ok(0)
    } else if account.key@ != recipient@ {
        Err(CustomError::Unauthorized)
    } else if amount > u64::MAX {
        Err(CustomError::MathOverflow)
    } else if amount > available {
        Err(CustomError::InsufficientFunds)
    } else if account.lamports + amount > u64::MAX {
        Err(CustomError::MathOverflow)
    } else {
        Ok(amount as u64)
    }
}

/// The payouts of the winners, each served in its turn from what the treasury
/// holds after those before it, or the first rejection met on the way.
pub open spec fn winners_phase(
    pool: nat,
    total: nat,
    winners: Seq<WinnerInput>,
    accounts: Seq<Account>,
    balance: int,
) -> Result<Seq<u64>, CustomError>
    decreases winners.len(),
{
    if winners.len() == 0 {
        Ok(Seq::empty())
    } else {
        let last = winners.last();
        match winners_phase(pool, total, winners.drop_last(), accounts, balance) {
            Err(e) => Err(e),
            Ok(paid) => match winner_share(pool, last.points, total) {
                Err(e) => Err(e),
                Ok(share) => match payout(
                    share,
                    last.wallet,
                    accounts[winners.len() - 1],
                    balance - total_paid(paid),
                ) {
                    Err(e) => Err(e),
                    Ok(amount) => Ok(paid.push(amount)),
                },
            },
        }
    }
}

/// The payouts of the insiders out of `remaining`, each served in its turn, or
/// the first rejection met on the way. The handle of insider `j` is
/// `accounts[offset + j]`.
pub open spec fn insiders_phase(
    remaining: nat,
    insiders: Seq<InsiderInput>,
    accounts: Seq<Account>,
    offset: int,
) -> Result<Seq<u64>, CustomError>
    decreases insiders.len(),
{
    if insiders.len() == 0 {
        Ok(Seq::empty())
    } else {
        let last = insiders.last();
        match insiders_phase(remaining, insiders.drop_last(), accounts, offset) {
            Err(e) => Err(e),
            Ok(paid) => match payout(
                insider_amount(remaining, last.share_bps),
                last.wallet,
                accounts[offset + insiders.len() - 1],
                remaining - total_paid(paid),
            ) {
                Err(e) => Err(e),
                Ok(amount) => Ok(paid.push(amount)),
            },
        }
    }
}

/// What a distribution pays, or why it is rejected. The checks come in this
/// order: the caller, the points, the number of handles, each winner in turn,
/// the insiders' shares, each insider in turn.
pub open spec fn distribution(
    ctx: DistributeRewards,
    winners: Seq<WinnerInput>,
    insiders: Seq<InsiderInput>,
) -> Result<Payouts, CustomError> {
    let balance = ctx.treasury.lamports;
    let accounts = ctx.remaining_accounts@;
    if !is_authority(ctx.config, ctx.authority) {
        Err(CustomError::Unauthorized)
    } else if total_points(winners) == 0 {
        Err(CustomError::NoPoints)
    } else if accounts.len() < winners.len() + insiders.len() {
        Err(CustomError::MissingRemainingAccounts)
    } else {
        match winners_phase(
            reward_pool(balance, ctx.config.reward_percentage_bps),
            total_points(winners),
            winners,
            accounts,
            balance as int,
        ) {
            Err(e) => Err(e),
            Ok(won) => {
                let remaining = balance - total_paid(won);
                if remaining == 0 || insiders.len() == 0 {
                    Ok(Payouts { winners: won, insiders: Seq::empty() })
                } else if total_share_bps(insiders) > 10_000 {
                    Err(CustomError::InvalidInsiderShares)
                } else {
                    match insiders_phase(
                        remaining as nat,
                        insiders,
                        accounts,
                        winners.len() as int,
                    ) {
                        Err(e) => Err(e),
                        Ok(given) => Ok(Payouts { winners: won, insiders: given }),
                    }
                }
            },
        }
    }
}

/// The accounts after `payouts` were credited to the handles from position
/// `offset` on, one payout per handle. Identities and all other handles stay.
pub open spec fn credited(accounts: Seq<Account>, offset: int, payouts: Seq<u64>) -> Seq<Account> {
    Seq::new(
        accounts.len(),
        |k: int|
            if offset <= k < offset + payouts.len() {
                Account {
                    key: accounts[k].key,
                    lamports: (accounts[k].lamports + payouts[k - offset]) as u64,
                }
            } else {
                accounts[k]
            },
    )
}

/// The treasury after the payouts `paid` were made.
pub open spec fn treasury_after(treasury: Treasury, paid: Payouts) -> Treasury {
    Treasury {
        bump: treasury.bump,
        lamports: (treasury.lamports - total_paid(paid.winners) - total_paid(paid.insiders)) as u64,
    }
}

/// The account handles after the payouts `paid` were made: the winners'
/// handles come first, the insiders' follow them.
pub open spec fn accounts_after(accounts: Seq<Account>, paid: Payouts) -> Seq<Account> {
    credited(credited(accounts, 0, paid.winners), paid.winners.len() as int, paid.insiders)
}

/// The record that the payouts `paid`, made at time `now`, leave: it holds
/// what the winners received, and nothing of the insiders.
pub open spec fn recorded_event(paid: Payouts, now: i64) -> DistributedRewardsEvent {
    DistributedRewardsEvent { distributed_reward_pool: total_paid(paid.winners) as u64, ts: now }
}

/// Once a rejection is met among the first `i` winners, it is the result for
/// the whole list.
pub proof fn winners_phase_stops(
    pool: nat,
    total: nat,
    winners: Seq<WinnerInput>,
    accounts: Seq<Account>,
    balance: int,
    i: int,
)
    requires
        0 <= i <= winners.len(),
        winners_phase(pool, total, winners.take(i), accounts, balance) is Err,
    ensures
        winners_phase(pool, total, winners, accounts, balance) == winners_phase(
            pool,
            total,
            winners.take(i),
            accounts,
            balance,
        ),
    decreases winners.len() - i,
{
    if i < winners.len() {
        assert(winners.take(i + 1).drop_last() =~= winners.take(i));
        winners_phase_stops(pool, total, winners, accounts, balance, i + 1);
    } else {
        assert(winners.take(i) =~= winners);
    }
}

/// Once a rejection is met among the first `j` insiders, it is the result for
/// the whole list.
pub proof fn insiders_phase_stops(
    remaining: nat,
    insiders: Seq<InsiderInput>,
    accounts: Seq<Account>,
    offset: int,
    j: int,
)
    requires
        0 <= j <= insiders.len(),
        insiders_phase(remaining, insiders.take(j), accounts, offset) is Err,
    ensures
        insiders_phase(remaining, insiders, accounts, offset) == insiders_phase(
            remaining,
            insiders.take(j),
            accounts,
            offset,
        ),
    decreases insiders.len() - j,
{
    if j < insiders.len() {
        assert(insiders.take(j + 1).drop_last() =~= insiders.take(j));
        insiders_phase_stops(remaining, insiders, accounts, offset, j + 1);
    } else {
        assert(insiders.take(j) =~= insiders);
    }
}

/// Adds up the winners' points. The sum of as many 64-bit numbers as a list
/// can hold fits in 128 bits.
fn sum_points(winners: &Vec<WinnerInput>) -> (total: u128)
    ensures
        total == total_points(winners@),
{
    let mut total: u128 = 0;
    let mut i: usize = 0;
    while i < winners.len()
        invariant
            i <= winners.len(),
            total == total_points(winners@.take(i as int)),
            total <= i * u64::MAX,
        decreases winners.len() - i,
    {
        assert(winners@.take(i + 1).drop_last() =~= winners@.take(i as int));
        total = total + winners[i].points as u128;
        i += 1;
    }
    assert(winners@.take(winners.len() as int) =~= winners@);
    total
}

/// Adds up the insiders' shares.
fn sum_share_bps(insiders: &Vec<InsiderInput>) -> (total: u128)
    ensures
        total == total_share_bps(insiders@),
{
    let mut total: u128 = 0;
    let mut j: usize = 0;
    while j < insiders.len()
        invariant
            j <= insiders.len(),
            total == total_share_bps(insiders@.take(j as int)),
            total <= j * u16::MAX,
        decreases insiders.len() - j,
    {
        assert(insiders@.take(j + 1).drop_last() =~= insiders@.take(j as int));
        total = total + insiders[j].share_bps as u128;
        j += 1;
    }
    assert(insiders@.take(insiders.len() as int) =~= insiders@);
    total
}

/// Decides what one handle receives for `amount` owed to `recipient`.
fn pay(amount: u128, recipient: &Address, account: &Account, available: u64) -> (paid: Result<
    u64,
    CustomError,
>)
    ensures
        paid == payout(amount as nat, *recipient, *account, available as int),
{
    if amount == 0 {
        return Ok(0);
    }
    if !account.key.same_as(recipient) {
        return Err(CustomError::Unauthorized);
    }
    if amount > u64::MAX as u128 {
        return Err(CustomError::MathOverflow);
    }
    let lamports = amount as u64;
    match transfer(available, account.lamports, lamports) {
        Ok(_) => Ok(lamports),
        Err(e) => Err(e),
    }
}

/// Serves the winners in their order and returns their payouts with their
/// sum.
fn pay_winners(
    pool: u128,
    total: u128,
    winners: &Vec<WinnerInput>,
    accounts: &Vec<Account>,
    balance: u64,
) -> (r: Result<(Vec<u64>, u64), CustomError>)
    requires
        total > 0,
        winners.len() <= accounts.len(),
    ensures
        match winners_phase(pool as nat, total as nat, winners@, accounts@, balance as int) {
            Ok(paid) => {
                &&& r is Ok
                &&& r->Ok_0.0@ == paid
                &&& r->Ok_0.1 == total_paid(paid)
                &&& total_paid(paid) <= balance
                &&& paid.len() == winners.len()
                &&& forall|k: int|
                    0 <= k < paid.len() ==> (#[trigger] accounts[k]).lamports + paid[k] <= u64::MAX
            },
            Err(e) => r is Err && r->Err_0 == e,
        },
{
    let n = winners.len();
    let mut payouts: Vec<u64> = Vec::new();
    let mut distributed: u64 = 0;
    let mut i: usize = 0;
    assert(winners@.take(0) =~= Seq::<WinnerInput>::empty());
    while i < n
        invariant
            i <= n,
            n == winners.len(),
            n <= accounts.len(),
            total > 0,
            payouts@.len() == i,
            winners_phase(
                pool as nat,
                total as nat,
                winners@.take(i as int),
                accounts@,
                balance as int,
            ) == Ok::<Seq<u64>, CustomError>(payouts@),
            distributed == total_paid(payouts@),
            distributed <= balance,
            forall|k: int|
                0 <= k < i ==> (#[trigger] accounts[k]).lamports + payouts[k] <= u64::MAX,
        decreases n - i,
    {
        let ghost before = payouts@;
        proof {
            assert(winners@.take(i + 1).drop_last() =~= winners@.take(i as int));
            assert(winners@.take(i + 1).last() == winners[i as int]);
        }
        let product = match pool.checked_mul(winners[i].points as u128) {
            Some(product) => product,
            None => {
                proof {
                    winners_phase_stops(
                        pool as nat,
                        total as nat,
                        winners@,
                        accounts@,
                        balance as int,
                        i + 1,
                    );
                }
                return Err(CustomError::MathOverflow);
            },
        };
        let share = product / total;
        match pay(share, &winners[i].wallet, &accounts[i], balance - distributed) {
            Ok(amount) => {
                payouts.push(amount);
                distributed = match distributed.checked_add(amount) {
                    Some(sum) => sum,
                    None => {
                        return Err(CustomError::MathOverflow);
                    },
                };
            },
            Err(e) => {
                proof {
                    winners_phase_stops(
                        pool as nat,
                        total as nat,
                        winners@,
                        accounts@,
                        balance as int,
                        i + 1,
                    );
                }
                return Err(e);
            },
        }
        proof {
            assert(payouts@.drop_last() =~= before);
        }
        i += 1;
    }
    assert(winners@.take(n as int) =~= winners@);
    Ok((payouts, distributed))
}

/// Serves the insiders in their order out of `remaining` and returns their
/// payouts with their sum.
fn pay_insiders(
    remaining: u64,
    insiders: &Vec<InsiderInput>,
    accounts: &Vec<Account>,
    offset: usize,
) -> (r: Result<(Vec<u64>, u64), CustomError>)
    requires
        offset + insiders.len() <= accounts.len(),
    ensures
        match insiders_phase(remaining as nat, insiders@, accounts@, offset as int) {
            Ok(paid) => {
                &&& r is Ok
                &&& r->Ok_0.0@ == paid
                &&& r->Ok_0.1 == total_paid(paid)
                &&& total_paid(paid) <= remaining
                &&& paid.len() == insiders.len()
                &&& forall|k: int|
                    0 <= k < paid.len() ==> (#[trigger] accounts[offset + k]).lamports + paid[k]
                        <= u64::MAX
            },
            Err(e) => r is Err && r->Err_0 == e,
        },
{
    let m = insiders.len();
    let mut payouts: Vec<u64> = Vec::new();
    let mut allocated: u64 = 0;
    let mut j: usize = 0;
    assert(insiders@.take(0) =~= Seq::<InsiderInput>::empty());
    while j < m
        invariant
            j <= m,
            m == insiders.len(),
            offset + m <= accounts.len(),
            payouts@.len() == j,
            insiders_phase(remaining as nat, insiders@.take(j as int), accounts@, offset as int)
                == Ok::<Seq<u64>, CustomError>(payouts@),
            allocated == total_paid(payouts@),
            allocated <= remaining,
            forall|k: int|
                0 <= k < j ==> (#[trigger] accounts[offset + k]).lamports + payouts[k]
                    <= u64::MAX,
        decreases m - j,
    {
        let ghost before = payouts@;
        proof {
            assert(insiders@.take(j + 1).drop_last() =~= insiders@.take(j as int));
            assert(insiders@.take(j + 1).last() == insiders[j as int]);
            assert(remaining * insiders[j as int].share_bps <= u128::MAX) by (nonlinear_arith)
                requires
                    remaining <= u64::MAX,
                    insiders[j as int].share_bps <= u16::MAX,
            ;
        }
        let amount = (remaining as u128 * insiders[j].share_bps as u128) / 10_000;
        match pay(amount, &insiders[j].wallet, &accounts[offset + j], remaining - allocated) {
            Ok(lamports) => {
                payouts.push(lamports);
                allocated = match allocated.checked_add(lamports) {
                    Some(sum) => sum,
                    None => {
                        return Err(CustomError::MathOverflow);
                    },
                };
            },
            Err(e) => {
                proof {
                    insiders_phase_stops(
                        remaining as nat,
                        insiders@,
                        accounts@,
                        offset as int,
                        j + 1,
                    );
                }
                return Err(e);
            },
        }
        proof {
            assert(payouts@.drop_last() =~= before);
        }
        j += 1;
    }
    assert(insiders@.take(m as int) =~= insiders@);
    Ok((payouts, allocated))
}

/// Credits `payouts` to the handles from position `offset` on.
fn credit(accounts: &mut Vec<Account>, offset: usize, payouts: &Vec<u64>)
    requires
        offset + payouts.len() <= old(accounts).len(),
        forall|k: int|
            0 <= k < payouts.len() ==> (#[trigger] old(accounts)[offset + k]).lamports + payouts[k]
                <= u64::MAX,
    ensures
        final(accounts)@ == credited(old(accounts)@, offset as int, payouts@),
{
    let count = payouts.len();
    let mut j: usize = 0;
    assert(accounts@ =~= credited(old(accounts)@, offset as int, payouts@.take(0)));
    while j < count
        invariant
            j <= count,
            count == payouts.len(),
            accounts.len() == old(accounts).len(),
            offset + count <= accounts.len(),
            accounts@ == credited(old(accounts)@, offset as int, payouts@.take(j as int)),
            forall|k: int|
                0 <= k < count ==> (#[trigger] old(accounts)[offset + k]).lamports + payouts[k]
                    <= u64::MAX,
        decreases count - j,
    {
        let account = accounts[offset + j];
        assert(account == old(accounts)[offset + j]);
        let lamports = account.lamports + payouts[j];
        accounts.set(offset + j, Account { key: account.key, lamports });
        j += 1;
        assert(accounts@ =~= credited(old(accounts)@, offset as int, payouts@.take(j as int)));
    }
    assert(payouts@.take(count as int) =~= payouts@);
}

/// Distributes rewards out of the treasury. Only the configured authority may
/// call it.
///
/// The reward pool is the configured share of the treasury's balance at entry.
/// Each winner receives the pool times its points over all points, rounded
/// down; each insider receives what the winners left times its basis points
/// over 10,000, rounded down. What rounding leaves stays in the treasury. The
/// handle at a recipient's position must carry its identity, unless the
/// recipient is owed nothing. The call applies every payout or none.
///
/// The sums of the payouts are added and subtracted with checks that end the
/// call in `MathOverflow`. The contract shows that none of them ever does:
/// the payouts stay within the balance.
pub fn distribute_rewards(
    ctx: &mut DistributeRewards,
    winners: Vec<WinnerInput>,
    insiders: Vec<InsiderInput>,
    now: i64,
) -> (r: Result<DistributionOutcome, CustomError>)
    ensures
        match distribution(*old(ctx), winners@, insiders@) {
            Err(e) => r is Err && r->Err_0 == e && *final(ctx) == *old(ctx),
            Ok(paid) => {
                &&& r is Ok
                &&& r->Ok_0.distributed_to_winners == total_paid(paid.winners)
                &&& r->Ok_0.distributed_to_insiders == total_paid(paid.insiders)
                &&& r->Ok_0.payouts@ == paid.winners + paid.insiders
                &&& r->Ok_0.event == recorded_event(paid, now)
                &&& final(ctx).config == old(ctx).config
                &&& final(ctx).authority == old(ctx).authority
                &&& final(ctx).treasury == treasury_after(old(ctx).treasury, paid)
                &&& final(ctx).remaining_accounts@ == accounts_after(
                    old(ctx).remaining_accounts@,
                    paid,
                )
            },
        },
        r is Ok ==> final(ctx).treasury.lamports + r->Ok_0.distributed_to_winners
            + r->Ok_0.distributed_to_insiders == old(ctx).treasury.lamports,
{
    if let Err(e) = authorize(&ctx.config, &ctx.authority) {
        return Err(e);
    }
    let balance = ctx.treasury.lamports;
    assert(balance * ctx.config.reward_percentage_bps <= u128::MAX) by (nonlinear_arith)
        requires
            balance <= u64::MAX,
            ctx.config.reward_percentage_bps <= u16::MAX,
    ;
    let pool = (balance as u128 * ctx.config.reward_percentage_bps as u128) / 10_000;
    let total = sum_points(&winners);
    if total == 0 {
        return Err(CustomError::NoPoints);
    }
    let winners_count = winners.len();
    let insiders_count = insiders.len();
    let handles = ctx.remaining_accounts.len();
    if handles < winners_count || handles - winners_count < insiders_count {
        return Err(CustomError::MissingRemainingAccounts);
    }
    let (won, distributed) = match pay_winners(
        pool,
        total,
        &winners,
        &ctx.remaining_accounts,
        balance,
    ) {
        Ok(served) => served,
        Err(e) => {
            return Err(e);
        },
    };
    let remaining = match balance.checked_sub(distributed) {
        Some(left) => left,
        None => {
            return Err(CustomError::MathOverflow);
        },
    };
    if remaining == 0 || insiders_count == 0 {
        credit(&mut ctx.remaining_accounts, 0, &won);
        ctx.treasury.lamports = remaining;
        proof {
            assert(ctx.remaining_accounts@ =~= accounts_after(
                old(ctx).remaining_accounts@,
                Payouts { winners: won@, insiders: Seq::empty() },
            ));
        }
        assert(won@ + Seq::<u64>::empty() =~= won@);
        return Ok(
            DistributionOutcome {
                distributed_to_winners: distributed,
                distributed_to_insiders: 0,
                payouts: won,
                event: DistributedRewardsEvent { distributed_reward_pool: distributed, ts: now },
            },
        );
    }
    if sum_share_bps(&insiders) > 10_000 {
        return Err(CustomError::InvalidInsiderShares);
    }
    let (mut given, allocated) = match pay_insiders(
        remaining,
        &insiders,
        &ctx.remaining_accounts,
        winners_count,
    ) {
        Ok(served) => served,
        Err(e) => {
            return Err(e);
        },
    };
    credit(&mut ctx.remaining_accounts, 0, &won);
    credit(&mut ctx.remaining_accounts, winners_count, &given);
    ctx.treasury.lamports = remaining - allocated;
    let mut payouts = won;
    payouts.append(&mut given);
    Ok(
        DistributionOutcome {
            distributed_to_winners: distributed,
            distributed_to_insiders: allocated,
            payouts,
            event: DistributedRewardsEvent { distributed_reward_pool: distributed, ts: now },
        },
    )
}

} // verus!
