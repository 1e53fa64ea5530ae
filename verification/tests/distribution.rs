use embedded::address::Address;
use embedded::distribution::{distribute_rewards, DistributeRewards, DistributionOutcome};
use embedded::error::CustomError;
use embedded::state::{
    Account, Config, DistributedRewardsEvent, InsiderInput, Treasury, WinnerInput,
};

fn who(tag: u8) -> Address {
    Address::new([tag; 32])
}

fn settings(reward_percentage_bps: u16) -> Config {
    Config {
        authority: who(1),
        casual_bet: 1_000,
        casual_fee_bps: 250,
        betting_fee_bps: 500,
        winners_mode_is_percentage: false,
        winners_value: 500,
        reward_percentage_bps,
        bump: 254,
    }
}

fn handle(tag: u8, lamports: u64) -> Account {
    Account { key: who(tag), lamports }
}

fn winner(tag: u8, points: u64) -> WinnerInput {
    WinnerInput { wallet: who(tag), points }
}

fn insider(tag: u8, share_bps: u16) -> InsiderInput {
    InsiderInput { wallet: who(tag), share_bps }
}

fn context(balance: u64, bps: u16, accounts: Vec<Account>) -> DistributeRewards {
    DistributeRewards {
        config: settings(bps),
        treasury: Treasury { bump: 255, lamports: balance },
        authority: who(1),
        remaining_accounts: accounts,
    }
}

#[test]
fn distribute_rewards_zero_points_is_no_points() {
    let mut ctx = context(100, 10_000, vec![handle(10, 0), handle(20, 0)]);
    let before = ctx.clone();
    let r = distribute_rewards(&mut ctx, vec![winner(10, 0)], vec![insider(20, 5_000)], 1);
    assert_eq!(r, Err(CustomError::NoPoints));
    assert_eq!(ctx, before);
    let r = distribute_rewards(&mut ctx, vec![winner(10, 0)], vec![], 1);
    assert_eq!(r, Err(CustomError::NoPoints));
    let r = distribute_rewards(&mut ctx, vec![], vec![insider(20, 5_000)], 1);
    assert_eq!(r, Err(CustomError::NoPoints));
    assert_eq!(ctx, before);
}

#[test]
fn distribute_rewards_no_points_comes_before_missing_accounts() {
    let mut ctx = context(100, 10_000, vec![]);
    let r = distribute_rewards(&mut ctx, vec![winner(10, 0)], vec![insider(20, 5_000)], 1);
    assert_eq!(r, Err(CustomError::NoPoints));
}

#[test]
fn distribute_rewards_insiders_over_all_shares_are_invalid() {
    let mut ctx = context(1_000, 5_000, vec![handle(10, 0), handle(20, 0), handle(30, 0)]);
    let before = ctx.clone();
    let r = distribute_rewards(
        &mut ctx,
        vec![winner(10, 1)],
        vec![insider(20, 10_000), insider(30, 1)],
        1,
    );
    assert_eq!(r, Err(CustomError::InvalidInsiderShares));
    assert_eq!(ctx, before);
}

#[test]
fn distribute_rewards_insiders_with_all_shares_are_valid() {
    let mut ctx = context(1_000, 5_000, vec![handle(10, 0), handle(20, 0), handle(30, 0)]);
    let r = distribute_rewards(
        &mut ctx,
        vec![winner(10, 1)],
        vec![insider(20, 9_999), insider(30, 1)],
        8,
    );
    assert_eq!(
        r,
        Ok(DistributionOutcome {
            distributed_to_winners: 500,
            distributed_to_insiders: 499,
            payouts: vec![500, 499, 0],
            event: DistributedRewardsEvent { distributed_reward_pool: 500, ts: 8 },
        })
    );
    assert_eq!(ctx.remaining_accounts, vec![handle(10, 500), handle(20, 499), handle(30, 0)]);
    assert_eq!(ctx.treasury.lamports, 1);
}

#[test]
fn distribute_rewards_one_and_three_points_of_a_pool_of_100() {
    let mut ctx = context(100, 10_000, vec![handle(10, 7), handle(11, 0), handle(20, 3)]);
    let r = distribute_rewards(
        &mut ctx,
        vec![winner(10, 1), winner(11, 3)],
        vec![insider(20, 10_000)],
        55,
    );
    assert_eq!(
        r,
        Ok(DistributionOutcome {
            distributed_to_winners: 100,
            distributed_to_insiders: 0,
            payouts: vec![25, 75],
            event: DistributedRewardsEvent { distributed_reward_pool: 100, ts: 55 },
        })
    );
    assert_eq!(ctx.remaining_accounts, vec![handle(10, 32), handle(11, 75), handle(20, 3)]);
    assert_eq!(ctx.treasury, Treasury { bump: 255, lamports: 0 });
}

#[test]
fn distribute_rewards_ends_after_winners_even_with_a_wrong_insider_handle() {
    let mut ctx = context(100, 10_000, vec![handle(10, 0), handle(11, 0), handle(99, 3)]);
    let r = distribute_rewards(
        &mut ctx,
        vec![winner(10, 1), winner(11, 3)],
        vec![insider(20, 10_001)],
        55,
    );
    assert_eq!(
        r,
        Ok(DistributionOutcome {
            distributed_to_winners: 100,
            distributed_to_insiders: 0,
            payouts: vec![25, 75],
            event: DistributedRewardsEvent { distributed_reward_pool: 100, ts: 55 },
        })
    );
}

#[test]
fn distribute_rewards_wrong_first_handle_is_unauthorized() {
    let mut ctx = context(100, 10_000, vec![handle(66, 0), handle(11, 0)]);
    let before = ctx.clone();
    let r = distribute_rewards(&mut ctx, vec![winner(10, 1), winner(11, 3)], vec![], 55);
    assert_eq!(r, Err(CustomError::Unauthorized));
    assert_eq!(ctx, before);
}

#[test]
fn distribute_rewards_wrong_later_handle_undoes_earlier_payouts() {
    let mut ctx = context(100, 10_000, vec![handle(10, 0), handle(66, 0)]);
    let before = ctx.clone();
    let r = distribute_rewards(&mut ctx, vec![winner(10, 1), winner(11, 3)], vec![], 55);
    assert_eq!(r, Err(CustomError::Unauthorized));
    assert_eq!(ctx, before);
}

#[test]
fn distribute_rewards_skips_a_winner_that_is_owed_nothing() {
    let mut ctx = context(100, 10_000, vec![handle(66, 4), handle(11, 0)]);
    let r = distribute_rewards(&mut ctx, vec![winner(10, 0), winner(11, 3)], vec![], 55);
    assert_eq!(
        r,
        Ok(DistributionOutcome {
            distributed_to_winners: 100,
            distributed_to_insiders: 0,
            payouts: vec![0, 100],
            event: DistributedRewardsEvent { distributed_reward_pool: 100, ts: 55 },
        })
    );
    assert_eq!(ctx.remaining_accounts, vec![handle(66, 4), handle(11, 100)]);
}

#[test]
fn distribute_rewards_rejects_another_caller() {
    let mut ctx = context(100, 10_000, vec![handle(10, 0)]);
    ctx.authority = who(2);
    let before = ctx.clone();
    let r = distribute_rewards(&mut ctx, vec![winner(10, 1)], vec![], 55);
    assert_eq!(r, Err(CustomError::Unauthorized));
    assert_eq!(ctx, before);
    let r = distribute_rewards(&mut ctx, vec![winner(10, 0)], vec![], 55);
    assert_eq!(r, Err(CustomError::Unauthorized));
}

#[test]
fn distribute_rewards_with_too_few_handles() {
    let mut ctx = context(100, 10_000, vec![handle(10, 0), handle(20, 0)]);
    let before = ctx.clone();
    let r = distribute_rewards(
        &mut ctx,
        vec![winner(10, 1)],
        vec![insider(20, 10), insider(21, 10)],
        55,
    );
    assert_eq!(r, Err(CustomError::MissingRemainingAccounts));
    assert_eq!(ctx, before);
}

#[test]
fn distribute_rewards_with_spare_handles_leaves_them() {
    let mut ctx = context(1_000, 2_500, vec![handle(10, 1), handle(20, 2), handle(30, 3)]);
    let r = distribute_rewards(&mut ctx, vec![winner(10, 5)], vec![insider(20, 1_000)], 9);
    assert_eq!(
        r,
        Ok(DistributionOutcome {
            distributed_to_winners: 250,
            distributed_to_insiders: 75,
            payouts: vec![250, 75],
            event: DistributedRewardsEvent { distributed_reward_pool: 250, ts: 9 },
        })
    );
    assert_eq!(ctx.remaining_accounts, vec![handle(10, 251), handle(20, 77), handle(30, 3)]);
    assert_eq!(ctx.treasury, Treasury { bump: 255, lamports: 675 });
    assert_eq!(ctx.config, settings(2_500));
}

#[test]
fn distribute_rewards_keeps_the_dust() {
    let mut ctx = context(1_000, 3_333, vec![handle(10, 0), handle(11, 0), handle(12, 0), handle(20, 0), handle(21, 0)]);
    let r = distribute_rewards(
        &mut ctx,
        vec![winner(10, 1), winner(11, 1), winner(12, 1)],
        vec![insider(20, 3_333), insider(21, 3_333)],
        9,
    );
    // pool = floor(1000 * 3333 / 10000) = 333; each winner floor(333 / 3) = 111;
    // remaining = 1000 - 333 = 667; each insider floor(667 * 3333 / 10000) = 222.
    assert_eq!(
        r,
        Ok(DistributionOutcome {
            distributed_to_winners: 333,
            distributed_to_insiders: 444,
            payouts: vec![111, 111, 111, 222, 222],
            event: DistributedRewardsEvent { distributed_reward_pool: 333, ts: 9 },
        })
    );
    assert_eq!(
        ctx.remaining_accounts,
        vec![handle(10, 111), handle(11, 111), handle(12, 111), handle(20, 222), handle(21, 222)]
    );
    assert_eq!(ctx.treasury.lamports, 223);
}

#[test]
fn distribute_rewards_rounds_each_share_down() {
    let mut ctx = context(100, 10_000, vec![handle(10, 0), handle(11, 0), handle(12, 0)]);
    let r = distribute_rewards(
        &mut ctx,
        vec![winner(10, 1), winner(11, 1), winner(12, 1)],
        vec![],
        9,
    );
    assert_eq!(
        r,
        Ok(DistributionOutcome {
            distributed_to_winners: 99,
            distributed_to_insiders: 0,
            payouts: vec![33, 33, 33],
            event: DistributedRewardsEvent { distributed_reward_pool: 99, ts: 9 },
        })
    );
    assert_eq!(ctx.remaining_accounts, vec![handle(10, 33), handle(11, 33), handle(12, 33)]);
    assert_eq!(ctx.treasury.lamports, 1);
}

#[test]
fn distribute_rewards_is_balance_conserving() {
    let mut ctx = context(987_654_321, 7_777, vec![handle(10, 5), handle(11, 6), handle(20, 7), handle(21, 8)]);
    let r = distribute_rewards(
        &mut ctx,
        vec![winner(10, 13), winner(11, 29)],
        vec![insider(20, 1_234), insider(21, 4_321)],
        9,
    );
    let outcome = r.unwrap();
    assert_eq!(
        ctx.treasury.lamports + outcome.distributed_to_winners + outcome.distributed_to_insiders,
        987_654_321
    );
    let pool: u64 = 987_654_321u64 * 7_777 / 10_000;
    let first = (pool as u128 * 13 / 42) as u64;
    let second = (pool as u128 * 29 / 42) as u64;
    assert_eq!(outcome.distributed_to_winners, first + second);
    let remaining = 987_654_321 - first - second;
    let third = (remaining as u128 * 1_234 / 10_000) as u64;
    let fourth = (remaining as u128 * 4_321 / 10_000) as u64;
    assert_eq!(outcome.distributed_to_insiders, third + fourth);
    assert_eq!(outcome.payouts, vec![first, second, third, fourth]);
    assert_eq!(
        ctx.remaining_accounts,
        vec![handle(10, 5 + first), handle(11, 6 + second), handle(20, 7 + third), handle(21, 8 + fourth)]
    );
}

#[test]
fn distribute_rewards_wrong_insider_handle_is_unauthorized() {
    let mut ctx = context(1_000, 5_000, vec![handle(10, 0), handle(66, 0)]);
    let before = ctx.clone();
    let r = distribute_rewards(&mut ctx, vec![winner(10, 1)], vec![insider(20, 1_000)], 9);
    assert_eq!(r, Err(CustomError::Unauthorized));
    assert_eq!(ctx, before);
}

#[test]
fn distribute_rewards_skips_an_insider_that_is_owed_nothing() {
    let mut ctx = context(1_000, 5_000, vec![handle(10, 0), handle(66, 0), handle(21, 0)]);
    let r = distribute_rewards(
        &mut ctx,
        vec![winner(10, 1)],
        vec![insider(20, 0), insider(21, 10)],
        9,
    );
    // remaining = 500; insider 20 is owed 0 and its handle is not looked at;
    // insider 21 is owed floor(500 * 10 / 10000) = 0 as well.
    assert_eq!(
        r,
        Ok(DistributionOutcome {
            distributed_to_winners: 500,
            distributed_to_insiders: 0,
            payouts: vec![500, 0, 0],
            event: DistributedRewardsEvent { distributed_reward_pool: 500, ts: 9 },
        })
    );
    assert_eq!(ctx.remaining_accounts, vec![handle(10, 500), handle(66, 0), handle(21, 0)]);
}

#[test]
fn distribute_rewards_pool_over_the_balance_runs_out_of_funds() {
    let mut ctx = context(100, 20_000, vec![handle(10, 0), handle(11, 0)]);
    let before = ctx.clone();
    // pool = 200; the first winner is owed 100, the second 100 more than is left.
    let r = distribute_rewards(&mut ctx, vec![winner(10, 1), winner(11, 1)], vec![], 9);
    assert_eq!(r, Err(CustomError::InsufficientFunds));
    assert_eq!(ctx, before);
}

#[test]
fn distribute_rewards_credit_overflow_is_math_overflow() {
    let mut ctx = context(100, 10_000, vec![handle(10, u64::MAX - 99)]);
    let before = ctx.clone();
    let r = distribute_rewards(&mut ctx, vec![winner(10, 1)], vec![], 9);
    assert_eq!(r, Err(CustomError::MathOverflow));
    assert_eq!(ctx, before);
    ctx.remaining_accounts[0].lamports = u64::MAX - 100;
    let r = distribute_rewards(&mut ctx, vec![winner(10, 1)], vec![], 9);
    assert!(r.is_ok());
    assert_eq!(ctx.remaining_accounts[0].lamports, u64::MAX);
}

#[test]
fn distribute_rewards_wide_product_overflow_is_math_overflow() {
    let mut ctx = context(u64::MAX, u16::MAX, vec![handle(10, 0), handle(11, 0)]);
    let before = ctx.clone();
    let r = distribute_rewards(
        &mut ctx,
        vec![winner(10, u64::MAX), winner(11, u64::MAX)],
        vec![],
        9,
    );
    assert_eq!(r, Err(CustomError::MathOverflow));
    assert_eq!(ctx, before);
}

#[test]
fn distribute_rewards_with_an_empty_treasury_pays_nothing() {
    let mut ctx = context(0, 10_000, vec![handle(66, 1), handle(67, 2)]);
    let before = ctx.clone();
    let r = distribute_rewards(&mut ctx, vec![winner(10, 1)], vec![insider(20, 10_001)], 9);
    assert_eq!(
        r,
        Ok(DistributionOutcome {
            distributed_to_winners: 0,
            distributed_to_insiders: 0,
            payouts: vec![0],
            event: DistributedRewardsEvent { distributed_reward_pool: 0, ts: 9 },
        })
    );
    assert_eq!(ctx, before);
}

#[test]
fn distribute_rewards_share_over_64_bits_is_math_overflow() {
    let mut ctx = context(u64::MAX, u16::MAX, vec![handle(10, 0)]);
    let before = ctx.clone();
    // pool = floor(u64::MAX * 65535 / 10000), more than 64 bits hold.
    let r = distribute_rewards(&mut ctx, vec![winner(10, 1)], vec![], 9);
    assert_eq!(r, Err(CustomError::MathOverflow));
    assert_eq!(ctx, before);
}

#[test]
fn distribute_rewards_identity_is_checked_before_the_size_of_the_share() {
    let mut ctx = context(u64::MAX, u16::MAX, vec![handle(66, 0)]);
    let r = distribute_rewards(&mut ctx, vec![winner(10, 1)], vec![], 9);
    assert_eq!(r, Err(CustomError::Unauthorized));
}

#[test]
fn distribute_rewards_insider_credit_overflow_is_math_overflow() {
    let mut ctx = context(1_000, 5_000, vec![handle(10, 0), handle(20, u64::MAX - 49)]);
    let before = ctx.clone();
    // remaining = 500; the insider is owed floor(500 * 1000 / 10000) = 50.
    let r = distribute_rewards(&mut ctx, vec![winner(10, 1)], vec![insider(20, 1_000)], 9);
    assert_eq!(r, Err(CustomError::MathOverflow));
    assert_eq!(ctx, before);
}

#[test]
fn distribute_rewards_credits_each_position_of_one_account() {
    let mut ctx = context(1_000, 5_000, vec![handle(10, 7), handle(10, 7)]);
    let r = distribute_rewards(&mut ctx, vec![winner(10, 1)], vec![insider(10, 2_000)], 9);
    assert_eq!(
        r,
        Ok(DistributionOutcome {
            distributed_to_winners: 500,
            distributed_to_insiders: 100,
            payouts: vec![500, 100],
            event: DistributedRewardsEvent { distributed_reward_pool: 500, ts: 9 },
        })
    );
    assert_eq!(ctx.remaining_accounts, vec![handle(10, 507), handle(10, 107)]);
    assert_eq!(ctx.treasury.lamports, 400);
}

#[test]
fn distribute_rewards_with_all_shares_to_one_insider_empties_the_treasury() {
    let mut ctx = context(1_000, 0, vec![handle(10, 0), handle(20, 0)]);
    let r = distribute_rewards(&mut ctx, vec![winner(10, 1)], vec![insider(20, 10_000)], 9);
    assert_eq!(
        r,
        Ok(DistributionOutcome {
            distributed_to_winners: 0,
            distributed_to_insiders: 1_000,
            payouts: vec![0, 1_000],
            event: DistributedRewardsEvent { distributed_reward_pool: 0, ts: 9 },
        })
    );
    assert_eq!(ctx.remaining_accounts, vec![handle(10, 0), handle(20, 1_000)]);
    assert_eq!(ctx.treasury.lamports, 0);
}
