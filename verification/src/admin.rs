//! Creation and change of the settings, and the treasury's bump seed.

use vstd::prelude::*;
use crate::address::{program_address, try_find_program_address, Address};
use crate::authorization::{authorization, authorize, is_authority};
use crate::error::CustomError;
use crate::state::{Config, Treasury, UpdateConfigParams};

verus! {

/// The bump seeds found for the two derived accounts that are created with
/// the settings.
#[derive(Clone, Copy, Debug, PartialEq, Eq)]
pub struct InitializeConfigBumps {
    pub config: u8,
    pub treasury: u8,
}

/// The accounts with which the settings are created.
#[derive(Clone, Copy, Debug, PartialEq, Eq)]
pub struct InitializeConfig {
    pub config: Config,
    pub treasury: Treasury,
    pub authority: Address,
    pub bumps: InitializeConfigBumps,
}

/// The accounts with which the treasury's bump seed is derived anew, under the
/// program `program_id`.
#[derive(Clone, Copy, Debug, PartialEq, Eq)]
pub struct InitializeTreasuryBump {
    pub config: Config,
    pub treasury: Treasury,
    pub authority: Address,
    pub program_id: Address,
}

/// The accounts with which the settings are changed.
#[derive(Clone, Copy, Debug, PartialEq, Eq)]
pub struct UpdateConfig {
    pub config: Config,
    pub authority: Address,
}

/// The seed of the treasury's derived address: the bytes of `treasury`.
pub open spec fn treasury_seed() -> Seq<u8> {
    seq![116u8, 114u8, 101u8, 97u8, 115u8, 117u8, 114u8, 121u8]
}

/// The bump seed of the treasury's derived address under a program, where one
/// exists.
pub open spec fn treasury_bump(program_id: Address) -> Option<u8> {
    match program_address(treasury_seed(), program_id@) {
        Some((_, bump)) => Some(bump),
        None => None,
    }
}

/// The settings after an update: each field that `new_cfg` names takes the new
/// value, the others keep theirs.
pub open spec fn updated(config: Config, new_cfg: UpdateConfigParams) -> Config {
    Config {
        authority: config.authority,
        casual_bet: config.casual_bet,
        casual_fee_bps: match new_cfg.casual_fee_bps {
            Some(v) => v,
            None => config.casual_fee_bps,
        },
        betting_fee_bps: match new_cfg.betting_fee_bps {
            Some(v) => v,
            None => config.betting_fee_bps,
        },
        winners_mode_is_percentage: match new_cfg.winners_mode_is_percentage {
            Some(v) => v,
            None => config.winners_mode_is_percentage,
        },
        winners_value: match new_cfg.winners_value {
            Some(v) => v,
            None => config.winners_value,
        },
        reward_percentage_bps: match new_cfg.reward_percentage_bps {
            Some(v) => v,
            None => config.reward_percentage_bps,
        },
        bump: config.bump,
    }
}

/// Writes the first settings. The caller becomes the authority, and the two
/// accounts record the bump seeds they were created with.
pub fn initialize_config(
    ctx: &mut InitializeConfig,
    casual_bet_lamports: u64,
    casual_fee_bps: u16,
    betting_fee_bps: u16,
    winners_mode_is_percentage: bool,
    winners_value: u16,
    reward_percentage_bps: u16,
) -> (r: Result<(), CustomError>)
    ensures
        r is Ok,
        final(ctx).config == (Config {
            authority: old(ctx).authority,
            casual_bet: casual_bet_lamports,
            casual_fee_bps,
            betting_fee_bps,
            winners_mode_is_percentage,
            winners_value,
            reward_percentage_bps,
            bump: old(ctx).bumps.config,
        }),
        final(ctx).treasury == (Treasury {
            bump: old(ctx).bumps.treasury,
            lamports: old(ctx).treasury.lamports,
        }),
        final(ctx).authority == old(ctx).authority,
        final(ctx).bumps == old(ctx).bumps,
{
    ctx.config.authority = ctx.authority;
    ctx.config.casual_bet = casual_bet_lamports;
    ctx.config.casual_fee_bps = casual_fee_bps;
    ctx.config.betting_fee_bps = betting_fee_bps;
    ctx.config.winners_mode_is_percentage = winners_mode_is_percentage;
    ctx.config.winners_value = winners_value;
    ctx.config.reward_percentage_bps = reward_percentage_bps;
    ctx.config.bump = ctx.bumps.config;
    ctx.treasury.bump = ctx.bumps.treasury;
    Ok(())
}

/// Derives the treasury's bump seed under the program and records it in the
/// treasury. Only the configured authority may call it, and for its call the
/// program must have a derived address for the treasury's seed.
pub fn initialize_treasury_bump(ctx: &mut InitializeTreasuryBump) -> (r: Result<(), CustomError>)
    requires
        is_authority(old(ctx).config, old(ctx).authority) ==> treasury_bump(old(ctx).program_id)
            is Some,
    ensures
        r == authorization(old(ctx).config, old(ctx).authority),
        r is Err ==> *final(ctx) == *old(ctx),
        r is Ok ==> *final(ctx) == (InitializeTreasuryBump {
            treasury: Treasury {
                bump: treasury_bump(old(ctx).program_id)->Some_0,
                lamports: old(ctx).treasury.lamports,
            },
            ..*old(ctx)
        }),
{
    if let Err(e) = authorize(&ctx.config, &ctx.authority) {
        return Err(e);
    }
    let seed: [u8; 8] = [116, 114, 101, 97, 115, 117, 114, 121];
    assert(seed@ =~= treasury_seed());
    let found = try_find_program_address(seed.as_slice(), &ctx.program_id).unwrap();
    ctx.treasury.bump = found.1;
    Ok(())
}

/// Does what `initialize_treasury_bump` does, for any program: where the
/// program has no derived address for the treasury's seed, an authorized call
/// returns `Ok(false)` and changes nothing.
pub fn try_initialize_treasury_bump(ctx: &mut InitializeTreasuryBump) -> (r: Result<
    bool,
    CustomError,
>)
    ensures
        !is_authority(old(ctx).config, old(ctx).authority) ==> r == Err::<bool, CustomError>(
            CustomError::Unauthorized,
        ) && *final(ctx) == *old(ctx),
        is_authority(old(ctx).config, old(ctx).authority) ==> match treasury_bump(
            old(ctx).program_id,
        ) {
            None => r == Ok::<bool, CustomError>(false) && *final(ctx) == *old(ctx),
            Some(bump) => r == Ok::<bool, CustomError>(true) && *final(ctx) == (
            InitializeTreasuryBump {
                treasury: Treasury { bump, lamports: old(ctx).treasury.lamports },
                ..*old(ctx)
            }),
        },
{
    if let Err(e) = authorize(&ctx.config, &ctx.authority) {
        return Err(e);
    }
    let seed: [u8; 8] = [116, 114, 101, 97, 115, 117, 114, 121];
    assert(seed@ =~= treasury_seed());
    match try_find_program_address(seed.as_slice(), &ctx.program_id) {
        Some(_) => match initialize_treasury_bump(ctx) {
            Ok(_) => Ok(true),
            Err(e) => Err(e),
        },
        None => Ok(false),
    }
}

/// Changes the settings that `new_cfg` names. Only the configured authority
/// may call it.
pub fn update_config(ctx: &mut UpdateConfig, new_cfg: UpdateConfigParams) -> (r: Result<
    (),
    CustomError,
>)
    ensures
        r == authorization(old(ctx).config, old(ctx).authority),
        r is Err ==> *final(ctx) == *old(ctx),
        r is Ok ==> final(ctx).config == updated(old(ctx).config, new_cfg),
        final(ctx).authority == old(ctx).authority,
{
    if let Err(e) = authorize(&ctx.config, &ctx.authority) {
        return Err(e);
    }
    if let Some(cfb) = new_cfg.casual_fee_bps {
        ctx.config.casual_fee_bps = cfb;
    }
    if let Some(bfb) = new_cfg.betting_fee_bps {
        ctx.config.betting_fee_bps = bfb;
    }
    if let Some(wm) = new_cfg.winners_mode_is_percentage {
        ctx.config.winners_mode_is_percentage = wm;
    }
    if let Some(wv) = new_cfg.winners_value {
        ctx.config.winners_value = wv;
    }
    if let Some(rpb) = new_cfg.reward_percentage_bps {
        ctx.config.reward_percentage_bps = rpb;
    }
    Ok(())
}

} // verus!
