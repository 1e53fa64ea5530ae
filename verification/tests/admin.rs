use anchor_lang::prelude::Pubkey;
use embedded::address::Address;
use embedded::admin::{
    initialize_config, initialize_treasury_bump, try_initialize_treasury_bump, update_config,
    InitializeConfig, InitializeConfigBumps, InitializeTreasuryBump, UpdateConfig,
};
use embedded::error::CustomError;
use embedded::state::{Config, Treasury, UpdateConfigParams};

fn admin_key(tag: u8) -> Address {
    Address::new([tag; 32])
}

fn blank_config() -> Config {
    Config {
        authority: admin_key(0),
        casual_bet: 0,
        casual_fee_bps: 0,
        betting_fee_bps: 0,
        winners_mode_is_percentage: false,
        winners_value: 0,
        reward_percentage_bps: 0,
        bump: 0,
    }
}

fn set_config() -> Config {
    Config {
        authority: admin_key(1),
        casual_bet: 5_000,
        casual_fee_bps: 250,
        betting_fee_bps: 500,
        winners_mode_is_percentage: true,
        winners_value: 40,
        reward_percentage_bps: 8_000,
        bump: 253,
    }
}

#[test]
fn config_and_treasury_sizes() {
    assert_eq!(Config::MAX_SIZE, 50);
    assert_eq!(Treasury::MAX_SIZE, 1);
}

#[test]
fn initialize_config_records_every_setting() {
    let mut ctx = InitializeConfig {
        config: blank_config(),
        treasury: Treasury { bump: 0, lamports: 890_880 },
        authority: admin_key(1),
        bumps: InitializeConfigBumps { config: 253, treasury: 251 },
    };
    assert_eq!(initialize_config(&mut ctx, 5_000, 250, 500, true, 40, 8_000), Ok(()));
    assert_eq!(ctx.config, set_config());
    assert_eq!(ctx.treasury, Treasury { bump: 251, lamports: 890_880 });
    assert_eq!(ctx.authority, admin_key(1));
    assert_eq!(ctx.bumps, InitializeConfigBumps { config: 253, treasury: 251 });
}

#[test]
fn update_config_changes_only_the_named_settings() {
    let mut ctx = UpdateConfig { config: set_config(), authority: admin_key(1) };
    let params = UpdateConfigParams {
        casual_fee_bps: Some(300),
        betting_fee_bps: None,
        winners_mode_is_percentage: Some(false),
        winners_value: None,
        reward_percentage_bps: Some(9_000),
    };
    assert_eq!(update_config(&mut ctx, params), Ok(()));
    let mut expected = set_config();
    expected.casual_fee_bps = 300;
    expected.winners_mode_is_percentage = false;
    expected.reward_percentage_bps = 9_000;
    assert_eq!(ctx.config, expected);
}

#[test]
fn update_config_with_every_setting_named() {
    let mut ctx = UpdateConfig { config: set_config(), authority: admin_key(1) };
    let params = UpdateConfigParams {
        casual_fee_bps: Some(1),
        betting_fee_bps: Some(2),
        winners_mode_is_percentage: Some(false),
        winners_value: Some(3),
        reward_percentage_bps: Some(4),
    };
    assert_eq!(update_config(&mut ctx, params), Ok(()));
    let expected = Config {
        authority: admin_key(1),
        casual_bet: 5_000,
        casual_fee_bps: 1,
        betting_fee_bps: 2,
        winners_mode_is_percentage: false,
        winners_value: 3,
        reward_percentage_bps: 4,
        bump: 253,
    };
    assert_eq!(ctx.config, expected);
}

#[test]
fn update_config_with_nothing_named_changes_nothing() {
    let mut ctx = UpdateConfig { config: set_config(), authority: admin_key(1) };
    let params = UpdateConfigParams {
        casual_fee_bps: None,
        betting_fee_bps: None,
        winners_mode_is_percentage: None,
        winners_value: None,
        reward_percentage_bps: None,
    };
    assert_eq!(update_config(&mut ctx, params), Ok(()));
    assert_eq!(ctx.config, set_config());
}

#[test]
fn update_config_rejects_another_caller() {
    let mut ctx = UpdateConfig { config: set_config(), authority: admin_key(2) };
    let params = UpdateConfigParams {
        casual_fee_bps: Some(300),
        betting_fee_bps: Some(1),
        winners_mode_is_percentage: Some(false),
        winners_value: Some(1),
        reward_percentage_bps: Some(9_000),
    };
    assert_eq!(update_config(&mut ctx, params), Err(CustomError::Unauthorized));
    assert_eq!(ctx.config, set_config());
}

#[test]
fn initialize_treasury_bump_records_the_derived_bump() {
    let program = [11u8; 32];
    let (_, expected) = Pubkey::find_program_address(&[b"treasury"], &Pubkey::new_from_array(program));
    let mut ctx = InitializeTreasuryBump {
        config: set_config(),
        treasury: Treasury { bump: expected.wrapping_add(1), lamports: 77 },
        authority: admin_key(1),
        program_id: Address::new(program),
    };
    assert_eq!(initialize_treasury_bump(&mut ctx), Ok(()));
    assert_eq!(ctx.treasury, Treasury { bump: expected, lamports: 77 });
    assert_eq!(ctx.config, set_config());
}

#[test]
fn try_initialize_treasury_bump_records_the_derived_bump() {
    for tag in [0u8, 1, 2, 3, 200] {
        let mut program = [tag; 32];
        program[5] = 99;
        let (_, expected) =
            Pubkey::find_program_address(&[b"treasury"], &Pubkey::new_from_array(program));
        let mut ctx = InitializeTreasuryBump {
            config: set_config(),
            treasury: Treasury { bump: expected.wrapping_add(1), lamports: 77 },
            authority: admin_key(1),
            program_id: Address::new(program),
        };
        assert_eq!(try_initialize_treasury_bump(&mut ctx), Ok(true));
        assert_eq!(ctx.treasury, Treasury { bump: expected, lamports: 77 });
    }
}

#[test]
fn initialize_treasury_bump_rejects_another_caller() {
    let mut ctx = InitializeTreasuryBump {
        config: set_config(),
        treasury: Treasury { bump: 3, lamports: 77 },
        authority: admin_key(2),
        program_id: admin_key(11),
    };
    let before = ctx;
    assert_eq!(initialize_treasury_bump(&mut ctx), Err(CustomError::Unauthorized));
    assert_eq!(ctx, before);
    assert_eq!(try_initialize_treasury_bump(&mut ctx), Err(CustomError::Unauthorized));
    assert_eq!(ctx, before);
}
