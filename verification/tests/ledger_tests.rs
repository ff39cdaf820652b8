use marginfi::account::MAX_BALANCES;
use marginfi::bank::BankConfig;
use marginfi::errors::MarginfiError;
use marginfi::fp::{Fp, FP_SCALE};
use marginfi::ledger::Ledger;

// Test units: USDC has 6 decimals; the SOL-like assets use 7, so that one
// native unit of each asset is worth one native unit of USDC when priced
// at par (1 SOL = 10 USDC).
const UNIT_USDC: u64 = 1_000_000;
const UNIT_SOL: u64 = 10_000_000;

const USDC: u64 = 1;
const SOL: u64 = 2;
const SOL_EQ: u64 = 3;

const ADMIN: u64 = 100;
const USER: u64 = 101;
const WHALE: u64 = 102;
const BORROWER: u64 = 103;

fn one() -> Fp {
    Fp { raw: FP_SCALE }
}

fn half() -> Fp {
    Fp { raw: FP_SCALE / 2 }
}

fn config(dw_init: Fp, dw_maint: Fp, cap: u64) -> BankConfig {
    BankConfig {
        deposit_weight_init: dw_init,
        deposit_weight_maint: dw_maint,
        liability_weight_init: one(),
        liability_weight_maint: one(),
        max_capacity: cap,
        oracle_price: Some(one()),
    }
}

fn usdc_config() -> BankConfig {
    config(one(), one(), u64::MAX)
}

fn deposit_amount(l: &Ledger, account: usize, asset: u64) -> u128 {
    // With share values fixed at one, a share count is its amount.
    for slot in &l.accounts[account].lending_account.balances {
        if let Some(b) = slot {
            if b.asset_mint == asset {
                return b.deposit_shares.raw / FP_SCALE;
            }
        }
    }
    0
}

fn liability_amount(l: &Ledger, account: usize, asset: u64) -> u128 {
    for slot in &l.accounts[account].lending_account.balances {
        if let Some(b) = slot {
            if b.asset_mint == asset {
                return b.liability_shares.raw / FP_SCALE;
            }
        }
    }
    0
}

fn active_slots(l: &Ledger, account: usize) -> usize {
    l.accounts[account].lending_account.balances.iter().filter(|s| s.is_some()).count()
}

fn assert_close(actual: u128, expected: u128, tolerance: u128) {
    let diff = if actual > expected { actual - expected } else { expected - actual };
    assert!(diff <= tolerance, "expected about {expected}, got {actual}");
}

#[test]
fn success_create_marginfi_account() {
    let mut l = Ledger::new();
    let g = l.initialize_group(ADMIN);
    let a = l.initialize_marginfi_account(g, USER).unwrap();
    assert_eq!(l.accounts[a].group, g);
    assert_eq!(l.accounts[a].owner, USER);
    assert_eq!(l.accounts[a].lending_account.balances.len(), MAX_BALANCES);
    assert!(l.accounts[a].lending_account.balances.iter().all(|b| b.is_none()));
}

#[test]
fn success_deposit() {
    let mut l = Ledger::new();
    let g = l.initialize_group(ADMIN);
    let bank = l.lending_pool_add_bank(ADMIN, g, USDC, usdc_config()).unwrap();
    let a = l.initialize_marginfi_account(g, USER).unwrap();
    l.bank_deposit(USER, a, USDC, 1_000 * UNIT_USDC).unwrap();
    assert_eq!(deposit_amount(&l, a, USDC), (1_000 * UNIT_USDC) as u128);
    assert_eq!(active_slots(&l, a), 1);
    assert_eq!(l.banks[bank].total_deposit_shares.raw, (1_000 * UNIT_USDC) as u128 * FP_SCALE);
    assert_eq!(l.banks[bank].liquidity_vault, 1_000 * UNIT_USDC);
}

#[test]
fn failure_deposit_capacity_exceeded() {
    let mut l = Ledger::new();
    let g = l.initialize_group(ADMIN);
    let bank = l.lending_pool_add_bank(ADMIN, g, USDC, config(one(), one(), 100 * UNIT_USDC))
        .unwrap();
    let a = l.initialize_marginfi_account(g, USER).unwrap();
    assert!(l.bank_deposit(USER, a, USDC, 99 * UNIT_USDC).is_ok());
    let before_shares = l.banks[bank].total_deposit_shares.raw;
    let before_vault = l.banks[bank].liquidity_vault;
    let res = l.bank_deposit(USER, a, USDC, 101 * UNIT_USDC);
    assert_eq!(res, Err(MarginfiError::BankDepositCapacityExceeded));
    assert_eq!(l.banks[bank].total_deposit_shares.raw, before_shares);
    assert_eq!(l.banks[bank].liquidity_vault, before_vault);
    assert_eq!(deposit_amount(&l, a, USDC), (99 * UNIT_USDC) as u128);
}

#[test]
fn failure_deposit_bank_not_found() {
    let mut l = Ledger::new();
    let g = l.initialize_group(ADMIN);
    l.lending_pool_add_bank(ADMIN, g, USDC, usdc_config()).unwrap();
    let a = l.initialize_marginfi_account(g, USER).unwrap();
    let res = l.bank_deposit(USER, a, SOL, UNIT_SOL);
    assert_eq!(res, Err(MarginfiError::AccountNotInitialized));
}

#[test]
fn success_borrow() {
    let mut l = Ledger::new();
    let g = l.initialize_group(ADMIN);
    l.lending_pool_add_bank(ADMIN, g, USDC, usdc_config()).unwrap();
    let sol_bank = l.lending_pool_add_bank(ADMIN, g, SOL, config(half(), half(), u64::MAX))
        .unwrap();
    let whale = l.initialize_marginfi_account(g, WHALE).unwrap();
    l.bank_deposit(WHALE, whale, SOL, 1_000_000 * UNIT_SOL).unwrap();
    let a = l.initialize_marginfi_account(g, USER).unwrap();
    l.bank_deposit(USER, a, USDC, 1_000 * UNIT_USDC).unwrap();
    let vault_before = l.banks[sol_bank].liquidity_vault;
    l.bank_withdraw(USER, a, SOL, 2 * UNIT_SOL).unwrap();
    assert_eq!(liability_amount(&l, a, SOL), (2 * UNIT_SOL) as u128);
    assert_eq!(deposit_amount(&l, a, USDC), (1_000 * UNIT_USDC) as u128);
    assert_eq!(l.banks[sol_bank].liquidity_vault, vault_before - 2 * UNIT_SOL);
    // Share conservation: bank totals match the sum over the accounts.
    assert_eq!(l.banks[sol_bank].total_liability_shares.raw,
        (2 * UNIT_SOL) as u128 * FP_SCALE);
    assert_eq!(l.banks[sol_bank].total_deposit_shares.raw,
        (1_000_000 * UNIT_SOL) as u128 * FP_SCALE);
}

#[test]
fn failure_borrow_not_enough_collateral() {
    let mut l = Ledger::new();
    let g = l.initialize_group(ADMIN);
    l.lending_pool_add_bank(ADMIN, g, USDC, usdc_config()).unwrap();
    l.lending_pool_add_bank(ADMIN, g, SOL, config(half(), half(), u64::MAX)).unwrap();
    let whale = l.initialize_marginfi_account(g, WHALE).unwrap();
    l.bank_deposit(WHALE, whale, SOL, 1_000_000 * UNIT_SOL).unwrap();
    let a = l.initialize_marginfi_account(g, USER).unwrap();
    l.bank_deposit(USER, a, USDC, UNIT_USDC).unwrap();
    let res = l.bank_withdraw(USER, a, SOL, UNIT_SOL);
    assert_eq!(res, Err(MarginfiError::BadAccountHealth));
    assert_eq!(liability_amount(&l, a, SOL), 0);
    assert_eq!(deposit_amount(&l, a, USDC), UNIT_USDC as u128);
}

/// Sets up a depositor with 200 USDC and a borrower holding 100 SOL of
/// collateral against a 100 USDC debt, with the SOL maintenance weight at
/// zero so the borrower is immediately liquidatable.
fn liquidation_setup(sol_maint: Fp) -> (Ledger, usize, usize, usize, usize) {
    let mut l = Ledger::new();
    let g = l.initialize_group(ADMIN);
    let usdc_bank = l.lending_pool_add_bank(ADMIN, g, USDC, usdc_config()).unwrap();
    let sol_bank = l.lending_pool_add_bank(ADMIN, g, SOL,
        config(one(), sol_maint, u64::MAX)).unwrap();
    let depositor = l.initialize_marginfi_account(g, USER).unwrap();
    l.bank_deposit(USER, depositor, USDC, 200 * UNIT_USDC).unwrap();
    let borrower = l.initialize_marginfi_account(g, BORROWER).unwrap();
    l.bank_deposit(BORROWER, borrower, SOL, 100 * UNIT_SOL).unwrap();
    l.bank_withdraw(BORROWER, borrower, USDC, 100 * UNIT_USDC).unwrap();
    (l, depositor, borrower, usdc_bank, sol_bank)
}

#[test]
fn liquidation_successful() {
    let (mut l, depositor, borrower, usdc_bank, sol_bank) =
        liquidation_setup(Fp { raw: 0 });
    let usdc_vault_before = l.banks[usdc_bank].liquidity_vault;
    l.liquidate(USER, depositor, borrower, SOL, UNIT_SOL, USDC).unwrap();
    // The insurance skim moved out of the liquidity vault, token for token.
    assert_eq!(usdc_vault_before - l.banks[usdc_bank].liquidity_vault,
        l.banks[usdc_bank].insurance_vault);
    // Depositor seized exactly 1 SOL of collateral.
    assert_eq!(deposit_amount(&l, depositor, SOL), UNIT_SOL as u128);
    // Depositor paid 9.75 USDC (10 USDC of collateral less the 2.5%
    // liquidator bonus), leaving about 190.25 USDC.
    assert_close(deposit_amount(&l, depositor, USDC), (190 * UNIT_USDC + 250_000) as u128, 10);
    // Borrower keeps 99 SOL and owes about 90.50 USDC: 9.5 USDC of debt
    // was retired (the payment less the 2.5% insurance skim).
    assert_eq!(deposit_amount(&l, borrower, SOL), (99 * UNIT_SOL) as u128);
    assert_close(liability_amount(&l, borrower, USDC), (90 * UNIT_USDC + 500_000) as u128, 10);
    // The insurance vault collected about 0.25 USDC.
    assert_close(l.banks[usdc_bank].insurance_vault as u128, 250_000, 1);
    // Slot exclusivity holds everywhere after the liquidation.
    for account in [depositor, borrower] {
        for slot in &l.accounts[account].lending_account.balances {
            if let Some(b) = slot {
                assert!(b.deposit_shares.raw == 0 || b.liability_shares.raw == 0);
            }
        }
    }
    // Share conservation for both banks.
    let sol_dep: u128 = [depositor, borrower].iter()
        .map(|a| deposit_amount(&l, *a, SOL) * FP_SCALE)
        .sum();
    assert_eq!(l.banks[sol_bank].total_deposit_shares.raw, sol_dep);
    let usdc_liab: u128 = {
        let bor = &l.accounts[borrower].lending_account.balances;
        bor.iter()
            .filter_map(|s| s.as_ref())
            .filter(|b| b.asset_mint == USDC)
            .map(|b| b.liability_shares.raw)
            .sum()
    };
    assert_eq!(l.banks[usdc_bank].total_liability_shares.raw, usdc_liab);
}

#[test]
fn liquidation_failed_liquidatee_not_unhealthy() {
    let (mut l, depositor, borrower, _, _) = liquidation_setup(one());
    let res = l.liquidate(USER, depositor, borrower, SOL, UNIT_SOL, USDC);
    assert_eq!(res, Err(MarginfiError::AccountIllegalPostLiquidationState));
}

#[test]
fn liquidation_failed_liquidation_too_severe() {
    let mut l = Ledger::new();
    let g = l.initialize_group(ADMIN);
    l.lending_pool_add_bank(ADMIN, g, USDC, usdc_config()).unwrap();
    l.lending_pool_add_bank(ADMIN, g, SOL, config(one(), half(), u64::MAX)).unwrap();
    let depositor = l.initialize_marginfi_account(g, USER).unwrap();
    l.bank_deposit(USER, depositor, USDC, 200 * UNIT_USDC).unwrap();
    let borrower = l.initialize_marginfi_account(g, BORROWER).unwrap();
    l.bank_deposit(BORROWER, borrower, SOL, 10 * UNIT_SOL).unwrap();
    l.bank_withdraw(BORROWER, borrower, USDC, 60 * UNIT_USDC).unwrap();
    // Seizing all 10 SOL would retire 95 USDC of debt, more than is owed.
    let res = l.liquidate(USER, depositor, borrower, SOL, 10 * UNIT_SOL, USDC);
    assert_eq!(res, Err(MarginfiError::AccountIllegalPostLiquidationState));
    // A 1 SOL liquidation is fine.
    assert!(l.liquidate(USER, depositor, borrower, SOL, UNIT_SOL, USDC).is_ok());
}

#[test]
fn liquidation_failed_liquidator_no_collateral() {
    let mut l = Ledger::new();
    let g = l.initialize_group(ADMIN);
    l.lending_pool_add_bank(ADMIN, g, USDC, usdc_config()).unwrap();
    l.lending_pool_add_bank(ADMIN, g, SOL, config(one(), half(), u64::MAX)).unwrap();
    l.lending_pool_add_bank(ADMIN, g, SOL_EQ, config(one(), one(), u64::MAX)).unwrap();
    let depositor = l.initialize_marginfi_account(g, USER).unwrap();
    l.bank_deposit(USER, depositor, USDC, 200 * UNIT_USDC).unwrap();
    let borrower = l.initialize_marginfi_account(g, BORROWER).unwrap();
    l.bank_deposit(BORROWER, borrower, SOL, 10 * UNIT_SOL).unwrap();
    l.bank_withdraw(BORROWER, borrower, USDC, 60 * UNIT_USDC).unwrap();
    // A liquidator holding no deposits of the liability asset cannot fund
    // the liquidation.
    let broke = l.initialize_marginfi_account(g, WHALE).unwrap();
    l.bank_deposit(WHALE, broke, SOL_EQ, 100 * UNIT_SOL).unwrap();
    let res = l.liquidate(WHALE, broke, borrower, SOL, UNIT_SOL, USDC);
    assert_eq!(res, Err(MarginfiError::BorrowingNotAllowed));
    // One with USDC deposits can.
    assert!(l.liquidate(USER, depositor, borrower, SOL, UNIT_SOL, USDC).is_ok());
}

#[test]
fn deposit_nets_out_liability_first() {
    let mut l = Ledger::new();
    let g = l.initialize_group(ADMIN);
    l.lending_pool_add_bank(ADMIN, g, USDC, usdc_config()).unwrap();
    l.lending_pool_add_bank(ADMIN, g, SOL, config(half(), half(), u64::MAX)).unwrap();
    let whale = l.initialize_marginfi_account(g, WHALE).unwrap();
    l.bank_deposit(WHALE, whale, SOL, 1_000 * UNIT_SOL).unwrap();
    let a = l.initialize_marginfi_account(g, USER).unwrap();
    l.bank_deposit(USER, a, USDC, 1_000 * UNIT_USDC).unwrap();
    l.bank_withdraw(USER, a, SOL, 10 * UNIT_SOL).unwrap();
    assert_eq!(liability_amount(&l, a, SOL), (10 * UNIT_SOL) as u128);
    // Repaying part of the debt reduces the liability.
    l.bank_deposit(USER, a, SOL, 4 * UNIT_SOL).unwrap();
    assert_eq!(liability_amount(&l, a, SOL), (6 * UNIT_SOL) as u128);
    // Paying more than owed flips the slot into a deposit.
    l.bank_deposit(USER, a, SOL, 7 * UNIT_SOL).unwrap();
    assert_eq!(liability_amount(&l, a, SOL), 0);
    assert_eq!(deposit_amount(&l, a, SOL), UNIT_SOL as u128);
}

#[test]
fn deposit_monotonicity_concrete() {
    let mut l = Ledger::new();
    let g = l.initialize_group(ADMIN);
    l.lending_pool_add_bank(ADMIN, g, USDC, usdc_config()).unwrap();
    let a = l.initialize_marginfi_account(g, USER).unwrap();
    let mut last: u128 = 0;
    for _ in 0..3 {
        l.bank_deposit(USER, a, USDC, UNIT_USDC).unwrap();
        let now = deposit_amount(&l, a, USDC);
        assert!(now > last);
        last = now;
    }
}

#[test]
fn withdraw_releases_drained_slot() {
    let mut l = Ledger::new();
    let g = l.initialize_group(ADMIN);
    l.lending_pool_add_bank(ADMIN, g, USDC, usdc_config()).unwrap();
    let a = l.initialize_marginfi_account(g, USER).unwrap();
    l.bank_deposit(USER, a, USDC, 10 * UNIT_USDC).unwrap();
    l.bank_withdraw(USER, a, USDC, 4 * UNIT_USDC).unwrap();
    assert_eq!(deposit_amount(&l, a, USDC), (6 * UNIT_USDC) as u128);
    assert_eq!(active_slots(&l, a), 1);
    l.bank_withdraw(USER, a, USDC, 6 * UNIT_USDC).unwrap();
    assert_eq!(active_slots(&l, a), 0);
}

#[test]
fn balance_table_fills_up() {
    let mut l = Ledger::new();
    let g = l.initialize_group(ADMIN);
    let a = l.initialize_marginfi_account(g, USER).unwrap();
    for asset in 0..MAX_BALANCES as u64 {
        l.lending_pool_add_bank(ADMIN, g, asset + 10, usdc_config()).unwrap();
        l.bank_deposit(USER, a, asset + 10, UNIT_USDC).unwrap();
    }
    l.lending_pool_add_bank(ADMIN, g, 999, usdc_config()).unwrap();
    let res = l.bank_deposit(USER, a, 999, UNIT_USDC);
    assert_eq!(res, Err(MarginfiError::LendingAccountBalanceSlotsFull));
}

#[test]
fn illegal_argument_errors() {
    let mut l = Ledger::new();
    let g = l.initialize_group(ADMIN);
    l.lending_pool_add_bank(ADMIN, g, USDC, usdc_config()).unwrap();
    let a = l.initialize_marginfi_account(g, USER).unwrap();
    // Zero amount.
    assert_eq!(l.bank_deposit(USER, a, USDC, 0), Err(MarginfiError::IllegalArgument));
    // Wrong signer.
    assert_eq!(l.bank_deposit(WHALE, a, USDC, 1), Err(MarginfiError::IllegalArgument));
    // Unauthorized bank creation.
    assert_eq!(l.lending_pool_add_bank(USER, g, SOL, usdc_config()),
        Err(MarginfiError::IllegalArgument));
    // Duplicate bank identity.
    assert_eq!(l.lending_pool_add_bank(ADMIN, g, USDC, usdc_config()),
        Err(MarginfiError::IllegalArgument));
    // Self-liquidation and equal assets.
    let b = l.initialize_marginfi_account(g, BORROWER).unwrap();
    assert_eq!(l.liquidate(USER, a, a, SOL, 1, USDC), Err(MarginfiError::IllegalArgument));
    assert_eq!(l.liquidate(USER, a, b, USDC, 1, USDC), Err(MarginfiError::IllegalArgument));
    // Missing group or account.
    assert_eq!(l.initialize_marginfi_account(7, USER).unwrap_err(),
        MarginfiError::AccountNotInitialized);
    assert_eq!(l.bank_deposit(USER, 9, USDC, 1), Err(MarginfiError::AccountNotInitialized));
}

#[test]
fn oracle_error_blocks_health_checks() {
    let mut l = Ledger::new();
    let g = l.initialize_group(ADMIN);
    let mut cfg = usdc_config();
    cfg.oracle_price = None;
    let bank = l.lending_pool_add_bank(ADMIN, g, USDC, cfg).unwrap();
    let a = l.initialize_marginfi_account(g, USER).unwrap();
    // Deposits need no oracle.
    l.bank_deposit(USER, a, USDC, 10 * UNIT_USDC).unwrap();
    // Withdrawals evaluate health and fail without a price.
    assert_eq!(l.bank_withdraw(USER, a, USDC, UNIT_USDC), Err(MarginfiError::OracleError));
    // Only the group's admin may publish a price.
    assert_eq!(l.set_oracle_price(USER, bank, Some(one())), Err(MarginfiError::IllegalArgument));
    // Once the admin publishes one, the withdrawal passes.
    l.set_oracle_price(ADMIN, bank, Some(one())).unwrap();
    assert!(l.bank_withdraw(USER, a, USDC, UNIT_USDC).is_ok());
}

#[test]
fn withdraw_fails_on_empty_liquidity_vault() {
    let mut l = Ledger::new();
    let g = l.initialize_group(ADMIN);
    l.lending_pool_add_bank(ADMIN, g, USDC, usdc_config()).unwrap();
    l.lending_pool_add_bank(ADMIN, g, SOL, config(half(), half(), u64::MAX)).unwrap();
    let whale = l.initialize_marginfi_account(g, WHALE).unwrap();
    l.bank_deposit(WHALE, whale, SOL, UNIT_SOL).unwrap();
    let a = l.initialize_marginfi_account(g, USER).unwrap();
    l.bank_deposit(USER, a, USDC, 1_000 * UNIT_USDC).unwrap();
    // The SOL vault only holds 1 SOL; borrowing 2 cannot be escrowed.
    assert_eq!(l.bank_withdraw(USER, a, SOL, 2 * UNIT_SOL), Err(MarginfiError::MathError));
}
