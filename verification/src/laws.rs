//! Ledger-wide laws.
//!
//! Public proofs of the properties the ledger promises across instructions:
//! share/amount round trips, deposit monotonicity, capacity, health on
//! exit, slot exclusivity, and solvency conservation. Each law is stated
//! over the same spec functions the instruction contracts use.

use vstd::prelude::*;
use crate::fp::{FP_SCALE, fp_mul_floor, fp_mul_ceil, fp_div_floor, fp_div_ceil,
    lemma_share_amount_round_trip, lemma_liability_round_trip};
use crate::bank::{Bank, find_bank};
use crate::account::{slot_balance, find_balance, shares_of};
use crate::ledger::{Ledger, spec_bank_deposit, spec_bank_withdraw, spec_liquidate,
    accounts_shares_sum};
use crate::risk::{RiskRequirementType, spec_healthy};
use crate::errors::MarginfiError;

verus! {

/// Share/amount round trip. Converting deposit shares to an amount and
/// that amount back to shares never yields more shares than first held;
/// converting liability shares to an owed amount and that amount back to
/// shares never yields fewer. Rounding always favors the pool.
pub proof fn law_share_amount_round_trip(bank: Bank, s: int)
    requires
        bank.deposit_share_value.raw > 0,
        bank.liability_share_value.raw > 0,
        s >= 0,
    ensures
        fp_div_floor(fp_mul_floor(s, bank.deposit_share_value.raw as int),
            bank.deposit_share_value.raw as int) <= s,
        fp_div_ceil(fp_mul_ceil(s, bank.liability_share_value.raw as int),
            bank.liability_share_value.raw as int) >= s,
{
    lemma_share_amount_round_trip(s, bank.deposit_share_value.raw as int);
    lemma_liability_round_trip(s, bank.liability_share_value.raw as int);
}

/// Deposit monotonicity. A successful deposit into an account holding no
/// liability in the asset strictly increases the account's deposit shares
/// for that asset, whenever the amount is worth at least one share (an
/// amount below the share value can round down to zero new shares).
pub proof fn law_deposit_monotonicity(
    l: Ledger,
    signer: u64,
    account: usize,
    asset_mint: u64,
    amount: u64,
)
    requires
        l.wf(),
        spec_bank_deposit(l, signer, account, asset_mint, amount) is Ok,
        ({
            let bals = l.accounts@[account as int].lending_account.balances@;
            match find_balance(bals, asset_mint) {
                Some(j) => slot_balance(bals[j]).liability_shares.raw == 0,
                None => true,
            }
        }),
        ({
            match find_bank(l.banks@, l.accounts@[account as int].group, asset_mint) {
                Some(bi) => amount * FP_SCALE * FP_SCALE
                    >= l.banks@[bi].deposit_share_value.raw,
                None => false,
            }
        }),
    ensures
        match spec_bank_deposit(l, signer, account, asset_mint, amount) {
            Ok(plan) => plan.new_slot is Some
                && slot_balance(plan.new_slot).deposit_shares.raw > shares_of(
                    l.accounts@[account as int].lending_account.balances@[plan.slot_idx],
                    asset_mint, false),
            Err(_) => false,
        },
{
    let acc = l.accounts@[account as int];
    let bals = acc.lending_account.balances@;
    match find_bank(l.banks@, acc.group, asset_mint) {
        Some(bi) => {
            crate::bank::lemma_find_bank_spec(l.banks@, acc.group, asset_mint);
            assert(l.banks@[bi].wf());
            let v = l.banks@[bi].deposit_share_value.raw as int;
            let a = amount * FP_SCALE;
            vstd::arithmetic::div_mod::lemma_div_by_self(v);
            vstd::arithmetic::div_mod::lemma_div_is_ordered(v, a * FP_SCALE, v);
            assert(fp_div_floor(a, v) >= 1);
            match find_balance(bals, asset_mint) {
                Some(j) => {
                    crate::account::lemma_find_balance_spec(bals, asset_mint);
                },
                None => {
                    crate::account::lemma_find_empty_spec(bals);
                },
            }
        },
        None => {
            assert(false);
        },
    }
}

/// Capacity. In a well-formed ledger no bank's total deposits translate
/// to more than its configured capacity; every instruction preserves
/// well-formedness, so no sequence of deposits can exceed it.
pub proof fn law_capacity(l: Ledger, i: int)
    requires
        l.wf(),
        0 <= i < l.banks@.len(),
    ensures
        fp_mul_floor(l.banks@[i].total_deposit_shares.raw as int,
            l.banks@[i].deposit_share_value.raw as int)
            <= l.banks@[i].config.max_capacity * FP_SCALE,
{
    assert(l.banks@[i].wf());
}

/// Slot exclusivity. In a well-formed ledger no account holds a slot with
/// both deposit and liability shares positive; every instruction preserves
/// well-formedness, so no instruction exit violates it.
pub proof fn law_slot_exclusivity(l: Ledger, i: int, k: int)
    requires
        l.wf(),
        0 <= i < l.accounts@.len(),
        0 <= k < l.accounts@[i].lending_account.balances@.len(),
    ensures
        slot_balance(l.accounts@[i].lending_account.balances@[k]).deposit_shares.raw == 0
            || slot_balance(l.accounts@[i].lending_account.balances@[k]).liability_shares.raw
                == 0,
{
    assert(l.accounts@[i].wf());
}

/// Solvency conservation. In a well-formed ledger each bank's share
/// totals equal the sums of the matching slots across all accounts of its
/// group; every instruction preserves well-formedness.
pub proof fn law_share_conservation(l: Ledger, i: int)
    requires
        l.wf(),
        0 <= i < l.banks@.len(),
    ensures
        l.banks@[i].total_deposit_shares.raw as int == accounts_shares_sum(l.accounts@,
            l.banks@[i].group, l.banks@[i].asset_mint, false),
        l.banks@[i].total_liability_shares.raw as int == accounts_shares_sum(l.accounts@,
            l.banks@[i].group, l.banks@[i].asset_mint, true),
{
    assert(l.bank_conserved(i));
}

/// Health on exit, withdraw. A withdraw or borrow succeeds only if the
/// account is healthy in the initial regime on the resulting balances.
pub proof fn law_withdraw_exits_healthy(
    l: Ledger,
    signer: u64,
    account: usize,
    asset_mint: u64,
    amount: u64,
)
    requires
        spec_bank_withdraw(l, signer, account, asset_mint, amount) is Ok,
    ensures
        match spec_bank_withdraw(l, signer, account, asset_mint, amount) {
            Ok(plan) => spec_healthy(l.banks@, l.accounts@[account as int].group,
                l.accounts@[account as int].lending_account.balances@.update(plan.slot_idx,
                    plan.new_slot), RiskRequirementType::Initial)
                == Ok::<bool, MarginfiError>(true),
            Err(_) => false,
        },
{
}

/// Health on exit, liquidation. A liquidation succeeds only if both the
/// liquidator and the liquidatee are healthy in the initial regime on the
/// resulting balances: the liquidator may not end under-collateralized,
/// and the liquidatee must be brought back without over-shooting.
pub proof fn law_liquidate_exits_healthy(
    l: Ledger,
    signer: u64,
    liquidator: usize,
    liquidatee: usize,
    asset_collateral: u64,
    amount: u64,
    asset_liability: u64,
)
    requires
        spec_liquidate(l, signer, liquidator, liquidatee, asset_collateral, amount,
            asset_liability) is Ok,
    ensures
        match spec_liquidate(l, signer, liquidator, liquidatee, asset_collateral, amount,
            asset_liability) {
            Ok(plan) => spec_healthy(l.banks@, l.accounts@[liquidator as int].group,
                l.accounts@[liquidator as int].lending_account.balances@.update(plan.or_c_idx,
                    plan.or_c_new).update(plan.or_l_idx, plan.or_l_new),
                RiskRequirementType::Initial) == Ok::<bool, MarginfiError>(true)
                && spec_healthy(l.banks@, l.accounts@[liquidatee as int].group,
                    l.accounts@[liquidatee as int].lending_account.balances@.update(
                        plan.ee_c_idx, plan.ee_c_new).update(plan.ee_l_idx, plan.ee_l_new),
                    RiskRequirementType::Initial) == Ok::<bool, MarginfiError>(true),
            Err(_) => false,
        },
{
}

/// Vault monotonicity, deposits and withdrawals: neither instruction ever
/// touches the insurance or fee vault of any bank.
pub proof fn law_vaults_untouched_by_user_flows(
    l: Ledger,
    signer: u64,
    account: usize,
    asset_mint: u64,
    amount: u64,
)
    ensures
        match spec_bank_deposit(l, signer, account, asset_mint, amount) {
            Ok(plan) => plan.new_bank.insurance_vault
                == l.banks@[plan.bank_idx].insurance_vault
                && plan.new_bank.fee_vault == l.banks@[plan.bank_idx].fee_vault,
            Err(_) => true,
        },
        match spec_bank_withdraw(l, signer, account, asset_mint, amount) {
            Ok(plan) => plan.new_bank.insurance_vault
                == l.banks@[plan.bank_idx].insurance_vault
                && plan.new_bank.fee_vault == l.banks@[plan.bank_idx].fee_vault,
            Err(_) => true,
        },
{
}

/// Vault monotonicity, liquidation: the insurance vault only grows (by
/// the skim, taken token for token from the liquidity vault) and the fee
/// vault never changes.
pub proof fn law_insurance_vault_never_decreases(
    l: Ledger,
    signer: u64,
    liquidator: usize,
    liquidatee: usize,
    asset_collateral: u64,
    amount: u64,
    asset_liability: u64,
)
    ensures
        match spec_liquidate(l, signer, liquidator, liquidatee, asset_collateral, amount,
            asset_liability) {
            Ok(plan) => plan.new_bank_l.insurance_vault
                >= l.banks@[plan.bank_l_idx].insurance_vault
                && plan.new_bank_l.fee_vault == l.banks@[plan.bank_l_idx].fee_vault
                && plan.new_bank_l.insurance_vault - l.banks@[plan.bank_l_idx].insurance_vault
                    == l.banks@[plan.bank_l_idx].liquidity_vault
                        - plan.new_bank_l.liquidity_vault,
            Err(_) => true,
        },
{
}

/// Liquidation only fires on unhealthy accounts: a successful liquidation
/// implies the liquidatee was not healthy in the maintenance regime
/// beforehand.
pub proof fn law_liquidate_requires_unhealthy(
    l: Ledger,
    signer: u64,
    liquidator: usize,
    liquidatee: usize,
    asset_collateral: u64,
    amount: u64,
    asset_liability: u64,
)
    requires
        spec_liquidate(l, signer, liquidator, liquidatee, asset_collateral, amount,
            asset_liability) is Ok,
    ensures
        spec_healthy(l.banks@, l.accounts@[liquidatee as int].group,
            l.accounts@[liquidatee as int].lending_account.balances@,
            RiskRequirementType::Maintenance) == Ok::<bool, MarginfiError>(false),
{
}

} // verus!
