//! Per-asset pools.
//!
//! A bank is the pool for one asset within a group. It tracks total deposit
//! and liability shares, the share values that convert shares to amounts,
//! risk weights for the two regimes, a deposit capacity, an oracle binding,
//! and the token balances of its three vaults (liquidity, insurance, fee).

use vstd::prelude::*;
use crate::fp::{Fp, fp_limit, fp_mul_floor, fp_mul_ceil, fp_div_floor, fp_div_ceil, FP_SCALE};

verus! {

/// Risk and capacity configuration of a bank.
///
/// By convention deposit weights lie in `[0, 1]` (haircuts) and liability
/// weights in `[1, oo)` (markups), but any non-negative weight is accepted.
/// The oracle binding is modelled by the price it currently yields; `None`
/// means the price is unavailable and risk evaluation fails.
#[derive(Clone, Copy, Debug, PartialEq, Eq, Structural)]
pub struct BankConfig {
    pub deposit_weight_init: Fp,
    pub deposit_weight_maint: Fp,
    pub liability_weight_init: Fp,
    pub liability_weight_maint: Fp,
    /// Maximum total deposits, as a native token amount.
    pub max_capacity: u64,
    /// Price of one token of the asset, from the oracle adapter.
    pub oracle_price: Option<Fp>,
}

/// A per-asset pool within a group, identified by `(group, asset_mint)`.
#[derive(Clone, Copy, Debug, PartialEq, Eq, Structural)]
pub struct Bank {
    pub group: usize,
    pub asset_mint: u64,
    /// Scaling factor: amount = shares x share value. Initialized to one;
    /// evolves only through interest accrual, which is out of scope here.
    pub deposit_share_value: Fp,
    pub liability_share_value: Fp,
    pub total_deposit_shares: Fp,
    pub total_liability_shares: Fp,
    pub config: BankConfig,
    /// Token balance of the liquidity vault escrow.
    pub liquidity_vault: u64,
    /// Token balance of the insurance vault escrow.
    pub insurance_vault: u64,
    /// Token balance of the fee vault escrow.
    pub fee_vault: u64,
}

impl Bank {
    /// Well-formedness: share values are positive, and the bank's total
    /// deposits translate to no more than its capacity.
    pub open spec fn wf(self) -> bool {
        &&& self.deposit_share_value.raw > 0
        &&& self.liability_share_value.raw > 0
        &&& fp_mul_floor(self.total_deposit_shares.raw as int, self.deposit_share_value.raw as int)
            <= self.config.max_capacity * FP_SCALE
    }

    /// Shares issued for a deposited amount, rounded down (the depositor
    /// never receives more shares than the amount is worth).
    pub fn get_deposit_shares(&self, amount: Fp) -> (r: Option<Fp>)
        requires
            self.deposit_share_value.raw > 0,
        ensures
            fp_div_floor(amount.raw as int, self.deposit_share_value.raw as int) < fp_limit()
                ==> r == Some(Fp {
                    raw: fp_div_floor(amount.raw as int, self.deposit_share_value.raw as int) as u128,
                }),
            fp_div_floor(amount.raw as int, self.deposit_share_value.raw as int) >= fp_limit()
                ==> r is None,
    {
        amount.checked_div(self.deposit_share_value)
    }

    /// Amount a number of deposit shares is worth, rounded down (the
    /// depositor never withdraws more than the shares are worth).
    pub fn get_deposit_amount(&self, shares: Fp) -> (r: Option<Fp>)
        ensures
            fp_mul_floor(shares.raw as int, self.deposit_share_value.raw as int) < fp_limit()
                ==> r == Some(Fp {
                    raw: fp_mul_floor(shares.raw as int, self.deposit_share_value.raw as int) as u128,
                }),
            fp_mul_floor(shares.raw as int, self.deposit_share_value.raw as int) >= fp_limit()
                ==> r is None,
    {
        shares.checked_mul(self.deposit_share_value)
    }

    /// Shares issued for a borrowed amount, rounded up (the shares issued
    /// to a borrower never under-count the owed amount).
    pub fn get_liability_shares(&self, amount: Fp) -> (r: Option<Fp>)
        requires
            self.liability_share_value.raw > 0,
        ensures
            fp_div_ceil(amount.raw as int, self.liability_share_value.raw as int) < fp_limit()
                ==> r == Some(Fp {
                    raw: fp_div_ceil(amount.raw as int, self.liability_share_value.raw as int) as u128,
                }),
            fp_div_ceil(amount.raw as int, self.liability_share_value.raw as int) >= fp_limit()
                ==> r is None,
    {
        amount.checked_div_ceil(self.liability_share_value)
    }

    /// Amount a number of liability shares is owed, rounded up (the owed
    /// amount is never under-counted).
    pub fn get_liability_amount(&self, shares: Fp) -> (r: Option<Fp>)
        ensures
            fp_mul_ceil(shares.raw as int, self.liability_share_value.raw as int) < fp_limit()
                ==> r == Some(Fp {
                    raw: fp_mul_ceil(shares.raw as int, self.liability_share_value.raw as int) as u128,
                }),
            fp_mul_ceil(shares.raw as int, self.liability_share_value.raw as int) >= fp_limit()
                ==> r is None,
    {
        shares.checked_mul_ceil(self.liability_share_value)
    }
}

/// Index of the bank for `(group, asset)`, if any. Bank identities are
/// unique, so the first match is the only one.
pub open spec fn find_bank(banks: Seq<Bank>, group: usize, asset: u64) -> Option<int>
    decreases banks.len(),
{
    if banks.len() <= 0 {
        None
    } else if banks[0].group == group && banks[0].asset_mint == asset {
        Some(0)
    } else {
        match find_bank(banks.drop_first(), group, asset) {
            Some(i) => Some(i + 1),
            None => None,
        }
    }
}

/// What `find_bank` finds: the first bank with the given identity, with no
/// earlier match; `None` means no such bank exists.
pub proof fn lemma_find_bank_spec(banks: Seq<Bank>, group: usize, asset: u64)
    ensures
        match find_bank(banks, group, asset) {
            Some(i) => 0 <= i < banks.len() && banks[i].group == group
                && banks[i].asset_mint == asset
                && (forall|k: int| 0 <= k < i
                    ==> !((#[trigger] banks[k]).group == group && banks[k].asset_mint == asset)),
            None => forall|k: int| 0 <= k < banks.len()
                ==> !((#[trigger] banks[k]).group == group && banks[k].asset_mint == asset),
        },
    decreases banks.len(),
{
    if banks.len() > 0 && !(banks[0].group == group && banks[0].asset_mint == asset) {
        lemma_find_bank_spec(banks.drop_first(), group, asset);
        match find_bank(banks.drop_first(), group, asset) {
            Some(i) => {
                assert(banks.drop_first()[i] == banks[i + 1]);
                assert forall|k: int| 0 <= k < i + 1 implies !((#[trigger] banks[k]).group == group
                    && banks[k].asset_mint == asset) by {
                    if k > 0 {
                        assert(banks.drop_first()[k - 1] == banks[k]);
                    }
                }
            },
            None => {
                assert forall|k: int| 0 <= k < banks.len() implies !((#[trigger] banks[k]).group
                    == group && banks[k].asset_mint == asset) by {
                    if k > 0 {
                        assert(banks.drop_first()[k - 1] == banks[k]);
                    }
                }
            },
        }
    }
}

/// Replacing a bank by one with the same identity does not change any
/// lookup.
pub proof fn lemma_find_bank_update_same_identity(
    banks: Seq<Bank>,
    i: int,
    b: Bank,
    group: usize,
    asset: u64,
)
    requires
        0 <= i < banks.len(),
        banks[i].group == b.group,
        banks[i].asset_mint == b.asset_mint,
    ensures
        find_bank(banks.update(i, b), group, asset) == find_bank(banks, group, asset),
    decreases banks.len(),
{
    let upd = banks.update(i, b);
    if banks.len() > 0 {
        if i == 0 {
            if !(banks[0].group == group && banks[0].asset_mint == asset) {
                assert(upd.drop_first() =~= banks.drop_first());
            }
        } else {
            assert(upd.drop_first() =~= banks.drop_first().update(i - 1, b));
            lemma_find_bank_update_same_identity(banks.drop_first(), i - 1, b, group, asset);
        }
    }
}

/// Appending a bank leaves every lookup that already succeeded unchanged.
pub proof fn lemma_find_bank_push_preserves(banks: Seq<Bank>, b: Bank, group: usize, asset: u64)
    requires
        find_bank(banks, group, asset) is Some,
    ensures
        find_bank(banks.push(b), group, asset) == find_bank(banks, group, asset),
    decreases banks.len(),
{
    let ext = banks.push(b);
    assert(banks.len() > 0);
    if !(banks[0].group == group && banks[0].asset_mint == asset) {
        assert(ext.drop_first() =~= banks.drop_first().push(b));
        lemma_find_bank_push_preserves(banks.drop_first(), b, group, asset);
    }
}

/// Finds the bank for `(group, asset)` in a bank store.
pub fn find_bank_idx(banks: &Vec<Bank>, group: usize, asset: u64) -> (r: Option<usize>)
    ensures
        match r {
            Some(u) => find_bank(banks@, group, asset) == Some(u as int),
            None => find_bank(banks@, group, asset) is None,
        },
{
    proof {
        lemma_find_bank_spec(banks@, group, asset);
    }
    let n = banks.len();
    let mut i: usize = 0;
    while i < n
        invariant
            n == banks@.len(),
            i <= n,
            forall|k: int| 0 <= k < i
                ==> !((#[trigger] banks@[k]).group == group && banks@[k].asset_mint == asset),
        decreases n - i,
    {
        if banks[i].group == group && banks[i].asset_mint == asset {
            proof {
                lemma_find_bank_spec(banks@, group, asset);
                assert(banks@[i as int].group == group && banks@[i as int].asset_mint == asset);
            }
            return Some(i);
        }
        i += 1;
    }
    None
}

} // verus!
