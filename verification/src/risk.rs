//! Risk engine.
//!
//! A stateless evaluator: given an account's balance table and the banks of
//! its group, it produces the weighted asset and liability totals in a
//! chosen weight regime and answers whether the account is healthy (assets
//! at least liabilities). Deposits are valued rounding down, liabilities
//! rounding up, so rounding always favors protocol solvency. The engine
//! never mutates state.

use vstd::prelude::*;
use crate::fp::{Fp, fp_limit, fp_mul_floor, fp_mul_ceil};
use crate::bank::{Bank, find_bank, find_bank_idx};
use crate::account::Balance;
use crate::errors::MarginfiError;

verus! {

/// Weight regime: initial (underwriting) or maintenance (liquidation
/// trigger).
#[derive(Clone, Copy, Debug, PartialEq, Eq, Structural)]
pub enum RiskRequirementType {
    Initial,
    Maintenance,
}

/// The deposit weight a bank applies in a regime.
pub open spec fn spec_deposit_weight(bank: Bank, regime: RiskRequirementType) -> Fp {
    if regime is Initial {
        bank.config.deposit_weight_init
    } else {
        bank.config.deposit_weight_maint
    }
}

/// The liability weight a bank applies in a regime.
pub open spec fn spec_liability_weight(bank: Bank, regime: RiskRequirementType) -> Fp {
    if regime is Initial {
        bank.config.liability_weight_init
    } else {
        bank.config.liability_weight_maint
    }
}

/// Weighted (asset, liability) contribution of one balance slot, or the
/// error evaluating it: the bank must exist, its oracle price must be
/// available, and every fixed-point step must fit.
pub open spec fn slot_risk(
    banks: Seq<Bank>,
    group: usize,
    s: Option<Balance>,
    regime: RiskRequirementType,
) -> Result<(int, int), MarginfiError> {
    match s {
        None => Ok((0, 0)),
        Some(b) => match find_bank(banks, group, b.asset_mint) {
            None => Err(MarginfiError::AccountNotInitialized),
            Some(bi) => {
                let bank = banks[bi];
                match bank.config.oracle_price {
                    None => Err(MarginfiError::OracleError),
                    Some(price) => {
                        let dw = spec_deposit_weight(bank, regime);
                        let lw = spec_liability_weight(bank, regime);
                        let a1 = fp_mul_floor(b.deposit_shares.raw as int,
                            bank.deposit_share_value.raw as int);
                        let a2 = fp_mul_floor(a1, price.raw as int);
                        let a3 = fp_mul_floor(a2, dw.raw as int);
                        let l1 = fp_mul_ceil(b.liability_shares.raw as int,
                            bank.liability_share_value.raw as int);
                        let l2 = fp_mul_ceil(l1, price.raw as int);
                        let l3 = fp_mul_ceil(l2, lw.raw as int);
                        if a1 >= fp_limit() || a2 >= fp_limit() || a3 >= fp_limit() {
                            Err(MarginfiError::MathError)
                        } else if l1 >= fp_limit() || l2 >= fp_limit() || l3 >= fp_limit() {
                            Err(MarginfiError::MathError)
                        } else {
                            Ok((a3, l3))
                        }
                    },
                }
            },
        },
    }
}

/// Weighted (asset, liability) totals of a balance table, or the error of
/// the first slot (in table order) that cannot be evaluated.
pub open spec fn account_risk(
    banks: Seq<Bank>,
    group: usize,
    bals: Seq<Option<Balance>>,
    regime: RiskRequirementType,
) -> Result<(int, int), MarginfiError>
    decreases bals.len(),
{
    if bals.len() <= 0 {
        Ok((0, 0))
    } else {
        match account_risk(banks, group, bals.drop_last(), regime) {
            Err(e) => Err(e),
            Ok((a, l)) => match slot_risk(banks, group, bals.last(), regime) {
                Err(e) => Err(e),
                Ok((sa, sl)) => {
                    if a + sa >= fp_limit() || l + sl >= fp_limit() {
                        Err(MarginfiError::MathError)
                    } else {
                        Ok((a + sa, l + sl))
                    }
                },
            },
        }
    }
}

/// Whether a balance table is healthy in a regime: weighted assets are at
/// least weighted liabilities.
pub open spec fn spec_healthy(
    banks: Seq<Bank>,
    group: usize,
    bals: Seq<Option<Balance>>,
    regime: RiskRequirementType,
) -> Result<bool, MarginfiError> {
    match account_risk(banks, group, bals, regime) {
        Ok((a, l)) => Ok(a >= l),
        Err(e) => Err(e),
    }
}

/// An error evaluating a prefix of the balance table decides the whole
/// table's evaluation: later slots are never reached.
pub proof fn lemma_account_risk_err_extends(
    banks: Seq<Bank>,
    group: usize,
    bals: Seq<Option<Balance>>,
    regime: RiskRequirementType,
    i: int,
    j: int,
)
    requires
        0 <= i <= j <= bals.len(),
        account_risk(banks, group, bals.take(i), regime) is Err,
    ensures
        account_risk(banks, group, bals.take(j), regime)
            == account_risk(banks, group, bals.take(i), regime),
    decreases j - i,
{
    if j > i {
        lemma_account_risk_err_extends(banks, group, bals, regime, i, j - 1);
        assert(bals.take(j).drop_last() =~= bals.take(j - 1));
    }
}

/// Evaluates the weighted contribution of one slot.
fn eval_slot(
    banks: &Vec<Bank>,
    group: usize,
    slot: &Option<Balance>,
    regime: RiskRequirementType,
) -> (r: Result<(Fp, Fp), MarginfiError>)
    ensures
        match r {
            Ok(c) => slot_risk(banks@, group, *slot, regime)
                == Ok::<(int, int), MarginfiError>((c.0.raw as int, c.1.raw as int)),
            Err(e) => slot_risk(banks@, group, *slot, regime)
                == Err::<(int, int), MarginfiError>(e),
        },
{
    let b = match slot {
        None => {
            return Ok((Fp::zero(), Fp::zero()));
        },
        Some(b) => b,
    };
    let bi = match find_bank_idx(banks, group, b.asset_mint) {
        None => {
            return Err(MarginfiError::AccountNotInitialized);
        },
        Some(bi) => bi,
    };
    proof {
        crate::bank::lemma_find_bank_spec(banks@, group, b.asset_mint);
    }
    let bank = &banks[bi];
    let price = match bank.config.oracle_price {
        None => {
            return Err(MarginfiError::OracleError);
        },
        Some(price) => price,
    };
    let dw = match regime {
        RiskRequirementType::Initial => bank.config.deposit_weight_init,
        RiskRequirementType::Maintenance => bank.config.deposit_weight_maint,
    };
    let lw = match regime {
        RiskRequirementType::Initial => bank.config.liability_weight_init,
        RiskRequirementType::Maintenance => bank.config.liability_weight_maint,
    };
    let a1 = match b.deposit_shares.checked_mul(bank.deposit_share_value) {
        None => {
            return Err(MarginfiError::MathError);
        },
        Some(v) => v,
    };
    let a2 = match a1.checked_mul(price) {
        None => {
            return Err(MarginfiError::MathError);
        },
        Some(v) => v,
    };
    let a3 = match a2.checked_mul(dw) {
        None => {
            return Err(MarginfiError::MathError);
        },
        Some(v) => v,
    };
    let l1 = match b.liability_shares.checked_mul_ceil(bank.liability_share_value) {
        None => {
            return Err(MarginfiError::MathError);
        },
        Some(v) => v,
    };
    let l2 = match l1.checked_mul_ceil(price) {
        None => {
            return Err(MarginfiError::MathError);
        },
        Some(v) => v,
    };
    let l3 = match l2.checked_mul_ceil(lw) {
        None => {
            return Err(MarginfiError::MathError);
        },
        Some(v) => v,
    };
    Ok((a3, l3))
}

/// Computes the weighted (asset, liability) totals of a balance table
/// against a bank store.
pub fn eval_account_risk(
    banks: &Vec<Bank>,
    group: usize,
    bals: &Vec<Option<Balance>>,
    regime: RiskRequirementType,
) -> (r: Result<(Fp, Fp), MarginfiError>)
    ensures
        match r {
            Ok(c) => account_risk(banks@, group, bals@, regime)
                == Ok::<(int, int), MarginfiError>((c.0.raw as int, c.1.raw as int)),
            Err(e) => account_risk(banks@, group, bals@, regime)
                == Err::<(int, int), MarginfiError>(e),
        },
{
    let n = bals.len();
    let mut ta = Fp::zero();
    let mut tl = Fp::zero();
    let mut i: usize = 0;
    proof {
        assert(bals@.take(0) =~= Seq::<Option<Balance>>::empty());
    }
    while i < n
        invariant
            n == bals@.len(),
            i <= n,
            account_risk(banks@, group, bals@.take(i as int), regime)
                == Ok::<(int, int), MarginfiError>((ta.raw as int, tl.raw as int)),
        decreases n - i,
    {
        proof {
            assert(bals@.take(i + 1).drop_last() =~= bals@.take(i as int));
            assert(bals@.take(i + 1).last() == bals@[i as int]);
        }
        let c = match eval_slot(banks, group, &bals[i], regime) {
            Err(e) => {
                proof {
                    assert(account_risk(banks@, group, bals@.take(i + 1), regime)
                        == Err::<(int, int), MarginfiError>(e));
                    lemma_account_risk_err_extends(banks@, group, bals@, regime, i + 1, n as int);
                    assert(bals@.take(n as int) =~= bals@);
                }
                return Err(e);
            },
            Ok(c) => c,
        };
        let na = match ta.checked_add(c.0) {
            None => {
                proof {
                    assert(account_risk(banks@, group, bals@.take(i + 1), regime)
                        == Err::<(int, int), MarginfiError>(MarginfiError::MathError));
                    lemma_account_risk_err_extends(banks@, group, bals@, regime, i + 1, n as int);
                    assert(bals@.take(n as int) =~= bals@);
                }
                return Err(MarginfiError::MathError);
            },
            Some(v) => v,
        };
        let nl = match tl.checked_add(c.1) {
            None => {
                proof {
                    assert(account_risk(banks@, group, bals@.take(i + 1), regime)
                        == Err::<(int, int), MarginfiError>(MarginfiError::MathError));
                    lemma_account_risk_err_extends(banks@, group, bals@, regime, i + 1, n as int);
                    assert(bals@.take(n as int) =~= bals@);
                }
                return Err(MarginfiError::MathError);
            },
            Some(v) => v,
        };
        ta = na;
        tl = nl;
        i += 1;
    }
    proof {
        assert(bals@.take(n as int) =~= bals@);
    }
    Ok((ta, tl))
}

/// Whether a balance table is healthy in a regime.
pub fn check_health(
    banks: &Vec<Bank>,
    group: usize,
    bals: &Vec<Option<Balance>>,
    regime: RiskRequirementType,
) -> (r: Result<bool, MarginfiError>)
    ensures
        r == spec_healthy(banks@, group, bals@, regime),
{
    match eval_account_risk(banks, group, bals, regime) {
        Ok(c) => Ok(c.0.raw >= c.1.raw),
        Err(e) => Err(e),
    }
}

} // verus!
