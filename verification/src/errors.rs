//! Error kinds of the ledger.
//!
//! Every instruction handler is atomic: on any error the ledger is left
//! exactly as it was. The kinds are distinct, with no hierarchy; none is
//! retried automatically.

use vstd::prelude::*;

verus! {

/// The reasons an instruction can fail.
#[derive(Clone, Copy, Debug, PartialEq, Eq, Structural)]
pub enum MarginfiError {
    /// Fixed-point overflow, divide-by-zero, or a negative result where a
    /// non-negative one is required.
    MathError,
    /// The bank's total deposits would exceed its configured capacity.
    BankDepositCapacityExceeded,
    /// The account would be unhealthy in the initial regime after a
    /// withdraw or borrow.
    BadAccountHealth,
    /// The liquidatee was not liquidatable, or the liquidation over-shoots
    /// initial-regime health.
    AccountIllegalPostLiquidationState,
    /// The liquidator would be under-collateralized, or lacks sufficient own
    /// deposits of the liability asset to fund the liquidation.
    BorrowingNotAllowed,
    /// The account's fixed-size balance table is full.
    LendingAccountBalanceSlotsFull,
    /// A referenced group, bank, account, or token account does not exist.
    AccountNotInitialized,
    /// A non-positive amount, mismatched group, unauthorized signer,
    /// self-liquidation, equal collateral and liability assets, or an
    /// escrow transfer without sufficient funds.
    IllegalArgument,
    /// The bank's oracle price is unavailable.
    OracleError,
}

} // verus!
