//! The ledger state and its instruction handlers.
//!
//! A [`Ledger`] holds the groups, banks, and accounts of the system, each
//! store keyed by index. Instruction handlers are atomic: every check runs
//! before any state is written, so an error leaves the ledger exactly as it
//! was.
//!
//! The ledger-wide invariant [`Ledger::wf`] ties the stores together: every
//! bank stays within its capacity, every active balance slot is backed by a
//! bank, slots are exclusive (deposit or liability, never both), and each
//! bank's share totals equal the sum of the matching slots across all
//! accounts of its group.

use vstd::prelude::*;
use crate::fp::{Fp, FP_SCALE};
use crate::bank::{Bank, BankConfig, find_bank, lemma_find_bank_spec,
    lemma_find_bank_update_same_identity, lemma_find_bank_push_preserves};
use crate::account::{Balance, LendingAccount, MarginfiAccount, MAX_BALANCES, balance_matches,
    slot_balance, find_balance, find_empty, shares_of, shares_sum, balances_wf, slot_wf,
    lemma_shares_sum_update, lemma_shares_sum_nonneg, lemma_shares_sum_zero,
    lemma_shares_sum_lower_bound, lemma_find_balance_spec, lemma_find_empty_spec};
use crate::errors::MarginfiError;

verus! {

/// A solvency domain: a set of banks sharing an admin.
#[derive(Clone, Copy, Debug, PartialEq, Eq, Structural)]
pub struct Group {
    pub admin: u64,
}

/// The whole ledger: indexed stores of groups, banks, and accounts.
#[derive(Debug)]
pub struct Ledger {
    pub groups: Vec<Group>,
    pub banks: Vec<Bank>,
    pub accounts: Vec<MarginfiAccount>,
}

/// The shares an account contributes to the pool for `(group, asset)`.
pub open spec fn account_contrib(
    a: MarginfiAccount,
    group: usize,
    asset: u64,
    liability: bool,
) -> int {
    if a.group == group {
        shares_sum(a.lending_account.balances@, asset, liability)
    } else {
        0
    }
}

/// Total deposit (or liability) shares all accounts hold against the pool
/// for `(group, asset)`.
pub open spec fn accounts_shares_sum(
    accs: Seq<MarginfiAccount>,
    group: usize,
    asset: u64,
    liability: bool,
) -> int
    decreases accs.len(),
{
    if accs.len() <= 0 {
        0
    } else {
        accounts_shares_sum(accs.drop_last(), group, asset, liability)
            + account_contrib(accs.last(), group, asset, liability)
    }
}

/// Replacing one account moves the total by the difference it contributes.
pub proof fn lemma_accounts_sum_update(
    accs: Seq<MarginfiAccount>,
    group: usize,
    asset: u64,
    liability: bool,
    i: int,
    v: MarginfiAccount,
)
    requires
        0 <= i < accs.len(),
    ensures
        accounts_shares_sum(accs.update(i, v), group, asset, liability)
            == accounts_shares_sum(accs, group, asset, liability)
                - account_contrib(accs[i], group, asset, liability)
                + account_contrib(v, group, asset, liability),
    decreases accs.len(),
{
    let upd = accs.update(i, v);
    if i == accs.len() - 1 {
        assert(upd.drop_last() =~= accs.drop_last());
    } else {
        assert(upd.drop_last() =~= accs.drop_last().update(i, v));
        lemma_accounts_sum_update(accs.drop_last(), group, asset, liability, i, v);
    }
}

/// Appending an account adds exactly its contribution.
pub proof fn lemma_accounts_sum_push(
    accs: Seq<MarginfiAccount>,
    group: usize,
    asset: u64,
    liability: bool,
    v: MarginfiAccount,
)
    ensures
        accounts_shares_sum(accs.push(v), group, asset, liability)
            == accounts_shares_sum(accs, group, asset, liability)
                + account_contrib(v, group, asset, liability),
{
    assert(accs.push(v).drop_last() =~= accs);
    assert(accs.push(v).last() == v);
}

/// A total over accounts is never negative.
pub proof fn lemma_accounts_sum_nonneg(
    accs: Seq<MarginfiAccount>,
    group: usize,
    asset: u64,
    liability: bool,
)
    ensures
        accounts_shares_sum(accs, group, asset, liability) >= 0,
    decreases accs.len(),
{
    if accs.len() > 0 {
        lemma_accounts_sum_nonneg(accs.drop_last(), group, asset, liability);
        lemma_shares_sum_nonneg(accs.last().lending_account.balances@, asset, liability);
    }
}

/// A total over accounts is at least any one account's contribution.
pub proof fn lemma_accounts_sum_lower_bound(
    accs: Seq<MarginfiAccount>,
    group: usize,
    asset: u64,
    liability: bool,
    i: int,
)
    requires
        0 <= i < accs.len(),
    ensures
        accounts_shares_sum(accs, group, asset, liability)
            >= account_contrib(accs[i], group, asset, liability),
    decreases accs.len(),
{
    lemma_accounts_sum_nonneg(accs.drop_last(), group, asset, liability);
    lemma_shares_sum_nonneg(accs.last().lending_account.balances@, asset, liability);
    if i < accs.len() - 1 {
        lemma_accounts_sum_lower_bound(accs.drop_last(), group, asset, liability, i);
    }
}

/// If no account contributes to `(group, asset)`, the total is zero.
pub proof fn lemma_accounts_sum_zero(
    accs: Seq<MarginfiAccount>,
    group: usize,
    asset: u64,
    liability: bool,
)
    requires
        forall|i: int| 0 <= i < accs.len()
            ==> account_contrib(#[trigger] accs[i], group, asset, liability) == 0,
    ensures
        accounts_shares_sum(accs, group, asset, liability) == 0,
    decreases accs.len(),
{
    if accs.len() > 0 {
        assert(forall|i: int| 0 <= i < accs.drop_last().len()
            ==> #[trigger] accs.drop_last()[i] == accs[i]);
        lemma_accounts_sum_zero(accs.drop_last(), group, asset, liability);
    }
}

impl Ledger {
    /// Solvency conservation for the bank at index `i`: its share totals
    /// equal the sums of the matching slots across all accounts.
    pub open spec fn bank_conserved(self, i: int) -> bool {
        &&& self.banks@[i].total_deposit_shares.raw as int == accounts_shares_sum(
            self.accounts@, self.banks@[i].group, self.banks@[i].asset_mint, false)
        &&& self.banks@[i].total_liability_shares.raw as int == accounts_shares_sum(
            self.accounts@, self.banks@[i].group, self.banks@[i].asset_mint, true)
    }

    /// Every active balance slot refers to an existing bank of the
    /// account's group.
    pub open spec fn slots_backed(self) -> bool {
        forall|i: int, k: int|
            0 <= i < self.accounts@.len()
                && 0 <= k < self.accounts@[i].lending_account.balances@.len()
                && (#[trigger] self.accounts@[i].lending_account.balances@[k]) is Some
            ==> find_bank(self.banks@, self.accounts@[i].group,
                slot_balance(self.accounts@[i].lending_account.balances@[k]).asset_mint) is Some
    }

    /// The ledger-wide invariant.
    pub open spec fn wf(self) -> bool {
        &&& (forall|i: int| 0 <= i < self.banks@.len()
            ==> (#[trigger] self.banks@[i]).wf() && self.banks@[i].group < self.groups@.len())
        &&& (forall|i: int, j: int| 0 <= i < j < self.banks@.len()
            ==> !((#[trigger] self.banks@[i]).group == (#[trigger] self.banks@[j]).group
                && self.banks@[i].asset_mint == self.banks@[j].asset_mint))
        &&& (forall|i: int| 0 <= i < self.banks@.len() ==> self.bank_conserved(i))
        &&& (forall|i: int| 0 <= i < self.accounts@.len()
            ==> (#[trigger] self.accounts@[i]).wf()
                && self.accounts@[i].group < self.groups@.len())
        &&& self.slots_backed()
    }

    /// An empty ledger.
    pub fn new() -> (r: Ledger)
        ensures
            r.wf(),
            r.groups@.len() == 0,
            r.banks@.len() == 0,
            r.accounts@.len() == 0,
    {
        Ledger { groups: Vec::new(), banks: Vec::new(), accounts: Vec::new() }
    }

    /// Creates a group with the given admin and returns its index.
    pub fn initialize_group(&mut self, admin: u64) -> (r: usize)
        requires
            old(self).wf(),
        ensures
            final(self).wf(),
            final(self).groups@ == old(self).groups@.push(Group { admin }),
            final(self).banks@ == old(self).banks@,
            final(self).accounts@ == old(self).accounts@,
            r == old(self).groups@.len(),
    {
        let r = self.groups.len();
        let ghost old_self = *self;
        self.groups.push(Group { admin });
        proof {
            assert forall|i: int| 0 <= i < self.banks@.len() implies self.bank_conserved(i) by {
                assert(old_self.bank_conserved(i));
            }
        }
        r
    }

    /// Adds a bank for an asset to a group and returns its index. Only the
    /// group's admin may do so; the `(group, asset)` identity must be new.
    /// The bank starts with share values of one, zero totals, and empty
    /// vaults.
    pub fn lending_pool_add_bank(
        &mut self,
        signer: u64,
        group: usize,
        asset_mint: u64,
        config: BankConfig,
    ) -> (r: Result<usize, MarginfiError>)
        requires
            old(self).wf(),
        ensures
            final(self).wf(),
            r is Err ==> *final(self) == *old(self),
            group >= old(self).groups@.len() ==> r == Err::<usize, MarginfiError>(
                MarginfiError::AccountNotInitialized),
            group < old(self).groups@.len() && signer != old(self).groups@[group as int].admin
                ==> r == Err::<usize, MarginfiError>(MarginfiError::IllegalArgument),
            group < old(self).groups@.len() && signer == old(self).groups@[group as int].admin
                && find_bank(old(self).banks@, group, asset_mint) is Some
                ==> r == Err::<usize, MarginfiError>(MarginfiError::IllegalArgument),
            group < old(self).groups@.len() && signer == old(self).groups@[group as int].admin
                && find_bank(old(self).banks@, group, asset_mint) is None
                ==> r == Ok::<usize, MarginfiError>(old(self).banks@.len() as usize)
                    && final(self).banks@ == old(self).banks@.push(Bank {
                        group,
                        asset_mint,
                        deposit_share_value: Fp { raw: FP_SCALE },
                        liability_share_value: Fp { raw: FP_SCALE },
                        total_deposit_shares: Fp { raw: 0 },
                        total_liability_shares: Fp { raw: 0 },
                        config,
                        liquidity_vault: 0,
                        insurance_vault: 0,
                        fee_vault: 0,
                    }),
            r is Ok ==> final(self).groups@ == old(self).groups@
                && final(self).accounts@ == old(self).accounts@,
    {
        if group >= self.groups.len() {
            return Err(MarginfiError::AccountNotInitialized);
        }
        if signer != self.groups[group].admin {
            return Err(MarginfiError::IllegalArgument);
        }
        let existing = crate::bank::find_bank_idx(&self.banks, group, asset_mint);
        if existing.is_some() {
            return Err(MarginfiError::IllegalArgument);
        }
        let bank = Bank {
            group,
            asset_mint,
            deposit_share_value: Fp { raw: FP_SCALE },
            liability_share_value: Fp { raw: FP_SCALE },
            total_deposit_shares: Fp { raw: 0 },
            total_liability_shares: Fp { raw: 0 },
            config,
            liquidity_vault: 0,
            insurance_vault: 0,
            fee_vault: 0,
        };
        let r = self.banks.len();
        let ghost old_banks = self.banks@;
        let ghost old_self = *self;
        self.banks.push(bank);
        proof {
            let new_banks = self.banks@;
            let accs = self.accounts@;
            // The new bank is empty, and no account holds its asset: every
            // slot was already backed by an existing bank, and none exists
            // for this identity.
            lemma_find_bank_spec(old_banks, group, asset_mint);
            assert forall|i: int| 0 <= i < accs.len()
                implies account_contrib(#[trigger] accs[i], group, asset_mint, false) == 0
                    && account_contrib(accs[i], group, asset_mint, true) == 0 by {
                if accs[i].group == group {
                    let bals = accs[i].lending_account.balances@;
                    assert forall|k: int| 0 <= k < bals.len()
                        implies !balance_matches(#[trigger] bals[k], asset_mint) by {
                        if balance_matches(bals[k], asset_mint) {
                            assert(find_bank(old_banks, group, asset_mint) is Some);
                        }
                    }
                    lemma_shares_sum_zero(bals, asset_mint, false);
                    lemma_shares_sum_zero(bals, asset_mint, true);
                }
            }
            lemma_accounts_sum_zero(accs, group, asset_mint, false);
            lemma_accounts_sum_zero(accs, group, asset_mint, true);
            // Existing banks keep their conservation and lookups.
            assert forall|i: int| 0 <= i < new_banks.len() implies self.bank_conserved(i)
                && (#[trigger] new_banks[i]).wf() && new_banks[i].group < self.groups@.len() by {
                if i < old_banks.len() {
                    assert(old_self.bank_conserved(i));
                    assert(new_banks[i] == old_banks[i]);
                }
            }
            assert forall|i: int, k: int|
                0 <= i < accs.len() && 0 <= k < accs[i].lending_account.balances@.len()
                    && (#[trigger] accs[i].lending_account.balances@[k]) is Some
                implies find_bank(new_banks, accs[i].group,
                    slot_balance(accs[i].lending_account.balances@[k]).asset_mint) is Some by {
                let a = accs[i].group;
                let m = slot_balance(accs[i].lending_account.balances@[k]).asset_mint;
                assert(find_bank(old_banks, a, m) is Some);
                lemma_find_bank_push_preserves(old_banks, bank, a, m);
            }
        }
        Ok(r)
    }

    /// Creates an account for an owner within a group and returns its
    /// index. The account starts with all balance slots empty.
    pub fn initialize_marginfi_account(&mut self, group: usize, owner: u64) -> (r: Result<
        usize,
        MarginfiError,
    >)
        requires
            old(self).wf(),
        ensures
            final(self).wf(),
            r is Err ==> *final(self) == *old(self),
            group >= old(self).groups@.len() ==> r == Err::<usize, MarginfiError>(
                MarginfiError::AccountNotInitialized),
            group < old(self).groups@.len() ==> r == Ok::<usize, MarginfiError>(
                old(self).accounts@.len() as usize)
                && final(self).accounts@.len() == old(self).accounts@.len() + 1
                && (forall|i: int| 0 <= i < old(self).accounts@.len()
                    ==> final(self).accounts@[i] == old(self).accounts@[i])
                && final(self).accounts@.last().group == group
                && final(self).accounts@.last().owner == owner
                && final(self).accounts@.last().lending_account.balances@.len() == MAX_BALANCES
                && (forall|k: int| 0 <= k < MAX_BALANCES
                    ==> final(self).accounts@.last().lending_account.balances@[k] is None),
            r is Ok ==> final(self).groups@ == old(self).groups@
                && final(self).banks@ == old(self).banks@,
    {
        if group >= self.groups.len() {
            return Err(MarginfiError::AccountNotInitialized);
        }
        let mut balances: Vec<Option<Balance>> = Vec::new();
        let mut k: usize = 0;
        while k < MAX_BALANCES
            invariant
                k <= MAX_BALANCES,
                balances@.len() == k,
                forall|i: int| 0 <= i < k ==> balances@[i] is None,
            decreases MAX_BALANCES - k,
        {
            balances.push(None);
            k += 1;
        }
        let account = MarginfiAccount { group, owner, lending_account: LendingAccount { balances } };
        let r = self.accounts.len();
        let ghost old_self = *self;
        let ghost acc_spec = account;
        self.accounts.push(account);
        proof {
            let accs = self.accounts@;
            let bals = acc_spec.lending_account.balances@;
            assert(forall|k2: int| 0 <= k2 < bals.len() ==> #[trigger] bals[k2] is None);
            // An all-empty account contributes nothing to any bank.
            assert forall|i: int| 0 <= i < self.banks@.len() implies self.bank_conserved(i) by {
                assert(old_self.bank_conserved(i));
                let g = self.banks@[i].group;
                let m = self.banks@[i].asset_mint;
                lemma_shares_sum_zero(bals, m, false);
                lemma_shares_sum_zero(bals, m, true);
                lemma_accounts_sum_push(old_self.accounts@, g, m, false, acc_spec);
                lemma_accounts_sum_push(old_self.accounts@, g, m, true, acc_spec);
            }
            assert(balances_wf(bals));
        }
        Ok(r)
    }

    /// Updates the oracle price a bank's binding yields. Only the group's
    /// admin may do so; `None` marks the price unavailable.
    pub fn set_oracle_price(&mut self, signer: u64, bank: usize, price: Option<Fp>) -> (r: Result<
        (),
        MarginfiError,
    >)
        requires
            old(self).wf(),
        ensures
            final(self).wf(),
            r is Err ==> *final(self) == *old(self),
            bank >= old(self).banks@.len() ==> r == Err::<(), MarginfiError>(
                MarginfiError::AccountNotInitialized),
            bank < old(self).banks@.len()
                && signer != old(self).groups@[old(self).banks@[bank as int].group as int].admin
                ==> r == Err::<(), MarginfiError>(MarginfiError::IllegalArgument),
            bank < old(self).banks@.len()
                && signer == old(self).groups@[old(self).banks@[bank as int].group as int].admin
                ==> r is Ok
                    && final(self).banks@ == old(self).banks@.update(bank as int, Bank {
                        config: BankConfig {
                            oracle_price: price,
                            ..old(self).banks@[bank as int].config
                        },
                        ..old(self).banks@[bank as int]
                    })
                    && final(self).groups@ == old(self).groups@
                    && final(self).accounts@ == old(self).accounts@,
    {
        if bank >= self.banks.len() {
            return Err(MarginfiError::AccountNotInitialized);
        }
        let b = self.banks[bank];
        if signer != self.groups[b.group].admin {
            return Err(MarginfiError::IllegalArgument);
        }
        let nb = Bank { config: BankConfig { oracle_price: price, ..b.config }, ..b };
        let ghost old_self = *self;
        self.banks[bank] = nb;
        proof {
            let new_banks = self.banks@;
            assert forall|i: int| 0 <= i < new_banks.len() implies self.bank_conserved(i)
                && (#[trigger] new_banks[i]).wf() && new_banks[i].group < self.groups@.len() by {
                assert(old_self.bank_conserved(i));
            }
            assert forall|i: int, k: int|
                0 <= i < self.accounts@.len()
                    && 0 <= k < self.accounts@[i].lending_account.balances@.len()
                    && (#[trigger] self.accounts@[i].lending_account.balances@[k]) is Some
                implies find_bank(new_banks, self.accounts@[i].group,
                    slot_balance(self.accounts@[i].lending_account.balances@[k]).asset_mint)
                    is Some by {
                lemma_find_bank_update_same_identity(old_self.banks@, bank as int, nb,
                    self.accounts@[i].group,
                    slot_balance(self.accounts@[i].lending_account.balances@[k]).asset_mint);
            }
        }
        Ok(())
    }
}

/// The state changes a successful deposit commits.
pub struct UpdatePlan {
    pub bank_idx: int,
    pub slot_idx: int,
    pub new_slot: Option<Balance>,
    pub new_bank: Bank,
}

/// Totals, capacity, and vault bookkeeping shared by every deposit branch:
/// `dep_delta` deposit shares are issued and `liab_delta` liability shares
/// retired, then capacity is enforced and the escrowed tokens recorded.
pub open spec fn spec_deposit_finish(
    l: Ledger,
    bi: int,
    slot_idx: int,
    new_slot: Option<Balance>,
    dep_delta: int,
    liab_delta: int,
    amount: u64,
) -> Result<UpdatePlan, MarginfiError> {
    let bank = l.banks@[bi];
    let ntd = bank.total_deposit_shares.raw + dep_delta;
    let ntl = bank.total_liability_shares.raw - liab_delta;
    if ntd >= crate::fp::fp_limit() {
        Err(MarginfiError::MathError)
    } else {
        let total_amt = crate::fp::fp_mul_floor(ntd, bank.deposit_share_value.raw as int);
        if total_amt >= crate::fp::fp_limit() {
            Err(MarginfiError::MathError)
        } else if total_amt > bank.config.max_capacity * FP_SCALE {
            Err(MarginfiError::BankDepositCapacityExceeded)
        } else if bank.liquidity_vault + amount > u64::MAX {
            Err(MarginfiError::MathError)
        } else {
            Ok(UpdatePlan {
                bank_idx: bi,
                slot_idx,
                new_slot,
                new_bank: Bank {
                    total_deposit_shares: Fp { raw: ntd as u128 },
                    total_liability_shares: Fp { raw: ntl as u128 },
                    liquidity_vault: (bank.liquidity_vault + amount) as u64,
                    ..bank
                },
            })
        }
    }
}

/// The full decision a deposit makes: which error it fails with, or the
/// exact state changes it commits. A deposit against an asset the account
/// owes first nets out the liability, and any residual becomes deposit
/// shares; a slot whose shares both reach zero is released.
pub open spec fn spec_bank_deposit(
    l: Ledger,
    signer: u64,
    account: usize,
    asset_mint: u64,
    amount: u64,
) -> Result<UpdatePlan, MarginfiError> {
    if account >= l.accounts@.len() {
        Err(MarginfiError::AccountNotInitialized)
    } else {
        let acc = l.accounts@[account as int];
        if signer != acc.owner {
            Err(MarginfiError::IllegalArgument)
        } else if amount == 0 {
            Err(MarginfiError::IllegalArgument)
        } else {
            match find_bank(l.banks@, acc.group, asset_mint) {
                None => Err(MarginfiError::AccountNotInitialized),
                Some(bi) => {
                    let bank = l.banks@[bi];
                    let amount_raw = amount * FP_SCALE;
                    let bals = acc.lending_account.balances@;
                    match find_balance(bals, asset_mint) {
                        Some(j) => {
                            let b = slot_balance(bals[j]);
                            if b.liability_shares.raw > 0 {
                                let owed = crate::fp::fp_mul_ceil(b.liability_shares.raw as int,
                                    bank.liability_share_value.raw as int);
                                if owed >= crate::fp::fp_limit() {
                                    Err(MarginfiError::MathError)
                                } else if amount_raw >= owed {
                                    let residual = amount_raw - owed;
                                    let dep = crate::fp::fp_div_floor(residual,
                                        bank.deposit_share_value.raw as int);
                                    if dep >= crate::fp::fp_limit() {
                                        Err(MarginfiError::MathError)
                                    } else {
                                        let new_slot: Option<Balance> = if dep == 0 {
                                            None
                                        } else {
                                            Some(Balance {
                                                asset_mint,
                                                deposit_shares: Fp { raw: dep as u128 },
                                                liability_shares: Fp { raw: 0 },
                                            })
                                        };
                                        spec_deposit_finish(l, bi, j, new_slot, dep,
                                            b.liability_shares.raw as int, amount)
                                    }
                                } else {
                                    let repaid = crate::fp::fp_div_floor(amount_raw,
                                        bank.liability_share_value.raw as int);
                                    let nl = b.liability_shares.raw - repaid;
                                    let new_slot: Option<Balance> = if nl == 0 {
                                        None
                                    } else {
                                        Some(Balance {
                                            asset_mint,
                                            deposit_shares: Fp { raw: 0 },
                                            liability_shares: Fp { raw: nl as u128 },
                                        })
                                    };
                                    spec_deposit_finish(l, bi, j, new_slot, 0, repaid, amount)
                                }
                            } else {
                                let dep = crate::fp::fp_div_floor(amount_raw,
                                    bank.deposit_share_value.raw as int);
                                if dep >= crate::fp::fp_limit() {
                                    Err(MarginfiError::MathError)
                                } else if b.deposit_shares.raw + dep >= crate::fp::fp_limit() {
                                    Err(MarginfiError::MathError)
                                } else {
                                    let new_slot: Option<Balance> = Some(Balance {
                                        asset_mint,
                                        deposit_shares: Fp { raw: (b.deposit_shares.raw + dep) as u128 },
                                        liability_shares: Fp { raw: 0 },
                                    });
                                    spec_deposit_finish(l, bi, j, new_slot, dep, 0, amount)
                                }
                            }
                        },
                        None => match find_empty(bals) {
                            None => Err(MarginfiError::LendingAccountBalanceSlotsFull),
                            Some(k) => {
                                let dep = crate::fp::fp_div_floor(amount_raw,
                                    bank.deposit_share_value.raw as int);
                                if dep >= crate::fp::fp_limit() {
                                    Err(MarginfiError::MathError)
                                } else {
                                    let new_slot: Option<Balance> = if dep == 0 {
                                        None
                                    } else {
                                        Some(Balance {
                                            asset_mint,
                                            deposit_shares: Fp { raw: dep as u128 },
                                            liability_shares: Fp { raw: 0 },
                                        })
                                    };
                                    spec_deposit_finish(l, bi, k, new_slot, dep, 0, amount)
                                }
                            },
                        },
                    }
                },
            }
        }
    }
}

/// Re-establishes the ledger invariant after the common single-account,
/// single-bank transition: one balance slot of one account is replaced, and
/// the asset's bank absorbs exactly the share difference.
pub proof fn lemma_wf_after_update(
    old_l: Ledger,
    new_l: Ledger,
    ai: int,
    bi: int,
    slot_idx: int,
    new_slot: Option<Balance>,
)
    requires
        old_l.wf(),
        0 <= ai < old_l.accounts@.len(),
        0 <= bi < old_l.banks@.len(),
        old_l.accounts@[ai].group == old_l.banks@[bi].group,
        0 <= slot_idx < old_l.accounts@[ai].lending_account.balances@.len(),
        balance_matches(old_l.accounts@[ai].lending_account.balances@[slot_idx],
            old_l.banks@[bi].asset_mint)
            || (old_l.accounts@[ai].lending_account.balances@[slot_idx] is None
                && (forall|k: int| 0 <= k < old_l.accounts@[ai].lending_account.balances@.len()
                    ==> !balance_matches(
                        #[trigger] old_l.accounts@[ai].lending_account.balances@[k],
                        old_l.banks@[bi].asset_mint))),
        new_slot is Some ==> slot_balance(new_slot).asset_mint == old_l.banks@[bi].asset_mint
            && slot_wf(new_slot),
        new_l.banks@[bi].group == old_l.banks@[bi].group,
        new_l.banks@[bi].asset_mint == old_l.banks@[bi].asset_mint,
        new_l.banks@[bi].deposit_share_value == old_l.banks@[bi].deposit_share_value,
        new_l.banks@[bi].liability_share_value == old_l.banks@[bi].liability_share_value,
        new_l.banks@[bi].config == old_l.banks@[bi].config,
        crate::fp::fp_mul_floor(new_l.banks@[bi].total_deposit_shares.raw as int,
            new_l.banks@[bi].deposit_share_value.raw as int)
            <= new_l.banks@[bi].config.max_capacity * FP_SCALE,
        new_l.banks@[bi].total_deposit_shares.raw as int
            == old_l.banks@[bi].total_deposit_shares.raw
                + shares_of(new_slot, old_l.banks@[bi].asset_mint, false)
                - shares_of(old_l.accounts@[ai].lending_account.balances@[slot_idx],
                    old_l.banks@[bi].asset_mint, false),
        new_l.banks@[bi].total_liability_shares.raw as int
            == old_l.banks@[bi].total_liability_shares.raw
                + shares_of(new_slot, old_l.banks@[bi].asset_mint, true)
                - shares_of(old_l.accounts@[ai].lending_account.balances@[slot_idx],
                    old_l.banks@[bi].asset_mint, true),
        new_l.groups@ == old_l.groups@,
        new_l.banks@ == old_l.banks@.update(bi, new_l.banks@[bi]),
        new_l.accounts@.len() == old_l.accounts@.len(),
        forall|i: int| 0 <= i < old_l.accounts@.len() && i != ai
            ==> #[trigger] new_l.accounts@[i] == old_l.accounts@[i],
        new_l.accounts@[ai].group == old_l.accounts@[ai].group,
        new_l.accounts@[ai].owner == old_l.accounts@[ai].owner,
        new_l.accounts@[ai].lending_account.balances@
            == old_l.accounts@[ai].lending_account.balances@.update(slot_idx, new_slot),
    ensures
        new_l.wf(),
{
    let asset = old_l.banks@[bi].asset_mint;
    let g = old_l.banks@[bi].group;
    let obals = old_l.accounts@[ai].lending_account.balances@;
    let nbals = obals.update(slot_idx, new_slot);
    let old_slot = obals[slot_idx];
    let nacc = new_l.accounts@[ai];
    let nb = new_l.banks@[bi];
    assert(old_l.accounts@[ai].wf());
    assert(old_l.banks@[bi].wf());
    // The account stays well-formed: the replaced slot is exclusive, and no
    // other slot holds the asset.
    assert forall|x: int, y: int|
        0 <= x < y < nbals.len() && #[trigger] nbals[x] is Some && #[trigger] nbals[y] is Some
        implies slot_balance(nbals[x]).asset_mint != slot_balance(nbals[y]).asset_mint by {
        if x != slot_idx && y != slot_idx {
            assert(nbals[x] == obals[x] && nbals[y] == obals[y]);
        } else {
            let other = if x == slot_idx { y } else { x };
            assert(nbals[other] == obals[other]);
            if balance_matches(obals[slot_idx], asset) {
                assert(slot_balance(obals[other]).asset_mint != asset);
            } else {
                assert(!balance_matches(obals[other], asset));
            }
        }
    }
    assert(balances_wf(nbals));
    assert(nacc.wf());
    // Conservation: the asset's bank absorbs the slot difference; every
    // other bank sees no change.
    assert forall|i: int| 0 <= i < new_l.banks@.len() implies new_l.bank_conserved(i) by {
        let gi = new_l.banks@[i].group;
        let mi = new_l.banks@[i].asset_mint;
        assert(old_l.bank_conserved(i));
        assert(old_l.banks@[i].group == gi && old_l.banks@[i].asset_mint == mi);
        lemma_shares_sum_update(obals, mi, false, slot_idx, new_slot);
        lemma_shares_sum_update(obals, mi, true, slot_idx, new_slot);
        lemma_accounts_sum_update(old_l.accounts@, gi, mi, false, ai, nacc);
        lemma_accounts_sum_update(old_l.accounts@, gi, mi, true, ai, nacc);
        assert(new_l.accounts@ =~= old_l.accounts@.update(ai, nacc));
        if i == bi {
            assert(mi == asset && gi == g);
        } else {
            if gi == g && mi == asset {
                assert(false);
            }
            if mi != asset {
                assert(shares_of(new_slot, mi, false) == 0
                    || slot_balance(new_slot).asset_mint == asset);
                assert(shares_of(new_slot, mi, false) == 0);
                assert(shares_of(new_slot, mi, true) == 0);
                assert(shares_of(old_slot, mi, false) == 0);
                assert(shares_of(old_slot, mi, true) == 0);
            } else {
                assert(gi != g);
                assert(account_contrib(nacc, gi, mi, false) == 0);
                assert(account_contrib(old_l.accounts@[ai], gi, mi, false) == 0);
            }
        }
    }
    // Every slot is still backed: bank identities are unchanged, and the
    // replaced slot's asset is backed by its own bank.
    assert forall|i: int, k: int|
        0 <= i < new_l.accounts@.len() && 0 <= k < new_l.accounts@[i].lending_account.balances@.len()
            && (#[trigger] new_l.accounts@[i].lending_account.balances@[k]) is Some
        implies find_bank(new_l.banks@, new_l.accounts@[i].group,
            slot_balance(new_l.accounts@[i].lending_account.balances@[k]).asset_mint) is Some by {
        let gi = new_l.accounts@[i].group;
        let mi = slot_balance(new_l.accounts@[i].lending_account.balances@[k]).asset_mint;
        if i == ai && k == slot_idx {
            lemma_find_bank_spec(new_l.banks@, g, asset);
            assert(new_l.banks@[bi].group == g && new_l.banks@[bi].asset_mint == asset);
        } else {
            if i == ai {
                assert(new_l.accounts@[i].lending_account.balances@[k] == obals[k]);
            } else {
                assert(new_l.accounts@[i] == old_l.accounts@[i]);
            }
            assert(find_bank(old_l.banks@, gi, mi) is Some);
            lemma_find_bank_update_same_identity(old_l.banks@, bi, nb, gi, mi);
        }
    }
}

impl Ledger {
    /// Deposits `amount` tokens of an asset into the account's position:
    /// the escrowed tokens enter the bank's liquidity vault, an existing
    /// liability in the asset is first netted out, and any residual becomes
    /// deposit shares. Deposits never require a health check. The exact
    /// outcome is [`spec_bank_deposit`].
    pub fn bank_deposit(
        &mut self,
        signer: u64,
        account: usize,
        asset_mint: u64,
        amount: u64,
    ) -> (r: Result<(), MarginfiError>)
        requires
            old(self).wf(),
        ensures
            final(self).wf(),
            match spec_bank_deposit(*old(self), signer, account, asset_mint, amount) {
                Err(e) => r == Err::<(), MarginfiError>(e) && *final(self) == *old(self),
                Ok(plan) => r is Ok
                    && final(self).groups@ == old(self).groups@
                    && final(self).banks@ == old(self).banks@.update(plan.bank_idx, plan.new_bank)
                    && final(self).accounts@.len() == old(self).accounts@.len()
                    && (forall|i: int| 0 <= i < old(self).accounts@.len() && i != account as int
                        ==> final(self).accounts@[i] == old(self).accounts@[i])
                    && final(self).accounts@[account as int].group
                        == old(self).accounts@[account as int].group
                    && final(self).accounts@[account as int].owner
                        == old(self).accounts@[account as int].owner
                    && final(self).accounts@[account as int].lending_account.balances@
                        == old(self).accounts@[account as int].lending_account.balances@.update(
                            plan.slot_idx, plan.new_slot),
            },
    {
        if account >= self.accounts.len() {
            return Err(MarginfiError::AccountNotInitialized);
        }
        let acc_group = self.accounts[account].group;
        let acc_owner = self.accounts[account].owner;
        if signer != acc_owner {
            return Err(MarginfiError::IllegalArgument);
        }
        if amount == 0 {
            return Err(MarginfiError::IllegalArgument);
        }
        let bi = match crate::bank::find_bank_idx(&self.banks, acc_group, asset_mint) {
            None => {
                return Err(MarginfiError::AccountNotInitialized);
            },
            Some(bi) => bi,
        };
        proof {
            lemma_find_bank_spec(self.banks@, acc_group, asset_mint);
            assert(self.banks@[bi as int].wf());
            assert(self.accounts@[account as int].wf());
        }
        let bank = self.banks[bi];
        let amount_fp = Fp::from_amount(amount);
        let ghost obals = self.accounts@[account as int].lending_account.balances@;
        let slot_opt = self.accounts[account].lending_account.get_balance(asset_mint);
        let slot_idx: usize;
        let new_slot: Option<Balance>;
        let dep_delta: Fp;
        let liab_delta: Fp;
        match slot_opt {
            Some(j) => {
                proof {
                    lemma_find_balance_spec(obals, asset_mint);
                }
                let sb = match self.accounts[account].lending_account.balances[j] {
                    Some(b) => b,
                    None => {
                        proof {
                            assert(false);
                        }
                        return Err(MarginfiError::MathError);
                    },
                };
                if sb.liability_shares.raw > 0 {
                    let owed = match bank.get_liability_amount(sb.liability_shares) {
                        None => {
                            return Err(MarginfiError::MathError);
                        },
                        Some(v) => v,
                    };
                    if amount_fp.raw >= owed.raw {
                        let residual = Fp { raw: amount_fp.raw - owed.raw };
                        let dep = match bank.get_deposit_shares(residual) {
                            None => {
                                return Err(MarginfiError::MathError);
                            },
                            Some(v) => v,
                        };
                        slot_idx = j;
                        new_slot = if dep.raw == 0 {
                            None
                        } else {
                            Some(Balance {
                                asset_mint,
                                deposit_shares: dep,
                                liability_shares: Fp { raw: 0 },
                            })
                        };
                        dep_delta = dep;
                        liab_delta = sb.liability_shares;
                    } else {
                        proof {
                            // Paying less than the owed amount retires at
                            // most the held shares, so the division fits.
                            crate::fp::lemma_repay_within(amount_fp.raw as int,
                                sb.liability_shares.raw as int,
                                bank.liability_share_value.raw as int);
                        }
                        let repaid = match amount_fp.checked_div(bank.liability_share_value) {
                            None => {
                                proof {
                                    assert(false);
                                }
                                return Err(MarginfiError::MathError);
                            },
                            Some(v) => v,
                        };
                        let nl = sb.liability_shares.raw - repaid.raw;
                        slot_idx = j;
                        new_slot = if nl == 0 {
                            None
                        } else {
                            Some(Balance {
                                asset_mint,
                                deposit_shares: Fp { raw: 0 },
                                liability_shares: Fp { raw: nl },
                            })
                        };
                        dep_delta = Fp { raw: 0 };
                        liab_delta = repaid;
                    }
                } else {
                    let dep = match bank.get_deposit_shares(amount_fp) {
                        None => {
                            return Err(MarginfiError::MathError);
                        },
                        Some(v) => v,
                    };
                    let nd = match sb.deposit_shares.checked_add(dep) {
                        None => {
                            return Err(MarginfiError::MathError);
                        },
                        Some(v) => v,
                    };
                    slot_idx = j;
                    new_slot = Some(Balance {
                        asset_mint,
                        deposit_shares: nd,
                        liability_shares: Fp { raw: 0 },
                    });
                    dep_delta = dep;
                    liab_delta = Fp { raw: 0 };
                }
            },
            None => {
                proof {
                    lemma_find_balance_spec(obals, asset_mint);
                    lemma_find_empty_spec(obals);
                }
                let k = match self.accounts[account].lending_account.get_empty_slot() {
                    None => {
                        return Err(MarginfiError::LendingAccountBalanceSlotsFull);
                    },
                    Some(k) => k,
                };
                let dep = match bank.get_deposit_shares(amount_fp) {
                    None => {
                        return Err(MarginfiError::MathError);
                    },
                    Some(v) => v,
                };
                slot_idx = k;
                new_slot = if dep.raw == 0 {
                    None
                } else {
                    Some(Balance {
                        asset_mint,
                        deposit_shares: dep,
                        liability_shares: Fp { raw: 0 },
                    })
                };
                dep_delta = dep;
                liab_delta = Fp { raw: 0 };
            },
        }
        let ntd = match bank.total_deposit_shares.checked_add(dep_delta) {
            None => {
                return Err(MarginfiError::MathError);
            },
            Some(v) => v,
        };
        proof {
            // Conservation bounds the liability retirement by the bank's
            // total: the account's slot is part of the group-wide sum.
            assert(self.bank_conserved(bi as int));
            lemma_accounts_sum_lower_bound(self.accounts@, acc_group, asset_mint, true,
                account as int);
            lemma_shares_sum_lower_bound(obals, asset_mint, true, slot_idx as int);
        }
        let ntl = Fp { raw: bank.total_liability_shares.raw - liab_delta.raw };
        let total_amt = match bank.get_deposit_amount(ntd) {
            None => {
                return Err(MarginfiError::MathError);
            },
            Some(v) => v,
        };
        let cap_fp = Fp::from_amount(bank.config.max_capacity);
        if total_amt.raw > cap_fp.raw {
            return Err(MarginfiError::BankDepositCapacityExceeded);
        }
        if amount > u64::MAX - bank.liquidity_vault {
            return Err(MarginfiError::MathError);
        }
        let new_bank = Bank {
            total_deposit_shares: ntd,
            total_liability_shares: ntl,
            liquidity_vault: bank.liquidity_vault + amount,
            ..bank
        };
        let ghost old_self = *self;
        let mut new_bals = crate::account::copy_balances(
            &self.accounts[account].lending_account.balances);
        new_bals[slot_idx] = new_slot;
        let new_acc = MarginfiAccount {
            group: acc_group,
            owner: acc_owner,
            lending_account: LendingAccount { balances: new_bals },
        };
        self.accounts[account] = new_acc;
        self.banks[bi] = new_bank;
        proof {
            let asset = asset_mint;
            let old_slot = obals[slot_idx as int];
            assert(shares_of(new_slot, asset, false) - shares_of(old_slot, asset, false)
                == dep_delta.raw);
            assert(shares_of(new_slot, asset, true) - shares_of(old_slot, asset, true)
                == -(liab_delta.raw as int));
            lemma_wf_after_update(old_self, *self, account as int, bi as int, slot_idx as int,
                new_slot);
            match spec_bank_deposit(old_self, signer, account, asset_mint, amount) {
                Ok(plan) => {
                    assert(plan.bank_idx == bi as int);
                    assert(plan.slot_idx == slot_idx as int);
                    assert(plan.new_slot == new_slot);
                    assert(plan.new_bank == new_bank);
                },
                Err(_) => {
                    assert(false);
                },
            }
        }
        Ok(())
    }
}

/// The full decision a withdraw (or borrow) makes: which error it fails
/// with, or the exact state changes it commits. The instruction is
/// dual-use: it drains the asset's deposit slot first, and any residual
/// becomes a liability (this is borrowing, rounded up against the
/// borrower). The account must be healthy in the initial regime afterwards.
pub open spec fn spec_bank_withdraw(
    l: Ledger,
    signer: u64,
    account: usize,
    asset_mint: u64,
    amount: u64,
) -> Result<UpdatePlan, MarginfiError> {
    if account >= l.accounts@.len() {
        Err(MarginfiError::AccountNotInitialized)
    } else {
        let acc = l.accounts@[account as int];
        if signer != acc.owner {
            Err(MarginfiError::IllegalArgument)
        } else if amount == 0 {
            Err(MarginfiError::IllegalArgument)
        } else {
            match find_bank(l.banks@, acc.group, asset_mint) {
                None => Err(MarginfiError::AccountNotInitialized),
                Some(bi) => {
                    let bank = l.banks@[bi];
                    let amount_raw = amount * FP_SCALE;
                    let bals = acc.lending_account.balances@;
                    match find_balance(bals, asset_mint) {
                        Some(j) => {
                            let b = slot_balance(bals[j]);
                            let avail = crate::fp::fp_mul_floor(b.deposit_shares.raw as int,
                                bank.deposit_share_value.raw as int);
                            if avail >= crate::fp::fp_limit() {
                                Err(MarginfiError::MathError)
                            } else if amount_raw >= avail {
                                let residual = amount_raw - avail;
                                let borrowed = crate::fp::fp_div_ceil(residual,
                                    bank.liability_share_value.raw as int);
                                if residual > 0 && borrowed >= crate::fp::fp_limit() {
                                    Err(MarginfiError::MathError)
                                } else {
                                    let grow = if residual > 0 {
                                        borrowed
                                    } else {
                                        0
                                    };
                                    let nl = b.liability_shares.raw + grow;
                                    if nl >= crate::fp::fp_limit() {
                                        Err(MarginfiError::MathError)
                                    } else {
                                        let new_slot: Option<Balance> = if nl == 0 {
                                            None
                                        } else {
                                            Some(Balance {
                                                asset_mint,
                                                deposit_shares: Fp { raw: 0 },
                                                liability_shares: Fp { raw: nl as u128 },
                                            })
                                        };
                                        spec_withdraw_finish(l, account, bi, j, new_slot,
                                            b.deposit_shares.raw as int, grow, amount)
                                    }
                                }
                            } else {
                                let removed = crate::fp::fp_div_ceil(amount_raw,
                                    bank.deposit_share_value.raw as int);
                                let nd = b.deposit_shares.raw - removed;
                                let new_slot: Option<Balance> = if nd == 0 {
                                    None
                                } else {
                                    Some(Balance {
                                        asset_mint,
                                        deposit_shares: Fp { raw: nd as u128 },
                                        liability_shares: Fp { raw: 0 },
                                    })
                                };
                                spec_withdraw_finish(l, account, bi, j, new_slot, removed, 0,
                                    amount)
                            }
                        },
                        None => match find_empty(bals) {
                            None => Err(MarginfiError::LendingAccountBalanceSlotsFull),
                            Some(k) => {
                                let borrowed = crate::fp::fp_div_ceil(amount * FP_SCALE,
                                    bank.liability_share_value.raw as int);
                                if borrowed >= crate::fp::fp_limit() {
                                    Err(MarginfiError::MathError)
                                } else {
                                    let new_slot: Option<Balance> = Some(Balance {
                                        asset_mint,
                                        deposit_shares: Fp { raw: 0 },
                                        liability_shares: Fp { raw: borrowed as u128 },
                                    });
                                    spec_withdraw_finish(l, account, bi, k, new_slot, 0,
                                        borrowed, amount)
                                }
                            },
                        },
                    }
                },
            }
        }
    }
}

/// Totals, escrow, and health bookkeeping shared by every withdraw branch:
/// `dep_delta` deposit shares leave, `liab_delta` liability shares are
/// issued, the liquidity vault pays the tokens out, and the account must
/// end healthy in the initial regime.
pub open spec fn spec_withdraw_finish(
    l: Ledger,
    account: usize,
    bi: int,
    slot_idx: int,
    new_slot: Option<Balance>,
    dep_delta: int,
    liab_delta: int,
    amount: u64,
) -> Result<UpdatePlan, MarginfiError> {
    let acc = l.accounts@[account as int];
    let bank = l.banks@[bi];
    let ntl = bank.total_liability_shares.raw + liab_delta;
    let ntd = bank.total_deposit_shares.raw - dep_delta;
    if ntl >= crate::fp::fp_limit() {
        Err(MarginfiError::MathError)
    } else if bank.liquidity_vault < amount {
        Err(MarginfiError::MathError)
    } else {
        let nbals = acc.lending_account.balances@.update(slot_idx, new_slot);
        match crate::risk::spec_healthy(l.banks@, acc.group, nbals,
            crate::risk::RiskRequirementType::Initial) {
            Err(e) => Err(e),
            Ok(h) => {
                if !h {
                    Err(MarginfiError::BadAccountHealth)
                } else {
                    Ok(UpdatePlan {
                        bank_idx: bi,
                        slot_idx,
                        new_slot,
                        new_bank: Bank {
                            total_deposit_shares: Fp { raw: ntd as u128 },
                            total_liability_shares: Fp { raw: ntl as u128 },
                            liquidity_vault: (bank.liquidity_vault - amount) as u64,
                            ..bank
                        },
                    })
                }
            },
        }
    }
}

impl Ledger {
    /// Withdraws `amount` tokens of an asset from the account's position,
    /// borrowing whatever the deposit slot cannot cover; the bank's
    /// liquidity vault pays the tokens out. Fails with a bad-health error
    /// if the account would not be healthy in the initial regime. The
    /// exact outcome is [`spec_bank_withdraw`].
    #[verifier::rlimit(60)]
    pub fn bank_withdraw(
        &mut self,
        signer: u64,
        account: usize,
        asset_mint: u64,
        amount: u64,
    ) -> (r: Result<(), MarginfiError>)
        requires
            old(self).wf(),
        ensures
            final(self).wf(),
            match spec_bank_withdraw(*old(self), signer, account, asset_mint, amount) {
                Err(e) => r == Err::<(), MarginfiError>(e) && *final(self) == *old(self),
                Ok(plan) => r is Ok
                    && final(self).groups@ == old(self).groups@
                    && final(self).banks@ == old(self).banks@.update(plan.bank_idx, plan.new_bank)
                    && final(self).accounts@.len() == old(self).accounts@.len()
                    && (forall|i: int| 0 <= i < old(self).accounts@.len() && i != account as int
                        ==> final(self).accounts@[i] == old(self).accounts@[i])
                    && final(self).accounts@[account as int].group
                        == old(self).accounts@[account as int].group
                    && final(self).accounts@[account as int].owner
                        == old(self).accounts@[account as int].owner
                    && final(self).accounts@[account as int].lending_account.balances@
                        == old(self).accounts@[account as int].lending_account.balances@.update(
                            plan.slot_idx, plan.new_slot),
            },
    {
        if account >= self.accounts.len() {
            return Err(MarginfiError::AccountNotInitialized);
        }
        let acc_group = self.accounts[account].group;
        let acc_owner = self.accounts[account].owner;
        if signer != acc_owner {
            return Err(MarginfiError::IllegalArgument);
        }
        if amount == 0 {
            return Err(MarginfiError::IllegalArgument);
        }
        let bi = match crate::bank::find_bank_idx(&self.banks, acc_group, asset_mint) {
            None => {
                return Err(MarginfiError::AccountNotInitialized);
            },
            Some(bi) => bi,
        };
        proof {
            lemma_find_bank_spec(self.banks@, acc_group, asset_mint);
            assert(self.banks@[bi as int].wf());
            assert(self.accounts@[account as int].wf());
        }
        let bank = self.banks[bi];
        let amount_fp = Fp::from_amount(amount);
        let ghost obals = self.accounts@[account as int].lending_account.balances@;
        let slot_opt = self.accounts[account].lending_account.get_balance(asset_mint);
        let slot_idx: usize;
        let new_slot: Option<Balance>;
        let dep_delta: Fp;
        let liab_delta: Fp;
        match slot_opt {
            Some(j) => {
                proof {
                    lemma_find_balance_spec(obals, asset_mint);
                }
                let sb = match self.accounts[account].lending_account.balances[j] {
                    Some(b) => b,
                    None => {
                        proof {
                            assert(false);
                        }
                        return Err(MarginfiError::MathError);
                    },
                };
                let avail = match bank.get_deposit_amount(sb.deposit_shares) {
                    None => {
                        return Err(MarginfiError::MathError);
                    },
                    Some(v) => v,
                };
                if amount_fp.raw >= avail.raw {
                    let residual = Fp { raw: amount_fp.raw - avail.raw };
                    let grow: Fp;
                    if residual.raw > 0 {
                        grow = match residual.checked_div_ceil(bank.liability_share_value) {
                            None => {
                                return Err(MarginfiError::MathError);
                            },
                            Some(v) => v,
                        };
                    } else {
                        grow = Fp { raw: 0 };
                    }
                    let nl = match sb.liability_shares.checked_add(grow) {
                        None => {
                            return Err(MarginfiError::MathError);
                        },
                        Some(v) => v,
                    };
                    slot_idx = j;
                    new_slot = if nl.raw == 0 {
                        None
                    } else {
                        Some(Balance {
                            asset_mint,
                            deposit_shares: Fp { raw: 0 },
                            liability_shares: nl,
                        })
                    };
                    dep_delta = sb.deposit_shares;
                    liab_delta = grow;
                } else {
                    proof {
                        // The slot is exclusive: a withdrawal below the
                        // deposit's worth touches a pure deposit slot.
                        assert(slot_wf(obals[j as int]));
                        if sb.deposit_shares.raw == 0 {
                            assert(avail.raw as int
                                == (0int * bank.deposit_share_value.raw) / (FP_SCALE as int));
                            assert(avail.raw == 0);
                        }
                        assert(sb.liability_shares.raw == 0);
                        // A withdrawal below the slot's worth never removes
                        // more shares than the slot holds.
                        crate::fp::lemma_withdraw_within(amount_fp.raw as int,
                            sb.deposit_shares.raw as int, bank.deposit_share_value.raw as int);
                    }
                    let removed = match amount_fp.checked_div_ceil(bank.deposit_share_value) {
                        None => {
                            proof {
                                assert(false);
                            }
                            return Err(MarginfiError::MathError);
                        },
                        Some(v) => v,
                    };
                    let nd = sb.deposit_shares.raw - removed.raw;
                    slot_idx = j;
                    new_slot = if nd == 0 {
                        None
                    } else {
                        Some(Balance {
                            asset_mint,
                            deposit_shares: Fp { raw: nd },
                            liability_shares: Fp { raw: 0 },
                        })
                    };
                    dep_delta = removed;
                    liab_delta = Fp { raw: 0 };
                }
            },
            None => {
                proof {
                    lemma_find_balance_spec(obals, asset_mint);
                    lemma_find_empty_spec(obals);
                }
                let k = match self.accounts[account].lending_account.get_empty_slot() {
                    None => {
                        return Err(MarginfiError::LendingAccountBalanceSlotsFull);
                    },
                    Some(k) => k,
                };
                let borrowed = match amount_fp.checked_div_ceil(bank.liability_share_value) {
                    None => {
                        return Err(MarginfiError::MathError);
                    },
                    Some(v) => v,
                };
                proof {
                    // A positive amount always borrows at least one share.
                    vstd::arithmetic::div_mod::lemma_div_non_zero(
                        amount_fp.raw as int * FP_SCALE + bank.liability_share_value.raw - 1,
                        bank.liability_share_value.raw as int);
                    assert(amount_fp.raw as int * FP_SCALE >= FP_SCALE) by (nonlinear_arith)
                        requires
                            amount_fp.raw >= 1,
                    ;
                }
                slot_idx = k;
                new_slot = Some(Balance {
                    asset_mint,
                    deposit_shares: Fp { raw: 0 },
                    liability_shares: borrowed,
                });
                dep_delta = Fp { raw: 0 };
                liab_delta = borrowed;
            },
        }
        let ntl = match bank.total_liability_shares.checked_add(liab_delta) {
            None => {
                return Err(MarginfiError::MathError);
            },
            Some(v) => v,
        };
        if bank.liquidity_vault < amount {
            return Err(MarginfiError::MathError);
        }
        proof {
            // Conservation bounds the deposit removal by the bank's total.
            assert(self.bank_conserved(bi as int));
            lemma_accounts_sum_lower_bound(self.accounts@, acc_group, asset_mint, false,
                account as int);
            lemma_shares_sum_lower_bound(obals, asset_mint, false, slot_idx as int);
        }
        let ntd = Fp { raw: bank.total_deposit_shares.raw - dep_delta.raw };
        let mut new_bals = crate::account::copy_balances(
            &self.accounts[account].lending_account.balances);
        new_bals[slot_idx] = new_slot;
        let healthy = match crate::risk::check_health(&self.banks, acc_group, &new_bals,
            crate::risk::RiskRequirementType::Initial) {
            Err(e) => {
                return Err(e);
            },
            Ok(h) => h,
        };
        if !healthy {
            return Err(MarginfiError::BadAccountHealth);
        }
        proof {
            crate::fp::lemma_fp_mul_floor_monotone(ntd.raw as int,
                bank.total_deposit_shares.raw as int, bank.deposit_share_value.raw as int);
        }
        let new_bank = Bank {
            total_deposit_shares: ntd,
            total_liability_shares: ntl,
            liquidity_vault: bank.liquidity_vault - amount,
            ..bank
        };
        let ghost old_self = *self;
        let new_acc = MarginfiAccount {
            group: acc_group,
            owner: acc_owner,
            lending_account: LendingAccount { balances: new_bals },
        };
        self.accounts[account] = new_acc;
        self.banks[bi] = new_bank;
        proof {
            let asset = asset_mint;
            let old_slot = obals[slot_idx as int];
            assert(shares_of(new_slot, asset, false) - shares_of(old_slot, asset, false)
                == -(dep_delta.raw as int));
            assert(shares_of(new_slot, asset, true) - shares_of(old_slot, asset, true)
                == liab_delta.raw);
            lemma_wf_after_update(old_self, *self, account as int, bi as int, slot_idx as int,
                new_slot);
            match spec_bank_withdraw(old_self, signer, account, asset_mint, amount) {
                Ok(plan) => {
                    assert(plan.bank_idx == bi as int);
                    assert(plan.slot_idx == slot_idx as int);
                    assert(plan.new_slot == new_slot);
                    assert(plan.new_bank == new_bank);
                },
                Err(_) => {
                    assert(false);
                },
            }
        }
        Ok(())
    }
}

/// Liquidator bonus: 2.5%, as a raw fixed-point value (`0.025 * 2^48`,
/// rounded to nearest).
pub const LIQUIDATION_LIQUIDATOR_FEE_RAW: u128 = 7036874417766;

/// Insurance skim: 2.5%, as a raw fixed-point value (`0.025 * 2^48`,
/// rounded to nearest).
pub const LIQUIDATION_INSURANCE_FEE_RAW: u128 = 7036874417766;

/// The state changes a successful liquidation commits: both accounts
/// update their slots for the collateral and the liability asset, and the
/// liability asset's bank absorbs the share and vault changes (the
/// collateral bank only sees shares move between accounts).
pub struct LiquidatePlan {
    pub bank_l_idx: int,
    pub new_bank_l: Bank,
    pub ee_c_idx: int,
    pub ee_c_new: Option<Balance>,
    pub ee_l_idx: int,
    pub ee_l_new: Option<Balance>,
    pub or_c_idx: int,
    pub or_c_new: Option<Balance>,
    pub or_l_idx: int,
    pub or_l_new: Option<Balance>,
}

/// The full decision a liquidation makes: which error it fails with, or
/// the exact state changes it commits.
///
/// The liquidator seizes `amount` units of the collateral asset from the
/// liquidatee and pays its worth, less the liquidator bonus, in the
/// liability asset out of its own deposits (no borrowing); most of that
/// payment retires the liquidatee's debt and the insurance skim moves, in
/// tokens of the liability asset, from the liquidity vault to the
/// insurance vault. The liquidatee must be unhealthy in the maintenance
/// regime before, and back to initial-regime health after (no
/// over-shooting); the liquidator must stay healthy in the initial regime.
pub open spec fn spec_liquidate(
    l: Ledger,
    signer: u64,
    liquidator: usize,
    liquidatee: usize,
    asset_collateral: u64,
    amount: u64,
    asset_liability: u64,
) -> Result<LiquidatePlan, MarginfiError> {
    if liquidator >= l.accounts@.len() || liquidatee >= l.accounts@.len() {
        Err(MarginfiError::AccountNotInitialized)
    } else {
        let orx = l.accounts@[liquidator as int];
        let eex = l.accounts@[liquidatee as int];
        if signer != orx.owner || liquidator == liquidatee
            || asset_collateral == asset_liability || orx.group != eex.group || amount == 0 {
            Err(MarginfiError::IllegalArgument)
        } else {
            let g = orx.group;
            match find_bank(l.banks@, g, asset_collateral) {
                None => Err(MarginfiError::AccountNotInitialized),
                Some(bci) => match find_bank(l.banks@, g, asset_liability) {
                    None => Err(MarginfiError::AccountNotInitialized),
                    Some(bli) => {
                        let bank_c = l.banks@[bci];
                        let bank_l = l.banks@[bli];
                        match bank_c.config.oracle_price {
                            None => Err(MarginfiError::OracleError),
                            Some(price_c) => match bank_l.config.oracle_price {
                                None => Err(MarginfiError::OracleError),
                                Some(price_l) => spec_liquidate_checked(l, liquidator,
                                    liquidatee, asset_collateral, amount, asset_liability,
                                    bci, bli, price_c, price_l),
                            },
                        }
                    },
                },
            }
        }
    }
}

/// The arithmetic and health part of [`spec_liquidate`], after the
/// structural checks have passed.
pub open spec fn spec_liquidate_checked(
    l: Ledger,
    liquidator: usize,
    liquidatee: usize,
    asset_collateral: u64,
    amount: u64,
    asset_liability: u64,
    bci: int,
    bli: int,
    price_c: Fp,
    price_l: Fp,
) -> Result<LiquidatePlan, MarginfiError> {
    let orx = l.accounts@[liquidator as int];
    let eex = l.accounts@[liquidatee as int];
    let g = orx.group;
    let bank_c = l.banks@[bci];
    let bank_l = l.banks@[bli];
    let or_bals = orx.lending_account.balances@;
    let ee_bals = eex.lending_account.balances@;
    let lim = crate::fp::fp_limit();
    match crate::risk::spec_healthy(l.banks@, g, ee_bals,
        crate::risk::RiskRequirementType::Maintenance) {
        Err(e) => Err(e),
        Ok(pre_healthy) => {
            if pre_healthy {
                Err(MarginfiError::AccountIllegalPostLiquidationState)
            } else {
                let q_raw = amount * FP_SCALE;
                let v = crate::fp::fp_mul_floor(q_raw, price_c.raw as int);
                let debit_factor = FP_SCALE - LIQUIDATION_LIQUIDATOR_FEE_RAW;
                let net_factor = FP_SCALE - LIQUIDATION_LIQUIDATOR_FEE_RAW
                    - LIQUIDATION_INSURANCE_FEE_RAW;
                let v_debit = crate::fp::fp_mul_floor(v, debit_factor as int);
                let v_net = crate::fp::fp_mul_floor(v, net_factor as int);
                let v_ins = crate::fp::fp_mul_floor(v, LIQUIDATION_INSURANCE_FEE_RAW as int);
                if v >= lim || v_debit >= lim || v_net >= lim || v_ins >= lim {
                    Err(MarginfiError::MathError)
                } else if price_l.raw == 0 {
                    Err(MarginfiError::MathError)
                } else {
                    let q_debit = crate::fp::fp_div_floor(v_debit, price_l.raw as int);
                    let q_relief = crate::fp::fp_div_floor(v_net, price_l.raw as int);
                    let q_ins_fp = crate::fp::fp_div_floor(v_ins, price_l.raw as int);
                    if q_debit >= lim || q_relief >= lim || q_ins_fp >= lim {
                        Err(MarginfiError::MathError)
                    } else if q_ins_fp / (FP_SCALE as int) > u64::MAX {
                        Err(MarginfiError::MathError)
                    } else {
                        let q_ins = q_ins_fp / (FP_SCALE as int);
                        let s_seized = crate::fp::fp_div_floor(q_raw,
                            bank_c.deposit_share_value.raw as int);
                        if s_seized >= lim {
                            Err(MarginfiError::MathError)
                        } else {
                            match find_balance(ee_bals, asset_collateral) {
                                None => Err(MarginfiError::MathError),
                                Some(jc) => {
                                    let eec = slot_balance(ee_bals[jc]);
                                    if s_seized > eec.deposit_shares.raw {
                                        Err(MarginfiError::MathError)
                                    } else {
                                        let ndc = eec.deposit_shares.raw - s_seized;
                                        let ee_c_new: Option<Balance> = if ndc == 0
                                            && eec.liability_shares.raw == 0 {
                                            None
                                        } else {
                                            Some(Balance {
                                                asset_mint: asset_collateral,
                                                deposit_shares: Fp { raw: ndc as u128 },
                                                liability_shares: eec.liability_shares,
                                            })
                                        };
                                        spec_liquidate_slots(l, liquidator, liquidatee,
                                            asset_collateral, amount, asset_liability, bci,
                                            bli, s_seized, q_debit, q_relief, q_ins, jc,
                                            ee_c_new)
                                    }
                                },
                            }
                        }
                    }
                }
            }
        },
    }
}

/// The slot and post-check part of [`spec_liquidate`], after the seized
/// collateral has been settled on the liquidatee.
pub open spec fn spec_liquidate_slots(
    l: Ledger,
    liquidator: usize,
    liquidatee: usize,
    asset_collateral: u64,
    amount: u64,
    asset_liability: u64,
    bci: int,
    bli: int,
    s_seized: int,
    q_debit: int,
    q_relief: int,
    q_ins: int,
    ee_c_idx: int,
    ee_c_new: Option<Balance>,
) -> Result<LiquidatePlan, MarginfiError> {
    let orx = l.accounts@[liquidator as int];
    let eex = l.accounts@[liquidatee as int];
    let g = orx.group;
    let bank_l = l.banks@[bli];
    let or_bals = orx.lending_account.balances@;
    let ee_bals = eex.lending_account.balances@;
    let lim = crate::fp::fp_limit();
    match find_balance(ee_bals, asset_liability) {
        None => Err(MarginfiError::AccountIllegalPostLiquidationState),
        Some(jl) => {
            let eel = slot_balance(ee_bals[jl]);
            let s_relief = crate::fp::fp_div_floor(q_relief,
                bank_l.liability_share_value.raw as int);
            if s_relief >= lim {
                Err(MarginfiError::MathError)
            } else if s_relief > eel.liability_shares.raw {
                Err(MarginfiError::AccountIllegalPostLiquidationState)
            } else {
                let nll = eel.liability_shares.raw - s_relief;
                let ee_l_new: Option<Balance> = if eel.deposit_shares.raw == 0 && nll == 0 {
                    None
                } else {
                    Some(Balance {
                        asset_mint: asset_liability,
                        deposit_shares: eel.deposit_shares,
                        liability_shares: Fp { raw: nll as u128 },
                    })
                };
                let or_c = match find_balance(or_bals, asset_collateral) {
                    Some(joc) => {
                        let ocb = slot_balance(or_bals[joc]);
                        if ocb.liability_shares.raw > 0 {
                            Err(MarginfiError::IllegalArgument)
                        } else if ocb.deposit_shares.raw + s_seized >= lim {
                            Err(MarginfiError::MathError)
                        } else {
                            Ok((joc, Some(Balance {
                                asset_mint: asset_collateral,
                                deposit_shares: Fp {
                                    raw: (ocb.deposit_shares.raw + s_seized) as u128,
                                },
                                liability_shares: Fp { raw: 0 },
                            })))
                        }
                    },
                    None => match find_empty(or_bals) {
                        None => Err(MarginfiError::LendingAccountBalanceSlotsFull),
                        Some(koc) => {
                            if s_seized == 0 {
                                Ok((koc, None))
                            } else {
                                Ok((koc, Some(Balance {
                                    asset_mint: asset_collateral,
                                    deposit_shares: Fp { raw: s_seized as u128 },
                                    liability_shares: Fp { raw: 0 },
                                })))
                            }
                        },
                    },
                };
                match or_c {
                    Err(e) => Err(e),
                    Ok((or_c_idx, or_c_new)) => match find_balance(or_bals, asset_liability) {
                        None => Err(MarginfiError::BorrowingNotAllowed),
                        Some(jol) => {
                            let olb = slot_balance(or_bals[jol]);
                            let s_debit = crate::fp::fp_div_ceil(q_debit,
                                bank_l.deposit_share_value.raw as int);
                            if olb.liability_shares.raw > 0 {
                                Err(MarginfiError::BorrowingNotAllowed)
                            } else if s_debit >= lim {
                                Err(MarginfiError::MathError)
                            } else if s_debit > olb.deposit_shares.raw {
                                Err(MarginfiError::BorrowingNotAllowed)
                            } else {
                                let nod = olb.deposit_shares.raw - s_debit;
                                let or_l_new: Option<Balance> = if nod == 0 {
                                    None
                                } else {
                                    Some(Balance {
                                        asset_mint: asset_liability,
                                        deposit_shares: Fp { raw: nod as u128 },
                                        liability_shares: Fp { raw: 0 },
                                    })
                                };
                                if bank_l.liquidity_vault < q_ins {
                                    Err(MarginfiError::MathError)
                                } else if bank_l.insurance_vault + q_ins > u64::MAX {
                                    Err(MarginfiError::MathError)
                                } else {
                                    let new_bank_l = Bank {
                                        total_deposit_shares: Fp {
                                            raw: (bank_l.total_deposit_shares.raw - s_debit) as u128,
                                        },
                                        total_liability_shares: Fp {
                                            raw: (bank_l.total_liability_shares.raw
                                                - s_relief) as u128,
                                        },
                                        liquidity_vault: (bank_l.liquidity_vault - q_ins) as u64,
                                        insurance_vault: (bank_l.insurance_vault + q_ins) as u64,
                                        ..bank_l
                                    };
                                    let new_or_bals = or_bals.update(or_c_idx,
                                        or_c_new).update(jol, or_l_new);
                                    let new_ee_bals = ee_bals.update(ee_c_idx,
                                        ee_c_new).update(jl, ee_l_new);
                                    match crate::risk::spec_healthy(l.banks@, g, new_or_bals,
                                        crate::risk::RiskRequirementType::Initial) {
                                        Err(e) => Err(e),
                                        Ok(or_healthy) => {
                                            if !or_healthy {
                                                Err(MarginfiError::BorrowingNotAllowed)
                                            } else {
                                                match crate::risk::spec_healthy(l.banks@, g,
                                                    new_ee_bals,
                                                    crate::risk::RiskRequirementType::Initial) {
                                                    Err(e) => Err(e),
                                                    Ok(ee_healthy) => {
                                                        if !ee_healthy {
                                                            Err(MarginfiError::AccountIllegalPostLiquidationState)
                                                        } else {
                                                            Ok(LiquidatePlan {
                                                                bank_l_idx: bli,
                                                                new_bank_l,
                                                                ee_c_idx,
                                                                ee_c_new,
                                                                ee_l_idx: jl,
                                                                ee_l_new,
                                                                or_c_idx,
                                                                or_c_new,
                                                                or_l_idx: jol,
                                                                or_l_new,
                                                            })
                                                        }
                                                    },
                                                }
                                            }
                                        },
                                    }
                                }
                            }
                        },
                    },
                }
            }
        },
    }
}

impl Ledger {
    /// Commits the common single-slot transition: one balance slot of one
    /// account is replaced and the asset's bank absorbs exactly the share
    /// difference, preserving the ledger invariant.
    fn apply_update(
        &mut self,
        account: usize,
        bank_idx: usize,
        slot_idx: usize,
        new_slot: Option<Balance>,
        new_bank: Bank,
    )
        requires
            old(self).wf(),
            account < old(self).accounts@.len(),
            bank_idx < old(self).banks@.len(),
            old(self).accounts@[account as int].group == old(self).banks@[bank_idx as int].group,
            slot_idx < old(self).accounts@[account as int].lending_account.balances@.len(),
            balance_matches(old(self).accounts@[account as int].lending_account.balances@[
                slot_idx as int], old(self).banks@[bank_idx as int].asset_mint)
                || (old(self).accounts@[account as int].lending_account.balances@[
                    slot_idx as int] is None
                    && (forall|k: int|
                        0 <= k < old(self).accounts@[account as int].lending_account.balances@.len()
                        ==> !balance_matches(
                            #[trigger] old(self).accounts@[account as int].lending_account.balances@[k],
                            old(self).banks@[bank_idx as int].asset_mint))),
            new_slot is Some ==> slot_balance(new_slot).asset_mint
                == old(self).banks@[bank_idx as int].asset_mint && slot_wf(new_slot),
            new_bank.group == old(self).banks@[bank_idx as int].group,
            new_bank.asset_mint == old(self).banks@[bank_idx as int].asset_mint,
            new_bank.deposit_share_value == old(self).banks@[bank_idx as int].deposit_share_value,
            new_bank.liability_share_value
                == old(self).banks@[bank_idx as int].liability_share_value,
            new_bank.config == old(self).banks@[bank_idx as int].config,
            crate::fp::fp_mul_floor(new_bank.total_deposit_shares.raw as int,
                new_bank.deposit_share_value.raw as int)
                <= new_bank.config.max_capacity * FP_SCALE,
            new_bank.total_deposit_shares.raw as int
                == old(self).banks@[bank_idx as int].total_deposit_shares.raw
                    + shares_of(new_slot, old(self).banks@[bank_idx as int].asset_mint, false)
                    - shares_of(old(self).accounts@[account as int].lending_account.balances@[
                        slot_idx as int], old(self).banks@[bank_idx as int].asset_mint, false),
            new_bank.total_liability_shares.raw as int
                == old(self).banks@[bank_idx as int].total_liability_shares.raw
                    + shares_of(new_slot, old(self).banks@[bank_idx as int].asset_mint, true)
                    - shares_of(old(self).accounts@[account as int].lending_account.balances@[
                        slot_idx as int], old(self).banks@[bank_idx as int].asset_mint, true),
        ensures
            final(self).wf(),
            final(self).groups@ == old(self).groups@,
            final(self).banks@ == old(self).banks@.update(bank_idx as int, new_bank),
            final(self).accounts@.len() == old(self).accounts@.len(),
            forall|i: int| 0 <= i < old(self).accounts@.len() && i != account as int
                ==> final(self).accounts@[i] == old(self).accounts@[i],
            final(self).accounts@[account as int].group
                == old(self).accounts@[account as int].group,
            final(self).accounts@[account as int].owner
                == old(self).accounts@[account as int].owner,
            final(self).accounts@[account as int].lending_account.balances@
                == old(self).accounts@[account as int].lending_account.balances@.update(
                    slot_idx as int, new_slot),
    {
        let acc_group = self.accounts[account].group;
        let acc_owner = self.accounts[account].owner;
        let mut nb = crate::account::copy_balances(
            &self.accounts[account].lending_account.balances);
        nb[slot_idx] = new_slot;
        self.accounts[account] = MarginfiAccount {
            group: acc_group,
            owner: acc_owner,
            lending_account: LendingAccount { balances: nb },
        };
        self.banks[bank_idx] = new_bank;
        proof {
            lemma_wf_after_update(*old(self), *self, account as int, bank_idx as int,
                slot_idx as int, new_slot);
        }
    }

    /// Liquidates part of an unhealthy account: the liquidator seizes
    /// `amount` units of the collateral asset at a bonus, pays in the
    /// liability asset from its own deposits, the payment (net of the
    /// insurance skim) retires the liquidatee's debt, and the skim moves to
    /// the insurance vault. The exact outcome is [`spec_liquidate`].
    #[verifier::rlimit(100)]
    pub fn liquidate(
        &mut self,
        signer: u64,
        liquidator: usize,
        liquidatee: usize,
        asset_collateral: u64,
        amount: u64,
        asset_liability: u64,
    ) -> (r: Result<(), MarginfiError>)
        requires
            old(self).wf(),
        ensures
            final(self).wf(),
            match spec_liquidate(*old(self), signer, liquidator, liquidatee, asset_collateral,
                amount, asset_liability) {
                Err(e) => r == Err::<(), MarginfiError>(e) && *final(self) == *old(self),
                Ok(plan) => r is Ok
                    && final(self).groups@ == old(self).groups@
                    && final(self).banks@ == old(self).banks@.update(plan.bank_l_idx,
                        plan.new_bank_l)
                    && final(self).accounts@.len() == old(self).accounts@.len()
                    && (forall|i: int| 0 <= i < old(self).accounts@.len()
                        && i != liquidator as int && i != liquidatee as int
                        ==> final(self).accounts@[i] == old(self).accounts@[i])
                    && final(self).accounts@[liquidatee as int].group
                        == old(self).accounts@[liquidatee as int].group
                    && final(self).accounts@[liquidatee as int].owner
                        == old(self).accounts@[liquidatee as int].owner
                    && final(self).accounts@[liquidatee as int].lending_account.balances@
                        == old(self).accounts@[liquidatee as int].lending_account.balances@
                            .update(plan.ee_c_idx, plan.ee_c_new)
                            .update(plan.ee_l_idx, plan.ee_l_new)
                    && final(self).accounts@[liquidator as int].group
                        == old(self).accounts@[liquidator as int].group
                    && final(self).accounts@[liquidator as int].owner
                        == old(self).accounts@[liquidator as int].owner
                    && final(self).accounts@[liquidator as int].lending_account.balances@
                        == old(self).accounts@[liquidator as int].lending_account.balances@
                            .update(plan.or_c_idx, plan.or_c_new)
                            .update(plan.or_l_idx, plan.or_l_new),
            },
    {
        if liquidator >= self.accounts.len() || liquidatee >= self.accounts.len() {
            return Err(MarginfiError::AccountNotInitialized);
        }
        let or_owner = self.accounts[liquidator].owner;
        let or_group = self.accounts[liquidator].group;
        let ee_group = self.accounts[liquidatee].group;
        let ee_owner = self.accounts[liquidatee].owner;
        if signer != or_owner || liquidator == liquidatee || asset_collateral == asset_liability
            || or_group != ee_group || amount == 0 {
            return Err(MarginfiError::IllegalArgument);
        }
        let g = or_group;
        let bci = match crate::bank::find_bank_idx(&self.banks, g, asset_collateral) {
            None => {
                return Err(MarginfiError::AccountNotInitialized);
            },
            Some(x) => x,
        };
        proof {
            lemma_find_bank_spec(self.banks@, g, asset_collateral);
        }
        let bli = match crate::bank::find_bank_idx(&self.banks, g, asset_liability) {
            None => {
                return Err(MarginfiError::AccountNotInitialized);
            },
            Some(x) => x,
        };
        proof {
            lemma_find_bank_spec(self.banks@, g, asset_liability);
            assert(self.banks@[bci as int].wf());
            assert(self.banks@[bli as int].wf());
            assert(self.accounts@[liquidator as int].wf());
            assert(self.accounts@[liquidatee as int].wf());
        }
        let bank_c = self.banks[bci];
        let bank_l = self.banks[bli];
        let price_c = match bank_c.config.oracle_price {
            None => {
                return Err(MarginfiError::OracleError);
            },
            Some(p) => p,
        };
        let price_l = match bank_l.config.oracle_price {
            None => {
                return Err(MarginfiError::OracleError);
            },
            Some(p) => p,
        };
        let pre = match crate::risk::check_health(&self.banks, g,
            &self.accounts[liquidatee].lending_account.balances,
            crate::risk::RiskRequirementType::Maintenance) {
            Err(e) => {
                return Err(e);
            },
            Ok(h) => h,
        };
        if pre {
            return Err(MarginfiError::AccountIllegalPostLiquidationState);
        }
        let q_fp = Fp::from_amount(amount);
        let v = match q_fp.checked_mul(price_c) {
            None => {
                return Err(MarginfiError::MathError);
            },
            Some(x) => x,
        };
        let debit_factor = Fp { raw: FP_SCALE - LIQUIDATION_LIQUIDATOR_FEE_RAW };
        let net_factor = Fp {
            raw: FP_SCALE - LIQUIDATION_LIQUIDATOR_FEE_RAW - LIQUIDATION_INSURANCE_FEE_RAW,
        };
        let ins_factor = Fp { raw: LIQUIDATION_INSURANCE_FEE_RAW };
        let v_debit = match v.checked_mul(debit_factor) {
            None => {
                return Err(MarginfiError::MathError);
            },
            Some(x) => x,
        };
        let v_net = match v.checked_mul(net_factor) {
            None => {
                return Err(MarginfiError::MathError);
            },
            Some(x) => x,
        };
        let v_ins = match v.checked_mul(ins_factor) {
            None => {
                return Err(MarginfiError::MathError);
            },
            Some(x) => x,
        };
        let q_debit = match v_debit.checked_div(price_l) {
            None => {
                return Err(MarginfiError::MathError);
            },
            Some(x) => x,
        };
        let q_relief = match v_net.checked_div(price_l) {
            None => {
                return Err(MarginfiError::MathError);
            },
            Some(x) => x,
        };
        let q_ins_fp = match v_ins.checked_div(price_l) {
            None => {
                return Err(MarginfiError::MathError);
            },
            Some(x) => x,
        };
        let q_ins = match q_ins_fp.to_amount_floor() {
            None => {
                return Err(MarginfiError::MathError);
            },
            Some(x) => x,
        };
        let s_seized = match q_fp.checked_div(bank_c.deposit_share_value) {
            None => {
                return Err(MarginfiError::MathError);
            },
            Some(x) => x,
        };
        let ghost ee_bals = self.accounts@[liquidatee as int].lending_account.balances@;
        let ghost or_bals = self.accounts@[liquidator as int].lending_account.balances@;
        proof {
            lemma_find_balance_spec(ee_bals, asset_collateral);
            lemma_find_balance_spec(ee_bals, asset_liability);
            lemma_find_balance_spec(or_bals, asset_collateral);
            lemma_find_balance_spec(or_bals, asset_liability);
            lemma_find_empty_spec(or_bals);
        }
        let jc = match self.accounts[liquidatee].lending_account.get_balance(asset_collateral) {
            None => {
                return Err(MarginfiError::MathError);
            },
            Some(j) => j,
        };
        let eec = match self.accounts[liquidatee].lending_account.balances[jc] {
            Some(b) => b,
            None => {
                proof {
                    assert(false);
                }
                return Err(MarginfiError::MathError);
            },
        };
        if s_seized.raw > eec.deposit_shares.raw {
            return Err(MarginfiError::MathError);
        }
        let ndc = eec.deposit_shares.raw - s_seized.raw;
        let ee_c_new: Option<Balance> = if ndc == 0 && eec.liability_shares.raw == 0 {
            None
        } else {
            Some(Balance {
                asset_mint: asset_collateral,
                deposit_shares: Fp { raw: ndc },
                liability_shares: eec.liability_shares,
            })
        };
        let jl = match self.accounts[liquidatee].lending_account.get_balance(asset_liability) {
            None => {
                return Err(MarginfiError::AccountIllegalPostLiquidationState);
            },
            Some(j) => j,
        };
        let eel = match self.accounts[liquidatee].lending_account.balances[jl] {
            Some(b) => b,
            None => {
                proof {
                    assert(false);
                }
                return Err(MarginfiError::MathError);
            },
        };
        let s_relief = match q_relief.checked_div(bank_l.liability_share_value) {
            None => {
                return Err(MarginfiError::MathError);
            },
            Some(x) => x,
        };
        if s_relief.raw > eel.liability_shares.raw {
            return Err(MarginfiError::AccountIllegalPostLiquidationState);
        }
        let nll = eel.liability_shares.raw - s_relief.raw;
        let ee_l_new: Option<Balance> = if eel.deposit_shares.raw == 0 && nll == 0 {
            None
        } else {
            Some(Balance {
                asset_mint: asset_liability,
                deposit_shares: eel.deposit_shares,
                liability_shares: Fp { raw: nll },
            })
        };
        let or_c_idx: usize;
        let or_c_new: Option<Balance>;
        match self.accounts[liquidator].lending_account.get_balance(asset_collateral) {
            Some(joc) => {
                let ocb = match self.accounts[liquidator].lending_account.balances[joc] {
                    Some(b) => b,
                    None => {
                        proof {
                            assert(false);
                        }
                        return Err(MarginfiError::MathError);
                    },
                };
                if ocb.liability_shares.raw > 0 {
                    return Err(MarginfiError::IllegalArgument);
                }
                let nd = match ocb.deposit_shares.checked_add(s_seized) {
                    None => {
                        return Err(MarginfiError::MathError);
                    },
                    Some(x) => x,
                };
                or_c_idx = joc;
                or_c_new = Some(Balance {
                    asset_mint: asset_collateral,
                    deposit_shares: nd,
                    liability_shares: Fp { raw: 0 },
                });
            },
            None => {
                let koc = match self.accounts[liquidator].lending_account.get_empty_slot() {
                    None => {
                        return Err(MarginfiError::LendingAccountBalanceSlotsFull);
                    },
                    Some(k) => k,
                };
                or_c_idx = koc;
                or_c_new = if s_seized.raw == 0 {
                    None
                } else {
                    Some(Balance {
                        asset_mint: asset_collateral,
                        deposit_shares: s_seized,
                        liability_shares: Fp { raw: 0 },
                    })
                };
            },
        }
        let jol = match self.accounts[liquidator].lending_account.get_balance(asset_liability) {
            None => {
                return Err(MarginfiError::BorrowingNotAllowed);
            },
            Some(j) => j,
        };
        let olb = match self.accounts[liquidator].lending_account.balances[jol] {
            Some(b) => b,
            None => {
                proof {
                    assert(false);
                }
                return Err(MarginfiError::MathError);
            },
        };
        if olb.liability_shares.raw > 0 {
            return Err(MarginfiError::BorrowingNotAllowed);
        }
        let s_debit = match q_debit.checked_div_ceil(bank_l.deposit_share_value) {
            None => {
                return Err(MarginfiError::MathError);
            },
            Some(x) => x,
        };
        if s_debit.raw > olb.deposit_shares.raw {
            return Err(MarginfiError::BorrowingNotAllowed);
        }
        let nod = olb.deposit_shares.raw - s_debit.raw;
        let or_l_new: Option<Balance> = if nod == 0 {
            None
        } else {
            Some(Balance {
                asset_mint: asset_liability,
                deposit_shares: Fp { raw: nod },
                liability_shares: Fp { raw: 0 },
            })
        };
        if bank_l.liquidity_vault < q_ins {
            return Err(MarginfiError::MathError);
        }
        if q_ins > u64::MAX - bank_l.insurance_vault {
            return Err(MarginfiError::MathError);
        }
        proof {
            // Conservation bounds every share removal by the bank totals.
            assert(self.bank_conserved(bli as int));
            assert(self.bank_conserved(bci as int));
            lemma_accounts_sum_lower_bound(self.accounts@, g, asset_liability, true,
                liquidatee as int);
            lemma_shares_sum_lower_bound(ee_bals, asset_liability, true, jl as int);
            lemma_accounts_sum_lower_bound(self.accounts@, g, asset_liability, false,
                liquidator as int);
            lemma_shares_sum_lower_bound(or_bals, asset_liability, false, jol as int);
            lemma_accounts_sum_lower_bound(self.accounts@, g, asset_collateral, false,
                liquidatee as int);
            lemma_shares_sum_lower_bound(ee_bals, asset_collateral, false, jc as int);
        }
        let new_bank_l = Bank {
            total_deposit_shares: Fp { raw: bank_l.total_deposit_shares.raw - s_debit.raw },
            total_liability_shares: Fp { raw: bank_l.total_liability_shares.raw - s_relief.raw },
            liquidity_vault: bank_l.liquidity_vault - q_ins,
            insurance_vault: bank_l.insurance_vault + q_ins,
            ..bank_l
        };
        let mut h_or = crate::account::copy_balances(
            &self.accounts[liquidator].lending_account.balances);
        h_or[or_c_idx] = or_c_new;
        h_or[jol] = or_l_new;
        let or_h = match crate::risk::check_health(&self.banks, g, &h_or,
            crate::risk::RiskRequirementType::Initial) {
            Err(e) => {
                return Err(e);
            },
            Ok(h) => h,
        };
        if !or_h {
            return Err(MarginfiError::BorrowingNotAllowed);
        }
        let mut h_ee = crate::account::copy_balances(
            &self.accounts[liquidatee].lending_account.balances);
        h_ee[jc] = ee_c_new;
        h_ee[jl] = ee_l_new;
        let ee_h = match crate::risk::check_health(&self.banks, g, &h_ee,
            crate::risk::RiskRequirementType::Initial) {
            Err(e) => {
                return Err(e);
            },
            Ok(h) => h,
        };
        if !ee_h {
            return Err(MarginfiError::AccountIllegalPostLiquidationState);
        }
        let ghost l0 = *self;
        // Commit in four single-slot steps; each preserves the invariant.
        let bank_c_mid = Bank {
            total_deposit_shares: Fp { raw: bank_c.total_deposit_shares.raw - s_seized.raw },
            ..bank_c
        };
        proof {
            assert(slot_wf(ee_bals[jc as int]));
            crate::fp::lemma_fp_mul_floor_monotone(bank_c_mid.total_deposit_shares.raw as int,
                bank_c.total_deposit_shares.raw as int, bank_c.deposit_share_value.raw as int);
        }
        self.apply_update(liquidatee, bci, jc, ee_c_new, bank_c_mid);
        proof {
            assert(slot_wf(or_bals[or_c_idx as int]));
        }
        self.apply_update(liquidator, bci, or_c_idx, or_c_new, bank_c);
        let bank_l_mid = Bank {
            total_liability_shares: Fp { raw: bank_l.total_liability_shares.raw - s_relief.raw },
            ..bank_l
        };
        proof {
            assert(slot_wf(ee_bals[jl as int]));
            assert(jc != jl);
        }
        self.apply_update(liquidatee, bli, jl, ee_l_new, bank_l_mid);
        proof {
            assert(slot_wf(or_bals[jol as int]));
            assert(jol != or_c_idx);
            crate::fp::lemma_fp_mul_floor_monotone(new_bank_l.total_deposit_shares.raw as int,
                bank_l_mid.total_deposit_shares.raw as int,
                bank_l_mid.deposit_share_value.raw as int);
        }
        self.apply_update(liquidator, bli, jol, or_l_new, new_bank_l);
        proof {
            assert(bank_c == l0.banks@[bci as int]);
            assert(self.banks@ =~= l0.banks@.update(bli as int, new_bank_l));
            assert(self.accounts@[liquidatee as int].lending_account.balances@
                =~= ee_bals.update(jc as int, ee_c_new).update(jl as int, ee_l_new));
            assert(self.accounts@[liquidator as int].lending_account.balances@
                =~= or_bals.update(or_c_idx as int, or_c_new).update(jol as int, or_l_new));
            match spec_liquidate(l0, signer, liquidator, liquidatee, asset_collateral, amount,
                asset_liability) {
                Ok(plan) => {
                    assert(plan.bank_l_idx == bli as int);
                    assert(plan.new_bank_l == new_bank_l);
                    assert(plan.ee_c_idx == jc as int && plan.ee_c_new == ee_c_new);
                    assert(plan.ee_l_idx == jl as int && plan.ee_l_new == ee_l_new);
                    assert(plan.or_c_idx == or_c_idx as int && plan.or_c_new == or_c_new);
                    assert(plan.or_l_idx == jol as int && plan.or_l_new == or_l_new);
                },
                Err(_) => {
                    assert(false);
                },
            }
        }
        Ok(())
    }
}

} // verus!
