//! Accounts and their balance tables.
//!
//! A marginfi account belongs to one group and holds a fixed-length table of
//! up to [`MAX_BALANCES`] optional balance slots, each slot either empty or
//! holding one asset's deposit-share and liability-share counts. Order
//! within the table carries no semantic meaning; slots are addressed by
//! asset.

use vstd::prelude::*;
use crate::fp::Fp;

verus! {

/// Number of balance slots per account.
pub const MAX_BALANCES: usize = 16;

/// One asset's position within an account.
#[derive(Clone, Copy, Debug, PartialEq, Eq, Structural)]
pub struct Balance {
    pub asset_mint: u64,
    pub deposit_shares: Fp,
    pub liability_shares: Fp,
}

/// The balance table of an account.
#[derive(Debug)]
pub struct LendingAccount {
    pub balances: Vec<Option<Balance>>,
}

/// A user account within a group.
#[derive(Debug)]
pub struct MarginfiAccount {
    pub group: usize,
    pub owner: u64,
    pub lending_account: LendingAccount,
}

/// The balance a slot holds; an empty slot yields an all-zero balance.
pub open spec fn slot_balance(s: Option<Balance>) -> Balance {
    match s {
        Some(b) => b,
        None => Balance {
            asset_mint: 0,
            deposit_shares: Fp { raw: 0 },
            liability_shares: Fp { raw: 0 },
        },
    }
}

/// Whether a slot is active and holds the given asset.
pub open spec fn balance_matches(s: Option<Balance>, asset: u64) -> bool {
    s is Some && slot_balance(s).asset_mint == asset
}

/// Index of the first slot holding the given asset, if any.
pub open spec fn find_balance(bals: Seq<Option<Balance>>, asset: u64) -> Option<int>
    decreases bals.len(),
{
    if bals.len() <= 0 {
        None
    } else if balance_matches(bals[0], asset) {
        Some(0)
    } else {
        match find_balance(bals.drop_first(), asset) {
            Some(i) => Some(i + 1),
            None => None,
        }
    }
}

/// Index of the first empty slot, if any.
pub open spec fn find_empty(bals: Seq<Option<Balance>>) -> Option<int>
    decreases bals.len(),
{
    if bals.len() <= 0 {
        None
    } else if bals[0] is None {
        Some(0)
    } else {
        match find_empty(bals.drop_first()) {
            Some(i) => Some(i + 1),
            None => None,
        }
    }
}

/// The deposit (or liability) shares a slot contributes for the given asset.
pub open spec fn shares_of(s: Option<Balance>, asset: u64, liability: bool) -> int {
    if balance_matches(s, asset) {
        if liability {
            slot_balance(s).liability_shares.raw as int
        } else {
            slot_balance(s).deposit_shares.raw as int
        }
    } else {
        0
    }
}

/// Total deposit (or liability) shares a balance table holds for an asset.
pub open spec fn shares_sum(bals: Seq<Option<Balance>>, asset: u64, liability: bool) -> int
    decreases bals.len(),
{
    if bals.len() <= 0 {
        0
    } else {
        shares_sum(bals.drop_last(), asset, liability) + shares_of(bals.last(), asset, liability)
    }
}

/// An active slot holds shares on at most one side, and never none at all.
pub open spec fn slot_wf(s: Option<Balance>) -> bool {
    match s {
        Some(b) => {
            &&& (b.deposit_shares.raw == 0 || b.liability_shares.raw == 0)
            &&& !(b.deposit_shares.raw == 0 && b.liability_shares.raw == 0)
        },
        None => true,
    }
}

/// Well-formedness of a balance table: fixed length, each slot exclusive,
/// and no two active slots for the same asset.
pub open spec fn balances_wf(bals: Seq<Option<Balance>>) -> bool {
    &&& bals.len() == MAX_BALANCES
    &&& (forall|i: int| 0 <= i < bals.len() ==> slot_wf(#[trigger] bals[i]))
    &&& (forall|i: int, j: int|
        0 <= i < j < bals.len() && #[trigger] bals[i] is Some && #[trigger] bals[j] is Some
            ==> slot_balance(bals[i]).asset_mint != slot_balance(bals[j]).asset_mint)
}

impl MarginfiAccount {
    /// Well-formedness of an account.
    pub open spec fn wf(self) -> bool {
        balances_wf(self.lending_account.balances@)
    }
}

/// What `find_balance` finds: the first active slot for the asset, with no
/// earlier match; `None` means no slot holds the asset.
pub proof fn lemma_find_balance_spec(bals: Seq<Option<Balance>>, asset: u64)
    ensures
        match find_balance(bals, asset) {
            Some(i) => 0 <= i < bals.len() && balance_matches(bals[i], asset)
                && (forall|k: int| 0 <= k < i ==> !balance_matches(#[trigger] bals[k], asset)),
            None => forall|k: int| 0 <= k < bals.len() ==> !balance_matches(#[trigger] bals[k], asset),
        },
    decreases bals.len(),
{
    if bals.len() > 0 && !balance_matches(bals[0], asset) {
        lemma_find_balance_spec(bals.drop_first(), asset);
        match find_balance(bals.drop_first(), asset) {
            Some(i) => {
                assert(bals.drop_first()[i] == bals[i + 1]);
                assert forall|k: int| 0 <= k < i + 1 implies !balance_matches(
                    #[trigger] bals[k],
                    asset,
                ) by {
                    if k > 0 {
                        assert(bals.drop_first()[k - 1] == bals[k]);
                    }
                }
            },
            None => {
                assert forall|k: int| 0 <= k < bals.len() implies !balance_matches(
                    #[trigger] bals[k],
                    asset,
                ) by {
                    if k > 0 {
                        assert(bals.drop_first()[k - 1] == bals[k]);
                    }
                }
            },
        }
    }
}

/// What `find_empty` finds: the first empty slot, with no earlier empty
/// slot; `None` means the table is full.
pub proof fn lemma_find_empty_spec(bals: Seq<Option<Balance>>)
    ensures
        match find_empty(bals) {
            Some(i) => 0 <= i < bals.len() && bals[i] is None
                && (forall|k: int| 0 <= k < i ==> #[trigger] bals[k] is Some),
            None => forall|k: int| 0 <= k < bals.len() ==> #[trigger] bals[k] is Some,
        },
    decreases bals.len(),
{
    if bals.len() > 0 && bals[0] is Some {
        lemma_find_empty_spec(bals.drop_first());
        match find_empty(bals.drop_first()) {
            Some(i) => {
                assert(bals.drop_first()[i] == bals[i + 1]);
                assert forall|k: int| 0 <= k < i + 1 implies #[trigger] bals[k] is Some by {
                    if k > 0 {
                        assert(bals.drop_first()[k - 1] == bals[k]);
                    }
                }
            },
            None => {
                assert forall|k: int| 0 <= k < bals.len() implies #[trigger] bals[k] is Some by {
                    if k > 0 {
                        assert(bals.drop_first()[k - 1] == bals[k]);
                    }
                }
            },
        }
    }
}

/// Updating one slot moves the shares total by the difference the slot
/// contributes.
pub proof fn lemma_shares_sum_update(
    bals: Seq<Option<Balance>>,
    asset: u64,
    liability: bool,
    i: int,
    v: Option<Balance>,
)
    requires
        0 <= i < bals.len(),
    ensures
        shares_sum(bals.update(i, v), asset, liability)
            == shares_sum(bals, asset, liability) - shares_of(bals[i], asset, liability)
                + shares_of(v, asset, liability),
    decreases bals.len(),
{
    let upd = bals.update(i, v);
    if i == bals.len() - 1 {
        assert(upd.drop_last() =~= bals.drop_last());
    } else {
        assert(upd.drop_last() =~= bals.drop_last().update(i, v));
        lemma_shares_sum_update(bals.drop_last(), asset, liability, i, v);
    }
}

/// A shares total is never negative.
pub proof fn lemma_shares_sum_nonneg(bals: Seq<Option<Balance>>, asset: u64, liability: bool)
    ensures
        shares_sum(bals, asset, liability) >= 0,
    decreases bals.len(),
{
    if bals.len() > 0 {
        lemma_shares_sum_nonneg(bals.drop_last(), asset, liability);
    }
}

/// A table with no slot for an asset holds no shares of it.
pub proof fn lemma_shares_sum_zero(bals: Seq<Option<Balance>>, asset: u64, liability: bool)
    requires
        forall|k: int| 0 <= k < bals.len() ==> !balance_matches(#[trigger] bals[k], asset),
    ensures
        shares_sum(bals, asset, liability) == 0,
    decreases bals.len(),
{
    if bals.len() > 0 {
        assert(forall|k: int| 0 <= k < bals.drop_last().len()
            ==> #[trigger] bals.drop_last()[k] == bals[k]);
        lemma_shares_sum_zero(bals.drop_last(), asset, liability);
    }
}

/// A shares total is at least any one slot's contribution.
pub proof fn lemma_shares_sum_lower_bound(
    bals: Seq<Option<Balance>>,
    asset: u64,
    liability: bool,
    k: int,
)
    requires
        0 <= k < bals.len(),
    ensures
        shares_sum(bals, asset, liability) >= shares_of(bals[k], asset, liability),
    decreases bals.len(),
{
    lemma_shares_sum_nonneg(bals.drop_last(), asset, liability);
    if k < bals.len() - 1 {
        lemma_shares_sum_lower_bound(bals.drop_last(), asset, liability, k);
    }
}

/// Copies a balance table (slots are plain values).
pub fn copy_balances(v: &Vec<Option<Balance>>) -> (r: Vec<Option<Balance>>)
    ensures
        r@ == v@,
{
    let n = v.len();
    let mut r: Vec<Option<Balance>> = Vec::new();
    let mut i: usize = 0;
    while i < n
        invariant
            n == v@.len(),
            i <= n,
            r@ == v@.take(i as int),
        decreases n - i,
    {
        r.push(v[i]);
        proof {
            assert(v@.take(i + 1) =~= v@.take(i as int).push(v@[i as int]));
        }
        i += 1;
    }
    proof {
        assert(v@.take(n as int) =~= v@);
    }
    r
}

impl LendingAccount {
    /// Finds the slot holding the given asset.
    pub fn get_balance(&self, asset_mint: u64) -> (r: Option<usize>)
        ensures
            match r {
                Some(u) => find_balance(self.balances@, asset_mint) == Some(u as int),
                None => find_balance(self.balances@, asset_mint) is None,
            },
    {
        proof {
            lemma_find_balance_spec(self.balances@, asset_mint);
        }
        let n = self.balances.len();
        let mut i: usize = 0;
        while i < n
            invariant
                n == self.balances@.len(),
                i <= n,
                forall|k: int| 0 <= k < i ==> !balance_matches(#[trigger] self.balances@[k], asset_mint),
            decreases n - i,
        {
            match &self.balances[i] {
                Some(b) => {
                    if b.asset_mint == asset_mint {
                        proof {
                            lemma_find_balance_spec(self.balances@, asset_mint);
                            assert(balance_matches(self.balances@[i as int], asset_mint));
                        }
                        return Some(i);
                    }
                },
                None => {},
            }
            i += 1;
        }
        None
    }

    /// Finds the first empty slot.
    pub fn get_empty_slot(&self) -> (r: Option<usize>)
        ensures
            match r {
                Some(u) => find_empty(self.balances@) == Some(u as int),
                None => find_empty(self.balances@) is None,
            },
    {
        proof {
            lemma_find_empty_spec(self.balances@);
        }
        let n = self.balances.len();
        let mut i: usize = 0;
        while i < n
            invariant
                n == self.balances@.len(),
                i <= n,
                forall|k: int| 0 <= k < i ==> #[trigger] self.balances@[k] is Some,
            decreases n - i,
        {
            match &self.balances[i] {
                Some(_) => {},
                None => {
                    proof {
                        lemma_find_empty_spec(self.balances@);
                        assert(self.balances@[i as int] is None);
                    }
                    return Some(i);
                },
            }
            i += 1;
        }
        None
    }
}

} // verus!
