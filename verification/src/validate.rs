use vstd::prelude::*;
use crate::bank::Bank;
use crate::health::{banks_valid, prices_valid};
use crate::market::{Market, UserAccount};
use crate::math::{BPS, MAX_BANKS, MAX_PRICE};

verus! {

impl Bank {
    /// Whether the bank is well formed.
    pub fn is_well_formed(&self) -> (r: bool)
        ensures
            r == self.wf(),
    {
        0 < self.max_ltv && self.max_ltv < self.liquidation_threshold && self.liquidation_threshold
            <= BPS && (self.total_deposited_shares == 0) == (self.total_deposit_liquidity == 0) && (
        self.total_borrowed_shares == 0) == (self.total_borrowed_liquidity == 0)
            && self.total_deposited_shares <= self.total_deposit_liquidity
            && self.total_borrowed_shares <= self.total_borrowed_liquidity
            && self.total_borrowed_liquidity <= self.total_deposit_liquidity
    }
}

/// Whether the banks are valid: few enough, each well formed, no asset
/// twice.
pub fn banks_are_valid(banks: &Vec<Bank>) -> (r: bool)
    ensures
        r == banks_valid(banks@),
{
    if banks.len() > MAX_BANKS {
        return false;
    }
    let mut i: usize = 0;
    while i < banks.len()
        invariant
            i <= banks.len(),
            banks.len() <= MAX_BANKS,
            forall|a: int| 0 <= a < i ==> (#[trigger] banks@[a]).wf(),
            forall|a: int, b: int|
                0 <= a < b < i ==> (#[trigger] banks@[a]).asset_id != (#[trigger] banks@[b]).asset_id,
        decreases banks.len() - i,
    {
        if !banks[i].is_well_formed() {
            assert(!banks@[i as int].wf());
            return false;
        }
        let mut j: usize = 0;
        while j < i
            invariant
                j <= i,
                i < banks.len(),
                forall|a: int|
                    0 <= a < j ==> (#[trigger] banks@[a]).asset_id != banks@[i as int].asset_id,
            decreases i - j,
        {
            if banks[j].asset_id == banks[i].asset_id {
                assert(banks@[j as int].asset_id == banks@[i as int].asset_id);
                return false;
            }
            j = j + 1;
        }
        i = i + 1;
    }
    true
}

impl Market {
    /// Whether the market is well formed.
    pub fn is_well_formed(&self) -> (r: bool)
        ensures
            r == self.wf(),
    {
        0 < self.close_factor && self.close_factor <= BPS && self.liquidation_bonus <= BPS
            && banks_are_valid(&self.banks)
    }
}

impl UserAccount {
    /// Whether every position of the account lies in a bank of `market`
    /// and holds no more shares than that bank has issued.
    pub fn fits(&self, market: &Market) -> (r: bool)
        ensures
            r == self.wf(*market),
    {
        if self.positions.len() > market.banks.len() {
            return false;
        }
        let mut i: usize = 0;
        while i < self.positions.len()
            invariant
                i <= self.positions.len(),
                self.positions.len() <= market.banks.len(),
                forall|a: int|
                    0 <= a < i ==> {
                        &&& (#[trigger] self.positions@[a]).collateral_shares
                            <= market.banks@[a].total_deposited_shares
                        &&& self.positions@[a].debt_shares <= market.banks@[a].total_borrowed_shares
                    },
            decreases self.positions.len() - i,
        {
            if self.positions[i].collateral_shares > market.banks[i].total_deposited_shares
                || self.positions[i].debt_shares > market.banks[i].total_borrowed_shares {
                assert(!(self.positions@[i as int].collateral_shares
                    <= market.banks@[i as int].total_deposited_shares
                    && self.positions@[i as int].debt_shares
                    <= market.banks@[i as int].total_borrowed_shares));
                return false;
            }
            i = i + 1;
        }
        true
    }
}

/// Whether there is one price for each bank, each positive and at most
/// `MAX_PRICE`.
pub fn prices_are_valid(banks: &Vec<Bank>, prices: &Vec<u64>) -> (r: bool)
    ensures
        r == prices_valid(banks@, prices@),
{
    if prices.len() != banks.len() {
        return false;
    }
    let mut i: usize = 0;
    while i < prices.len()
        invariant
            i <= prices.len(),
            prices.len() == banks.len(),
            forall|a: int| 0 <= a < i ==> 0 < (#[trigger] prices@[a]) <= MAX_PRICE,
        decreases prices.len() - i,
    {
        if prices[i] == 0 || prices[i] > MAX_PRICE {
            assert(!(0 < prices@[i as int] <= MAX_PRICE));
            return false;
        }
        i = i + 1;
    }
    true
}

} // verus!
