use vstd::prelude::*;
use crate::bank::{burn_shares, lemma_burn_keeps_backing, lemma_mul_div_bounded, mint_shares, shares_for_liquidity, shares_to_burn, strands_liquidity, Bank};
use crate::error::LendingError;
use crate::math::{BPS, WAD};

verus! {

impl Bank {
    /// Both fractions lie in (0, 1] and the loan-to-value limit is the
    /// stricter one.
    pub open spec fn valid_parameters(liquidation_threshold: u64, max_ltv: u64) -> bool {
        0 < max_ltv < liquidation_threshold <= BPS
    }

    /// The empty bank of an asset.
    pub open spec fn empty(asset_id: u64, liquidation_threshold: u64, max_ltv: u64, now: u64) -> Bank {
        Bank {
            asset_id,
            total_deposited_shares: 0,
            total_deposit_liquidity: 0,
            total_borrowed_shares: 0,
            total_borrowed_liquidity: 0,
            liquidation_threshold,
            max_ltv,
            interest_index: WAD,
            last_accrual_timestamp: now,
        }
    }

    /// Makes the empty bank of an asset, or refuses its risk parameters.
    pub fn new(asset_id: u64, liquidation_threshold: u64, max_ltv: u64, now: u64) -> (r: Result<
        Bank,
        LendingError,
    >)
        ensures
            match r {
                Ok(bank) => {
                    &&& Bank::valid_parameters(liquidation_threshold, max_ltv)
                    &&& bank == Bank::empty(asset_id, liquidation_threshold, max_ltv, now)
                    &&& bank.wf()
                },
                Err(e) => {
                    &&& !Bank::valid_parameters(liquidation_threshold, max_ltv)
                    &&& e == LendingError::InvalidParameters
                },
            },
    {
        if max_ltv == 0 || max_ltv >= liquidation_threshold || liquidation_threshold > BPS {
            return Err(LendingError::InvalidParameters);
        }
        Ok(
            Bank {
                asset_id,
                total_deposited_shares: 0,
                total_deposit_liquidity: 0,
                total_borrowed_shares: 0,
                total_borrowed_liquidity: 0,
                liquidation_threshold,
                max_ltv,
                interest_index: WAD,
                last_accrual_timestamp: now,
            },
        )
    }

    /// The deposit shares that `amount` mints.
    pub open spec fn deposit_minted(self, amount: u64) -> int {
        shares_for_liquidity(
            amount as int,
            self.total_deposited_shares as int,
            self.total_deposit_liquidity as int,
        )
    }

    /// Why a deposit of `amount` is refused, if it is: the amount is zero,
    /// mints no share, or is more than the pool can count.
    pub open spec fn deposit_refusal(self, amount: u64) -> Option<LendingError> {
        if amount == 0 || self.total_deposit_liquidity + amount > u64::MAX
            || self.deposit_minted(amount) == 0 || self.total_deposited_shares
            + self.deposit_minted(amount) > u64::MAX {
            Some(LendingError::InvalidAmount)
        } else {
            None
        }
    }

    /// The bank after `amount` was deposited.
    pub open spec fn after_deposit(self, amount: u64) -> Bank {
        Bank {
            total_deposited_shares: (self.total_deposited_shares + self.deposit_minted(
                amount,
            )) as u64,
            total_deposit_liquidity: (self.total_deposit_liquidity + amount) as u64,
            ..self
        }
    }

    /// Takes `amount` into the deposit pool and returns the shares minted.
    pub fn deposit_liquidity(&mut self, amount: u64) -> (r: Result<u64, LendingError>)
        requires
            old(self).wf(),
        ensures
            final(self).wf(),
            match r {
                Ok(minted) => {
                    &&& old(self).deposit_refusal(amount).is_none()
                    &&& minted == old(self).deposit_minted(amount)
                    &&& *final(self) == old(self).after_deposit(amount)
                },
                Err(e) => {
                    &&& old(self).deposit_refusal(amount) == Some(e)
                    &&& *final(self) == *old(self)
                },
            },
    {
        if amount == 0 || amount > u64::MAX - self.total_deposit_liquidity {
            return Err(LendingError::InvalidAmount);
        }
        let minted: u128 = mint_shares(
            amount,
            self.total_deposited_shares,
            self.total_deposit_liquidity,
        );
        proof {
            if self.total_deposited_shares > 0 {
                lemma_mul_div_bounded(
                    amount as int,
                    self.total_deposited_shares as int,
                    self.total_deposit_liquidity as int,
                );
            }
        }
        if minted == 0 || minted > (u64::MAX - self.total_deposited_shares) as u128 {
            return Err(LendingError::InvalidAmount);
        }
        self.total_deposited_shares = self.total_deposited_shares + minted as u64;
        self.total_deposit_liquidity = self.total_deposit_liquidity + amount;
        Ok(minted as u64)
    }

    /// The deposit shares that a withdrawal of `amount` burns.
    pub open spec fn withdraw_burned(self, amount: u64) -> int {
        shares_to_burn(
            amount as int,
            self.total_deposited_shares as int,
            self.total_deposit_liquidity as int,
        )
    }

    /// Why a withdrawal of `amount` is refused, if it is: the amount is
    /// zero, is more than the pool has at hand, or would burn the pool's
    /// every share and leave liquidity behind.
    pub open spec fn withdraw_refusal(self, amount: u64) -> Option<LendingError> {
        if amount == 0 {
            Some(LendingError::InvalidAmount)
        } else if amount > self.available() {
            Some(LendingError::InsufficientLiquidity)
        } else if strands_liquidity(
            amount as int,
            self.total_deposited_shares as int,
            self.total_deposit_liquidity as int,
        ) {
            Some(LendingError::InvalidAmount)
        } else {
            None
        }
    }

    /// The bank after `amount` was withdrawn.
    pub open spec fn after_withdraw(self, amount: u64) -> Bank {
        Bank {
            total_deposited_shares: (self.total_deposited_shares - self.withdraw_burned(
                amount,
            )) as u64,
            total_deposit_liquidity: (self.total_deposit_liquidity - amount) as u64,
            ..self
        }
    }

    /// Pays `amount` out of the deposit pool and returns the shares burned.
    /// The inverse of `deposit_liquidity`.
    pub fn withdraw_liquidity(&mut self, amount: u64) -> (r: Result<u64, LendingError>)
        requires
            old(self).wf(),
        ensures
            final(self).wf(),
            match r {
                Ok(burned) => {
                    &&& old(self).withdraw_refusal(amount).is_none()
                    &&& burned == old(self).withdraw_burned(amount)
                    &&& burned <= old(self).total_deposited_shares
                    &&& *final(self) == old(self).after_withdraw(amount)
                },
                Err(e) => {
                    &&& old(self).withdraw_refusal(amount) == Some(e)
                    &&& *final(self) == *old(self)
                },
            },
    {
        if amount == 0 {
            return Err(LendingError::InvalidAmount);
        }
        if amount > self.total_deposit_liquidity - self.total_borrowed_liquidity {
            return Err(LendingError::InsufficientLiquidity);
        }
        let burned: u64 = burn_shares(
            amount,
            self.total_deposited_shares,
            self.total_deposit_liquidity,
        );
        proof {
            lemma_burn_keeps_backing(
                amount as int,
                self.total_deposited_shares as int,
                self.total_deposit_liquidity as int,
            );
        }
        if amount != self.total_deposit_liquidity && burned >= self.total_deposited_shares {
            return Err(LendingError::InvalidAmount);
        }
        self.total_deposited_shares = self.total_deposited_shares - burned;
        self.total_deposit_liquidity = self.total_deposit_liquidity - amount;
        Ok(burned)
    }

    /// The borrow shares that a loan of `amount` mints.
    pub open spec fn borrow_minted(self, amount: u64) -> int {
        shares_for_liquidity(
            amount as int,
            self.total_borrowed_shares as int,
            self.total_borrowed_liquidity as int,
        )
    }

    /// Why a loan of `amount` is refused, if it is.
    pub open spec fn borrow_refusal(self, amount: u64) -> Option<LendingError> {
        if amount == 0 {
            Some(LendingError::InvalidAmount)
        } else if amount > self.available() {
            Some(LendingError::InsufficientLiquidity)
        } else if self.borrow_minted(amount) == 0 || self.total_borrowed_shares
            + self.borrow_minted(amount) > u64::MAX {
            Some(LendingError::InvalidAmount)
        } else {
            None
        }
    }

    /// The bank after `amount` was lent out.
    pub open spec fn after_borrow(self, amount: u64) -> Bank {
        Bank {
            total_borrowed_shares: (self.total_borrowed_shares + self.borrow_minted(
                amount,
            )) as u64,
            total_borrowed_liquidity: (self.total_borrowed_liquidity + amount) as u64,
            ..self
        }
    }

    /// Lends `amount` out of the pool and returns the borrow shares minted.
    pub fn borrow_liquidity(&mut self, amount: u64) -> (r: Result<u64, LendingError>)
        requires
            old(self).wf(),
        ensures
            final(self).wf(),
            match r {
                Ok(minted) => {
                    &&& old(self).borrow_refusal(amount).is_none()
                    &&& minted == old(self).borrow_minted(amount)
                    &&& *final(self) == old(self).after_borrow(amount)
                },
                Err(e) => {
                    &&& old(self).borrow_refusal(amount) == Some(e)
                    &&& *final(self) == *old(self)
                },
            },
    {
        if amount == 0 {
            return Err(LendingError::InvalidAmount);
        }
        if amount > self.total_deposit_liquidity - self.total_borrowed_liquidity {
            return Err(LendingError::InsufficientLiquidity);
        }
        let minted: u128 = mint_shares(
            amount,
            self.total_borrowed_shares,
            self.total_borrowed_liquidity,
        );
        proof {
            if self.total_borrowed_shares > 0 {
                lemma_mul_div_bounded(
                    amount as int,
                    self.total_borrowed_shares as int,
                    self.total_borrowed_liquidity as int,
                );
            }
        }
        if minted == 0 || minted > (u64::MAX - self.total_borrowed_shares) as u128 {
            return Err(LendingError::InvalidAmount);
        }
        self.total_borrowed_shares = self.total_borrowed_shares + minted as u64;
        self.total_borrowed_liquidity = self.total_borrowed_liquidity + amount;
        Ok(minted as u64)
    }

    /// The borrow shares that a repayment of `amount` burns.
    pub open spec fn repay_burned(self, amount: u64) -> int {
        shares_to_burn(
            amount as int,
            self.total_borrowed_shares as int,
            self.total_borrowed_liquidity as int,
        )
    }

    /// Why a repayment of `amount` is refused, if it is: the amount is
    /// zero, is more than the pool has lent out, or would burn the pool's
    /// every borrow share and leave debt behind.
    pub open spec fn repay_refusal(self, amount: u64) -> Option<LendingError> {
        if amount == 0 {
            Some(LendingError::InvalidAmount)
        } else if amount > self.total_borrowed_liquidity {
            Some(LendingError::OverRepayment)
        } else if strands_liquidity(
            amount as int,
            self.total_borrowed_shares as int,
            self.total_borrowed_liquidity as int,
        ) {
            Some(LendingError::InvalidAmount)
        } else {
            None
        }
    }

    /// The bank after `amount` was repaid.
    pub open spec fn after_repay(self, amount: u64) -> Bank {
        Bank {
            total_borrowed_shares: (self.total_borrowed_shares - self.repay_burned(
                amount,
            )) as u64,
            total_borrowed_liquidity: (self.total_borrowed_liquidity - amount) as u64,
            ..self
        }
    }

    /// Takes `amount` back into the pool and returns the borrow shares
    /// burned. The inverse of `borrow_liquidity`.
    pub fn repay_liquidity(&mut self, amount: u64) -> (r: Result<u64, LendingError>)
        requires
            old(self).wf(),
        ensures
            final(self).wf(),
            match r {
                Ok(burned) => {
                    &&& old(self).repay_refusal(amount).is_none()
                    &&& burned == old(self).repay_burned(amount)
                    &&& burned <= old(self).total_borrowed_shares
                    &&& *final(self) == old(self).after_repay(amount)
                },
                Err(e) => {
                    &&& old(self).repay_refusal(amount) == Some(e)
                    &&& *final(self) == *old(self)
                },
            },
    {
        if amount == 0 {
            return Err(LendingError::InvalidAmount);
        }
        if amount > self.total_borrowed_liquidity {
            return Err(LendingError::OverRepayment);
        }
        let burned: u64 = burn_shares(
            amount,
            self.total_borrowed_shares,
            self.total_borrowed_liquidity,
        );
        proof {
            lemma_burn_keeps_backing(
                amount as int,
                self.total_borrowed_shares as int,
                self.total_borrowed_liquidity as int,
            );
        }
        if amount != self.total_borrowed_liquidity && burned >= self.total_borrowed_shares {
            return Err(LendingError::InvalidAmount);
        }
        self.total_borrowed_shares = self.total_borrowed_shares - burned;
        self.total_borrowed_liquidity = self.total_borrowed_liquidity - amount;
        Ok(burned)
    }
}

} // verus!
