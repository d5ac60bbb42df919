use vstd::prelude::*;
use crate::bank::{accrue, lemma_burn_within_holding, shares_to_liquidity, Bank};
use crate::error::LendingError;
use crate::health::{banks_valid, collateral_liquidity, debt_liquidity, evaluate, health_of, holdings_fit, position_at, prices_valid, Position, Weighting};
use crate::market::{accrue_all, all_accrued, has_bank, padded, slot_of, working_positions, Market, UserAccount};

verus! {

/// What an operation leaves behind when it succeeds: the banks, the user's
/// positions, and the number it reports.
pub type Outcome = Result<(Seq<Bank>, Seq<Position>, u64), LendingError>;

/// The position with its collateral shares replaced.
pub open spec fn with_collateral(position: Position, shares: int) -> Position {
    Position { collateral_shares: shares as u64, debt_shares: position.debt_shares }
}

/// The position with its debt shares replaced.
pub open spec fn with_debt(position: Position, shares: int) -> Position {
    Position { collateral_shares: position.collateral_shares, debt_shares: shares as u64 }
}

/// Replacing a valid bank by a valid one of the same asset keeps the banks
/// valid.
pub proof fn lemma_update_keeps_valid(banks: Seq<Bank>, slot: int, bank: Bank)
    requires
        banks_valid(banks),
        0 <= slot < banks.len(),
        bank.wf(),
        bank.asset_id == banks[slot].asset_id,
    ensures
        banks_valid(banks.update(slot, bank)),
{
    let updated = banks.update(slot, bank);
    assert forall|i: int, j: int| 0 <= i < j < updated.len() implies (#[trigger] updated[i]).asset_id
        != (#[trigger] updated[j]).asset_id by {
        assert(banks[i].asset_id != banks[j].asset_id);
    }
    assert forall|i: int| 0 <= i < updated.len() implies (#[trigger] updated[i]).wf() by {
        assert(banks[i].wf());
    }
}

/// Replacing one bank and the position in it keeps the holdings within the
/// banks, where the new position fits the new bank.
pub proof fn lemma_update_keeps_fit(
    banks: Seq<Bank>,
    positions: Seq<Position>,
    slot: int,
    bank: Bank,
    position: Position,
)
    requires
        holdings_fit(banks, positions),
        0 <= slot < banks.len(),
        position.collateral_shares <= bank.total_deposited_shares,
        position.debt_shares <= bank.total_borrowed_shares,
    ensures
        holdings_fit(banks.update(slot, bank), padded(positions, banks.len()).update(slot, position)),
{
    let new_banks = banks.update(slot, bank);
    let new_positions = padded(positions, banks.len()).update(slot, position);
    assert forall|i: int| 0 <= i < new_positions.len() implies {
        &&& (#[trigger] new_positions[i]).collateral_shares <= new_banks[i].total_deposited_shares
        &&& new_positions[i].debt_shares <= new_banks[i].total_borrowed_shares
    } by {
        if i != slot && i < positions.len() {
            assert(positions[i].collateral_shares <= banks[i].total_deposited_shares);
        }
    }
}

/// What a deposit does.
pub open spec fn deposit_outcome(
    banks: Seq<Bank>,
    positions: Seq<Position>,
    asset_id: u64,
    amount: u64,
    now: u64,
) -> Outcome {
    if !has_bank(banks, asset_id) {
        Err(LendingError::UnknownAsset)
    } else {
        let slot = slot_of(banks, asset_id);
        let bank = banks[slot].accrued(now);
        let position = position_at(positions, slot);
        match bank.deposit_refusal(amount) {
            Some(e) => Err(e),
            None => {
                let minted = bank.deposit_minted(amount);
                Ok(
                    (
                        banks.update(slot, bank.after_deposit(amount)),
                        padded(positions, banks.len()).update(
                            slot,
                            with_collateral(position, position.collateral_shares + minted),
                        ),
                        minted as u64,
                    ),
                )
            },
        }
    }
}

/// What a withdrawal does.
pub open spec fn withdraw_outcome(
    banks: Seq<Bank>,
    positions: Seq<Position>,
    prices: Seq<u64>,
    asset_id: u64,
    amount: u64,
    now: u64,
) -> Outcome {
    if !has_bank(banks, asset_id) {
        Err(LendingError::UnknownAsset)
    } else {
        let slot = slot_of(banks, asset_id);
        let bank = banks[slot].accrued(now);
        let position = position_at(positions, slot);
        if amount == 0 {
            Err(LendingError::InvalidAmount)
        } else if amount > collateral_liquidity(bank, position) {
            Err(LendingError::InsufficientBalance)
        } else if bank.withdraw_refusal(amount).is_some() {
            Err(bank.withdraw_refusal(amount).unwrap())
        } else {
            let burned = bank.withdraw_burned(amount);
            let new_banks = all_accrued(banks, now).update(slot, bank.after_withdraw(amount));
            let new_positions = padded(positions, banks.len()).update(
                slot,
                with_collateral(position, position.collateral_shares - burned),
            );
            if health_of(
                new_banks,
                new_positions,
                prices,
                Weighting::LiquidationThreshold,
            ).below_one() {
                Err(LendingError::WouldBreachHealth)
            } else {
                Ok((new_banks, new_positions, burned as u64))
            }
        }
    }
}

/// What a loan does.
pub open spec fn borrow_outcome(
    banks: Seq<Bank>,
    positions: Seq<Position>,
    prices: Seq<u64>,
    asset_id: u64,
    amount: u64,
    now: u64,
) -> Outcome {
    if !has_bank(banks, asset_id) {
        Err(LendingError::UnknownAsset)
    } else {
        let slot = slot_of(banks, asset_id);
        let bank = banks[slot].accrued(now);
        let position = position_at(positions, slot);
        match bank.borrow_refusal(amount) {
            Some(e) => Err(e),
            None => {
                let minted = bank.borrow_minted(amount);
                let new_banks = all_accrued(banks, now).update(slot, bank.after_borrow(amount));
                let new_positions = padded(positions, banks.len()).update(
                    slot,
                    with_debt(position, position.debt_shares + minted),
                );
                if health_of(new_banks, new_positions, prices, Weighting::MaxLtv).below_one() {
                    Err(LendingError::WouldBreachHealth)
                } else {
                    Ok((new_banks, new_positions, minted as u64))
                }
            },
        }
    }
}

/// What a repayment does. A payment beyond the debt is capped at the debt,
/// or refused where the market's policy says so.
pub open spec fn repay_outcome(
    banks: Seq<Bank>,
    positions: Seq<Position>,
    reject_over_repayment: bool,
    asset_id: u64,
    amount: u64,
    now: u64,
) -> Outcome {
    if !has_bank(banks, asset_id) {
        Err(LendingError::UnknownAsset)
    } else {
        let slot = slot_of(banks, asset_id);
        let bank = banks[slot].accrued(now);
        let position = position_at(positions, slot);
        let owed = debt_liquidity(bank, position);
        if amount == 0 {
            Err(LendingError::InvalidAmount)
        } else if owed == 0 {
            Err(LendingError::NoDebtToRepay)
        } else if amount > owed && reject_over_repayment {
            Err(LendingError::OverRepayment)
        } else {
            let paid = if amount > owed {
                owed as u64
            } else {
                amount
            };
            let burned = bank.repay_burned(paid);
            if bank.repay_refusal(paid).is_some() {
                Err(bank.repay_refusal(paid).unwrap())
            } else {
                Ok(
                    (
                        banks.update(slot, bank.after_repay(paid)),
                        padded(positions, banks.len()).update(
                            slot,
                            with_debt(position, position.debt_shares - burned),
                        ),
                        paid,
                    ),
                )
            }
        }
    }
}

/// Whether the call's result and the state it left are what `outcome` says:
/// on success the new banks and positions and the number yielded, on
/// refusal the error and the state as it was.
pub open spec fn settles(
    outcome: Outcome,
    r: Result<u64, LendingError>,
    market_before: Market,
    market_after: Market,
    user_before: UserAccount,
    user_after: UserAccount,
) -> bool {
    match outcome {
        Ok((banks, positions, yielded)) => {
            &&& r == Ok::<u64, LendingError>(yielded)
            &&& market_after.banks@ == banks
            &&& user_after.positions@ == positions
            &&& market_after.same_policy(market_before)
            &&& user_after.owner_id == user_before.owner_id
        },
        Err(e) => {
            &&& r == Err::<u64, LendingError>(e)
            &&& market_after == market_before
            &&& user_after == user_before
        },
    }
}

/// Deposits `amount` of an asset as collateral: brings the bank current,
/// mints deposit shares and credits them to the user. Returns the shares
/// minted.
pub fn deposit(market: &mut Market, user: &mut UserAccount, asset_id: u64, amount: u64, now: u64) -> (r:
    Result<u64, LendingError>)
    requires
        old(market).wf(),
        old(user).wf(*old(market)),
    ensures
        final(market).wf(),
        final(user).wf(*final(market)),
        settles(
            deposit_outcome(old(market).banks@, old(user).positions@, asset_id, amount, now),
            r,
            *old(market),
            *final(market),
            *old(user),
            *final(user),
        ),
{
    let slot: usize = match market.find_bank(asset_id) {
        Some(slot) => slot,
        None => {
            return Err(LendingError::UnknownAsset);
        },
    };
    let mut bank: Bank = accrue(market.banks[slot], now);
    let position: Position = user.position(slot);
    let minted: u64 = match bank.deposit_liquidity(amount) {
        Ok(minted) => minted,
        Err(e) => {
            return Err(e);
        },
    };
    let mut positions: Vec<Position> = working_positions(&user.positions, market.banks.len());
    let credited = Position {
        collateral_shares: position.collateral_shares + minted,
        debt_shares: position.debt_shares,
    };
    proof {
        lemma_update_keeps_valid(market.banks@, slot as int, bank);
        lemma_update_keeps_fit(market.banks@, user.positions@, slot as int, bank, credited);
    }
    positions.set(slot, credited);
    market.banks.set(slot, bank);
    user.positions = positions;
    Ok(minted)
}

/// Withdraws `amount` of an asset from the user's collateral: brings
/// every bank current, burns deposit shares, and goes through only if the user,
/// where any debt remains, keeps a health factor of at least one under the
/// liquidation thresholds. Returns the shares burned.
pub fn withdraw(
    market: &mut Market,
    user: &mut UserAccount,
    prices: &Vec<u64>,
    asset_id: u64,
    amount: u64,
    now: u64,
) -> (r: Result<u64, LendingError>)
    requires
        old(market).wf(),
        old(user).wf(*old(market)),
        prices_valid(old(market).banks@, prices@),
    ensures
        final(market).wf(),
        final(user).wf(*final(market)),
        settles(
            withdraw_outcome(
                old(market).banks@,
                old(user).positions@,
                prices@,
                asset_id,
                amount,
                now,
            ),
            r,
            *old(market),
            *final(market),
            *old(user),
            *final(user),
        ),
        r.is_ok() ==> !health_of(
            final(market).banks@,
            final(user).positions@,
            prices@,
            Weighting::LiquidationThreshold,
        ).below_one(),
{
    let slot: usize = match market.find_bank(asset_id) {
        Some(slot) => slot,
        None => {
            return Err(LendingError::UnknownAsset);
        },
    };
    let mut banks: Vec<Bank> = accrue_all(&market.banks, now);
    let ghost current = banks@;
    let mut bank: Bank = banks[slot];
    let position: Position = user.position(slot);
    if amount == 0 {
        return Err(LendingError::InvalidAmount);
    }
    let held: u64 = shares_to_liquidity(
        position.collateral_shares,
        bank.total_deposited_shares,
        bank.total_deposit_liquidity,
    );
    if amount > held {
        return Err(LendingError::InsufficientBalance);
    }
    proof {
        lemma_burn_within_holding(
            amount as int,
            position.collateral_shares as int,
            bank.total_deposited_shares as int,
            bank.total_deposit_liquidity as int,
        );
    }
    let burned: u64 = match bank.withdraw_liquidity(amount) {
        Ok(burned) => burned,
        Err(e) => {
            return Err(e);
        },
    };
    let debited = Position {
        collateral_shares: position.collateral_shares - burned,
        debt_shares: position.debt_shares,
    };
    let mut positions: Vec<Position> = working_positions(&user.positions, market.banks.len());
    proof {
        assert(holdings_fit(current, user.positions@));
        lemma_update_keeps_valid(current, slot as int, bank);
        lemma_update_keeps_fit(current, user.positions@, slot as int, bank, debited);
    }
    banks.set(slot, bank);
    positions.set(slot, debited);
    let health = evaluate(&banks, &positions, prices, Weighting::LiquidationThreshold);
    if health.is_below_one() {
        return Err(LendingError::WouldBreachHealth);
    }
    market.banks = banks;
    user.positions = positions;
    Ok(burned)
}

/// Borrows `amount` of an asset: brings every bank current, mints borrow
/// shares and debits them to the user, and goes through only if the user
/// then has a health factor of at least one under the loan-to-value limits.
/// Returns the shares minted.
pub fn borrow(
    market: &mut Market,
    user: &mut UserAccount,
    prices: &Vec<u64>,
    asset_id: u64,
    amount: u64,
    now: u64,
) -> (r: Result<u64, LendingError>)
    requires
        old(market).wf(),
        old(user).wf(*old(market)),
        prices_valid(old(market).banks@, prices@),
    ensures
        final(market).wf(),
        final(user).wf(*final(market)),
        settles(
            borrow_outcome(
                old(market).banks@,
                old(user).positions@,
                prices@,
                asset_id,
                amount,
                now,
            ),
            r,
            *old(market),
            *final(market),
            *old(user),
            *final(user),
        ),
        r.is_ok() ==> !health_of(
            final(market).banks@,
            final(user).positions@,
            prices@,
            Weighting::MaxLtv,
        ).below_one(),
{
    let slot: usize = match market.find_bank(asset_id) {
        Some(slot) => slot,
        None => {
            return Err(LendingError::UnknownAsset);
        },
    };
    let mut banks: Vec<Bank> = accrue_all(&market.banks, now);
    let ghost current = banks@;
    let mut bank: Bank = banks[slot];
    let position: Position = user.position(slot);
    let minted: u64 = match bank.borrow_liquidity(amount) {
        Ok(minted) => minted,
        Err(e) => {
            return Err(e);
        },
    };
    let debited = Position {
        collateral_shares: position.collateral_shares,
        debt_shares: position.debt_shares + minted,
    };
    let mut positions: Vec<Position> = working_positions(&user.positions, market.banks.len());
    proof {
        assert(holdings_fit(current, user.positions@));
        lemma_update_keeps_valid(current, slot as int, bank);
        lemma_update_keeps_fit(current, user.positions@, slot as int, bank, debited);
    }
    banks.set(slot, bank);
    positions.set(slot, debited);
    let health = evaluate(&banks, &positions, prices, Weighting::MaxLtv);
    if health.is_below_one() {
        return Err(LendingError::WouldBreachHealth);
    }
    market.banks = banks;
    user.positions = positions;
    Ok(minted)
}

/// Repays up to `amount` of the user's debt in an asset: brings the bank
/// current and burns borrow shares. Returns the liquidity taken, which is
/// never more than the debt.
pub fn repay(market: &mut Market, user: &mut UserAccount, asset_id: u64, amount: u64, now: u64) -> (r:
    Result<u64, LendingError>)
    requires
        old(market).wf(),
        old(user).wf(*old(market)),
    ensures
        final(market).wf(),
        final(user).wf(*final(market)),
        settles(
            repay_outcome(
                old(market).banks@,
                old(user).positions@,
                old(market).reject_over_repayment,
                asset_id,
                amount,
                now,
            ),
            r,
            *old(market),
            *final(market),
            *old(user),
            *final(user),
        ),
{
    let slot: usize = match market.find_bank(asset_id) {
        Some(slot) => slot,
        None => {
            return Err(LendingError::UnknownAsset);
        },
    };
    let mut bank: Bank = accrue(market.banks[slot], now);
    let position: Position = user.position(slot);
    if amount == 0 {
        return Err(LendingError::InvalidAmount);
    }
    let owed: u64 = shares_to_liquidity(
        position.debt_shares,
        bank.total_borrowed_shares,
        bank.total_borrowed_liquidity,
    );
    if owed == 0 {
        return Err(LendingError::NoDebtToRepay);
    }
    if amount > owed && market.reject_over_repayment {
        return Err(LendingError::OverRepayment);
    }
    let paid: u64 = if amount > owed {
        owed
    } else {
        amount
    };
    proof {
        lemma_burn_within_holding(
            paid as int,
            position.debt_shares as int,
            bank.total_borrowed_shares as int,
            bank.total_borrowed_liquidity as int,
        );
    }
    let burned: u64 = match bank.repay_liquidity(paid) {
        Ok(burned) => burned,
        Err(e) => {
            return Err(e);
        },
    };
    let credited = Position {
        collateral_shares: position.collateral_shares,
        debt_shares: position.debt_shares - burned,
    };
    let mut positions: Vec<Position> = working_positions(&user.positions, market.banks.len());
    proof {
        lemma_update_keeps_valid(market.banks@, slot as int, bank);
        lemma_update_keeps_fit(market.banks@, user.positions@, slot as int, bank, credited);
    }
    positions.set(slot, credited);
    market.banks.set(slot, bank);
    user.positions = positions;
    Ok(paid)
}

} // verus!
