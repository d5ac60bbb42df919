use vstd::prelude::*;
use crate::bank::{lemma_burn_within_holding, shares_to_liquidity, Bank};
use crate::engine::{lemma_update_keeps_fit, lemma_update_keeps_valid, with_collateral, with_debt};
use crate::error::LendingError;
use crate::health::{collateral_liquidity, debt_liquidity, evaluate, health_of, holdings_fit, position_at, prices_valid, Position, Weighting};
use crate::market::{accrue_all, all_accrued, has_bank, lemma_padding_keeps_health, padded, slot_of, working_positions, Market, UserAccount};
use crate::math::{mul_div_down, mul_div_floor, BPS, MAX_PRICE};

verus! {

/// What one liquidation moved, in liquidity of the two assets.
#[derive(Clone, Copy, Debug, PartialEq, Eq, Structural)]
pub struct Liquidation {
    /// Debt that the liquidator repaid for the user.
    pub debt_repaid: u64,
    /// Collateral of the user that was paid out to the liquidator.
    pub collateral_seized: u64,
}

/// The part of a debt that one liquidation repays: the close factor's share
/// of it, rounded down, so that it is never more than that share.
pub open spec fn repay_target(owed: int, close_factor: u64) -> int {
    mul_div_floor(owed, close_factor as int, BPS as int)
}

/// The collateral worth the debt repaid plus the bonus, rounded down.
pub open spec fn seize_target(repaid: int, debt_price: u64, collateral_price: u64, bonus: u64) -> int {
    (repaid * debt_price * (BPS + bonus)) / (collateral_price * BPS)
}

/// What a liquidation does.
pub open spec fn liquidate_outcome(
    banks: Seq<Bank>,
    positions: Seq<Position>,
    prices: Seq<u64>,
    close_factor: u64,
    bonus: u64,
    collateral_asset: u64,
    debt_asset: u64,
    now: u64,
) -> Result<(Seq<Bank>, Seq<Position>, Liquidation), LendingError> {
    if !has_bank(banks, collateral_asset) || !has_bank(banks, debt_asset) {
        Err(LendingError::UnknownAsset)
    } else {
        let current = all_accrued(banks, now);
        let before = health_of(current, positions, prices, Weighting::LiquidationThreshold);
        let debt_slot = slot_of(banks, debt_asset);
        let collateral_slot = slot_of(banks, collateral_asset);
        let debt_bank = current[debt_slot];
        let debtor = position_at(positions, debt_slot);
        let owed = debt_liquidity(debt_bank, debtor);
        if !before.below_one() {
            Err(LendingError::NotLiquidatable)
        } else if owed == 0 {
            Err(LendingError::NoDebtToRepay)
        } else if repay_target(owed, close_factor) == 0 {
            Err(LendingError::InvalidAmount)
        } else if debt_bank.repay_refusal(repay_target(owed, close_factor) as u64).is_some() {
            Err(debt_bank.repay_refusal(repay_target(owed, close_factor) as u64).unwrap())
        } else {
            let repaid = repay_target(owed, close_factor) as u64;
            let banks_repaid = current.update(debt_slot, debt_bank.after_repay(repaid));
            let positions_repaid = padded(positions, banks.len()).update(
                debt_slot,
                with_debt(debtor, debtor.debt_shares - debt_bank.repay_burned(repaid)),
            );
            let collateral_bank = banks_repaid[collateral_slot];
            let holder = positions_repaid[collateral_slot];
            let held = collateral_liquidity(collateral_bank, holder);
            let target = seize_target(
                repaid as int,
                prices[debt_slot],
                prices[collateral_slot],
                bonus,
            );
            let seized = if target > held {
                held as u64
            } else {
                target as u64
            };
            if seized > 0 && collateral_bank.withdraw_refusal(seized).is_some() {
                Err(collateral_bank.withdraw_refusal(seized).unwrap())
            } else {
                let banks_after = if seized == 0 {
                    banks_repaid
                } else {
                    banks_repaid.update(collateral_slot, collateral_bank.after_withdraw(seized))
                };
                let positions_after = if seized == 0 {
                    positions_repaid
                } else {
                    positions_repaid.update(
                        collateral_slot,
                        with_collateral(
                            holder,
                            holder.collateral_shares - collateral_bank.withdraw_burned(seized),
                        ),
                    )
                };
                let after = health_of(
                    banks_after,
                    positions_after,
                    prices,
                    Weighting::LiquidationThreshold,
                );
                if !after.exceeds(before) {
                    Err(LendingError::WouldBreachHealth)
                } else {
                    Ok(
                        (
                            banks_after,
                            positions_after,
                            Liquidation { debt_repaid: repaid, collateral_seized: seized },
                        ),
                    )
                }
            }
        }
    }
}

/// The close factor's share of a debt, rounded down, is no more than that
/// share and no more than the debt.
pub proof fn lemma_repay_target_bounds(owed: int, close_factor: u64)
    requires
        0 <= owed,
        0 < close_factor <= BPS,
    ensures
        0 <= repay_target(owed, close_factor) <= owed,
        repay_target(owed, close_factor) * BPS <= owed * close_factor,
{
    crate::bank::lemma_mul_div_bounded(owed, close_factor as int, BPS as int);
    vstd::arithmetic::div_mod::lemma_fundamental_div_mod(owed * close_factor, BPS as int);
    vstd::arithmetic::div_mod::lemma_mod_bound(owed * close_factor, BPS as int);
    let target = repay_target(owed, close_factor);
    assert(target * BPS == BPS * target) by (nonlinear_arith);
}

/// The collateral to seize is a number that the engine's arithmetic can
/// hold, and is worth no more than the debt repaid plus the bonus.
pub proof fn lemma_seize_bounds(repaid: u64, debt_price: u64, collateral_price: u64, bonus: u64)
    requires
        debt_price <= MAX_PRICE,
        0 < collateral_price <= MAX_PRICE,
        bonus <= BPS,
    ensures
        0 <= repaid * debt_price <= 0xFFFF_FFFF_FFFF_FFFF * 1_000_000_000_000,
        0 <= repaid * debt_price * (BPS + bonus) <= 0xFFFF_FFFF_FFFF_FFFF * 1_000_000_000_000
            * 20_000,
        0 < collateral_price * BPS <= 1_000_000_000_000 * 10_000,
        0 <= seize_target(repaid as int, debt_price, collateral_price, bonus),
        seize_target(repaid as int, debt_price, collateral_price, bonus) * (collateral_price * BPS)
            <= repaid * debt_price * (BPS + bonus),
{
    assert(0 <= repaid * debt_price <= 0xFFFF_FFFF_FFFF_FFFF * 1_000_000_000_000)
        by (nonlinear_arith)
        requires
            0 <= repaid <= 0xFFFF_FFFF_FFFF_FFFF,
            0 <= debt_price <= 1_000_000_000_000,
    ;
    let value = repaid * debt_price;
    let factor = BPS + bonus;
    assert(0 <= value * factor <= (0xFFFF_FFFF_FFFF_FFFF * 1_000_000_000_000) * 20_000)
        by (nonlinear_arith)
        requires
            0 <= value <= 0xFFFF_FFFF_FFFF_FFFF * 1_000_000_000_000,
            0 <= factor <= 20_000,
    ;
    let divisor = collateral_price * BPS;
    assert(0 < divisor <= 1_000_000_000_000 * 10_000) by (nonlinear_arith)
        requires
            divisor == collateral_price * 10_000,
            0 < collateral_price <= 1_000_000_000_000,
    ;
    vstd::arithmetic::div_mod::lemma_fundamental_div_mod(value * factor, divisor);
    vstd::arithmetic::div_mod::lemma_mod_bound(value * factor, divisor);
    vstd::arithmetic::div_mod::lemma_div_is_ordered(0, value * factor, divisor);
    assert(divisor * ((value * factor) / divisor) == ((value * factor) / divisor) * divisor)
        by (nonlinear_arith);
}

/// Liquidates part of an unhealthy user's debt in `debt_asset` against the
/// user's collateral in `collateral_asset`. Brings every bank current; goes
/// on only if the user's health factor under the liquidation thresholds is
/// below one; repays the close factor's share of the debt, rounded down,
/// and refuses with `InvalidAmount` where that is nothing; pays out to the
/// liquidator collateral worth that plus the bonus, or all the user has
/// there if that is less; and goes through only if the user's health factor
/// is then strictly greater than it was.
pub fn liquidate(
    market: &mut Market,
    user: &mut UserAccount,
    prices: &Vec<u64>,
    collateral_asset: u64,
    debt_asset: u64,
    now: u64,
) -> (r: Result<Liquidation, LendingError>)
    requires
        old(market).wf(),
        old(user).wf(*old(market)),
        prices_valid(old(market).banks@, prices@),
    ensures
        final(market).wf(),
        final(user).wf(*final(market)),
        match liquidate_outcome(
            old(market).banks@,
            old(user).positions@,
            prices@,
            old(market).close_factor,
            old(market).liquidation_bonus,
            collateral_asset,
            debt_asset,
            now,
        ) {
            Ok((banks, positions, moved)) => {
                &&& r == Ok::<Liquidation, LendingError>(moved)
                &&& final(market).banks@ == banks
                &&& final(user).positions@ == positions
                &&& final(market).same_policy(*old(market))
                &&& final(user).owner_id == old(user).owner_id
            },
            Err(e) => {
                &&& r == Err::<Liquidation, LendingError>(e)
                &&& *final(market) == *old(market)
                &&& *final(user) == *old(user)
            },
        },
        r.is_ok() ==> {
            let before = health_of(
                all_accrued(old(market).banks@, now),
                old(user).positions@,
                prices@,
                Weighting::LiquidationThreshold,
            );
            let after = health_of(
                final(market).banks@,
                final(user).positions@,
                prices@,
                Weighting::LiquidationThreshold,
            );
            before.below_one() && after.exceeds(before)
        },
        match r {
            Ok(moved) => {
                let slot = slot_of(old(market).banks@, debt_asset);
                let owed = debt_liquidity(
                    old(market).banks@[slot].accrued(now),
                    position_at(old(user).positions@, slot),
                );
                0 < moved.debt_repaid && moved.debt_repaid * BPS <= owed * old(
                    market,
                ).close_factor
            },
            Err(_) => true,
        },
        match r {
            Ok(moved) => moved.collateral_seized * (prices@[slot_of(
                old(market).banks@,
                collateral_asset,
            )] * BPS) <= moved.debt_repaid * prices@[slot_of(old(market).banks@, debt_asset)] * (BPS
                + old(market).liquidation_bonus),
            Err(_) => true,
        },
{
    let collateral_slot: usize = match market.find_bank(collateral_asset) {
        Some(slot) => slot,
        None => {
            return Err(LendingError::UnknownAsset);
        },
    };
    let debt_slot: usize = match market.find_bank(debt_asset) {
        Some(slot) => slot,
        None => {
            return Err(LendingError::UnknownAsset);
        },
    };
    let n: usize = market.banks.len();
    let mut banks: Vec<Bank> = accrue_all(&market.banks, now);
    let mut positions: Vec<Position> = working_positions(&user.positions, n);
    let ghost current = banks@;
    let ghost held_before = positions@;
    proof {
        lemma_padding_keeps_health(
            current,
            user.positions@,
            prices@,
            Weighting::LiquidationThreshold,
        );
        assert(holdings_fit(current, user.positions@));
        assert(padded(user.positions@, n as nat) =~= padded(user.positions@, n as nat).update(
            debt_slot as int,
            position_at(user.positions@, debt_slot as int),
        ));
        lemma_update_keeps_fit(
            current,
            user.positions@,
            debt_slot as int,
            current[debt_slot as int],
            position_at(user.positions@, debt_slot as int),
        );
        assert(current.update(debt_slot as int, current[debt_slot as int]) =~= current);
    }
    let before = evaluate(&banks, &positions, prices, Weighting::LiquidationThreshold);
    if !before.is_below_one() {
        return Err(LendingError::NotLiquidatable);
    }
    let mut debt_bank: Bank = banks[debt_slot];
    let debtor: Position = positions[debt_slot];
    let owed: u64 = shares_to_liquidity(
        debtor.debt_shares,
        debt_bank.total_borrowed_shares,
        debt_bank.total_borrowed_liquidity,
    );
    if owed == 0 {
        return Err(LendingError::NoDebtToRepay);
    }
    proof {
        lemma_repay_target_bounds(owed as int, market.close_factor);
    }
    let repaid_wide: u128 = mul_div_down(owed, market.close_factor, BPS);
    let repaid: u64 = repaid_wide as u64;
    if repaid == 0 {
        return Err(LendingError::InvalidAmount);
    }
    proof {
        lemma_burn_within_holding(
            repaid as int,
            debtor.debt_shares as int,
            debt_bank.total_borrowed_shares as int,
            debt_bank.total_borrowed_liquidity as int,
        );
    }
    let burned_debt: u64 = match debt_bank.repay_liquidity(repaid) {
        Ok(burned) => burned,
        Err(e) => {
            return Err(e);
        },
    };
    let relieved = Position {
        collateral_shares: debtor.collateral_shares,
        debt_shares: debtor.debt_shares - burned_debt,
    };
    proof {
        lemma_update_keeps_valid(current, debt_slot as int, debt_bank);
        lemma_update_keeps_fit(current, held_before, debt_slot as int, debt_bank, relieved);
        assert(padded(held_before, n as nat) =~= held_before);
    }
    banks.set(debt_slot, debt_bank);
    positions.set(debt_slot, relieved);
    let ghost banks_repaid = banks@;
    let ghost positions_repaid = positions@;
    let mut collateral_bank: Bank = banks[collateral_slot];
    let holder: Position = positions[collateral_slot];
    let held: u64 = shares_to_liquidity(
        holder.collateral_shares,
        collateral_bank.total_deposited_shares,
        collateral_bank.total_deposit_liquidity,
    );
    let debt_price: u64 = prices[debt_slot];
    let collateral_price: u64 = prices[collateral_slot];
    proof {
        lemma_seize_bounds(repaid, debt_price, collateral_price, market.liquidation_bonus);
    }
    let value: u128 = (repaid as u128) * (debt_price as u128) * ((BPS + market.liquidation_bonus) as u128);
    let target: u128 = value / ((collateral_price as u128) * (BPS as u128));
    let seized: u64 = if target > held as u128 {
        held
    } else {
        target as u64
    };
    if seized > 0 {
        proof {
            lemma_burn_within_holding(
                seized as int,
                holder.collateral_shares as int,
                collateral_bank.total_deposited_shares as int,
                collateral_bank.total_deposit_liquidity as int,
            );
        }
        let burned_collateral: u64 = match collateral_bank.withdraw_liquidity(seized) {
            Ok(burned) => burned,
            Err(e) => {
                return Err(e);
            },
        };
        let reduced = Position {
            collateral_shares: holder.collateral_shares - burned_collateral,
            debt_shares: holder.debt_shares,
        };
        proof {
            lemma_update_keeps_valid(banks_repaid, collateral_slot as int, collateral_bank);
            lemma_update_keeps_fit(
                banks_repaid,
                positions_repaid,
                collateral_slot as int,
                collateral_bank,
                reduced,
            );
            assert(padded(positions_repaid, n as nat) =~= positions_repaid);
        }
        banks.set(collateral_slot, collateral_bank);
        positions.set(collateral_slot, reduced);
    }
    let after = evaluate(&banks, &positions, prices, Weighting::LiquidationThreshold);
    if !after.is_greater_than(&before) {
        return Err(LendingError::WouldBreachHealth);
    }
    proof {
        let price_scale = collateral_price * BPS;
        let t = seize_target(
            repaid as int,
            debt_price,
            collateral_price,
            market.liquidation_bonus,
        );
        assert(seized * price_scale <= t * price_scale) by (nonlinear_arith)
            requires
                0 <= seized <= t,
                0 < price_scale,
        ;
    }
    market.banks = banks;
    user.positions = positions;
    Ok(Liquidation { debt_repaid: repaid, collateral_seized: seized })
}

} // verus!
