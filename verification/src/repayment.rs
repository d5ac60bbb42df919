use vstd::prelude::*;
use crate::bank::{lemma_burn_bounded, lemma_burn_keeps_backing, lemma_burn_within_holding, lemma_full_claim_burns_all, liquidity_for_shares, shares_to_burn, strands_liquidity, Bank};
use crate::engine::{borrow_outcome, deposit_outcome, lemma_update_keeps_fit, lemma_update_keeps_valid, repay_outcome, with_debt, withdraw_outcome};
use crate::error::LendingError;
use crate::health::{banks_valid, collateral_term, debt_liquidity, debt_term, debt_value, health_of, holdings_fit, lemma_values_bounded, position_at, prices_valid, term_cap, weighted_collateral, Position, Weighting};
use crate::laws::law_accrual_grows;
use crate::market::{all_accrued, has_bank, padded, slot_of};

verus! {

/// Where every collateral position is worth the same in two states and no
/// debt position is worth more in the second, the collateral values are
/// equal and the second debt value is no greater.
pub proof fn lemma_less_debt_same_collateral(
    banks_a: Seq<Bank>,
    positions_a: Seq<Position>,
    banks_b: Seq<Bank>,
    positions_b: Seq<Position>,
    prices: Seq<u64>,
    weighting: Weighting,
    n: nat,
)
    requires
        forall|i: int|
            0 <= i < n ==> {
                &&& collateral_term(
                    #[trigger] banks_a[i],
                    position_at(positions_a, i),
                    prices[i],
                    weighting,
                ) == collateral_term(banks_b[i], position_at(positions_b, i), prices[i], weighting)
                &&& debt_term(banks_b[i], position_at(positions_b, i), prices[i]) <= debt_term(
                    banks_a[i],
                    position_at(positions_a, i),
                    prices[i],
                )
            },
    ensures
        weighted_collateral(banks_a, positions_a, prices, weighting, n) == weighted_collateral(
            banks_b,
            positions_b,
            prices,
            weighting,
            n,
        ),
        debt_value(banks_b, positions_b, prices, n) <= debt_value(banks_a, positions_a, prices, n),
    decreases n,
{
    if n > 0 {
        lemma_less_debt_same_collateral(
            banks_a,
            positions_a,
            banks_b,
            positions_b,
            prices,
            weighting,
            (n - 1) as nat,
        );
        assert(banks_a[n - 1] == banks_a[n - 1]);
    }
}

/// A repayment of all that the user owes in a bank, or of more where the
/// policy caps it, goes through, takes exactly what was owed, leaves the
/// user no debt shares in that bank, and does not lower the user's health
/// factor.
pub proof fn law_capped_repayment_clears_debt(
    banks: Seq<Bank>,
    positions: Seq<Position>,
    prices: Seq<u64>,
    weighting: Weighting,
    reject_over_repayment: bool,
    asset_id: u64,
    amount: u64,
    now: u64,
)
    requires
        banks_valid(banks),
        holdings_fit(banks, positions),
        prices_valid(banks, prices),
        has_bank(banks, asset_id),
        ({
            let slot = slot_of(banks, asset_id);
            let owed = debt_liquidity(banks[slot].accrued(now), position_at(positions, slot));
            0 < owed <= amount && (amount == owed || !reject_over_repayment)
        }),
    ensures
        ({
            let slot = slot_of(banks, asset_id);
            let bank = banks[slot].accrued(now);
            let owed = debt_liquidity(bank, position_at(positions, slot));
            let outcome = repay_outcome(
                banks,
                positions,
                reject_over_repayment,
                asset_id,
                amount,
                now,
            );
            &&& outcome.is_ok()
            &&& outcome.unwrap().2 == owed
            &&& outcome.unwrap().1[slot].debt_shares == 0
            &&& !health_of(banks.update(slot, bank), positions, prices, weighting).exceeds(
                health_of(outcome.unwrap().0, outcome.unwrap().1, prices, weighting),
            )
        }),
{
    let slot = slot_of(banks, asset_id);
    assert(0 <= slot < banks.len());
    assert(banks[slot].wf());
    law_accrual_grows(banks[slot], now);
    let bank = banks[slot].accrued(now);
    let position = position_at(positions, slot);
    let held = position.debt_shares as int;
    let shares = bank.total_borrowed_shares as int;
    let liquidity = bank.total_borrowed_liquidity as int;
    let owed = debt_liquidity(bank, position);
    assert(held <= shares);
    lemma_full_claim_burns_all(held, shares, liquidity);
    lemma_burn_keeps_backing(owed, shares, liquidity);
    let paid = owed as u64;
    let after = bank.after_repay(paid);
    let cleared = with_debt(position, position.debt_shares - bank.repay_burned(paid));
    assert(cleared.debt_shares == 0);
    assert(after.wf());
    let before_banks = banks.update(slot, bank);
    let after_banks = banks.update(slot, after);
    let after_positions = padded(positions, banks.len()).update(slot, cleared);
    lemma_update_keeps_valid(banks, slot, bank);
    lemma_update_keeps_valid(banks, slot, after);
    lemma_update_keeps_fit(banks, positions, slot, after, cleared);
    assert(holdings_fit(before_banks, positions)) by {
        assert forall|i: int| 0 <= i < positions.len() implies {
            &&& (#[trigger] positions[i]).collateral_shares
                <= before_banks[i].total_deposited_shares
            &&& positions[i].debt_shares <= before_banks[i].total_borrowed_shares
        } by {
            assert(positions[i].collateral_shares <= banks[i].total_deposited_shares);
        }
    }
    assert forall|i: int| 0 <= i < banks.len() implies {
        &&& collateral_term(
            #[trigger] before_banks[i],
            position_at(positions, i),
            prices[i],
            weighting,
        ) == collateral_term(after_banks[i], position_at(after_positions, i), prices[i], weighting)
        &&& debt_term(after_banks[i], position_at(after_positions, i), prices[i]) <= debt_term(
            before_banks[i],
            position_at(positions, i),
            prices[i],
        )
    } by {
        if i == slot {
            assert(0 * (after.total_borrowed_liquidity as int) == 0);
            assert(debt_liquidity(after, cleared) == 0);
            assert(debt_term(after, cleared, prices[i]) == 0) by (nonlinear_arith)
                requires
                    debt_term(after, cleared, prices[i]) == 0 * prices[i],
            ;
            assert(owed * prices[i] >= 0) by (nonlinear_arith)
                requires
                    owed > 0,
                    prices[i] >= 0,
            ;
        }
    }
    lemma_less_debt_same_collateral(
        before_banks,
        positions,
        after_banks,
        after_positions,
        prices,
        weighting,
        banks.len(),
    );
    lemma_values_bounded(before_banks, positions, prices, weighting, banks.len());
    lemma_values_bounded(after_banks, after_positions, prices, weighting, banks.len());
    let collateral = weighted_collateral(before_banks, positions, prices, weighting, banks.len());
    let debt_before = debt_value(before_banks, positions, prices, banks.len());
    let debt_after = debt_value(after_banks, after_positions, prices, banks.len());
    assert(banks.len() * term_cap() <= 64 * term_cap()) by (nonlinear_arith)
        requires
            banks.len() <= 64,
    ;
    if debt_after > 0 {
        vstd::arithmetic::div_mod::lemma_div_is_ordered_by_denominator(
            collateral,
            debt_after,
            debt_before,
        );
        vstd::arithmetic::div_mod::lemma_div_is_ordered_by_denominator(collateral, 1, debt_after);
        vstd::arithmetic::div_mod::lemma_div_is_ordered_by_denominator(collateral, 1, debt_before);
        vstd::arithmetic::div_mod::lemma_div_basics(collateral);
        vstd::arithmetic::div_mod::lemma_div_is_ordered(0, collateral, debt_after);
        vstd::arithmetic::div_mod::lemma_div_is_ordered(0, collateral, debt_before);
    }
}

/// After a repayment the shares that are left owe no more than the shares
/// owed before.
pub proof fn lemma_repayment_lowers_claim(amount: int, held: int, shares: int, liquidity: int)
    requires
        0 < amount <= liquidity_for_shares(held, shares, liquidity),
        0 <= held <= shares,
        0 < liquidity,
        !strands_liquidity(amount, shares, liquidity),
    ensures
        liquidity_for_shares(
            held - shares_to_burn(amount, shares, liquidity),
            shares - shares_to_burn(amount, shares, liquidity),
            liquidity - amount,
        ) <= liquidity_for_shares(held, shares, liquidity),
{
    let burned = shares_to_burn(amount, shares, liquidity);
    lemma_burn_within_holding(amount, held, shares, liquidity);
    lemma_burn_bounded(amount, shares, liquidity);
    let left = shares - burned;
    if left > 0 {
        let x = (held - burned) * (liquidity - amount);
        let y = held * liquidity;
        assert(x * shares <= y * left && x >= 0) by (nonlinear_arith)
            requires
                x == (held - burned) * (liquidity - amount),
                y == held * liquidity,
                left == shares - burned,
                0 < burned <= held,
                held <= shares,
                0 < amount <= liquidity,
        ;
        let q = x / left;
        vstd::arithmetic::div_mod::lemma_fundamental_div_mod(x, left);
        vstd::arithmetic::div_mod::lemma_mod_bound(x, left);
        vstd::arithmetic::div_mod::lemma_fundamental_div_mod(y, shares);
        vstd::arithmetic::div_mod::lemma_mod_bound(y, shares);
        let p = y / shares;
        assert(left * q <= x);
        assert(q * shares <= y) by (nonlinear_arith)
            requires
                left * q <= x,
                x * shares <= y * left,
                left > 0,
                shares > 0,
        ;
        assert(q <= p) by (nonlinear_arith)
            requires
                q * shares <= y,
                y == shares * p + y % shares,
                0 <= y % shares < shares,
                shares > 0,
        ;
    }
}

/// A repayment that goes through does not lower the user's health factor.
pub proof fn law_repayment_keeps_health(
    banks: Seq<Bank>,
    positions: Seq<Position>,
    prices: Seq<u64>,
    weighting: Weighting,
    reject_over_repayment: bool,
    asset_id: u64,
    amount: u64,
    now: u64,
)
    requires
        banks_valid(banks),
        holdings_fit(banks, positions),
        prices_valid(banks, prices),
        repay_outcome(banks, positions, reject_over_repayment, asset_id, amount, now).is_ok(),
    ensures
        ({
            let slot = slot_of(banks, asset_id);
            let outcome = repay_outcome(
                banks,
                positions,
                reject_over_repayment,
                asset_id,
                amount,
                now,
            );
            !health_of(
                banks.update(slot, banks[slot].accrued(now)),
                positions,
                prices,
                weighting,
            ).exceeds(health_of(outcome.unwrap().0, outcome.unwrap().1, prices, weighting))
        }),
{
    let slot = slot_of(banks, asset_id);
    assert(has_bank(banks, asset_id));
    assert(0 <= slot < banks.len());
    assert(banks[slot].wf());
    law_accrual_grows(banks[slot], now);
    let bank = banks[slot].accrued(now);
    let position = position_at(positions, slot);
    let held = position.debt_shares as int;
    let shares = bank.total_borrowed_shares as int;
    let liquidity = bank.total_borrowed_liquidity as int;
    let outcome = repay_outcome(banks, positions, reject_over_repayment, asset_id, amount, now);
    let paid = outcome.unwrap().2;
    assert(held <= shares);
    assert(liquidity > 0) by {
        if liquidity == 0 {
            assert(held * 0 == 0);
        }
    }
    lemma_burn_within_holding(paid as int, held, shares, liquidity);
    lemma_burn_bounded(paid as int, shares, liquidity);
    lemma_burn_keeps_backing(paid as int, shares, liquidity);
    lemma_repayment_lowers_claim(paid as int, held, shares, liquidity);
    let after = bank.after_repay(paid);
    let relieved = with_debt(position, position.debt_shares - bank.repay_burned(paid));
    assert(after.wf());
    let before_banks = banks.update(slot, bank);
    let after_banks = banks.update(slot, after);
    let after_positions = padded(positions, banks.len()).update(slot, relieved);
    lemma_update_keeps_valid(banks, slot, bank);
    lemma_update_keeps_valid(banks, slot, after);
    lemma_update_keeps_fit(banks, positions, slot, after, relieved);
    assert(holdings_fit(before_banks, positions)) by {
        assert forall|i: int| 0 <= i < positions.len() implies {
            &&& (#[trigger] positions[i]).collateral_shares
                <= before_banks[i].total_deposited_shares
            &&& positions[i].debt_shares <= before_banks[i].total_borrowed_shares
        } by {
            assert(positions[i].collateral_shares <= banks[i].total_deposited_shares);
        }
    }
    assert forall|i: int| 0 <= i < banks.len() implies {
        &&& collateral_term(
            #[trigger] before_banks[i],
            position_at(positions, i),
            prices[i],
            weighting,
        ) == collateral_term(after_banks[i], position_at(after_positions, i), prices[i], weighting)
        &&& debt_term(after_banks[i], position_at(after_positions, i), prices[i]) <= debt_term(
            before_banks[i],
            position_at(positions, i),
            prices[i],
        )
    } by {
        if i == slot {
            let owed_after = debt_liquidity(after, relieved);
            let owed_before = debt_liquidity(bank, position);
            assert(owed_after <= owed_before);
            assert(owed_after * prices[i] <= owed_before * prices[i]) by (nonlinear_arith)
                requires
                    owed_after <= owed_before,
                    prices[i] >= 0,
            ;
        }
    }
    lemma_less_debt_same_collateral(
        before_banks,
        positions,
        after_banks,
        after_positions,
        prices,
        weighting,
        banks.len(),
    );
    lemma_values_bounded(before_banks, positions, prices, weighting, banks.len());
    lemma_values_bounded(after_banks, after_positions, prices, weighting, banks.len());
    let collateral = weighted_collateral(before_banks, positions, prices, weighting, banks.len());
    let debt_before = debt_value(before_banks, positions, prices, banks.len());
    let debt_after = debt_value(after_banks, after_positions, prices, banks.len());
    assert(banks.len() * term_cap() <= 64 * term_cap()) by (nonlinear_arith)
        requires
            banks.len() <= 64,
    ;
    if debt_after > 0 {
        vstd::arithmetic::div_mod::lemma_div_is_ordered_by_denominator(
            collateral,
            debt_after,
            debt_before,
        );
        vstd::arithmetic::div_mod::lemma_div_is_ordered_by_denominator(collateral, 1, debt_after);
        vstd::arithmetic::div_mod::lemma_div_is_ordered_by_denominator(collateral, 1, debt_before);
        vstd::arithmetic::div_mod::lemma_div_basics(collateral);
        vstd::arithmetic::div_mod::lemma_div_is_ordered(0, collateral, debt_after);
        vstd::arithmetic::div_mod::lemma_div_is_ordered(0, collateral, debt_before);
    }
}

/// A loan that the bank would grant is refused with `WouldBreachHealth`,
/// and nothing changes, where it would leave the borrower's health factor
/// under the loan-to-value limits below one.
pub proof fn law_borrow_refused_when_unhealthy(
    banks: Seq<Bank>,
    positions: Seq<Position>,
    prices: Seq<u64>,
    asset_id: u64,
    amount: u64,
    now: u64,
)
    requires
        has_bank(banks, asset_id),
        banks[slot_of(banks, asset_id)].accrued(now).borrow_refusal(amount).is_none(),
        ({
            let slot = slot_of(banks, asset_id);
            let bank = banks[slot].accrued(now);
            let position = position_at(positions, slot);
            health_of(
                all_accrued(banks, now).update(slot, bank.after_borrow(amount)),
                padded(positions, banks.len()).update(
                    slot,
                    with_debt(position, position.debt_shares + bank.borrow_minted(amount)),
                ),
                prices,
                Weighting::MaxLtv,
            ).below_one()
        }),
    ensures
        borrow_outcome(banks, positions, prices, asset_id, amount, now) == Err::<
            (Seq<Bank>, Seq<Position>, u64),
            LendingError,
        >(LendingError::WouldBreachHealth),
{
}

/// A withdrawal that the user's balance covers and the bank would pay is
/// refused with `WouldBreachHealth`, and nothing changes, where it would
/// leave the user's health factor under the liquidation thresholds below
/// one.
pub proof fn law_withdraw_refused_when_unhealthy(
    banks: Seq<Bank>,
    positions: Seq<Position>,
    prices: Seq<u64>,
    asset_id: u64,
    amount: u64,
    now: u64,
)
    requires
        has_bank(banks, asset_id),
        0 < amount <= crate::health::collateral_liquidity(
            banks[slot_of(banks, asset_id)].accrued(now),
            position_at(positions, slot_of(banks, asset_id)),
        ),
        banks[slot_of(banks, asset_id)].accrued(now).withdraw_refusal(amount).is_none(),
        ({
            let slot = slot_of(banks, asset_id);
            let bank = banks[slot].accrued(now);
            let position = position_at(positions, slot);
            health_of(
                all_accrued(banks, now).update(slot, bank.after_withdraw(amount)),
                padded(positions, banks.len()).update(
                    slot,
                    crate::engine::with_collateral(
                        position,
                        position.collateral_shares - bank.withdraw_burned(amount),
                    ),
                ),
                prices,
                Weighting::LiquidationThreshold,
            ).below_one()
        }),
    ensures
        withdraw_outcome(banks, positions, prices, asset_id, amount, now) == Err::<
            (Seq<Bank>, Seq<Position>, u64),
            LendingError,
        >(LendingError::WouldBreachHealth),
{
}

/// A deposit at the time to which the bank was last brought current
/// compounds nothing: where the bank accepts the amount, the deposit goes
/// through, adds exactly the amount to the deposits, and leaves the debt
/// and the interest index as they were.
pub proof fn law_deposit_at_the_same_time(
    banks: Seq<Bank>,
    positions: Seq<Position>,
    asset_id: u64,
    amount: u64,
    now: u64,
)
    requires
        has_bank(banks, asset_id),
        now <= banks[slot_of(banks, asset_id)].last_accrual_timestamp,
        banks[slot_of(banks, asset_id)].deposit_refusal(amount).is_none(),
    ensures
        ({
            let slot = slot_of(banks, asset_id);
            let outcome = deposit_outcome(banks, positions, asset_id, amount, now);
            &&& outcome.is_ok()
            &&& outcome.unwrap().0 == banks.update(slot, banks[slot].after_deposit(amount))
            &&& outcome.unwrap().0[slot].total_deposit_liquidity
                == banks[slot].total_deposit_liquidity + amount
            &&& outcome.unwrap().0[slot].total_borrowed_liquidity
                == banks[slot].total_borrowed_liquidity
            &&& outcome.unwrap().0[slot].total_borrowed_shares
                == banks[slot].total_borrowed_shares
            &&& outcome.unwrap().0[slot].interest_index == banks[slot].interest_index
        }),
{
    let slot = slot_of(banks, asset_id);
    assert(0 <= slot < banks.len());
}

/// A repayment at the time to which the bank was last brought current
/// compounds nothing: where it is no more than the user owes and the bank
/// accepts it, it goes through, takes exactly the amount off the debt of
/// the bank, and leaves the deposits and the interest index as they were.
pub proof fn law_repay_at_the_same_time(
    banks: Seq<Bank>,
    positions: Seq<Position>,
    reject_over_repayment: bool,
    asset_id: u64,
    amount: u64,
    now: u64,
)
    requires
        has_bank(banks, asset_id),
        now <= banks[slot_of(banks, asset_id)].last_accrual_timestamp,
        0 < amount <= debt_liquidity(
            banks[slot_of(banks, asset_id)],
            position_at(positions, slot_of(banks, asset_id)),
        ),
        banks[slot_of(banks, asset_id)].repay_refusal(amount).is_none(),
    ensures
        ({
            let slot = slot_of(banks, asset_id);
            let outcome = repay_outcome(
                banks,
                positions,
                reject_over_repayment,
                asset_id,
                amount,
                now,
            );
            &&& outcome.is_ok()
            &&& outcome.unwrap().2 == amount
            &&& outcome.unwrap().0 == banks.update(slot, banks[slot].after_repay(amount))
            &&& outcome.unwrap().0[slot].total_borrowed_liquidity
                == banks[slot].total_borrowed_liquidity - amount
            &&& outcome.unwrap().0[slot].total_deposit_liquidity
                == banks[slot].total_deposit_liquidity
            &&& outcome.unwrap().0[slot].interest_index == banks[slot].interest_index
        }),
{
    let slot = slot_of(banks, asset_id);
    assert(0 <= slot < banks.len());
}

} // verus!
