use vstd::prelude::*;
use crate::bank::{lemma_burn_bounded, lemma_burn_within_holding, Bank};
use crate::engine::{borrow_outcome, deposit_outcome, repay_outcome, withdraw_outcome};
use crate::health::{banks_valid, collateral_liquidity, debt_liquidity, holdings_fit, position_at, prices_valid, Position};
use crate::laws::law_accrual_grows;
use crate::liquidation::{lemma_repay_target_bounds, lemma_seize_bounds, liquidate_outcome, repay_target};
use crate::market::{all_accrued, has_bank, padded, slot_of};
use crate::math::BPS;

verus! {

/// Whether the banks have issued at least the shares that one user holds
/// and the shares set aside in `reserved` together: `reserved` stands for
/// what every other user holds, bank by bank.
pub open spec fn jointly_fit(banks: Seq<Bank>, positions: Seq<Position>, reserved: Seq<Position>) -> bool {
    forall|i: int|
        0 <= i < banks.len() ==> {
            &&& position_at(positions, i).collateral_shares + position_at(
                reserved,
                i,
            ).collateral_shares <= (#[trigger] banks[i]).total_deposited_shares
            &&& position_at(positions, i).debt_shares + position_at(reserved, i).debt_shares
                <= banks[i].total_borrowed_shares
        }
}

/// Bringing the banks current, and filling the user's positions up, keeps
/// everyone's shares covered.
pub proof fn lemma_covered_after_accrual(
    banks: Seq<Bank>,
    positions: Seq<Position>,
    reserved: Seq<Position>,
    now: u64,
)
    requires
        banks_valid(banks),
        jointly_fit(banks, positions, reserved),
    ensures
        jointly_fit(all_accrued(banks, now), padded(positions, banks.len()), reserved),
        jointly_fit(banks, padded(positions, banks.len()), reserved),
{
    let current = all_accrued(banks, now);
    let held = padded(positions, banks.len());
    assert forall|i: int| 0 <= i < current.len() implies {
        &&& position_at(held, i).collateral_shares + position_at(reserved, i).collateral_shares <= (
        #[trigger] current[i]).total_deposited_shares
        &&& position_at(held, i).debt_shares + position_at(reserved, i).debt_shares
            <= current[i].total_borrowed_shares
    } by {
        assert(banks[i].wf());
        law_accrual_grows(banks[i], now);
    }
    assert forall|i: int| 0 <= i < banks.len() implies {
        &&& position_at(held, i).collateral_shares + position_at(reserved, i).collateral_shares <= (
        #[trigger] banks[i]).total_deposited_shares
        &&& position_at(held, i).debt_shares + position_at(reserved, i).debt_shares
            <= banks[i].total_borrowed_shares
    } by {
        assert(banks[i].wf());
    }
}

/// Replacing one bank and the user's position in it keeps everyone's shares
/// covered, where the new bank covers the new position and the reserve.
pub proof fn lemma_covered_after_update(
    banks: Seq<Bank>,
    held: Seq<Position>,
    reserved: Seq<Position>,
    slot: int,
    bank: Bank,
    position: Position,
)
    requires
        jointly_fit(banks, held, reserved),
        held.len() == banks.len(),
        0 <= slot < banks.len(),
        position.collateral_shares + position_at(reserved, slot).collateral_shares
            <= bank.total_deposited_shares,
        position.debt_shares + position_at(reserved, slot).debt_shares
            <= bank.total_borrowed_shares,
    ensures
        jointly_fit(banks.update(slot, bank), held.update(slot, position), reserved),
{
    let new_banks = banks.update(slot, bank);
    let new_held = held.update(slot, position);
    assert forall|i: int| 0 <= i < new_banks.len() implies {
        &&& position_at(new_held, i).collateral_shares + position_at(
            reserved,
            i,
        ).collateral_shares <= (#[trigger] new_banks[i]).total_deposited_shares
        &&& position_at(new_held, i).debt_shares + position_at(reserved, i).debt_shares
            <= new_banks[i].total_borrowed_shares
    } by {
        assert(position_at(held, i).debt_shares + position_at(reserved, i).debt_shares
            <= banks[i].total_borrowed_shares);
    }
}

/// A deposit by one user leaves the shares of all others covered.
pub proof fn law_deposit_keeps_others_covered(
    banks: Seq<Bank>,
    positions: Seq<Position>,
    reserved: Seq<Position>,
    asset_id: u64,
    amount: u64,
    now: u64,
)
    requires
        banks_valid(banks),
        holdings_fit(banks, positions),
        jointly_fit(banks, positions, reserved),
    ensures
        match deposit_outcome(banks, positions, asset_id, amount, now) {
            Ok((after_banks, after_positions, _)) => jointly_fit(
                after_banks,
                after_positions,
                reserved,
            ),
            Err(_) => true,
        },
{
    if deposit_outcome(banks, positions, asset_id, amount, now).is_ok() {
        let slot = slot_of(banks, asset_id);
        assert(has_bank(banks, asset_id));
        assert(banks[slot].wf());
        law_accrual_grows(banks[slot], now);
        lemma_covered_after_accrual(banks, positions, reserved, now);
        let bank = banks[slot].accrued(now);
        let position = position_at(positions, slot);
        let minted = bank.deposit_minted(amount);
        lemma_covered_after_update(
            banks,
            padded(positions, banks.len()),
            reserved,
            slot,
            bank.after_deposit(amount),
            crate::engine::with_collateral(position, position.collateral_shares + minted),
        );
    }
}

/// A withdrawal by one user leaves the shares of all others covered.
pub proof fn law_withdraw_keeps_others_covered(
    banks: Seq<Bank>,
    positions: Seq<Position>,
    reserved: Seq<Position>,
    prices: Seq<u64>,
    asset_id: u64,
    amount: u64,
    now: u64,
)
    requires
        banks_valid(banks),
        holdings_fit(banks, positions),
        jointly_fit(banks, positions, reserved),
    ensures
        match withdraw_outcome(banks, positions, prices, asset_id, amount, now) {
            Ok((after_banks, after_positions, _)) => jointly_fit(
                after_banks,
                after_positions,
                reserved,
            ),
            Err(_) => true,
        },
{
    if withdraw_outcome(banks, positions, prices, asset_id, amount, now).is_ok() {
        let slot = slot_of(banks, asset_id);
        assert(has_bank(banks, asset_id));
        assert(banks[slot].wf());
        law_accrual_grows(banks[slot], now);
        lemma_covered_after_accrual(banks, positions, reserved, now);
        let bank = banks[slot].accrued(now);
        let position = position_at(positions, slot);
        let burned = bank.withdraw_burned(amount);
        lemma_burn_within_holding(
            amount as int,
            position.collateral_shares as int,
            bank.total_deposited_shares as int,
            bank.total_deposit_liquidity as int,
        );
        lemma_burn_bounded(
            amount as int,
            bank.total_deposited_shares as int,
            bank.total_deposit_liquidity as int,
        );
        lemma_covered_after_update(
            all_accrued(banks, now),
            padded(positions, banks.len()),
            reserved,
            slot,
            bank.after_withdraw(amount),
            crate::engine::with_collateral(position, position.collateral_shares - burned),
        );
    }
}

/// A loan to one user leaves the shares of all others covered.
pub proof fn law_borrow_keeps_others_covered(
    banks: Seq<Bank>,
    positions: Seq<Position>,
    reserved: Seq<Position>,
    prices: Seq<u64>,
    asset_id: u64,
    amount: u64,
    now: u64,
)
    requires
        banks_valid(banks),
        holdings_fit(banks, positions),
        jointly_fit(banks, positions, reserved),
    ensures
        match borrow_outcome(banks, positions, prices, asset_id, amount, now) {
            Ok((after_banks, after_positions, _)) => jointly_fit(
                after_banks,
                after_positions,
                reserved,
            ),
            Err(_) => true,
        },
{
    if borrow_outcome(banks, positions, prices, asset_id, amount, now).is_ok() {
        let slot = slot_of(banks, asset_id);
        assert(has_bank(banks, asset_id));
        assert(banks[slot].wf());
        law_accrual_grows(banks[slot], now);
        lemma_covered_after_accrual(banks, positions, reserved, now);
        let bank = banks[slot].accrued(now);
        let position = position_at(positions, slot);
        let minted = bank.borrow_minted(amount);
        lemma_covered_after_update(
            all_accrued(banks, now),
            padded(positions, banks.len()),
            reserved,
            slot,
            bank.after_borrow(amount),
            crate::engine::with_debt(position, position.debt_shares + minted),
        );
    }
}

/// A repayment by one user leaves the shares of all others covered.
pub proof fn law_repay_keeps_others_covered(
    banks: Seq<Bank>,
    positions: Seq<Position>,
    reserved: Seq<Position>,
    reject_over_repayment: bool,
    asset_id: u64,
    amount: u64,
    now: u64,
)
    requires
        banks_valid(banks),
        holdings_fit(banks, positions),
        jointly_fit(banks, positions, reserved),
    ensures
        match repay_outcome(banks, positions, reject_over_repayment, asset_id, amount, now) {
            Ok((after_banks, after_positions, _)) => jointly_fit(
                after_banks,
                after_positions,
                reserved,
            ),
            Err(_) => true,
        },
{
    let outcome = repay_outcome(banks, positions, reject_over_repayment, asset_id, amount, now);
    if outcome.is_ok() {
        let slot = slot_of(banks, asset_id);
        assert(has_bank(banks, asset_id));
        assert(banks[slot].wf());
        law_accrual_grows(banks[slot], now);
        lemma_covered_after_accrual(banks, positions, reserved, now);
        let bank = banks[slot].accrued(now);
        let position = position_at(positions, slot);
        let paid = outcome.unwrap().2;
        let burned = bank.repay_burned(paid);
        lemma_burn_within_holding(
            paid as int,
            position.debt_shares as int,
            bank.total_borrowed_shares as int,
            bank.total_borrowed_liquidity as int,
        );
        lemma_burn_bounded(
            paid as int,
            bank.total_borrowed_shares as int,
            bank.total_borrowed_liquidity as int,
        );
        lemma_covered_after_update(
            banks,
            padded(positions, banks.len()),
            reserved,
            slot,
            bank.after_repay(paid),
            crate::engine::with_debt(position, position.debt_shares - burned),
        );
    }
}

/// A liquidation of one user leaves the shares of all others covered.
pub proof fn law_liquidation_keeps_others_covered(
    banks: Seq<Bank>,
    positions: Seq<Position>,
    reserved: Seq<Position>,
    prices: Seq<u64>,
    close_factor: u64,
    bonus: u64,
    collateral_asset: u64,
    debt_asset: u64,
    now: u64,
)
    requires
        banks_valid(banks),
        holdings_fit(banks, positions),
        jointly_fit(banks, positions, reserved),
        prices_valid(banks, prices),
        0 < close_factor <= BPS,
        bonus <= BPS,
    ensures
        match liquidate_outcome(
            banks,
            positions,
            prices,
            close_factor,
            bonus,
            collateral_asset,
            debt_asset,
            now,
        ) {
            Ok((after_banks, after_positions, _)) => jointly_fit(
                after_banks,
                after_positions,
                reserved,
            ),
            Err(_) => true,
        },
{
    let outcome = liquidate_outcome(
        banks,
        positions,
        prices,
        close_factor,
        bonus,
        collateral_asset,
        debt_asset,
        now,
    );
    if outcome.is_ok() {
        let current = all_accrued(banks, now);
        let held = padded(positions, banks.len());
        lemma_covered_after_accrual(banks, positions, reserved, now);
        let debt_slot = slot_of(banks, debt_asset);
        let collateral_slot = slot_of(banks, collateral_asset);
        assert(has_bank(banks, debt_asset) && has_bank(banks, collateral_asset));
        assert(banks[debt_slot].wf() && banks[collateral_slot].wf());
        law_accrual_grows(banks[debt_slot], now);
        law_accrual_grows(banks[collateral_slot], now);
        let debt_bank = current[debt_slot];
        let debtor = position_at(positions, debt_slot);
        let owed = debt_liquidity(debt_bank, debtor);
        lemma_repay_target_bounds(owed, close_factor);
        let repaid = repay_target(owed, close_factor) as u64;
        lemma_burn_within_holding(
            repaid as int,
            debtor.debt_shares as int,
            debt_bank.total_borrowed_shares as int,
            debt_bank.total_borrowed_liquidity as int,
        );
        lemma_burn_bounded(
            repaid as int,
            debt_bank.total_borrowed_shares as int,
            debt_bank.total_borrowed_liquidity as int,
        );
        let relieved = crate::engine::with_debt(
            debtor,
            debtor.debt_shares - debt_bank.repay_burned(repaid),
        );
        lemma_covered_after_update(
            current,
            held,
            reserved,
            debt_slot,
            debt_bank.after_repay(repaid),
            relieved,
        );
        let banks_repaid = current.update(debt_slot, debt_bank.after_repay(repaid));
        let positions_repaid = held.update(debt_slot, relieved);
        let collateral_bank = banks_repaid[collateral_slot];
        let holder = positions_repaid[collateral_slot];
        let moved = outcome.unwrap().2;
        let seized = moved.collateral_seized;
        if seized > 0 {
            assert(holder.collateral_shares == position_at(
                positions,
                collateral_slot,
            ).collateral_shares);
            assert(collateral_bank.total_deposited_shares
                == banks[collateral_slot].total_deposited_shares);
            if collateral_bank.total_deposited_shares > 0 {
                crate::bank::lemma_mul_div_bounded(
                    collateral_bank.total_deposit_liquidity as int,
                    holder.collateral_shares as int,
                    collateral_bank.total_deposited_shares as int,
                );
            }
            lemma_seize_bounds(repaid, prices[debt_slot], prices[collateral_slot], bonus);
            assert(seized <= collateral_liquidity(collateral_bank, holder));
            assert(collateral_bank.total_deposit_liquidity > 0) by {
                if collateral_bank.total_deposit_liquidity == 0 {
                    assert(holder.collateral_shares * 0 == 0);
                }
            }
            lemma_burn_within_holding(
                seized as int,
                holder.collateral_shares as int,
                collateral_bank.total_deposited_shares as int,
                collateral_bank.total_deposit_liquidity as int,
            );
            lemma_burn_bounded(
                seized as int,
                collateral_bank.total_deposited_shares as int,
                collateral_bank.total_deposit_liquidity as int,
            );
            lemma_covered_after_update(
                banks_repaid,
                positions_repaid,
                reserved,
                collateral_slot,
                collateral_bank.after_withdraw(seized),
                crate::engine::with_collateral(
                    holder,
                    holder.collateral_shares - collateral_bank.withdraw_burned(seized),
                ),
            );
        }
    }
}

} // verus!
