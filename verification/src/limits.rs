use vstd::prelude::*;
use crate::bank::{lemma_mul_div_bounded, Bank};
use crate::engine::{borrow_outcome, lemma_update_keeps_fit, lemma_update_keeps_valid, with_debt};
use crate::health::{banks_valid, debt_value, holdings_fit, law_below_one_is_undercollateralised, lemma_values_bounded, position_at, prices_valid, weighted_collateral, Position, Weighting};
use crate::laws::law_accrual_grows;
use crate::market::{all_accrued, has_bank, padded, slot_of};
use crate::math::BPS;

verus! {

/// Bringing every bank current keeps the banks valid and every holding
/// within them.
pub proof fn lemma_accrual_keeps_valid(banks: Seq<Bank>, positions: Seq<Position>, now: u64)
    requires
        banks_valid(banks),
        holdings_fit(banks, positions),
    ensures
        banks_valid(all_accrued(banks, now)),
        holdings_fit(all_accrued(banks, now), positions),
{
    let current = all_accrued(banks, now);
    assert forall|i: int| 0 <= i < current.len() implies (#[trigger] current[i]).wf() by {
        assert(banks[i].wf());
        law_accrual_grows(banks[i], now);
    }
    assert forall|i: int, j: int| 0 <= i < j < current.len() implies (#[trigger] current[i]).asset_id
        != (#[trigger] current[j]).asset_id by {
        assert(banks[i].asset_id != banks[j].asset_id);
    }
    assert forall|i: int| 0 <= i < positions.len() implies {
        &&& (#[trigger] positions[i]).collateral_shares <= current[i].total_deposited_shares
        &&& positions[i].debt_shares <= current[i].total_borrowed_shares
    } by {
        assert(banks[i].wf());
        law_accrual_grows(banks[i], now);
        assert(positions[i].collateral_shares <= banks[i].total_deposited_shares);
    }
}

/// The most that can be borrowed: a loan that the bank would grant goes
/// through exactly where, with the loan added to the user's debt, the
/// collateral value weighted by the loan-to-value limits is at least the
/// debt value. (The weights are in basis points, hence the factor.)
pub proof fn law_borrow_limit(
    banks: Seq<Bank>,
    positions: Seq<Position>,
    prices: Seq<u64>,
    asset_id: u64,
    amount: u64,
    now: u64,
)
    requires
        banks_valid(banks),
        holdings_fit(banks, positions),
        prices_valid(banks, prices),
        has_bank(banks, asset_id),
        banks[slot_of(banks, asset_id)].accrued(now).borrow_refusal(amount).is_none(),
    ensures
        ({
            let slot = slot_of(banks, asset_id);
            let bank = banks[slot].accrued(now);
            let position = position_at(positions, slot);
            let after_banks = all_accrued(banks, now).update(slot, bank.after_borrow(amount));
            let after_positions = padded(positions, banks.len()).update(
                slot,
                with_debt(position, position.debt_shares + bank.borrow_minted(amount)),
            );
            borrow_outcome(banks, positions, prices, asset_id, amount, now).is_ok()
                <==> weighted_collateral(
                after_banks,
                after_positions,
                prices,
                Weighting::MaxLtv,
                banks.len(),
            ) >= BPS * debt_value(after_banks, after_positions, prices, banks.len())
        }),
{
    let slot = slot_of(banks, asset_id);
    assert(0 <= slot < banks.len());
    assert(banks[slot].wf());
    law_accrual_grows(banks[slot], now);
    lemma_accrual_keeps_valid(banks, positions, now);
    let current = all_accrued(banks, now);
    let bank = banks[slot].accrued(now);
    let position = position_at(positions, slot);
    let minted = bank.borrow_minted(amount);
    if bank.total_borrowed_shares > 0 {
        lemma_mul_div_bounded(
            amount as int,
            bank.total_borrowed_shares as int,
            bank.total_borrowed_liquidity as int,
        );
    }
    let after = bank.after_borrow(amount);
    assert(after.wf());
    let charged = with_debt(position, position.debt_shares + minted);
    assert(position.debt_shares <= bank.total_borrowed_shares);
    lemma_update_keeps_valid(current, slot, after);
    lemma_update_keeps_fit(current, positions, slot, after, charged);
    let after_banks = current.update(slot, after);
    let after_positions = padded(positions, banks.len()).update(slot, charged);
    law_below_one_is_undercollateralised(after_banks, after_positions, prices, Weighting::MaxLtv);
    lemma_values_bounded(after_banks, after_positions, prices, Weighting::MaxLtv, banks.len());
}

} // verus!
