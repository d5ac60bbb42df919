use vstd::prelude::*;
use crate::bank::{lemma_burn_bounded, liquidity_for_shares, shares_for_liquidity, shares_to_burn, strands_liquidity, Bank};
use crate::engine::{borrow_outcome, deposit_outcome, lemma_update_keeps_valid, withdraw_outcome};
use crate::health::{banks_valid, health_of, holdings_fit, position_at, Position, Weighting};
use crate::liquidation::liquidate_outcome;
use crate::market::{all_accrued, has_bank, padded, slot_of};
use crate::math::{mul_div_floor, BPS, WAD};

verus! {

/// Whether `amount` of liquidity is a whole number of shares of a pool: the
/// pool is empty, or the amount times the shares is a multiple of the
/// liquidity.
pub open spec fn converts_exactly(amount: int, shares: int, liquidity: int) -> bool {
    shares == 0 || (amount * shares) % liquidity == 0
}

/// Bringing a bank current twice to the same time, or then to an earlier
/// time, is the same as bringing it current once.
pub proof fn law_accrual_idempotent(bank: Bank, now: u64, again: u64)
    requires
        again <= now,
    ensures
        bank.accrued(now).accrued(now) == bank.accrued(now),
        bank.accrued(now).accrued(again) == bank.accrued(now),
{
}

/// While a bank has debt and the pool can still count it, the debt after
/// accrual is the debt compounded: never less than it was, and after one
/// second the debt plus the second's interest at the borrow rate, rounded
/// down.
pub proof fn law_accrual_compounds(bank: Bank, now: u64)
    requires
        bank.wf(),
        now > bank.last_accrual_timestamp,
    ensures
        bank.growth(now) >= WAD,
        mul_div_floor(bank.total_borrowed_liquidity as int, bank.growth(now), WAD as int)
            >= bank.total_borrowed_liquidity,
        bank.total_deposit_liquidity + (mul_div_floor(
            bank.total_borrowed_liquidity as int,
            bank.growth(now),
            WAD as int,
        ) - bank.total_borrowed_liquidity) <= u64::MAX ==> bank.accrued(
            now,
        ).total_borrowed_liquidity == mul_div_floor(
            bank.total_borrowed_liquidity as int,
            bank.growth(now),
            WAD as int,
        ),
        now - bank.last_accrual_timestamp == 1 ==> bank.growth(now) == WAD
            + bank.rate_per_second(),
{
    let rate = bank.rate_per_second();
    assert(0 <= rate <= crate::bank::BASE_RATE_PER_SECOND + crate::bank::RATE_SLOPE_PER_SECOND) by {
        if bank.total_deposit_liquidity > 0 {
            crate::bank::lemma_mul_div_bounded(
                BPS as int,
                bank.total_borrowed_liquidity as int,
                bank.total_deposit_liquidity as int,
            );
        }
        crate::bank::lemma_mul_div_bounded(
            crate::bank::RATE_SLOPE_PER_SECOND as int,
            bank.utilization(),
            BPS as int,
        );
    }
    let elapsed = (now - bank.last_accrual_timestamp) as nat;
    crate::math::lemma_wad_pow_at_least_one(WAD + rate, elapsed);
    let growth = bank.growth(now);
    let debt = bank.total_borrowed_liquidity as int;
    assert(debt * growth >= debt * WAD) by (nonlinear_arith)
        requires
            growth >= WAD,
            debt >= 0,
    ;
    vstd::arithmetic::div_mod::lemma_div_is_ordered(debt * WAD, debt * growth, WAD as int);
    vstd::arithmetic::div_mod::lemma_div_multiples_vanish(debt, WAD as int);
    assert(debt * WAD == WAD * debt) by (nonlinear_arith);
}

/// Bringing a bank current never changes its shares, never lowers its
/// liquidity, and adds the same interest to debt and deposits.
pub proof fn law_accrual_grows(bank: Bank, now: u64)
    requires
        bank.wf(),
    ensures
        bank.accrued(now).total_deposited_shares == bank.total_deposited_shares,
        bank.accrued(now).total_borrowed_shares == bank.total_borrowed_shares,
        bank.accrued(now).total_deposit_liquidity >= bank.total_deposit_liquidity,
        bank.accrued(now).total_borrowed_liquidity >= bank.total_borrowed_liquidity,
        bank.accrued(now).total_deposit_liquidity - bank.total_deposit_liquidity == bank.accrued(
            now,
        ).total_borrowed_liquidity - bank.total_borrowed_liquidity,
        bank.accrued(now).wf(),
{
    if bank.total_borrowed_liquidity == 0 {
        assert(0 * bank.growth(now) == 0);
    }
}

/// Taking out what was just put in burns the shares that it minted, where
/// the amount is a whole number of shares.
pub proof fn law_pool_round_trip(amount: int, shares: int, liquidity: int)
    requires
        0 < amount,
        0 <= shares,
        0 <= liquidity,
        shares == 0 <==> liquidity == 0,
        converts_exactly(amount, shares, liquidity),
    ensures
        shares_to_burn(
            amount,
            shares + shares_for_liquidity(amount, shares, liquidity),
            liquidity + amount,
        ) == shares_for_liquidity(amount, shares, liquidity),
        !strands_liquidity(
            amount,
            shares + shares_for_liquidity(amount, shares, liquidity),
            liquidity + amount,
        ),
{
    let minted = shares_for_liquidity(amount, shares, liquidity);
    if shares > 0 {
        vstd::arithmetic::div_mod::lemma_fundamental_div_mod(amount * shares, liquidity);
        assert(amount * shares == liquidity * minted);
        assert(0 <= minted) by (nonlinear_arith)
            requires
                amount * shares == liquidity * minted,
                0 < amount,
                0 < shares,
                0 < liquidity,
        ;
        let total = liquidity + amount;
        assert(amount * (shares + minted) + total - 1 == total * minted + (total - 1))
            by (nonlinear_arith)
            requires
                amount * shares == liquidity * minted,
                total == liquidity + amount,
        ;
        vstd::arithmetic::div_mod::lemma_fundamental_div_mod_converse(
            amount * (shares + minted) + total - 1,
            total,
            minted,
            total - 1,
        );
    }
}

/// Taking out what was just put in burns more shares than it minted where
/// the amount is not a whole number of shares.
pub proof fn law_fraction_costs_a_share(amount: int, shares: int, liquidity: int)
    requires
        0 < amount,
        0 < shares,
        0 < liquidity,
        !converts_exactly(amount, shares, liquidity),
    ensures
        shares_to_burn(
            amount,
            shares + shares_for_liquidity(amount, shares, liquidity),
            liquidity + amount,
        ) > shares_for_liquidity(amount, shares, liquidity),
{
    let minted = shares_for_liquidity(amount, shares, liquidity);
    vstd::arithmetic::div_mod::lemma_fundamental_div_mod(amount * shares, liquidity);
    vstd::arithmetic::div_mod::lemma_mod_bound(amount * shares, liquidity);
    assert(amount * shares > liquidity * minted);
    let total = liquidity + amount;
    assert(amount * (shares + minted) + total - 1 >= total * (minted + 1)) by (nonlinear_arith)
        requires
            amount * shares >= liquidity * minted + 1,
            total == liquidity + amount,
    ;
    vstd::arithmetic::div_mod::lemma_div_is_ordered(
        total * (minted + 1),
        amount * (shares + minted) + total - 1,
        total,
    );
    vstd::arithmetic::div_mod::lemma_div_multiples_vanish(minted + 1, total);
}

/// After a deposit of a whole number of shares, the depositor can claim at
/// least the amount deposited.
pub proof fn law_deposit_is_redeemable(amount: int, held: int, shares: int, liquidity: int)
    requires
        0 < amount,
        0 <= held <= shares,
        0 <= liquidity,
        shares == 0 <==> liquidity == 0,
        converts_exactly(amount, shares, liquidity),
        0 < shares_for_liquidity(amount, shares, liquidity),
    ensures
        liquidity_for_shares(
            held + shares_for_liquidity(amount, shares, liquidity),
            shares + shares_for_liquidity(amount, shares, liquidity),
            liquidity + amount,
        ) >= amount,
{
    let minted = shares_for_liquidity(amount, shares, liquidity);
    let pool = shares + minted;
    let total = liquidity + amount;
    if shares > 0 {
        vstd::arithmetic::div_mod::lemma_fundamental_div_mod(amount * shares, liquidity);
        assert(amount * shares == liquidity * minted);
    }
    if shares > 0 {
        assert(minted * total == amount * pool) by (nonlinear_arith)
            requires
                amount * shares == liquidity * minted,
                pool == shares + minted,
                total == liquidity + amount,
        ;
    } else {
        assert(minted == amount && pool == amount && total == amount);
    }
    assert((held + minted) * total >= amount * pool) by (nonlinear_arith)
        requires
            minted * total == amount * pool,
            0 <= held,
            0 < total,
    ;
    vstd::arithmetic::div_mod::lemma_div_is_ordered(amount * pool, (held + minted) * total, pool);
    vstd::arithmetic::div_mod::lemma_div_multiples_vanish(amount, pool);
    assert(amount * pool == pool * amount) by (nonlinear_arith);
}

/// Whether a share of a pool is worth no less after than before: liquidity
/// per share, compared without dividing.
pub open spec fn price_not_lower(
    shares_before: int,
    liquidity_before: int,
    shares_after: int,
    liquidity_after: int,
) -> bool {
    liquidity_after * shares_before >= liquidity_before * shares_after
}

/// No operation of a bank lowers the price of a deposit share or of a
/// borrow share: not a deposit, a withdrawal, a loan or a repayment that the
/// bank accepts, and not the accrual of interest.
pub proof fn law_share_price_never_falls(bank: Bank, amount: u64, now: u64)
    requires
        bank.wf(),
    ensures
        bank.deposit_refusal(amount).is_none() ==> price_not_lower(
            bank.total_deposited_shares as int,
            bank.total_deposit_liquidity as int,
            bank.after_deposit(amount).total_deposited_shares as int,
            bank.after_deposit(amount).total_deposit_liquidity as int,
        ),
        bank.withdraw_refusal(amount).is_none() ==> price_not_lower(
            bank.total_deposited_shares as int,
            bank.total_deposit_liquidity as int,
            bank.after_withdraw(amount).total_deposited_shares as int,
            bank.after_withdraw(amount).total_deposit_liquidity as int,
        ),
        bank.borrow_refusal(amount).is_none() ==> price_not_lower(
            bank.total_borrowed_shares as int,
            bank.total_borrowed_liquidity as int,
            bank.after_borrow(amount).total_borrowed_shares as int,
            bank.after_borrow(amount).total_borrowed_liquidity as int,
        ),
        bank.repay_refusal(amount).is_none() ==> price_not_lower(
            bank.total_borrowed_shares as int,
            bank.total_borrowed_liquidity as int,
            bank.after_repay(amount).total_borrowed_shares as int,
            bank.after_repay(amount).total_borrowed_liquidity as int,
        ),
        price_not_lower(
            bank.total_deposited_shares as int,
            bank.total_deposit_liquidity as int,
            bank.accrued(now).total_deposited_shares as int,
            bank.accrued(now).total_deposit_liquidity as int,
        ),
        price_not_lower(
            bank.total_borrowed_shares as int,
            bank.total_borrowed_liquidity as int,
            bank.accrued(now).total_borrowed_shares as int,
            bank.accrued(now).total_borrowed_liquidity as int,
        ),
{
    if bank.deposit_refusal(amount).is_none() {
        lemma_minting_keeps_price(
            amount as int,
            bank.total_deposited_shares as int,
            bank.total_deposit_liquidity as int,
        );
    }
    if bank.borrow_refusal(amount).is_none() {
        lemma_minting_keeps_price(
            amount as int,
            bank.total_borrowed_shares as int,
            bank.total_borrowed_liquidity as int,
        );
    }
    if bank.withdraw_refusal(amount).is_none() {
        lemma_burning_keeps_price(
            amount as int,
            bank.total_deposited_shares as int,
            bank.total_deposit_liquidity as int,
        );
    }
    if bank.repay_refusal(amount).is_none() {
        lemma_burning_keeps_price(
            amount as int,
            bank.total_borrowed_shares as int,
            bank.total_borrowed_liquidity as int,
        );
    }
    law_accrual_grows(bank, now);
    let grown = bank.accrued(now);
    assert(grown.total_deposit_liquidity * bank.total_deposited_shares
        >= bank.total_deposit_liquidity * bank.total_deposited_shares) by (nonlinear_arith)
        requires
            grown.total_deposit_liquidity >= bank.total_deposit_liquidity,
            bank.total_deposited_shares >= 0,
    ;
    assert(grown.total_borrowed_liquidity * bank.total_borrowed_shares
        >= bank.total_borrowed_liquidity * bank.total_borrowed_shares) by (nonlinear_arith)
        requires
            grown.total_borrowed_liquidity >= bank.total_borrowed_liquidity,
            bank.total_borrowed_shares >= 0,
    ;
}

/// Minting shares for liquidity that enters a pool does not lower the
/// price of a share.
pub proof fn lemma_minting_keeps_price(amount: int, shares: int, liquidity: int)
    requires
        0 < amount,
        0 <= shares,
        0 <= liquidity,
        shares == 0 <==> liquidity == 0,
    ensures
        price_not_lower(
            shares,
            liquidity,
            shares + shares_for_liquidity(amount, shares, liquidity),
            liquidity + amount,
        ),
{
    let minted = shares_for_liquidity(amount, shares, liquidity);
    if shares > 0 {
        vstd::arithmetic::div_mod::lemma_fundamental_div_mod(amount * shares, liquidity);
        vstd::arithmetic::div_mod::lemma_mod_bound(amount * shares, liquidity);
        assert(liquidity * minted <= amount * shares);
        assert((liquidity + amount) * shares >= liquidity * (shares + minted)) by (nonlinear_arith)
            requires
                liquidity * minted <= amount * shares,
        ;
    } else {
        assert((liquidity + amount) * shares == 0) by (nonlinear_arith)
            requires
                shares == 0,
        ;
        assert(liquidity * (shares + minted) == 0) by (nonlinear_arith)
            requires
                liquidity == 0,
        ;
    }
}

/// Burning shares for liquidity that leaves a pool does not lower the
/// price of a share.
pub proof fn lemma_burning_keeps_price(amount: int, shares: int, liquidity: int)
    requires
        0 < amount <= liquidity,
        0 < shares,
    ensures
        price_not_lower(
            shares,
            liquidity,
            shares - shares_to_burn(amount, shares, liquidity),
            liquidity - amount,
        ),
{
    let burned = shares_to_burn(amount, shares, liquidity);
    lemma_burn_bounded(amount, shares, liquidity);
    assert((liquidity - amount) * shares >= liquidity * (shares - burned)) by (nonlinear_arith)
        requires
            liquidity * burned >= amount * shares,
    ;
}

/// The bank of an asset stands at one place only.
pub proof fn lemma_slot_unique(banks: Seq<Bank>, asset_id: u64, slot: int)
    requires
        banks_valid(banks),
        0 <= slot < banks.len(),
        banks[slot].asset_id == asset_id,
    ensures
        has_bank(banks, asset_id),
        slot_of(banks, asset_id) == slot,
{
    let found = slot_of(banks, asset_id);
    assert(has_bank(banks, asset_id));
    assert(0 <= found < banks.len() && banks[found].asset_id == asset_id);
    if found < slot {
        assert(banks[found].asset_id != banks[slot].asset_id);
    }
    if slot < found {
        assert(banks[slot].asset_id != banks[found].asset_id);
    }
}

/// A deposit followed at the same time by a withdrawal of the same amount
/// burns the shares that the deposit minted and leaves the user's positions
/// as they were, and the banks as they were once brought current. This holds
/// where the amount is a whole number of shares and the user, as they stood
/// before, would pass the health check of a withdrawal.
pub proof fn law_deposit_withdraw_round_trip(
    banks: Seq<Bank>,
    positions: Seq<Position>,
    prices: Seq<u64>,
    asset_id: u64,
    amount: u64,
    now: u64,
)
    requires
        banks_valid(banks),
        holdings_fit(banks, positions),
        deposit_outcome(banks, positions, asset_id, amount, now).is_ok(),
        converts_exactly(
            amount as int,
            banks[slot_of(banks, asset_id)].accrued(now).total_deposited_shares as int,
            banks[slot_of(banks, asset_id)].accrued(now).total_deposit_liquidity as int,
        ),
        !health_of(
            all_accrued(banks, now),
            positions,
            prices,
            Weighting::LiquidationThreshold,
        ).below_one(),
    ensures
        ({
            let slot = slot_of(banks, asset_id);
            let deposited = deposit_outcome(banks, positions, asset_id, amount, now).unwrap();
            withdraw_outcome(deposited.0, deposited.1, prices, asset_id, amount, now) == Ok::<
                (Seq<Bank>, Seq<Position>, u64),
                crate::error::LendingError,
            >(
                (all_accrued(banks, now), padded(positions, banks.len()), deposited.2),
            )
        }),
{
    let slot = slot_of(banks, asset_id);
    assert(has_bank(banks, asset_id));
    assert(0 <= slot < banks.len());
    assert(banks[slot].wf());
    let bank = banks[slot].accrued(now);
    let position = position_at(positions, slot);
    let deposited = deposit_outcome(banks, positions, asset_id, amount, now).unwrap();
    let minted = bank.deposit_minted(amount);
    let shares = bank.total_deposited_shares as int;
    let liquidity = bank.total_deposit_liquidity as int;
    law_accrual_grows(banks[slot], now);
    assert(shares == 0 <==> liquidity == 0) by {
        if banks[slot].total_deposit_liquidity == 0 {
            assert(banks[slot].total_borrowed_liquidity == 0);
            assert(0 * banks[slot].growth(now) == 0);
        }
    }
    let after = bank.after_deposit(amount);
    assert(deposited.0 == banks.update(slot, after));
    assert(position.collateral_shares <= shares);
    law_pool_round_trip(amount as int, shares, liquidity);
    law_deposit_is_redeemable(amount as int, position.collateral_shares as int, shares, liquidity);
    if shares > 0 {
        crate::bank::lemma_mul_div_bounded(amount as int, shares, liquidity);
    }
    assert(after.wf());
    lemma_update_keeps_valid(banks, slot, after);
    lemma_slot_unique(deposited.0, asset_id, slot);
    assert(after.accrued(now) == after);
    assert(after.after_withdraw(amount) == bank);
    assert(all_accrued(deposited.0, now).update(slot, bank) =~= all_accrued(banks, now));
    let restored = padded(deposited.1, deposited.0.len()).update(slot, position);
    assert(restored =~= padded(positions, banks.len()));
    crate::market::lemma_padding_keeps_health(
        all_accrued(banks, now),
        positions,
        prices,
        Weighting::LiquidationThreshold,
    );
}

/// A loan that goes through leaves the borrower with a health factor of at
/// least one under the loan-to-value limits.
pub proof fn law_borrow_keeps_health(
    banks: Seq<Bank>,
    positions: Seq<Position>,
    prices: Seq<u64>,
    asset_id: u64,
    amount: u64,
    now: u64,
)
    ensures
        match borrow_outcome(banks, positions, prices, asset_id, amount, now) {
            Ok((after_banks, after_positions, _)) => !health_of(
                after_banks,
                after_positions,
                prices,
                Weighting::MaxLtv,
            ).below_one(),
            Err(_) => true,
        },
{
}

/// A withdrawal that goes through leaves the user, where any debt remains,
/// with a health factor of at least one under the liquidation thresholds.
pub proof fn law_withdraw_keeps_health(
    banks: Seq<Bank>,
    positions: Seq<Position>,
    prices: Seq<u64>,
    asset_id: u64,
    amount: u64,
    now: u64,
)
    ensures
        match withdraw_outcome(banks, positions, prices, asset_id, amount, now) {
            Ok((after_banks, after_positions, _)) => !health_of(
                after_banks,
                after_positions,
                prices,
                Weighting::LiquidationThreshold,
            ).below_one(),
            Err(_) => true,
        },
{
}

/// A liquidation goes through only for a user whose health factor, with
/// every bank brought current, is below one, and leaves that health factor
/// strictly greater.
pub proof fn law_liquidation_improves_health(
    banks: Seq<Bank>,
    positions: Seq<Position>,
    prices: Seq<u64>,
    close_factor: u64,
    bonus: u64,
    collateral_asset: u64,
    debt_asset: u64,
    now: u64,
)
    ensures
        match liquidate_outcome(
            banks,
            positions,
            prices,
            close_factor,
            bonus,
            collateral_asset,
            debt_asset,
            now,
        ) {
            Ok((after_banks, after_positions, _)) => {
                let before = health_of(
                    all_accrued(banks, now),
                    positions,
                    prices,
                    Weighting::LiquidationThreshold,
                );
                let after = health_of(
                    after_banks,
                    after_positions,
                    prices,
                    Weighting::LiquidationThreshold,
                );
                before.below_one() && after.exceeds(before)
            },
            Err(_) => true,
        },
{
}

} // verus!
