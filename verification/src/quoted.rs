use vstd::prelude::*;
use crate::engine::{borrow, borrow_outcome, settles, withdraw, withdraw_outcome};
use crate::error::LendingError;
use crate::health::{health_of, Weighting};
use crate::liquidation::{liquidate, liquidate_outcome, Liquidation};
use crate::market::{all_accrued, Market, UserAccount};
use crate::oracle::{collect_prices, prices_of, Quote};

verus! {

/// Whether the call's result and the state it left are what the outcome of
/// a liquidation says: on success the new banks and positions and what was
/// moved, on refusal the error and the state as it was.
pub open spec fn liquidation_settles(
    outcome: Result<(Seq<crate::bank::Bank>, Seq<crate::health::Position>, Liquidation), LendingError>,
    r: Result<Liquidation, LendingError>,
    market_before: Market,
    market_after: Market,
    user_before: UserAccount,
    user_after: UserAccount,
) -> bool {
    match outcome {
        Ok((banks, positions, moved)) => {
            &&& r == Ok::<Liquidation, LendingError>(moved)
            &&& market_after.banks@ == banks
            &&& user_after.positions@ == positions
            &&& market_after.same_policy(market_before)
            &&& user_after.owner_id == user_before.owner_id
        },
        Err(e) => {
            &&& r == Err::<Liquidation, LendingError>(e)
            &&& market_after == market_before
            &&& user_after == user_before
        },
    }
}

/// Withdraws at the oracle's prices. Where the price of any bank's asset
/// cannot be had at `now`, the oracle's error is returned and nothing
/// changes; else this is `withdraw` at the prices collected.
pub fn withdraw_quoted(
    market: &mut Market,
    user: &mut UserAccount,
    quotes: &Vec<Quote>,
    max_age: u64,
    asset_id: u64,
    amount: u64,
    now: u64,
) -> (r: Result<u64, LendingError>)
    requires
        old(market).wf(),
        old(user).wf(*old(market)),
    ensures
        final(market).wf(),
        final(user).wf(*final(market)),
        match prices_of(old(market).banks@, quotes@, now, max_age, old(market).banks@.len()) {
            Err(e) => {
                &&& r == Err::<u64, LendingError>(e)
                &&& *final(market) == *old(market)
                &&& *final(user) == *old(user)
            },
            Ok(prices) => {
                &&& settles(
                    withdraw_outcome(
                        old(market).banks@,
                        old(user).positions@,
                        prices,
                        asset_id,
                        amount,
                        now,
                    ),
                    r,
                    *old(market),
                    *final(market),
                    *old(user),
                    *final(user),
                )
                &&& r.is_ok() ==> !health_of(
                    final(market).banks@,
                    final(user).positions@,
                    prices,
                    Weighting::LiquidationThreshold,
                ).below_one()
            },
        },
{
    let prices: Vec<u64> = match collect_prices(&market.banks, quotes, now, max_age) {
        Ok(prices) => prices,
        Err(e) => {
            return Err(e);
        },
    };
    withdraw(market, user, &prices, asset_id, amount, now)
}

/// Borrows at the oracle's prices. Where the price of any bank's asset
/// cannot be had at `now`, the oracle's error is returned and nothing
/// changes; else this is `borrow` at the prices collected.
pub fn borrow_quoted(
    market: &mut Market,
    user: &mut UserAccount,
    quotes: &Vec<Quote>,
    max_age: u64,
    asset_id: u64,
    amount: u64,
    now: u64,
) -> (r: Result<u64, LendingError>)
    requires
        old(market).wf(),
        old(user).wf(*old(market)),
    ensures
        final(market).wf(),
        final(user).wf(*final(market)),
        match prices_of(old(market).banks@, quotes@, now, max_age, old(market).banks@.len()) {
            Err(e) => {
                &&& r == Err::<u64, LendingError>(e)
                &&& *final(market) == *old(market)
                &&& *final(user) == *old(user)
            },
            Ok(prices) => {
                &&& settles(
                    borrow_outcome(
                        old(market).banks@,
                        old(user).positions@,
                        prices,
                        asset_id,
                        amount,
                        now,
                    ),
                    r,
                    *old(market),
                    *final(market),
                    *old(user),
                    *final(user),
                )
                &&& r.is_ok() ==> !health_of(
                    final(market).banks@,
                    final(user).positions@,
                    prices,
                    Weighting::MaxLtv,
                ).below_one()
            },
        },
{
    let prices: Vec<u64> = match collect_prices(&market.banks, quotes, now, max_age) {
        Ok(prices) => prices,
        Err(e) => {
            return Err(e);
        },
    };
    borrow(market, user, &prices, asset_id, amount, now)
}

/// Liquidates at the oracle's prices. Where the price of any bank's asset
/// cannot be had at `now`, the oracle's error is returned, no collateral
/// moves and no debt is repaid; else this is `liquidate` at the prices
/// collected.
pub fn liquidate_quoted(
    market: &mut Market,
    user: &mut UserAccount,
    quotes: &Vec<Quote>,
    max_age: u64,
    collateral_asset: u64,
    debt_asset: u64,
    now: u64,
) -> (r: Result<Liquidation, LendingError>)
    requires
        old(market).wf(),
        old(user).wf(*old(market)),
    ensures
        final(market).wf(),
        final(user).wf(*final(market)),
        match prices_of(old(market).banks@, quotes@, now, max_age, old(market).banks@.len()) {
            Err(e) => {
                &&& r == Err::<Liquidation, LendingError>(e)
                &&& *final(market) == *old(market)
                &&& *final(user) == *old(user)
            },
            Ok(prices) => {
                &&& liquidation_settles(
                    liquidate_outcome(
                        old(market).banks@,
                        old(user).positions@,
                        prices,
                        old(market).close_factor,
                        old(market).liquidation_bonus,
                        collateral_asset,
                        debt_asset,
                        now,
                    ),
                    r,
                    *old(market),
                    *final(market),
                    *old(user),
                    *final(user),
                )
                &&& r.is_ok() ==> {
                    let before = health_of(
                        all_accrued(old(market).banks@, now),
                        old(user).positions@,
                        prices,
                        Weighting::LiquidationThreshold,
                    );
                    let after = health_of(
                        final(market).banks@,
                        final(user).positions@,
                        prices,
                        Weighting::LiquidationThreshold,
                    );
                    before.below_one() && after.exceeds(before)
                }
            },
        },
{
    let prices: Vec<u64> = match collect_prices(&market.banks, quotes, now, max_age) {
        Ok(prices) => prices,
        Err(e) => {
            return Err(e);
        },
    };
    liquidate(market, user, &prices, collateral_asset, debt_asset, now)
}

} // verus!
