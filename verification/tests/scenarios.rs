use lending::engine::{borrow, deposit, repay, withdraw};
use lending::error::LendingError;
use lending::health::{HealthFactor, Position, Weighting};
use lending::liquidation::{liquidate, Liquidation};
use lending::market::{health_factor, init_bank, init_user, Market, UserAccount};
use lending::oracle::Quote;
use lending::quoted::{borrow_quoted, liquidate_quoted, withdraw_quoted};

const COLLATERAL: u64 = 1;
const DEBT: u64 = 2;
const ONE: u64 = 1_000_000;

fn two_bank_market(reject_over_repayment: bool) -> (Market, UserAccount) {
    let mut market = Market::new(5_000, 500, reject_over_repayment).unwrap();
    assert_eq!(init_bank(&mut market, COLLATERAL, 9_000, 8_000, 0), Ok(()));
    assert_eq!(init_bank(&mut market, DEBT, 9_000, 8_000, 0), Ok(()));
    let mut lender = init_user(7);
    assert_eq!(deposit(&mut market, &mut lender, DEBT, 1_000, 0), Ok(1_000));
    (market, lender)
}

fn borrower_at_limit(market: &mut Market) -> UserAccount {
    let mut user = init_user(1);
    assert_eq!(deposit(market, &mut user, COLLATERAL, 100, 0), Ok(100));
    assert_eq!(borrow(market, &mut user, &vec![ONE, ONE], DEBT, 80, 0), Ok(80));
    user
}

#[test]
fn borrow_is_limited_by_max_ltv() {
    let (mut market, _lender) = two_bank_market(false);
    let mut user = init_user(1);
    assert_eq!(deposit(&mut market, &mut user, COLLATERAL, 100, 0), Ok(100));
    let prices = vec![ONE, ONE];
    let banks_before = market.banks.clone();
    let positions_before = user.positions.clone();
    assert_eq!(
        borrow(&mut market, &mut user, &prices, DEBT, 81, 0),
        Err(LendingError::WouldBreachHealth)
    );
    assert_eq!(market.banks, banks_before);
    assert_eq!(user.positions, positions_before);
    assert_eq!(borrow(&mut market, &mut user, &prices, DEBT, 80, 0), Ok(80));
    assert_eq!(
        user.positions,
        vec![
            Position { collateral_shares: 100, debt_shares: 0 },
            Position { collateral_shares: 0, debt_shares: 80 },
        ]
    );
    assert_eq!(market.banks[1].total_borrowed_liquidity, 80);
    assert_eq!(market.banks[1].total_borrowed_shares, 80);
    assert_eq!(
        health_factor(&market, &user, &prices, Weighting::MaxLtv, 0),
        HealthFactor::Ratio(10_000)
    );
    assert_eq!(
        borrow(&mut market, &mut user, &prices, DEBT, 1, 0),
        Err(LendingError::WouldBreachHealth)
    );
}

#[test]
fn price_drop_permits_liquidation() {
    let (mut market, _lender) = two_bank_market(false);
    let mut user = borrower_at_limit(&mut market);
    let prices = vec![ONE, ONE];
    assert_eq!(
        health_factor(&market, &user, &prices, Weighting::LiquidationThreshold, 0),
        HealthFactor::Ratio(11_250)
    );
    assert_eq!(
        liquidate(&mut market, &mut user, &prices, COLLATERAL, DEBT, 0),
        Err(LendingError::NotLiquidatable)
    );
    let dropped = vec![850_000, ONE];
    let before = health_factor(&market, &user, &dropped, Weighting::LiquidationThreshold, 0);
    assert_eq!(before, HealthFactor::Ratio(9_562));
    assert!(before.is_below_one());
    assert_eq!(
        liquidate(&mut market, &mut user, &dropped, COLLATERAL, DEBT, 0),
        Ok(Liquidation { debt_repaid: 40, collateral_seized: 49 })
    );
    assert_eq!(
        user.positions,
        vec![
            Position { collateral_shares: 51, debt_shares: 0 },
            Position { collateral_shares: 0, debt_shares: 40 },
        ]
    );
    assert_eq!(market.banks[0].total_deposit_liquidity, 51);
    assert_eq!(market.banks[0].total_deposited_shares, 51);
    assert_eq!(market.banks[1].total_borrowed_liquidity, 40);
    assert_eq!(market.banks[1].total_deposit_liquidity, 1_000);
    let after = health_factor(&market, &user, &dropped, Weighting::LiquidationThreshold, 0);
    assert_eq!(after, HealthFactor::Ratio(9_753));
    assert!(after.is_greater_than(&before));
}

#[test]
fn liquidator_gets_no_more_than_debt_plus_bonus() {
    let (mut market, _lender) = two_bank_market(false);
    let mut user = borrower_at_limit(&mut market);
    let dropped = vec![850_000, ONE];
    let moved = liquidate(&mut market, &mut user, &dropped, COLLATERAL, DEBT, 0).unwrap();
    let seized_value = moved.collateral_seized as u128 * 850_000 * 10_000;
    let owed_value = moved.debt_repaid as u128 * ONE as u128 * 10_500;
    assert!(seized_value <= owed_value);
}

#[test]
fn liquidation_that_would_not_help_is_refused() {
    let (mut market, _lender) = two_bank_market(false);
    let mut user = borrower_at_limit(&mut market);
    let collapsed = vec![100_000, ONE];
    let banks_before = market.banks.clone();
    let positions_before = user.positions.clone();
    assert_eq!(
        health_factor(&market, &user, &collapsed, Weighting::LiquidationThreshold, 0),
        HealthFactor::Ratio(1_125)
    );
    assert_eq!(
        liquidate(&mut market, &mut user, &collapsed, COLLATERAL, DEBT, 0),
        Err(LendingError::WouldBreachHealth)
    );
    assert_eq!(market.banks, banks_before);
    assert_eq!(user.positions, positions_before);
}

#[test]
fn liquidation_needs_debt_in_the_named_asset() {
    let (mut market, _lender) = two_bank_market(false);
    let mut user = borrower_at_limit(&mut market);
    let dropped = vec![850_000, ONE];
    assert_eq!(
        liquidate(&mut market, &mut user, &dropped, DEBT, COLLATERAL, 0),
        Err(LendingError::NoDebtToRepay)
    );
    assert_eq!(
        liquidate(&mut market, &mut user, &dropped, COLLATERAL, 99, 0),
        Err(LendingError::UnknownAsset)
    );
}

#[test]
fn deposit_then_withdraw_restores_the_account() {
    let (mut market, _lender) = two_bank_market(false);
    let mut user = init_user(1);
    let prices = vec![ONE, ONE];
    assert_eq!(deposit(&mut market, &mut user, DEBT, 250, 5), Ok(250));
    let bank_before = market.banks[1];
    let positions_before = user.positions.clone();
    assert_eq!(deposit(&mut market, &mut user, DEBT, 40, 5), Ok(40));
    assert_eq!(withdraw(&mut market, &mut user, &prices, DEBT, 40, 5), Ok(40));
    assert_eq!(market.banks[1], bank_before);
    assert_eq!(market.banks[0].last_accrual_timestamp, 5);
    assert_eq!(user.positions, positions_before);
    let banks_before = market.banks.clone();
    assert_eq!(deposit(&mut market, &mut user, DEBT, 40, 5), Ok(40));
    assert_eq!(deposit(&mut market, &mut user, DEBT, 40, 5), Ok(40));
    assert_eq!(withdraw(&mut market, &mut user, &prices, DEBT, 40, 5), Ok(40));
    assert_eq!(withdraw(&mut market, &mut user, &prices, DEBT, 40, 5), Ok(40));
    assert_eq!(market.banks, banks_before);
    assert_eq!(user.positions, positions_before);
}

#[test]
fn withdraw_is_limited_by_liquidation_threshold() {
    let (mut market, _lender) = two_bank_market(false);
    let mut user = borrower_at_limit(&mut market);
    let prices = vec![ONE, ONE];
    let banks_before = market.banks.clone();
    let positions_before = user.positions.clone();
    assert_eq!(
        withdraw(&mut market, &mut user, &prices, COLLATERAL, 12, 0),
        Err(LendingError::WouldBreachHealth)
    );
    assert_eq!(market.banks, banks_before);
    assert_eq!(user.positions, positions_before);
    assert_eq!(withdraw(&mut market, &mut user, &prices, COLLATERAL, 11, 0), Ok(11));
    assert_eq!(
        health_factor(&market, &user, &prices, Weighting::LiquidationThreshold, 0),
        HealthFactor::Ratio(10_012)
    );
}

#[test]
fn withdraw_without_debt_is_free() {
    let (mut market, mut lender) = two_bank_market(false);
    let prices = vec![ONE, ONE];
    assert_eq!(
        health_factor(&market, &lender, &prices, Weighting::LiquidationThreshold, 0),
        HealthFactor::Infinite
    );
    assert_eq!(withdraw(&mut market, &mut lender, &prices, DEBT, 1_000, 0), Ok(1_000));
    assert_eq!(market.banks[1].total_deposit_liquidity, 0);
    assert_eq!(market.banks[1].total_deposited_shares, 0);
}

#[test]
fn refused_amounts() {
    let (mut market, mut lender) = two_bank_market(false);
    let mut user = init_user(1);
    let prices = vec![ONE, ONE];
    assert_eq!(deposit(&mut market, &mut user, COLLATERAL, 0, 0), Err(LendingError::InvalidAmount));
    assert_eq!(deposit(&mut market, &mut user, 99, 10, 0), Err(LendingError::UnknownAsset));
    assert_eq!(deposit(&mut market, &mut user, COLLATERAL, 100, 0), Ok(100));
    assert_eq!(
        deposit(&mut market, &mut user, COLLATERAL, u64::MAX, 0),
        Err(LendingError::InvalidAmount)
    );
    assert_eq!(
        withdraw(&mut market, &mut user, &prices, COLLATERAL, 0, 0),
        Err(LendingError::InvalidAmount)
    );
    assert_eq!(
        withdraw(&mut market, &mut user, &prices, COLLATERAL, 101, 0),
        Err(LendingError::InsufficientBalance)
    );
    assert_eq!(
        withdraw(&mut market, &mut user, &prices, DEBT, 1, 0),
        Err(LendingError::InsufficientBalance)
    );
    assert_eq!(
        withdraw(&mut market, &mut user, &prices, 99, 1, 0),
        Err(LendingError::UnknownAsset)
    );
    assert_eq!(borrow(&mut market, &mut user, &prices, DEBT, 0, 0), Err(LendingError::InvalidAmount));
    assert_eq!(
        borrow(&mut market, &mut user, &prices, DEBT, 1_001, 0),
        Err(LendingError::InsufficientLiquidity)
    );
    assert_eq!(borrow(&mut market, &mut user, &prices, 99, 1, 0), Err(LendingError::UnknownAsset));
    assert_eq!(repay(&mut market, &mut user, DEBT, 0, 0), Err(LendingError::InvalidAmount));
    assert_eq!(repay(&mut market, &mut user, DEBT, 5, 0), Err(LendingError::NoDebtToRepay));
    assert_eq!(repay(&mut market, &mut user, 99, 5, 0), Err(LendingError::UnknownAsset));
    assert_eq!(borrow(&mut market, &mut user, &prices, DEBT, 80, 0), Ok(80));
    assert_eq!(
        withdraw(&mut market, &mut lender, &prices, DEBT, 921, 0),
        Err(LendingError::InsufficientLiquidity)
    );
    assert_eq!(withdraw(&mut market, &mut lender, &prices, DEBT, 920, 0), Ok(920));
}

#[test]
fn repayment_beyond_the_debt_is_capped() {
    let (mut market, _lender) = two_bank_market(false);
    let mut user = borrower_at_limit(&mut market);
    assert_eq!(repay(&mut market, &mut user, DEBT, 30, 0), Ok(30));
    assert_eq!(user.positions[1].debt_shares, 50);
    assert_eq!(market.banks[1].total_borrowed_liquidity, 50);
    assert_eq!(repay(&mut market, &mut user, DEBT, 500, 0), Ok(50));
    assert_eq!(user.positions[1].debt_shares, 0);
    assert_eq!(market.banks[1].total_borrowed_liquidity, 0);
    assert_eq!(market.banks[1].total_borrowed_shares, 0);
    assert_eq!(repay(&mut market, &mut user, DEBT, 1, 0), Err(LendingError::NoDebtToRepay));
}

#[test]
fn repayment_beyond_the_debt_is_refused_where_the_policy_says_so() {
    let (mut market, _lender) = two_bank_market(true);
    let mut user = borrower_at_limit(&mut market);
    let banks_before = market.banks.clone();
    assert_eq!(repay(&mut market, &mut user, DEBT, 81, 0), Err(LendingError::OverRepayment));
    assert_eq!(market.banks, banks_before);
    assert_eq!(user.positions[1].debt_shares, 80);
    assert_eq!(repay(&mut market, &mut user, DEBT, 80, 0), Ok(80));
    assert_eq!(user.positions[1].debt_shares, 0);
}

#[test]
fn interest_accrues_to_both_sides_before_an_operation() {
    let mut market = Market::new(5_000, 500, false).unwrap();
    assert_eq!(init_bank(&mut market, DEBT, 9_000, 8_000, 0), Ok(()));
    let mut lender = init_user(7);
    assert_eq!(deposit(&mut market, &mut lender, DEBT, 1_000_000_000_000, 0), Ok(1_000_000_000_000));
    let prices = vec![ONE];
    assert_eq!(borrow(&mut market, &mut lender, &prices, DEBT, 500_000_000_000, 0), Ok(500_000_000_000));
    let year: u64 = 31_536_000;
    assert_eq!(deposit(&mut market, &mut lender, DEBT, 1_058_139_035_093, year), Ok(1_000_000_000_000));
    let bank = market.banks[0];
    assert_eq!(bank.total_borrowed_liquidity, 558_139_035_093);
    assert_eq!(bank.total_deposit_liquidity, 2 * 1_058_139_035_093);
    assert_eq!(bank.total_deposited_shares, 2_000_000_000_000);
    assert_eq!(bank.interest_index, 1_116_278_070_187_407_970);
    assert_eq!(bank.last_accrual_timestamp, year);
    assert_eq!(repay(&mut market, &mut lender, DEBT, u64::MAX, year), Ok(558_139_035_093));
    assert_eq!(lender.positions[0].debt_shares, 0);
}

#[test]
fn accounts_and_markets_are_validated() {
    let (mut market, lender) = two_bank_market(false);
    let user = borrower_at_limit(&mut market);
    assert!(market.is_well_formed());
    assert!(user.fits(&market));
    assert!(lender.fits(&market));
    assert!(init_user(3).fits(&market));
    let stranger = UserAccount {
        owner_id: 9,
        positions: vec![Position { collateral_shares: 101, debt_shares: 0 }],
    };
    assert!(!stranger.fits(&market));
    let crowded = UserAccount {
        owner_id: 9,
        positions: vec![Position { collateral_shares: 0, debt_shares: 0 }; 3],
    };
    assert!(!crowded.fits(&market));
    assert_eq!(user.position(1), Position { collateral_shares: 0, debt_shares: 80 });
    assert_eq!(user.position(5), Position { collateral_shares: 0, debt_shares: 0 });
    assert_eq!(market.find_bank(DEBT), Some(1));
    assert_eq!(market.find_bank(3), None);
    assert_eq!(
        user.position_in(&market, COLLATERAL),
        Some(Position { collateral_shares: 100, debt_shares: 0 })
    );
    assert_eq!(init_user(3).position_in(&market, DEBT), Some(Position { collateral_shares: 0, debt_shares: 0 }));
    assert_eq!(user.position_in(&market, 99), None);
    assert!(!user.is_empty());
    assert!(init_user(3).is_empty());
    assert!(crowded.is_empty());
}

#[test]
fn health_is_read_with_interest_due() {
    let mut market = Market::new(5_000, 500, false).unwrap();
    assert_eq!(init_bank(&mut market, DEBT, 9_000, 8_000, 0), Ok(()));
    let mut user = init_user(7);
    assert_eq!(deposit(&mut market, &mut user, DEBT, 1_000_000_000_000, 0), Ok(1_000_000_000_000));
    let prices = vec![ONE];
    assert_eq!(borrow(&mut market, &mut user, &prices, DEBT, 800_000_000_000, 0), Ok(800_000_000_000));
    assert_eq!(
        health_factor(&market, &user, &prices, Weighting::LiquidationThreshold, 0),
        HealthFactor::Ratio(11_250)
    );
    let later = health_factor(&market, &user, &prices, Weighting::LiquidationThreshold, 315_360_000);
    assert_eq!(later, HealthFactor::Ratio(9_411));
    assert_eq!(market.banks[0].total_borrowed_liquidity, 800_000_000_000);
    assert_eq!(
        borrow(&mut market, &mut user, &prices, DEBT, 1, 315_360_000),
        Err(LendingError::InvalidAmount)
    );
    assert_eq!(
        borrow(&mut market, &mut user, &prices, DEBT, 10, 315_360_000),
        Err(LendingError::WouldBreachHealth)
    );
    assert_eq!(market.banks[0].last_accrual_timestamp, 0);
}

#[test]
fn liquidation_repays_no_more_than_the_close_factor() {
    let (mut market, _lender) = two_bank_market(false);
    let mut user = init_user(1);
    assert_eq!(deposit(&mut market, &mut user, COLLATERAL, 102, 0), Ok(102));
    assert_eq!(borrow(&mut market, &mut user, &vec![ONE, ONE], DEBT, 81, 0), Ok(81));
    let dropped = vec![850_000, ONE];
    assert_eq!(
        health_factor(&market, &user, &dropped, Weighting::LiquidationThreshold, 0),
        HealthFactor::Ratio(9_633)
    );
    let moved = liquidate(&mut market, &mut user, &dropped, COLLATERAL, DEBT, 0).unwrap();
    assert_eq!(moved, Liquidation { debt_repaid: 40, collateral_seized: 49 });
    assert!(moved.debt_repaid * 10_000 <= 81 * 5_000);
    assert_eq!(
        user.positions,
        vec![
            Position { collateral_shares: 53, debt_shares: 0 },
            Position { collateral_shares: 0, debt_shares: 41 },
        ]
    );
    assert_eq!(
        health_factor(&market, &user, &dropped, Weighting::LiquidationThreshold, 0),
        HealthFactor::Ratio(9_889)
    );
}

#[test]
fn a_debt_too_small_to_share_is_not_liquidated() {
    let (mut market, _lender) = two_bank_market(false);
    let mut user = init_user(1);
    assert_eq!(deposit(&mut market, &mut user, COLLATERAL, 100, 0), Ok(100));
    assert_eq!(borrow(&mut market, &mut user, &vec![ONE, ONE], DEBT, 1, 0), Ok(1));
    let collapsed = vec![10_000, ONE];
    assert_eq!(
        health_factor(&market, &user, &collapsed, Weighting::LiquidationThreshold, 0),
        HealthFactor::Ratio(9_000)
    );
    let banks_before = market.banks.clone();
    let positions_before = user.positions.clone();
    assert_eq!(
        liquidate(&mut market, &mut user, &collapsed, COLLATERAL, DEBT, 0),
        Err(LendingError::InvalidAmount)
    );
    assert_eq!(market.banks, banks_before);
    assert_eq!(user.positions, positions_before);
}

fn quotes_at(collateral_price: u64, published_at: u64) -> Vec<Quote> {
    vec![
        Quote { asset_id: COLLATERAL, price: collateral_price, published_at },
        Quote { asset_id: DEBT, price: ONE, published_at: 100 },
    ]
}

#[test]
fn an_oracle_failure_stops_the_operation() {
    let (mut market, _lender) = two_bank_market(false);
    let mut user = init_user(1);
    assert_eq!(deposit(&mut market, &mut user, COLLATERAL, 100, 0), Ok(100));
    let banks_before = market.banks.clone();
    let positions_before = user.positions.clone();
    let stale = quotes_at(ONE, 10);
    assert_eq!(
        borrow_quoted(&mut market, &mut user, &stale, 60, DEBT, 80, 100),
        Err(LendingError::StalePrice)
    );
    assert_eq!(
        withdraw_quoted(&mut market, &mut user, &stale, 60, COLLATERAL, 10, 100),
        Err(LendingError::StalePrice)
    );
    assert_eq!(
        liquidate_quoted(&mut market, &mut user, &stale, 60, COLLATERAL, DEBT, 100),
        Err(LendingError::StalePrice)
    );
    let partial = vec![Quote { asset_id: DEBT, price: ONE, published_at: 100 }];
    assert_eq!(
        borrow_quoted(&mut market, &mut user, &partial, 60, DEBT, 80, 100),
        Err(LendingError::UnknownAsset)
    );
    assert_eq!(
        withdraw_quoted(&mut market, &mut user, &partial, 60, COLLATERAL, 10, 100),
        Err(LendingError::UnknownAsset)
    );
    assert_eq!(
        liquidate_quoted(&mut market, &mut user, &partial, 60, COLLATERAL, DEBT, 100),
        Err(LendingError::UnknownAsset)
    );
    assert_eq!(market.banks, banks_before);
    assert_eq!(user.positions, positions_before);
}

#[test]
fn operations_run_at_the_oracles_prices() {
    let mut market = Market::new(5_000, 500, false).unwrap();
    assert_eq!(init_bank(&mut market, COLLATERAL, 9_000, 8_000, 100), Ok(()));
    assert_eq!(init_bank(&mut market, DEBT, 9_000, 8_000, 100), Ok(()));
    let mut lender = init_user(7);
    assert_eq!(deposit(&mut market, &mut lender, DEBT, 1_000, 100), Ok(1_000));
    let mut user = init_user(1);
    assert_eq!(deposit(&mut market, &mut user, COLLATERAL, 100, 100), Ok(100));
    let fresh = quotes_at(ONE, 100);
    assert_eq!(
        borrow_quoted(&mut market, &mut user, &fresh, 60, DEBT, 81, 100),
        Err(LendingError::WouldBreachHealth)
    );
    assert_eq!(borrow_quoted(&mut market, &mut user, &fresh, 60, DEBT, 80, 100), Ok(80));
    assert_eq!(
        withdraw_quoted(&mut market, &mut user, &fresh, 60, COLLATERAL, 12, 100),
        Err(LendingError::WouldBreachHealth)
    );
    assert_eq!(withdraw_quoted(&mut market, &mut user, &fresh, 60, COLLATERAL, 11, 100), Ok(11));
    assert_eq!(deposit(&mut market, &mut user, COLLATERAL, 11, 100), Ok(11));
    assert_eq!(
        liquidate_quoted(&mut market, &mut user, &fresh, 60, COLLATERAL, DEBT, 100),
        Err(LendingError::NotLiquidatable)
    );
    let dropped = quotes_at(850_000, 100);
    assert_eq!(
        liquidate_quoted(&mut market, &mut user, &dropped, 60, COLLATERAL, DEBT, 100),
        Ok(Liquidation { debt_repaid: 40, collateral_seized: 49 })
    );
}

#[test]
fn a_capped_repayment_leaves_no_debt_shares() {
    let mut market = Market::new(5_000, 500, false).unwrap();
    assert_eq!(init_bank(&mut market, DEBT, 9_000, 8_000, 0), Ok(()));
    let prices = vec![ONE];
    let mut first = init_user(1);
    let mut second = init_user(2);
    assert_eq!(deposit(&mut market, &mut first, DEBT, 1_000_000, 0), Ok(1_000_000));
    assert_eq!(deposit(&mut market, &mut second, DEBT, 1_000_000, 0), Ok(1_000_000));
    assert_eq!(borrow(&mut market, &mut first, &prices, DEBT, 300_001, 0), Ok(300_001));
    assert_eq!(borrow(&mut market, &mut second, &prices, DEBT, 500_003, 0), Ok(500_003));
    let year: u64 = 31_536_000;
    let before = health_factor(&market, &first, &prices, Weighting::LiquidationThreshold, year);
    let paid = repay(&mut market, &mut first, DEBT, u64::MAX, year).unwrap();
    assert!(paid > 300_001);
    assert_eq!(first.positions[0].debt_shares, 0);
    assert_eq!(market.banks[0].total_borrowed_shares, 500_003);
    assert!(market.banks[0].is_well_formed());
    let after = health_factor(&market, &first, &prices, Weighting::LiquidationThreshold, year);
    assert_eq!(after, HealthFactor::Infinite);
    assert!(!before.is_greater_than(&after));
    assert!(second.fits(&market));
}
