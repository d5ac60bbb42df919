use lending::bank::{accrue, burn_shares, shares_to_liquidity, mint_shares, Bank};
use lending::error::LendingError;
use lending::market::{init_bank, init_user, Market};
use lending::math::{mul_div_down, mul_div_up, wad_mul_exec, wad_pow_exec, WAD};
use lending::oracle::{collect_prices, price, Quote};
use lending::validate::{banks_are_valid, prices_are_valid};

fn pool(deposit_shares: u64, deposit_liquidity: u64, borrow_shares: u64, borrow_liquidity: u64) -> Bank {
    Bank {
        asset_id: 1,
        total_deposited_shares: deposit_shares,
        total_deposit_liquidity: deposit_liquidity,
        total_borrowed_shares: borrow_shares,
        total_borrowed_liquidity: borrow_liquidity,
        liquidation_threshold: 9_000,
        max_ltv: 8_000,
        interest_index: WAD,
        last_accrual_timestamp: 0,
    }
}

#[test]
fn risk_parameters_are_validated() {
    assert_eq!(Bank::new(1, 9_000, 8_000, 3), Ok(Bank { last_accrual_timestamp: 3, ..pool(0, 0, 0, 0) }));
    assert_eq!(Bank::new(1, 8_000, 8_000, 0), Err(LendingError::InvalidParameters));
    assert_eq!(Bank::new(1, 8_000, 9_000, 0), Err(LendingError::InvalidParameters));
    assert_eq!(Bank::new(1, 10_001, 8_000, 0), Err(LendingError::InvalidParameters));
    assert_eq!(Bank::new(1, 9_000, 0, 0), Err(LendingError::InvalidParameters));
    assert!(Bank::new(1, 10_000, 9_999, 0).is_ok());
    assert!(Bank::new(1, 2, 1, 0).is_ok());
}

#[test]
fn a_bank_is_opened_once_per_asset() {
    let mut market = Market::new(5_000, 500, false).unwrap();
    assert_eq!(init_bank(&mut market, 4, 9_000, 9_000, 0), Err(LendingError::InvalidParameters));
    assert_eq!(init_bank(&mut market, 4, 9_000, 8_000, 0), Ok(()));
    assert_eq!(init_bank(&mut market, 4, 9_500, 8_500, 0), Err(LendingError::AlreadyExists));
    assert_eq!(init_bank(&mut market, 4, 8_000, 8_500, 0), Err(LendingError::InvalidParameters));
    assert_eq!(init_bank(&mut market, 5, 9_500, 8_500, 7), Ok(()));
    assert_eq!(market.banks.len(), 2);
    assert_eq!(market.banks[1].asset_id, 5);
    assert_eq!(market.banks[1].last_accrual_timestamp, 7);
    assert_eq!(market.banks[1].interest_index, WAD);
    assert!(market.is_well_formed());
}

#[test]
fn market_policy_is_validated() {
    assert!(Market::new(0, 500, false).is_err());
    assert!(Market::new(10_001, 500, false).is_err());
    assert!(Market::new(5_000, 10_001, false).is_err());
    let market = Market::new(10_000, 10_000, true).unwrap();
    assert_eq!(market.close_factor, 10_000);
    assert_eq!(market.liquidation_bonus, 10_000);
    assert!(market.reject_over_repayment);
    assert!(market.banks.is_empty());
}

#[test]
fn new_accounts_hold_nothing() {
    let user = init_user(42);
    assert_eq!(user.owner_id, 42);
    assert!(user.positions.is_empty());
}

#[test]
fn first_depositor_mints_one_for_one() {
    let mut bank = pool(0, 0, 0, 0);
    assert_eq!(bank.deposit_liquidity(77), Ok(77));
    assert_eq!(bank, pool(77, 77, 0, 0));
    assert_eq!(bank.borrow_liquidity(10), Ok(10));
    assert_eq!(bank, pool(77, 77, 10, 10));
}

#[test]
fn shares_convert_at_the_share_price() {
    assert_eq!(mint_shares(3, 100, 150), 2);
    assert_eq!(mint_shares(4, 100, 150), 2);
    assert_eq!(mint_shares(4, 0, 0), 4);
    assert_eq!(shares_to_liquidity(2, 100, 150), 3);
    assert_eq!(shares_to_liquidity(3, 100, 151), 4);
    assert_eq!(shares_to_liquidity(0, 0, 0), 0);
    assert_eq!(burn_shares(3, 102, 153), 2);
    assert_eq!(burn_shares(4, 102, 154), 3);
    assert_eq!(burn_shares(154, 102, 154), 102);
    assert_eq!(burn_shares(9, 1, 10), 1);
    assert_eq!(burn_shares(1, 7, 1_000), 1);
    assert_eq!(burn_shares(153, 102, 154), 102);
}

#[test]
fn whole_shares_round_trip_and_others_cost_one() {
    let mut bank = pool(100, 150, 0, 0);
    assert_eq!(bank.deposit_liquidity(3), Ok(2));
    assert_eq!(bank, pool(102, 153, 0, 0));
    assert_eq!(bank.withdraw_liquidity(3), Ok(2));
    assert_eq!(bank, pool(100, 150, 0, 0));
    assert_eq!(bank.deposit_liquidity(4), Ok(2));
    assert_eq!(bank.withdraw_liquidity(4), Ok(3));
    assert_eq!(bank, pool(99, 150, 0, 0));
}

#[test]
fn the_last_share_is_not_burned_while_liquidity_stays() {
    let mut bank = pool(2, 10, 2, 10);
    assert_eq!(bank.repay_liquidity(9), Err(LendingError::InvalidAmount));
    assert_eq!(bank.repay_liquidity(5), Ok(1));
    assert_eq!(bank, pool(2, 10, 1, 5));
    assert_eq!(bank.withdraw_liquidity(5), Ok(1));
    assert_eq!(bank, pool(1, 5, 1, 5));
    let mut idle = pool(2, 10, 0, 0);
    assert_eq!(idle.withdraw_liquidity(9), Err(LendingError::InvalidAmount));
    assert_eq!(idle, pool(2, 10, 0, 0));
    assert_eq!(idle.withdraw_liquidity(10), Ok(2));
    assert_eq!(idle, pool(0, 0, 0, 0));
}

#[test]
fn bank_operations_refuse_bad_amounts() {
    let mut bank = pool(100, 150, 50, 60);
    assert_eq!(bank.deposit_liquidity(0), Err(LendingError::InvalidAmount));
    assert_eq!(bank.deposit_liquidity(1), Err(LendingError::InvalidAmount));
    assert_eq!(bank.deposit_liquidity(u64::MAX - 149), Err(LendingError::InvalidAmount));
    assert_eq!(bank.withdraw_liquidity(0), Err(LendingError::InvalidAmount));
    assert_eq!(bank.withdraw_liquidity(91), Err(LendingError::InsufficientLiquidity));
    assert_eq!(bank.borrow_liquidity(0), Err(LendingError::InvalidAmount));
    assert_eq!(bank.borrow_liquidity(91), Err(LendingError::InsufficientLiquidity));
    assert_eq!(bank.borrow_liquidity(1), Err(LendingError::InvalidAmount));
    assert_eq!(bank.repay_liquidity(0), Err(LendingError::InvalidAmount));
    assert_eq!(bank.repay_liquidity(61), Err(LendingError::OverRepayment));
    assert_eq!(bank, pool(100, 150, 50, 60));
    assert_eq!(bank.borrow_liquidity(12), Ok(10));
    assert_eq!(bank, pool(100, 150, 60, 72));
    assert_eq!(bank.repay_liquidity(12), Ok(10));
    assert_eq!(bank, pool(100, 150, 50, 60));
    assert_eq!(bank.repay_liquidity(60), Ok(50));
    assert_eq!(bank, pool(100, 150, 0, 0));
    assert_eq!(bank.withdraw_liquidity(150), Ok(100));
    assert_eq!(bank, pool(0, 0, 0, 0));
}

#[test]
fn accrual_compounds_at_the_utilisation_rate() {
    let bank = pool(1_000_000_000_000, 1_000_000_000_000, 500_000_000_000, 500_000_000_000);
    assert_eq!(bank.borrow_rate(), 3_488_077_117);
    let year: u64 = 31_536_000;
    let grown = accrue(bank, year);
    assert_eq!(grown.total_borrowed_liquidity, 558_139_035_093);
    assert_eq!(grown.total_deposit_liquidity, 1_058_139_035_093);
    assert_eq!(grown.total_borrowed_shares, 500_000_000_000);
    assert_eq!(grown.total_deposited_shares, 1_000_000_000_000);
    assert_eq!(grown.interest_index, 1_116_278_070_187_407_970);
    assert_eq!(grown.last_accrual_timestamp, year);
    let second = accrue(bank, 1);
    assert_eq!(second.total_borrowed_liquidity, 500_000_001_744);
    assert_eq!(second.total_deposit_liquidity, 1_000_000_001_744);
    assert_eq!(second.interest_index, 1_000_000_003_488_077_117);
}

#[test]
fn accrual_is_idempotent_at_a_fixed_time() {
    let bank = pool(1_000_000_000_000, 1_000_000_000_000, 500_000_000_000, 500_000_000_000);
    let once = accrue(bank, 31_536_000);
    assert_eq!(accrue(once, 31_536_000), once);
    assert_eq!(accrue(once, 5), once);
    assert_eq!(accrue(bank, 0), bank);
    assert_ne!(once, bank);
}

#[test]
fn an_idle_pool_earns_nothing() {
    let bank = pool(1_000_000_000_000, 1_000_000_000_000, 0, 0);
    assert_eq!(bank.borrow_rate(), 317_097_919);
    let grown = accrue(bank, 31_536_000);
    assert_eq!(grown.total_deposit_liquidity, 1_000_000_000_000);
    assert_eq!(grown.total_borrowed_liquidity, 0);
    assert_eq!(grown.interest_index, 1_010_050_167_046_220_245);
    let empty = pool(0, 0, 0, 0);
    assert_eq!(empty.borrow_rate(), 317_097_919);
    assert_eq!(accrue(empty, 9).total_deposit_liquidity, 0);
}

#[test]
fn interest_stops_at_what_the_pool_can_count() {
    let bank = pool(10, u64::MAX - 5, 10, u64::MAX - 5);
    let grown = accrue(bank, 3_153_600_000);
    assert_eq!(grown.total_deposit_liquidity, u64::MAX);
    assert_eq!(grown.total_borrowed_liquidity, u64::MAX);
    assert_eq!(grown.interest_index, u64::MAX);
}

#[test]
fn fixed_point_arithmetic() {
    assert_eq!(mul_div_down(7, 3, 2), 10);
    assert_eq!(mul_div_up(7, 3, 2), 11);
    assert_eq!(mul_div_up(6, 3, 2), 9);
    assert_eq!(mul_div_down(u64::MAX, u64::MAX, 1), (u64::MAX as u128) * (u64::MAX as u128));
    assert_eq!(wad_mul_exec(2 * WAD, 3 * WAD), 6 * WAD);
    assert_eq!(wad_mul_exec(u64::MAX, u64::MAX), u64::MAX);
    assert_eq!(wad_pow_exec(2 * WAD, 0), WAD);
    assert_eq!(wad_pow_exec(2 * WAD, 1), 2 * WAD);
    assert_eq!(wad_pow_exec(2 * WAD, 3), 8 * WAD);
    assert_eq!(wad_pow_exec(2 * WAD, 10), u64::MAX);
    assert_eq!(wad_pow_exec(WAD + WAD / 2, 2), 2_250_000_000_000_000_000);
}

#[test]
fn error_names() {
    assert_eq!(LendingError::InvalidParameters.name(), "InvalidParameters");
    assert_eq!(LendingError::AlreadyExists.name(), "AlreadyExists");
    assert_eq!(LendingError::InvalidAmount.name(), "InvalidAmount");
    assert_eq!(LendingError::InsufficientBalance.name(), "InsufficientBalance");
    assert_eq!(LendingError::InsufficientLiquidity.name(), "InsufficientLiquidity");
    assert_eq!(LendingError::WouldBreachHealth.name(), "WouldBreachHealth");
    assert_eq!(LendingError::NoDebtToRepay.name(), "NoDebtToRepay");
    assert_eq!(LendingError::OverRepayment.name(), "OverRepayment");
    assert_eq!(LendingError::NotLiquidatable.name(), "NotLiquidatable");
    assert_eq!(LendingError::StalePrice.name(), "StalePrice");
    assert_eq!(LendingError::UnknownAsset.name(), "UnknownAsset");
}

#[test]
fn oracle_quotes_become_prices() {
    let quotes = vec![
        Quote { asset_id: 2, price: 1_000_000, published_at: 100 },
        Quote { asset_id: 1, price: 850_000, published_at: 90 },
        Quote { asset_id: 1, price: 1, published_at: 100 },
        Quote { asset_id: 3, price: 0, published_at: 100 },
        Quote { asset_id: 4, price: 1_000_000_000_001, published_at: 100 },
    ];
    assert_eq!(price(&quotes, 1, 100, 10), Ok(850_000));
    assert_eq!(price(&quotes, 1, 101, 10), Err(LendingError::StalePrice));
    assert_eq!(price(&quotes, 2, 50, 10), Ok(1_000_000));
    assert_eq!(price(&quotes, 9, 100, 10), Err(LendingError::UnknownAsset));
    assert_eq!(price(&quotes, 3, 100, 10), Err(LendingError::InvalidParameters));
    assert_eq!(price(&quotes, 4, 100, 10), Err(LendingError::InvalidParameters));
    let mut market = Market::new(5_000, 500, false).unwrap();
    init_bank(&mut market, 1, 9_000, 8_000, 0).unwrap();
    init_bank(&mut market, 2, 9_000, 8_000, 0).unwrap();
    assert_eq!(collect_prices(&market.banks, &quotes, 100, 10), Ok(vec![850_000, 1_000_000]));
    assert_eq!(collect_prices(&market.banks, &quotes, 111, 20), Err(LendingError::StalePrice));
    init_bank(&mut market, 8, 9_000, 8_000, 0).unwrap();
    assert_eq!(collect_prices(&market.banks, &quotes, 100, 10), Err(LendingError::UnknownAsset));
    assert_eq!(collect_prices(&market.banks, &quotes, 111, 10), Err(LendingError::StalePrice));
}

#[test]
fn prices_and_banks_are_validated() {
    let mut market = Market::new(5_000, 500, false).unwrap();
    init_bank(&mut market, 1, 9_000, 8_000, 0).unwrap();
    init_bank(&mut market, 2, 9_000, 8_000, 0).unwrap();
    assert!(prices_are_valid(&market.banks, &vec![1, 1_000_000_000_000]));
    assert!(!prices_are_valid(&market.banks, &vec![1]));
    assert!(!prices_are_valid(&market.banks, &vec![1, 0]));
    assert!(!prices_are_valid(&market.banks, &vec![1_000_000_000_001, 1]));
    assert!(banks_are_valid(&market.banks));
    assert!(!banks_are_valid(&vec![pool(0, 0, 0, 0), pool(0, 0, 0, 0)]));
    assert!(!banks_are_valid(&vec![pool(0, 5, 0, 0)]));
    assert!(!banks_are_valid(&vec![pool(5, 5, 0, 6)]));
    assert!(pool(5, 5, 3, 4).is_well_formed());
    assert!(!pool(5, 5, 3, 0).is_well_formed());
    assert!(!pool(5, 4, 0, 0).is_well_formed());
    assert!(!pool(5, 5, 4, 3).is_well_formed());
}

#[test]
fn a_full_market_takes_no_more_banks() {
    let mut market = Market::new(5_000, 500, false).unwrap();
    let mut asset: u64 = 0;
    while asset < 64 {
        assert_eq!(init_bank(&mut market, asset, 9_000, 8_000, 0), Ok(()));
        asset += 1;
    }
    assert_eq!(market.banks.len(), 64);
    assert_eq!(init_bank(&mut market, 64, 9_000, 8_000, 0), Err(LendingError::InvalidParameters));
    assert_eq!(init_bank(&mut market, 3, 9_000, 8_000, 0), Err(LendingError::AlreadyExists));
    assert_eq!(init_bank(&mut market, 64, 8_000, 9_000, 0), Err(LendingError::InvalidParameters));
    assert_eq!(market.banks.len(), 64);
    assert!(market.is_well_formed());
}
