use vstd::prelude::*;
use crate::bank::{liquidity_for_shares, shares_to_liquidity, Bank};
use crate::math::{BPS, MAX_BANKS, MAX_PRICE};

verus! {

/// What one user holds in one bank, in shares of its two pools.
#[derive(Clone, Copy, Debug, PartialEq, Eq, Structural)]
pub struct Position {
    pub collateral_shares: u64,
    pub debt_shares: u64,
}

/// Which of a bank's two risk fractions weighs the collateral.
#[derive(Clone, Copy, Debug, PartialEq, Eq, Structural)]
pub enum Weighting {
    /// The limit past which a position may be liquidated.
    LiquidationThreshold,
    /// The stricter limit that a new loan must keep.
    MaxLtv,
}

/// Risk-weighted collateral value over debt value, in basis points rounded
/// down; infinite where there is no debt.
#[derive(Clone, Copy, Debug, PartialEq, Eq, Structural)]
pub enum HealthFactor {
    Infinite,
    Ratio(u128),
}

impl HealthFactor {
    /// The factor is less than one.
    pub open spec fn below_one(self) -> bool {
        match self {
            HealthFactor::Infinite => false,
            HealthFactor::Ratio(bps) => bps < BPS,
        }
    }

    /// The factor is strictly greater than `other`.
    pub open spec fn exceeds(self, other: HealthFactor) -> bool {
        match (self, other) {
            (HealthFactor::Infinite, HealthFactor::Ratio(_)) => true,
            (HealthFactor::Ratio(a), HealthFactor::Ratio(b)) => a > b,
            _ => false,
        }
    }

    /// Whether the factor is less than one: the position may be liquidated.
    pub fn is_below_one(&self) -> (r: bool)
        ensures
            r == self.below_one(),
    {
        match self {
            HealthFactor::Infinite => false,
            HealthFactor::Ratio(bps) => *bps < BPS as u128,
        }
    }

    /// Whether the factor is strictly greater than `other`.
    pub fn is_greater_than(&self, other: &HealthFactor) -> (r: bool)
        ensures
            r == self.exceeds(*other),
    {
        match (self, other) {
            (HealthFactor::Infinite, HealthFactor::Ratio(_)) => true,
            (HealthFactor::Ratio(a), HealthFactor::Ratio(b)) => *a > *b,
            _ => false,
        }
    }
}

/// The position with nothing in it.
pub open spec fn no_position() -> Position {
    Position { collateral_shares: 0, debt_shares: 0 }
}

/// The user's position in the bank at `slot`; nothing where the account
/// has not reached that bank yet.
pub open spec fn position_at(positions: Seq<Position>, slot: int) -> Position {
    if 0 <= slot < positions.len() {
        positions[slot]
    } else {
        no_position()
    }
}

/// The risk fraction of `bank` that `weighting` selects.
pub open spec fn weight_of(bank: Bank, weighting: Weighting) -> int {
    match weighting {
        Weighting::LiquidationThreshold => bank.liquidation_threshold as int,
        Weighting::MaxLtv => bank.max_ltv as int,
    }
}

/// The liquidity that a position's collateral shares can claim.
pub open spec fn collateral_liquidity(bank: Bank, position: Position) -> int {
    liquidity_for_shares(
        position.collateral_shares as int,
        bank.total_deposited_shares as int,
        bank.total_deposit_liquidity as int,
    )
}

/// The liquidity that a position's debt shares owe.
pub open spec fn debt_liquidity(bank: Bank, position: Position) -> int {
    liquidity_for_shares(
        position.debt_shares as int,
        bank.total_borrowed_shares as int,
        bank.total_borrowed_liquidity as int,
    )
}

/// The risk-weighted value of one collateral position.
pub open spec fn collateral_term(bank: Bank, position: Position, price: u64, weighting: Weighting) -> int {
    collateral_liquidity(bank, position) * price * weight_of(bank, weighting)
}

/// The value of one debt position.
pub open spec fn debt_term(bank: Bank, position: Position, price: u64) -> int {
    debt_liquidity(bank, position) * price
}

/// The risk-weighted collateral value over the first `n` banks.
pub open spec fn weighted_collateral(
    banks: Seq<Bank>,
    positions: Seq<Position>,
    prices: Seq<u64>,
    weighting: Weighting,
    n: nat,
) -> int
    decreases n,
{
    if n == 0 {
        0
    } else {
        weighted_collateral(banks, positions, prices, weighting, (n - 1) as nat) + collateral_term(
            banks[n - 1],
            position_at(positions, n - 1),
            prices[n - 1],
            weighting,
        )
    }
}

/// The debt value over the first `n` banks.
pub open spec fn debt_value(banks: Seq<Bank>, positions: Seq<Position>, prices: Seq<u64>, n: nat) -> int
    decreases n,
{
    if n == 0 {
        0
    } else {
        debt_value(banks, positions, prices, (n - 1) as nat) + debt_term(
            banks[n - 1],
            position_at(positions, n - 1),
            prices[n - 1],
        )
    }
}

/// The health factor of a user: weighted collateral value over debt value
/// in basis points, the weights carrying the basis-point scale.
pub open spec fn health_of(
    banks: Seq<Bank>,
    positions: Seq<Position>,
    prices: Seq<u64>,
    weighting: Weighting,
) -> HealthFactor {
    let debt = debt_value(banks, positions, prices, banks.len());
    let collateral = weighted_collateral(banks, positions, prices, weighting, banks.len());
    if debt == 0 {
        HealthFactor::Infinite
    } else {
        HealthFactor::Ratio((collateral / debt) as u128)
    }
}

/// At most `MAX_BANKS` banks, each of them well formed, no asset twice.
pub open spec fn banks_valid(banks: Seq<Bank>) -> bool {
    &&& banks.len() <= MAX_BANKS
    &&& forall|i: int| 0 <= i < banks.len() ==> (#[trigger] banks[i]).wf()
    &&& forall|i: int, j: int|
        0 <= i < j < banks.len() ==> (#[trigger] banks[i]).asset_id != (#[trigger] banks[j]).asset_id
}

/// Every position lies in a bank of the market and holds no more shares
/// than that bank has issued.
pub open spec fn holdings_fit(banks: Seq<Bank>, positions: Seq<Position>) -> bool {
    &&& positions.len() <= banks.len()
    &&& forall|i: int|
        0 <= i < positions.len() ==> {
            &&& (#[trigger] positions[i]).collateral_shares <= banks[i].total_deposited_shares
            &&& positions[i].debt_shares <= banks[i].total_borrowed_shares
        }
}

/// One price for each bank, positive and at most `MAX_PRICE`.
pub open spec fn prices_valid(banks: Seq<Bank>, prices: Seq<u64>) -> bool {
    &&& prices.len() == banks.len()
    &&& forall|i: int| 0 <= i < prices.len() ==> 0 < (#[trigger] prices[i]) <= MAX_PRICE
}

/// The largest value one collateral position can have.
pub open spec fn term_cap() -> int {
    0xFFFF_FFFF_FFFF_FFFFint * 1_000_000_000_000int * 10_000int
}

proof fn lemma_term_bounds(held: u64, price: u64, weight: u64)
    requires
        price <= MAX_PRICE,
        weight <= BPS,
    ensures
        0 <= held * price <= 0xFFFF_FFFF_FFFF_FFFF * 1_000_000_000_000,
        0 <= held * price * weight <= term_cap(),
{
    assert(0 <= held * price <= 0xFFFF_FFFF_FFFF_FFFF * 1_000_000_000_000) by (nonlinear_arith)
        requires
            0 <= held <= 0xFFFF_FFFF_FFFF_FFFF,
            0 <= price <= 1_000_000_000_000,
    ;
    let hp = held * price;
    assert(0 <= hp * weight <= (0xFFFF_FFFF_FFFF_FFFF * 1_000_000_000_000) * 10_000)
        by (nonlinear_arith)
        requires
            0 <= hp <= 0xFFFF_FFFF_FFFF_FFFF * 1_000_000_000_000,
            0 <= weight <= 10_000,
    ;
}

/// The values of valid holdings are not negative and stay within what the
/// engine's arithmetic can hold.
pub proof fn lemma_values_bounded(
    banks: Seq<Bank>,
    positions: Seq<Position>,
    prices: Seq<u64>,
    weighting: Weighting,
    n: nat,
)
    requires
        banks_valid(banks),
        holdings_fit(banks, positions),
        prices_valid(banks, prices),
        n <= banks.len(),
    ensures
        0 <= weighted_collateral(banks, positions, prices, weighting, n) <= n * term_cap(),
        0 <= debt_value(banks, positions, prices, n) <= n * term_cap(),
    decreases n,
{
    if n > 0 {
        lemma_values_bounded(banks, positions, prices, weighting, (n - 1) as nat);
        let bank = banks[n - 1];
        let position = position_at(positions, n - 1);
        assert(bank.wf());
        if bank.total_deposited_shares > 0 {
            crate::bank::lemma_mul_div_bounded(
                bank.total_deposit_liquidity as int,
                position.collateral_shares as int,
                bank.total_deposited_shares as int,
            );
        }
        if bank.total_borrowed_shares > 0 {
            crate::bank::lemma_mul_div_bounded(
                bank.total_borrowed_liquidity as int,
                position.debt_shares as int,
                bank.total_borrowed_shares as int,
            );
        }
        let held = collateral_liquidity(bank, position) as u64;
        let owed = debt_liquidity(bank, position) as u64;
        let weight = weight_of(bank, weighting) as u64;
        lemma_term_bounds(held, prices[n - 1], weight);
        lemma_term_bounds(owed, prices[n - 1], 1);
        assert(n * term_cap() == (n - 1) * term_cap() + term_cap()) by (nonlinear_arith);
    }
}

/// A health factor is below one exactly where there is debt and the
/// weighted collateral value is less than the debt value.
pub proof fn law_below_one_is_undercollateralised(
    banks: Seq<Bank>,
    positions: Seq<Position>,
    prices: Seq<u64>,
    weighting: Weighting,
)
    requires
        banks_valid(banks),
        holdings_fit(banks, positions),
        prices_valid(banks, prices),
    ensures
        health_of(banks, positions, prices, weighting).below_one() <==> {
            &&& debt_value(banks, positions, prices, banks.len()) > 0
            &&& weighted_collateral(banks, positions, prices, weighting, banks.len()) < BPS
                * debt_value(banks, positions, prices, banks.len())
        },
{
    lemma_values_bounded(banks, positions, prices, weighting, banks.len());
    let debt = debt_value(banks, positions, prices, banks.len());
    let collateral = weighted_collateral(banks, positions, prices, weighting, banks.len());
    assert(banks.len() * term_cap() <= 64 * term_cap()) by (nonlinear_arith)
        requires
            banks.len() <= 64,
    ;
    if debt > 0 {
        vstd::arithmetic::div_mod::lemma_fundamental_div_mod(collateral, debt);
        vstd::arithmetic::div_mod::lemma_mod_bound(collateral, debt);
        vstd::arithmetic::div_mod::lemma_div_is_ordered(0, collateral, debt);
        vstd::arithmetic::div_mod::lemma_div_is_ordered_by_denominator(collateral, 1, debt);
        vstd::arithmetic::div_mod::lemma_div_basics(collateral);
        let ratio = collateral / debt;
        assert(0 <= ratio <= collateral);
        if ratio < BPS {
            assert(debt * ratio + collateral % debt < BPS * debt) by (nonlinear_arith)
                requires
                    ratio <= BPS - 1,
                    0 <= collateral % debt < debt,
            ;
        } else {
            assert(debt * ratio >= BPS * debt) by (nonlinear_arith)
                requires
                    ratio >= BPS,
                    debt > 0,
            ;
        }
    }
}

/// Computes a user's health factor from the banks, the user's positions
/// and one price per bank.
pub fn evaluate(
    banks: &Vec<Bank>,
    positions: &Vec<Position>,
    prices: &Vec<u64>,
    weighting: Weighting,
) -> (r: HealthFactor)
    requires
        banks_valid(banks@),
        holdings_fit(banks@, positions@),
        prices_valid(banks@, prices@),
    ensures
        r == health_of(banks@, positions@, prices@, weighting),
{
    let mut collateral: u128 = 0;
    let mut debt: u128 = 0;
    let mut i: usize = 0;
    while i < banks.len()
        invariant
            i <= banks.len(),
            banks_valid(banks@),
            holdings_fit(banks@, positions@),
            prices_valid(banks@, prices@),
            collateral == weighted_collateral(banks@, positions@, prices@, weighting, i as nat),
            debt == debt_value(banks@, positions@, prices@, i as nat),
            collateral <= i * term_cap(),
            debt <= i * term_cap(),
        decreases banks.len() - i,
    {
        let bank: Bank = banks[i];
        let position: Position = if i < positions.len() {
            positions[i]
        } else {
            Position { collateral_shares: 0, debt_shares: 0 }
        };
        let price: u64 = prices[i];
        assert(bank.wf());
        assert(position == position_at(positions@, i as int));
        let held: u64 = shares_to_liquidity(
            position.collateral_shares,
            bank.total_deposited_shares,
            bank.total_deposit_liquidity,
        );
        let owed: u64 = shares_to_liquidity(
            position.debt_shares,
            bank.total_borrowed_shares,
            bank.total_borrowed_liquidity,
        );
        let weight: u64 = match weighting {
            Weighting::LiquidationThreshold => bank.liquidation_threshold,
            Weighting::MaxLtv => bank.max_ltv,
        };
        proof {
            lemma_term_bounds(held, price, weight);
            lemma_term_bounds(owed, price, 1);
            assert((i + 1) * term_cap() == i * term_cap() + term_cap()) by (nonlinear_arith);
            assert(i * term_cap() <= 64 * term_cap()) by (nonlinear_arith)
                requires
                    i <= 64,
            ;
        }
        let collateral_part: u128 = (held as u128) * (price as u128) * (weight as u128);
        let debt_part: u128 = (owed as u128) * (price as u128);
        collateral = collateral + collateral_part;
        debt = debt + debt_part;
        i = i + 1;
    }
    if debt == 0 {
        HealthFactor::Infinite
    } else {
        HealthFactor::Ratio(collateral / debt)
    }
}

} // verus!
