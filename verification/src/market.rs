use vstd::prelude::*;
use crate::bank::{accrue, Bank};
use crate::error::LendingError;
use crate::health::{banks_valid, evaluate, health_of, holdings_fit, position_at, prices_valid, HealthFactor, Position, Weighting};
use crate::math::{BPS, MAX_BANKS};

verus! {

/// The store of one deployment: every bank, and the liquidation policy.
/// The fractions are in basis points.
#[derive(Clone, Debug)]
pub struct Market {
    pub banks: Vec<Bank>,
    /// The largest part of a debt that one liquidation repays.
    pub close_factor: u64,
    /// What a liquidator receives on top of the value repaid.
    pub liquidation_bonus: u64,
    /// Whether a repayment beyond the debt is refused rather than capped.
    pub reject_over_repayment: bool,
}

/// One user's ledger: a position for each bank, in the market's order of
/// banks. Banks past the end of `positions` hold nothing of the user's.
#[derive(Clone, Debug)]
pub struct UserAccount {
    pub owner_id: u64,
    pub positions: Vec<Position>,
}

/// Whether some bank holds `asset_id`.
pub open spec fn has_bank(banks: Seq<Bank>, asset_id: u64) -> bool {
    exists|i: int| 0 <= i < banks.len() && (#[trigger] banks[i]).asset_id == asset_id
}

/// The place of the bank that holds `asset_id`.
pub open spec fn slot_of(banks: Seq<Bank>, asset_id: u64) -> int {
    choose|i: int| 0 <= i < banks.len() && (#[trigger] banks[i]).asset_id == asset_id
}

/// The positions, filled up with empty ones to `n` banks.
pub open spec fn padded(positions: Seq<Position>, n: nat) -> Seq<Position> {
    Seq::new(n, |i: int| position_at(positions, i))
}

/// Every bank brought current to `now`.
pub open spec fn all_accrued(banks: Seq<Bank>, now: u64) -> Seq<Bank> {
    Seq::new(banks.len(), |i: int| banks[i].accrued(now))
}

impl Market {
    /// The banks are valid and the policy's fractions are in range.
    pub open spec fn wf(&self) -> bool {
        &&& banks_valid(self.banks@)
        &&& 0 < self.close_factor <= BPS
        &&& self.liquidation_bonus <= BPS
    }

    /// The same policy as `other`.
    pub open spec fn same_policy(&self, other: Market) -> bool {
        &&& self.close_factor == other.close_factor
        &&& self.liquidation_bonus == other.liquidation_bonus
        &&& self.reject_over_repayment == other.reject_over_repayment
    }

    /// Whether the policy's fractions are in range.
    pub open spec fn valid_policy(close_factor: u64, liquidation_bonus: u64) -> bool {
        0 < close_factor <= BPS && liquidation_bonus <= BPS
    }

    /// A market without banks, under the given liquidation policy.
    pub fn new(close_factor: u64, liquidation_bonus: u64, reject_over_repayment: bool) -> (r:
        Result<Market, LendingError>)
        ensures
            match r {
                Ok(market) => {
                    &&& Market::valid_policy(close_factor, liquidation_bonus)
                    &&& market.wf()
                    &&& market.banks@ == Seq::<Bank>::empty()
                    &&& market.close_factor == close_factor
                    &&& market.liquidation_bonus == liquidation_bonus
                    &&& market.reject_over_repayment == reject_over_repayment
                },
                Err(e) => {
                    &&& !Market::valid_policy(close_factor, liquidation_bonus)
                    &&& e == LendingError::InvalidParameters
                },
            },
    {
        if close_factor == 0 || close_factor > BPS || liquidation_bonus > BPS {
            return Err(LendingError::InvalidParameters);
        }
        Ok(Market { banks: Vec::new(), close_factor, liquidation_bonus, reject_over_repayment })
    }

    /// The place of the bank that holds `asset_id`, if there is one.
    pub fn find_bank(&self, asset_id: u64) -> (r: Option<usize>)
        requires
            self.wf(),
        ensures
            match r {
                Some(slot) => has_bank(self.banks@, asset_id) && slot == slot_of(
                    self.banks@,
                    asset_id,
                ) && slot < self.banks.len(),
                None => !has_bank(self.banks@, asset_id),
            },
    {
        let mut i: usize = 0;
        while i < self.banks.len()
            invariant
                i <= self.banks.len(),
                self.wf(),
                forall|j: int| 0 <= j < i ==> (#[trigger] self.banks@[j]).asset_id != asset_id,
            decreases self.banks.len() - i,
        {
            if self.banks[i].asset_id == asset_id {
                proof {
                    let found = slot_of(self.banks@, asset_id);
                    assert(self.banks@[i as int].asset_id == asset_id);
                    assert(has_bank(self.banks@, asset_id));
                    assert(0 <= found < self.banks@.len());
                    assert(self.banks@[found].asset_id == asset_id);
                    if found < i {
                        assert(self.banks@[found].asset_id != self.banks@[i as int].asset_id);
                    }
                    if i < found {
                        assert(self.banks@[i as int].asset_id != self.banks@[found].asset_id);
                    }
                }
                return Some(i);
            }
            i = i + 1;
        }
        None
    }
}

impl UserAccount {
    /// Every position lies in a bank of `market` and holds no more shares
    /// than that bank has issued.
    pub open spec fn wf(&self, market: Market) -> bool {
        holdings_fit(market.banks@, self.positions@)
    }

    /// Whether the account holds nothing: neither collateral nor debt in
    /// any bank, so that it can be closed.
    pub open spec fn holds_nothing(&self) -> bool {
        forall|i: int|
            0 <= i < self.positions@.len() ==> {
                &&& (#[trigger] self.positions@[i]).collateral_shares == 0
                &&& self.positions@[i].debt_shares == 0
            }
    }

    /// Whether the account holds nothing.
    pub fn is_empty(&self) -> (r: bool)
        ensures
            r == self.holds_nothing(),
    {
        let mut i: usize = 0;
        while i < self.positions.len()
            invariant
                i <= self.positions.len(),
                forall|j: int|
                    0 <= j < i ==> {
                        &&& (#[trigger] self.positions@[j]).collateral_shares == 0
                        &&& self.positions@[j].debt_shares == 0
                    },
            decreases self.positions.len() - i,
        {
            if self.positions[i].collateral_shares != 0 || self.positions[i].debt_shares != 0 {
                assert(!(self.positions@[i as int].collateral_shares == 0
                    && self.positions@[i as int].debt_shares == 0));
                return false;
            }
            i = i + 1;
        }
        true
    }

    /// The account's position in the bank of `asset_id`, if the market has
    /// such a bank.
    pub fn position_in(&self, market: &Market, asset_id: u64) -> (r: Option<Position>)
        requires
            market.wf(),
        ensures
            match r {
                Some(position) => has_bank(market.banks@, asset_id) && position == position_at(
                    self.positions@,
                    slot_of(market.banks@, asset_id),
                ),
                None => !has_bank(market.banks@, asset_id),
            },
    {
        match market.find_bank(asset_id) {
            Some(slot) => Some(self.position(slot)),
            None => None,
        }
    }

    /// The account's position in the bank at `slot`.
    pub fn position(&self, slot: usize) -> (r: Position)
        ensures
            r == position_at(self.positions@, slot as int),
    {
        if slot < self.positions.len() {
            self.positions[slot]
        } else {
            Position { collateral_shares: 0, debt_shares: 0 }
        }
    }
}

/// Every bank of the market, brought current to `now`.
pub fn accrue_all(banks: &Vec<Bank>, now: u64) -> (r: Vec<Bank>)
    requires
        banks_valid(banks@),
    ensures
        r@ == all_accrued(banks@, now),
        banks_valid(r@),
        forall|i: int|
            0 <= i < banks.len() ==> {
                &&& (#[trigger] r@[i]).total_deposited_shares == banks@[i].total_deposited_shares
                &&& r@[i].total_borrowed_shares == banks@[i].total_borrowed_shares
            },
{
    let mut current: Vec<Bank> = Vec::new();
    let mut i: usize = 0;
    while i < banks.len()
        invariant
            i <= banks.len(),
            banks_valid(banks@),
            current.len() == i,
            forall|j: int|
                0 <= j < i ==> {
                    &&& (#[trigger] current@[j]) == banks@[j].accrued(now)
                    &&& current@[j].wf()
                    &&& current@[j].total_deposited_shares == banks@[j].total_deposited_shares
                    &&& current@[j].total_borrowed_shares == banks@[j].total_borrowed_shares
                },
        decreases banks.len() - i,
    {
        assert(banks@[i as int].wf());
        let bank: Bank = accrue(banks[i], now);
        current.push(bank);
        i = i + 1;
    }
    assert(current@ =~= all_accrued(banks@, now));
    proof {
        assert forall|a: int, b: int| 0 <= a < b < current@.len() implies (#[trigger] current@[a]).asset_id
            != (#[trigger] current@[b]).asset_id by {
            assert(banks@[a].asset_id != banks@[b].asset_id);
        }
    }
    current
}

/// A copy of the positions to work on, one for each of `n` banks.
pub fn working_positions(positions: &Vec<Position>, n: usize) -> (r: Vec<Position>)
    requires
        positions.len() <= n,
    ensures
        r@ == padded(positions@, n as nat),
{
    let mut copy: Vec<Position> = Vec::new();
    let mut i: usize = 0;
    while i < n
        invariant
            i <= n,
            copy.len() == i,
            forall|j: int| 0 <= j < i ==> copy@[j] == position_at(positions@, j),
        decreases n - i,
    {
        let position: Position = if i < positions.len() {
            positions[i]
        } else {
            Position { collateral_shares: 0, debt_shares: 0 }
        };
        copy.push(position);
        i = i + 1;
    }
    assert(copy@ =~= padded(positions@, n as nat));
    copy
}

/// Health depends on the positions only through what they hold in each
/// bank.
pub proof fn lemma_values_by_position(
    banks: Seq<Bank>,
    a: Seq<Position>,
    b: Seq<Position>,
    prices: Seq<u64>,
    weighting: Weighting,
    n: nat,
)
    requires
        forall|i: int| 0 <= i < n ==> position_at(a, i) == position_at(b, i),
    ensures
        crate::health::weighted_collateral(banks, a, prices, weighting, n)
            == crate::health::weighted_collateral(banks, b, prices, weighting, n),
        crate::health::debt_value(banks, a, prices, n) == crate::health::debt_value(
            banks,
            b,
            prices,
            n,
        ),
    decreases n,
{
    if n > 0 {
        lemma_values_by_position(banks, a, b, prices, weighting, (n - 1) as nat);
    }
}

/// Filling an account up with empty positions does not change its health.
pub proof fn lemma_padding_keeps_health(
    banks: Seq<Bank>,
    positions: Seq<Position>,
    prices: Seq<u64>,
    weighting: Weighting,
)
    ensures
        health_of(banks, padded(positions, banks.len()), prices, weighting) == health_of(
            banks,
            positions,
            prices,
            weighting,
        ),
{
    lemma_values_by_position(
        banks,
        padded(positions, banks.len()),
        positions,
        prices,
        weighting,
        banks.len(),
    );
}

/// Why a new bank is refused, if it is: its risk fractions are out of
/// range, the asset has a bank already, or the market is full.
pub open spec fn init_bank_refusal(
    banks: Seq<Bank>,
    asset_id: u64,
    liquidation_threshold: u64,
    max_ltv: u64,
) -> Option<LendingError> {
    if !Bank::valid_parameters(liquidation_threshold, max_ltv) {
        Some(LendingError::InvalidParameters)
    } else if has_bank(banks, asset_id) {
        Some(LendingError::AlreadyExists)
    } else if banks.len() >= MAX_BANKS {
        Some(LendingError::InvalidParameters)
    } else {
        None
    }
}

/// Opens the bank of an asset, empty, with its two risk fractions in basis
/// points. The market holds at most `MAX_BANKS` banks; one more is refused
/// with `InvalidParameters`.
pub fn init_bank(
    market: &mut Market,
    asset_id: u64,
    liquidation_threshold: u64,
    max_ltv: u64,
    now: u64,
) -> (r: Result<(), LendingError>)
    requires
        old(market).wf(),
    ensures
        final(market).wf(),
        final(market).same_policy(*old(market)),
        match r {
            Ok(_) => {
                &&& init_bank_refusal(
                    old(market).banks@,
                    asset_id,
                    liquidation_threshold,
                    max_ltv,
                ).is_none()
                &&& final(market).banks@ == old(market).banks@.push(
                    Bank::empty(asset_id, liquidation_threshold, max_ltv, now),
                )
            },
            Err(e) => {
                &&& init_bank_refusal(
                    old(market).banks@,
                    asset_id,
                    liquidation_threshold,
                    max_ltv,
                ) == Some(e)
                &&& final(market).banks@ == old(market).banks@
            },
        },
{
    let bank: Bank = match Bank::new(asset_id, liquidation_threshold, max_ltv, now) {
        Ok(bank) => bank,
        Err(e) => {
            return Err(e);
        },
    };
    if market.find_bank(asset_id).is_some() {
        return Err(LendingError::AlreadyExists);
    }
    if market.banks.len() >= MAX_BANKS {
        return Err(LendingError::InvalidParameters);
    }
    market.banks.push(bank);
    Ok(())
}

/// Opens an account that holds nothing.
pub fn init_user(owner_id: u64) -> (r: UserAccount)
    ensures
        r.owner_id == owner_id,
        r.positions@ == Seq::<Position>::empty(),
{
    UserAccount { owner_id, positions: Vec::new() }
}

/// The health factor of `user` at `now`, with every bank brought current
/// first, its collateral weighted by the liquidation thresholds or by the
/// loan-to-value limits. Nothing is changed.
pub fn health_factor(
    market: &Market,
    user: &UserAccount,
    prices: &Vec<u64>,
    weighting: Weighting,
    now: u64,
) -> (r: HealthFactor)
    requires
        market.wf(),
        user.wf(*market),
        prices_valid(market.banks@, prices@),
    ensures
        r == health_of(all_accrued(market.banks@, now), user.positions@, prices@, weighting),
{
    let banks: Vec<Bank> = accrue_all(&market.banks, now);
    assert(holdings_fit(banks@, user.positions@));
    evaluate(&banks, &user.positions, prices, weighting)
}

} // verus!
