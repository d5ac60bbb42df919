use vstd::prelude::*;
use crate::math::{mul_div_ceil, mul_div_down, mul_div_floor, mul_div_up, wad_mul, wad_mul_exec, wad_pow, wad_pow_exec, BPS, WAD};

verus! {

/// The borrow rate per second of an idle pool, in fixed point.
pub const BASE_RATE_PER_SECOND: u64 = 317_097_919;

/// What full utilisation adds to the borrow rate per second, in fixed point.
pub const RATE_SLOPE_PER_SECOND: u64 = 6_341_958_396;

/// The pool of one asset. Fractions are in basis points; the interest index
/// is in fixed point and starts at one.
#[derive(Clone, Copy, Debug, PartialEq, Eq, Structural)]
pub struct Bank {
    pub asset_id: u64,
    pub total_deposited_shares: u64,
    pub total_deposit_liquidity: u64,
    pub total_borrowed_shares: u64,
    pub total_borrowed_liquidity: u64,
    pub liquidation_threshold: u64,
    pub max_ltv: u64,
    pub interest_index: u64,
    pub last_accrual_timestamp: u64,
}

/// The shares minted for `amount` of liquidity entering a pool: one for one
/// into an empty pool, else at the pool's share price, rounded down.
pub open spec fn shares_for_liquidity(amount: int, shares: int, liquidity: int) -> int {
    if shares == 0 {
        amount
    } else {
        mul_div_floor(amount, shares, liquidity)
    }
}

/// The liquidity that `held` shares of a pool can claim, rounded down.
pub open spec fn liquidity_for_shares(held: int, shares: int, liquidity: int) -> int {
    if shares == 0 {
        0
    } else {
        mul_div_floor(held, liquidity, shares)
    }
}

/// The shares burned for `amount` of liquidity leaving a pool: at the
/// pool's share price, rounded up, and all of them when the pool is emptied.
pub open spec fn shares_to_burn(amount: int, shares: int, liquidity: int) -> int {
    if amount == liquidity {
        shares
    } else {
        mul_div_ceil(amount, shares, liquidity)
    }
}

/// Whether taking `amount` out of a pool would burn its every share while
/// liquidity stays behind.
pub open spec fn strands_liquidity(amount: int, shares: int, liquidity: int) -> bool {
    amount != liquidity && shares_to_burn(amount, shares, liquidity) >= shares
}

/// A share of at most the whole never yields more than the whole.
pub proof fn lemma_mul_div_bounded(a: int, b: int, d: int)
    requires
        0 <= a,
        0 <= b <= d,
        0 < d,
    ensures
        0 <= mul_div_floor(a, b, d) <= a,
        0 <= mul_div_floor(b, a, d) <= a,
{
    assert(0 <= a * b <= a * d) by (nonlinear_arith)
        requires
            0 <= a,
            0 <= b <= d,
    ;
    assert(a * b == b * a) by (nonlinear_arith);
    vstd::arithmetic::div_mod::lemma_div_is_ordered(a * b, a * d, d);
    vstd::arithmetic::div_mod::lemma_div_is_ordered(0, a * b, d);
    vstd::arithmetic::div_mod::lemma_div_multiples_vanish(a, d);
    assert(a * d == d * a) by (nonlinear_arith);
}

/// Taking out no more than one's claim burns no more than one's shares.
pub proof fn lemma_burn_within_holding(amount: int, held: int, shares: int, liquidity: int)
    requires
        0 < amount <= liquidity_for_shares(held, shares, liquidity),
        0 <= held <= shares,
        0 < liquidity,
    ensures
        0 < shares,
        amount <= liquidity,
        0 <= shares_to_burn(amount, shares, liquidity) <= held,
{
    assert(shares > 0);
    let claim = mul_div_floor(held, liquidity, shares);
    lemma_mul_div_bounded(liquidity, held, shares);
    vstd::arithmetic::div_mod::lemma_fundamental_div_mod(held * liquidity, shares);
    vstd::arithmetic::div_mod::lemma_mod_bound(held * liquidity, shares);
    assert(shares * claim <= held * liquidity);
    assert(amount * shares <= shares * claim) by (nonlinear_arith)
        requires
            0 < amount <= claim,
            0 < shares,
    ;
    assert(held > 0) by (nonlinear_arith)
        requires
            amount * shares <= held * liquidity,
            0 < amount,
            0 < shares,
            0 <= held,
            0 < liquidity,
    ;
    if amount == liquidity {
        assert(held >= shares) by (nonlinear_arith)
            requires
                liquidity * shares <= held * liquidity,
                0 < liquidity,
        ;
    } else {
        let c = mul_div_ceil(amount, shares, liquidity);
        assert(amount * shares + liquidity - 1 < (held + 1) * liquidity) by (nonlinear_arith)
            requires
                amount * shares <= held * liquidity,
                0 < liquidity,
        ;
        vstd::arithmetic::div_mod::lemma_div_is_ordered(
            amount * shares + liquidity - 1,
            (held + 1) * liquidity - 1,
            liquidity,
        );
        assert((held + 1) * liquidity - 1 == liquidity * held + (liquidity - 1))
            by (nonlinear_arith);
        vstd::arithmetic::div_mod::lemma_fundamental_div_mod_converse(
            (held + 1) * liquidity - 1,
            liquidity,
            held,
            liquidity - 1,
        );
        vstd::arithmetic::div_mod::lemma_div_is_ordered(
            0,
            amount * shares + liquidity - 1,
            liquidity,
        );
        assert(0 <= amount * shares) by (nonlinear_arith)
            requires
                0 < amount,
                0 < shares,
        ;
        assert(0 <= c <= held);
    }
}

/// Taking some of a pool's liquidity burns at least one share and no more
/// than there are.
pub proof fn lemma_burn_bounded(amount: int, shares: int, liquidity: int)
    requires
        0 < amount <= liquidity,
        0 < shares,
    ensures
        0 < shares_to_burn(amount, shares, liquidity) <= shares,
        liquidity * shares_to_burn(amount, shares, liquidity) >= amount * shares,
{
    if amount != liquidity {
        let numerator = amount * shares + liquidity - 1;
        assert(liquidity <= numerator <= liquidity * shares + (liquidity - 1)) by (nonlinear_arith)
            requires
                numerator == amount * shares + liquidity - 1,
                0 < amount <= liquidity,
                0 < shares,
        ;
        vstd::arithmetic::div_mod::lemma_div_is_ordered(liquidity, numerator, liquidity);
        vstd::arithmetic::div_mod::lemma_div_is_ordered(
            numerator,
            liquidity * shares + (liquidity - 1),
            liquidity,
        );
        assert(liquidity * shares == shares * liquidity) by (nonlinear_arith);
        vstd::arithmetic::div_mod::lemma_fundamental_div_mod_converse(
            liquidity * shares + (liquidity - 1),
            liquidity,
            shares,
            liquidity - 1,
        );
        vstd::arithmetic::div_mod::lemma_div_basics(liquidity);
        vstd::arithmetic::div_mod::lemma_fundamental_div_mod(numerator, liquidity);
        vstd::arithmetic::div_mod::lemma_mod_bound(numerator, liquidity);
    } else {
        assert(liquidity * shares == amount * shares);
    }
}

/// Where a share is worth at least one unit, it still is after liquidity
/// has left the pool.
pub proof fn lemma_burn_keeps_backing(amount: int, shares: int, liquidity: int)
    requires
        0 < amount <= liquidity,
        0 < shares <= liquidity,
    ensures
        shares - shares_to_burn(amount, shares, liquidity) <= liquidity - amount,
{
    let burned = shares_to_burn(amount, shares, liquidity);
    lemma_burn_bounded(amount, shares, liquidity);
    assert(amount - burned <= liquidity - shares) by (nonlinear_arith)
        requires
            liquidity * burned >= amount * shares,
            0 < amount <= liquidity,
            0 < shares <= liquidity,
    ;
}

/// Repaying all that one's shares owe burns all of them, where a share is
/// worth at least one unit.
pub proof fn lemma_full_claim_burns_all(held: int, shares: int, liquidity: int)
    requires
        0 <= held <= shares,
        0 < shares <= liquidity,
        0 < liquidity_for_shares(held, shares, liquidity),
    ensures
        shares_to_burn(liquidity_for_shares(held, shares, liquidity), shares, liquidity) == held,
        liquidity_for_shares(held, shares, liquidity) <= liquidity,
        !strands_liquidity(liquidity_for_shares(held, shares, liquidity), shares, liquidity),
{
    let claim = liquidity_for_shares(held, shares, liquidity);
    lemma_mul_div_bounded(liquidity, held, shares);
    lemma_burn_within_holding(claim, held, shares, liquidity);
    vstd::arithmetic::div_mod::lemma_fundamental_div_mod(held * liquidity, shares);
    vstd::arithmetic::div_mod::lemma_mod_bound(held * liquidity, shares);
    let rest = (held * liquidity) % shares;
    assert(held * liquidity == shares * claim + rest);
    if claim == liquidity {
        assert(held >= shares) by (nonlinear_arith)
            requires
                held * liquidity == shares * liquidity + rest,
                rest >= 0,
                liquidity > 0,
        ;
    } else {
        assert(claim * shares + liquidity - 1 >= held * liquidity) by (nonlinear_arith)
            requires
                held * liquidity == shares * claim + rest,
                rest <= shares - 1,
                shares <= liquidity,
        ;
        vstd::arithmetic::div_mod::lemma_div_is_ordered(
            held * liquidity,
            claim * shares + liquidity - 1,
            liquidity,
        );
        vstd::arithmetic::div_mod::lemma_div_multiples_vanish(held, liquidity);
        assert(held * liquidity == liquidity * held) by (nonlinear_arith);
        if held == shares {
            vstd::arithmetic::div_mod::lemma_div_multiples_vanish(liquidity, shares);
            assert(held * liquidity == shares * liquidity);
        }
    }
}

/// Shares minted for liquidity entering a pool.
pub fn mint_shares(amount: u64, shares: u64, liquidity: u64) -> (r: u128)
    requires
        shares > 0 ==> liquidity > 0,
    ensures
        r == shares_for_liquidity(amount as int, shares as int, liquidity as int),
{
    if shares == 0 {
        amount as u128
    } else {
        mul_div_down(amount, shares, liquidity)
    }
}

/// The liquidity that `held` shares of a pool can claim.
pub fn shares_to_liquidity(held: u64, shares: u64, liquidity: u64) -> (r: u64)
    requires
        held <= shares,
    ensures
        r == liquidity_for_shares(held as int, shares as int, liquidity as int),
        r <= liquidity,
{
    if shares == 0 {
        0
    } else {
        proof {
            lemma_mul_div_bounded(liquidity as int, held as int, shares as int);
        }
        let c: u128 = mul_div_down(held, liquidity, shares);
        c as u64
    }
}

/// Shares burned for liquidity leaving a pool.
pub fn burn_shares(amount: u64, shares: u64, liquidity: u64) -> (r: u64)
    requires
        0 < amount <= liquidity,
        shares > 0,
    ensures
        r == shares_to_burn(amount as int, shares as int, liquidity as int),
        0 < r <= shares,
{
    proof {
        lemma_burn_bounded(amount as int, shares as int, liquidity as int);
    }
    if amount == liquidity {
        shares
    } else {
        let burned: u128 = mul_div_up(amount, shares, liquidity);
        burned as u64
    }
}

impl Bank {
    /// The risk fractions are ordered, an empty side has neither shares nor
    /// liquidity, a share of either side is worth at least one unit, and no
    /// more is lent out than was deposited.
    pub open spec fn wf(self) -> bool {
        &&& 0 < self.max_ltv < self.liquidation_threshold <= BPS
        &&& (self.total_deposited_shares == 0 <==> self.total_deposit_liquidity == 0)
        &&& (self.total_borrowed_shares == 0 <==> self.total_borrowed_liquidity == 0)
        &&& self.total_deposited_shares <= self.total_deposit_liquidity
        &&& self.total_borrowed_shares <= self.total_borrowed_liquidity
        &&& self.total_borrowed_liquidity <= self.total_deposit_liquidity
    }

    /// Liquidity that is deposited and not lent out.
    pub open spec fn available(self) -> int {
        self.total_deposit_liquidity - self.total_borrowed_liquidity
    }

    /// The lent-out fraction of the deposits in basis points; zero for an
    /// empty pool.
    pub open spec fn utilization(self) -> int {
        if self.total_deposit_liquidity == 0 {
            0
        } else {
            mul_div_floor(
                self.total_borrowed_liquidity as int,
                BPS as int,
                self.total_deposit_liquidity as int,
            )
        }
    }

    /// The borrow rate per second: linear in the utilisation.
    pub open spec fn rate_per_second(self) -> int {
        BASE_RATE_PER_SECOND + mul_div_floor(
            RATE_SLOPE_PER_SECOND as int,
            self.utilization(),
            BPS as int,
        )
    }

    /// The factor by which debt grows from the last accrual to `now`.
    pub open spec fn growth(self, now: u64) -> int {
        wad_pow(WAD + self.rate_per_second(), (now - self.last_accrual_timestamp) as nat)
    }

    /// The interest that falls due from the last accrual to `now`: the
    /// compounded growth of the debt, as far as the pool can represent it.
    pub open spec fn interest_due(self, now: u64) -> int {
        let grown = mul_div_floor(
            self.total_borrowed_liquidity as int,
            self.growth(now),
            WAD as int,
        );
        let headroom = u64::MAX - self.total_deposit_liquidity;
        if grown <= self.total_borrowed_liquidity {
            0
        } else if grown - self.total_borrowed_liquidity > headroom {
            headroom
        } else {
            grown - self.total_borrowed_liquidity
        }
    }

    /// The bank brought current to `now`: unchanged when no time has passed,
    /// else the interest due is added to debt and to deposits alike.
    pub open spec fn accrued(self, now: u64) -> Bank {
        if now <= self.last_accrual_timestamp {
            self
        } else {
            Bank {
                total_borrowed_liquidity: (self.total_borrowed_liquidity + self.interest_due(
                    now,
                )) as u64,
                total_deposit_liquidity: (self.total_deposit_liquidity + self.interest_due(
                    now,
                )) as u64,
                interest_index: wad_mul(self.interest_index as int, self.growth(now)) as u64,
                last_accrual_timestamp: now,
                ..self
            }
        }
    }

    /// The borrow rate per second at the current utilisation.
    pub fn borrow_rate(&self) -> (r: u64)
        requires
            self.wf(),
        ensures
            r == self.rate_per_second(),
            r <= BASE_RATE_PER_SECOND + RATE_SLOPE_PER_SECOND,
    {
        let utilization: u64 = if self.total_deposit_liquidity == 0 {
            0
        } else {
            proof {
                lemma_mul_div_bounded(
                    BPS as int,
                    self.total_borrowed_liquidity as int,
                    self.total_deposit_liquidity as int,
                );
            }
            let u: u128 = mul_div_down(
                self.total_borrowed_liquidity,
                BPS,
                self.total_deposit_liquidity,
            );
            u as u64
        };
        proof {
            lemma_mul_div_bounded(RATE_SLOPE_PER_SECOND as int, utilization as int, BPS as int);
        }
        let variable: u128 = mul_div_down(RATE_SLOPE_PER_SECOND, utilization, BPS);
        BASE_RATE_PER_SECOND + variable as u64
    }
}

/// Brings a bank current to `now`. Calling it again at the same `now`
/// changes nothing.
pub fn accrue(bank: Bank, now: u64) -> (r: Bank)
    requires
        bank.wf(),
    ensures
        r == bank.accrued(now),
        r.wf(),
        r.accrued(now) == r,
        r.total_deposited_shares == bank.total_deposited_shares,
        r.total_borrowed_shares == bank.total_borrowed_shares,
        r.total_deposit_liquidity >= bank.total_deposit_liquidity,
        r.total_borrowed_liquidity >= bank.total_borrowed_liquidity,
{
    if now <= bank.last_accrual_timestamp {
        return bank;
    }
    let elapsed: u64 = now - bank.last_accrual_timestamp;
    let rate: u64 = bank.borrow_rate();
    let factor: u64 = wad_pow_exec(WAD + rate, elapsed);
    let grown: u128 = mul_div_down(bank.total_borrowed_liquidity, factor, WAD);
    let headroom: u64 = u64::MAX - bank.total_deposit_liquidity;
    let interest: u64 = if grown <= bank.total_borrowed_liquidity as u128 {
        0
    } else {
        let extra: u128 = grown - bank.total_borrowed_liquidity as u128;
        if extra > headroom as u128 {
            headroom
        } else {
            extra as u64
        }
    };
    proof {
        if bank.total_borrowed_liquidity == 0 {
            assert(0 * (factor as int) == 0);
            assert(grown == 0);
        }
    }
    Bank {
        total_borrowed_liquidity: bank.total_borrowed_liquidity + interest,
        total_deposit_liquidity: bank.total_deposit_liquidity + interest,
        interest_index: wad_mul_exec(bank.interest_index, factor),
        last_accrual_timestamp: now,
        ..bank
    }
}

} // verus!
