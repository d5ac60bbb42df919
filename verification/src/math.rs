use vstd::prelude::*;

verus! {

/// One, in basis points: the scale of every risk fraction.
pub const BPS: u64 = 10_000;

/// One, in the fixed-point scale of interest rates and growth factors.
pub const WAD: u64 = 1_000_000_000_000_000_000;

/// The largest price the engine accepts for one unit of an asset.
pub const MAX_PRICE: u64 = 1_000_000_000_000;

/// The largest number of banks one market holds.
pub const MAX_BANKS: usize = 64;

/// `a * b / d`, rounded down.
pub open spec fn mul_div_floor(a: int, b: int, d: int) -> int {
    (a * b) / d
}

/// `a * b / d`, rounded up.
pub open spec fn mul_div_ceil(a: int, b: int, d: int) -> int {
    (a * b + d - 1) / d
}

/// The product of two fixed-point factors, saturating at the largest `u64`.
pub open spec fn wad_mul(a: int, b: int) -> int {
    let p = (a * b) / (WAD as int);
    if p > u64::MAX {
        u64::MAX as int
    } else {
        p
    }
}

/// `base` raised to the power `n` in fixed point, by repeated squaring,
/// each product rounded down and saturating.
pub open spec fn wad_pow(base: int, n: nat) -> int
    decreases n,
{
    if n == 0 {
        WAD as int
    } else {
        let half = wad_pow(wad_mul(base, base), n / 2);
        if n % 2 == 1 {
            wad_mul(half, base)
        } else {
            half
        }
    }
}

/// A product of two factors of at least one is at least one.
pub proof fn lemma_wad_mul_at_least_one(a: int, b: int)
    requires
        WAD <= a,
        WAD <= b,
    ensures
        WAD <= wad_mul(a, b),
{
    assert(a * b >= WAD * WAD) by (nonlinear_arith)
        requires
            WAD <= a,
            WAD <= b,
    ;
    vstd::arithmetic::div_mod::lemma_div_is_ordered(WAD * WAD, a * b, WAD as int);
    vstd::arithmetic::div_mod::lemma_div_multiples_vanish(WAD as int, WAD as int);
}

/// A factor of at least one, raised to any power, is at least one: debt
/// never shrinks by compounding. Raised to the power one, it is itself.
pub proof fn lemma_wad_pow_at_least_one(base: int, n: nat)
    requires
        WAD <= base,
    ensures
        WAD <= wad_pow(base, n),
        base <= u64::MAX ==> wad_pow(base, 1) == base,
    decreases n,
{
    lemma_wad_mul_at_least_one(base, base);
    if n > 0 {
        lemma_wad_pow_at_least_one(wad_mul(base, base), n / 2);
        lemma_wad_mul_at_least_one(wad_pow(wad_mul(base, base), n / 2), base);
    }
    if base <= u64::MAX {
        assert(wad_pow(base, 1) == wad_mul(wad_pow(wad_mul(base, base), 0), base)) by {
            reveal_with_fuel(wad_pow, 2);
        }
        assert(wad_pow(wad_mul(base, base), 0) == WAD);
        assert(WAD * base == base * WAD) by (nonlinear_arith);
        vstd::arithmetic::div_mod::lemma_div_multiples_vanish(base, WAD as int);
    }
}

/// The product of two `u64` fits in a `u128`.
pub proof fn lemma_product_fits(a: u64, b: u64)
    ensures
        0 <= a * b <= 0xFFFF_FFFF_FFFF_FFFE_0000_0000_0000_0001,
{
    assert(0 <= a * b <= 0xFFFF_FFFF_FFFF_FFFF * 0xFFFF_FFFF_FFFF_FFFF) by (nonlinear_arith)
        requires
            0 <= a <= 0xFFFF_FFFF_FFFF_FFFF,
            0 <= b <= 0xFFFF_FFFF_FFFF_FFFF,
    ;
}

/// Computes `a * b / d` rounded down, without intermediate overflow.
pub fn mul_div_down(a: u64, b: u64, d: u64) -> (r: u128)
    requires
        d > 0,
    ensures
        r == mul_div_floor(a as int, b as int, d as int),
{
    proof {
        lemma_product_fits(a, b);
    }
    let p: u128 = (a as u128) * (b as u128);
    p / (d as u128)
}

/// Computes `a * b / d` rounded up, without intermediate overflow.
pub fn mul_div_up(a: u64, b: u64, d: u64) -> (r: u128)
    requires
        d > 0,
    ensures
        r == mul_div_ceil(a as int, b as int, d as int),
{
    proof {
        lemma_product_fits(a, b);
    }
    let p: u128 = (a as u128) * (b as u128);
    (p + (d as u128 - 1)) / (d as u128)
}

/// Multiplies two fixed-point factors.
pub fn wad_mul_exec(a: u64, b: u64) -> (r: u64)
    ensures
        r == wad_mul(a as int, b as int),
{
    let p: u128 = mul_div_down(a, b, WAD);
    if p > u64::MAX as u128 {
        u64::MAX
    } else {
        p as u64
    }
}

/// Raises a fixed-point factor to a whole power.
pub fn wad_pow_exec(base: u64, n: u64) -> (r: u64)
    ensures
        r == wad_pow(base as int, n as nat),
    decreases n,
{
    if n == 0 {
        WAD
    } else {
        let squared: u64 = wad_mul_exec(base, base);
        let half: u64 = wad_pow_exec(squared, n / 2);
        if n % 2 == 1 {
            wad_mul_exec(half, base)
        } else {
            half
        }
    }
}

} // verus!
