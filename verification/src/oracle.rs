use vstd::prelude::*;
use crate::bank::Bank;
use crate::error::LendingError;
use crate::health::prices_valid;
use crate::math::MAX_PRICE;

verus! {

/// What a price oracle said of one asset, and when.
#[derive(Clone, Copy, Debug, PartialEq, Eq, Structural)]
pub struct Quote {
    pub asset_id: u64,
    pub price: u64,
    pub published_at: u64,
}

/// The first quote for `asset_id`, if there is one.
pub open spec fn quote_for(quotes: Seq<Quote>, asset_id: u64) -> Option<Quote>
    decreases quotes.len(),
{
    if quotes.len() == 0 {
        None
    } else if quotes[0].asset_id == asset_id {
        Some(quotes[0])
    } else {
        quote_for(quotes.drop_first(), asset_id)
    }
}

/// Whether a quote is older at `now` than `max_age` allows.
pub open spec fn is_stale(quote: Quote, now: u64, max_age: u64) -> bool {
    now > quote.published_at && now - quote.published_at > max_age
}

/// The price of `asset_id` at `now`: that of its first quote. An asset
/// without a quote is unknown; a quote that is too old is stale; a price
/// that is zero or above `MAX_PRICE` is refused.
pub open spec fn price_of(quotes: Seq<Quote>, asset_id: u64, now: u64, max_age: u64) -> Result<
    u64,
    LendingError,
> {
    match quote_for(quotes, asset_id) {
        None => Err(LendingError::UnknownAsset),
        Some(quote) => if is_stale(quote, now, max_age) {
            Err(LendingError::StalePrice)
        } else if quote.price == 0 || quote.price > MAX_PRICE {
            Err(LendingError::InvalidParameters)
        } else {
            Ok(quote.price)
        },
    }
}

/// The prices of the first `n` banks, in their order, or the error of the
/// first bank whose price cannot be had.
pub open spec fn prices_of(banks: Seq<Bank>, quotes: Seq<Quote>, now: u64, max_age: u64, n: nat) -> Result<
    Seq<u64>,
    LendingError,
>
    decreases n,
{
    if n == 0 {
        Ok(Seq::empty())
    } else {
        match prices_of(banks, quotes, now, max_age, (n - 1) as nat) {
            Err(e) => Err(e),
            Ok(prices) => match price_of(quotes, banks[n - 1].asset_id, now, max_age) {
                Err(e) => Err(e),
                Ok(price) => Ok(prices.push(price)),
            },
        }
    }
}

/// Looks up the price of one asset among the oracle's quotes.
pub fn price(quotes: &Vec<Quote>, asset_id: u64, now: u64, max_age: u64) -> (r: Result<
    u64,
    LendingError,
>)
    ensures
        r == price_of(quotes@, asset_id, now, max_age),
{
    let mut i: usize = 0;
    assert(quotes@.skip(0) == quotes@);
    while i < quotes.len()
        invariant
            i <= quotes.len(),
            quote_for(quotes@, asset_id) == quote_for(quotes@.skip(i as int), asset_id),
        decreases quotes.len() - i,
    {
        let quote: Quote = quotes[i];
        assert(quotes@.skip(i as int)[0] == quote);
        if quote.asset_id == asset_id {
            if now > quote.published_at && now - quote.published_at > max_age {
                return Err(LendingError::StalePrice);
            }
            if quote.price == 0 || quote.price > MAX_PRICE {
                return Err(LendingError::InvalidParameters);
            }
            return Ok(quote.price);
        }
        assert(quotes@.skip(i as int).drop_first() == quotes@.skip(i + 1));
        i = i + 1;
    }
    assert(quotes@.skip(i as int).len() == 0);
    Err(LendingError::UnknownAsset)
}

/// Collects one price for each bank, in the banks' order: what the
/// operations of the engine take.
pub fn collect_prices(banks: &Vec<Bank>, quotes: &Vec<Quote>, now: u64, max_age: u64) -> (r:
    Result<Vec<u64>, LendingError>)
    ensures
        match r {
            Ok(prices) => {
                &&& prices_of(banks@, quotes@, now, max_age, banks@.len()) == Ok::<
                    Seq<u64>,
                    LendingError,
                >(prices@)
                &&& prices_valid(banks@, prices@)
            },
            Err(e) => prices_of(banks@, quotes@, now, max_age, banks@.len()) == Err::<
                Seq<u64>,
                LendingError,
            >(e),
        },
{
    let mut prices: Vec<u64> = Vec::new();
    let mut i: usize = 0;
    while i < banks.len()
        invariant
            i <= banks.len(),
            prices.len() == i,
            prices_of(banks@, quotes@, now, max_age, i as nat) == Ok::<Seq<u64>, LendingError>(
                prices@,
            ),
            forall|j: int| 0 <= j < i ==> 0 < (#[trigger] prices@[j]) <= MAX_PRICE,
        decreases banks.len() - i,
    {
        match price(quotes, banks[i].asset_id, now, max_age) {
            Ok(found) => {
                prices.push(found);
            },
            Err(e) => {
                proof {
                    lemma_first_failure_stays(banks@, quotes@, now, max_age, i as nat + 1, banks@.len(), e);
                }
                return Err(e);
            },
        }
        i = i + 1;
    }
    Ok(prices)
}

/// Once the price of a bank cannot be had, no longer run of banks has
/// prices either, and the error stays that of the first failure.
pub proof fn lemma_first_failure_stays(
    banks: Seq<Bank>,
    quotes: Seq<Quote>,
    now: u64,
    max_age: u64,
    n: nat,
    m: nat,
    e: LendingError,
)
    requires
        n <= m,
        prices_of(banks, quotes, now, max_age, n) == Err::<Seq<u64>, LendingError>(e),
    ensures
        prices_of(banks, quotes, now, max_age, m) == Err::<Seq<u64>, LendingError>(e),
    decreases m,
{
    if n < m {
        lemma_first_failure_stays(banks, quotes, now, max_age, n, (m - 1) as nat, e);
    }
}

} // verus!
