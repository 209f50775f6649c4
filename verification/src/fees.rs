//! The fee rule: price times rate, divided by the fee scale.
//!
//! Rates are decimal strings read as basis points (hundredths of a percent):
//! a rate of `"100"` is 1%.  The product is taken before the division, in
//! 256-bit arithmetic, so no truncation loss is introduced by the order of
//! operations; a quotient beyond the machine word fails rather than wraps.

use vstd::prelude::*;
use crate::error::ContractError;
use crate::numeric::{dec_value, fits_u128, is_dec_string, parse_dec_u128};
use crate::state::{Coin, CoinV};

verus! {

/// Fee rates are denominated in basis points: a fee is
/// `amount * rate / FEE_SCALE`, rounded down.
pub const FEE_SCALE: u128 = 10000;

/// A usable fee rate: a digit string whose value fits the machine word.
pub open spec fn valid_rate(rate: Seq<char>) -> bool {
    is_dec_string(rate) && fits_u128(rate)
}

/// The fee owed on `amount` at `rate` basis points, rounded down.
pub open spec fn fee_value(amount: u128, rate: nat) -> nat {
    ((amount as nat) * rate) / (FEE_SCALE as nat)
}

/// What the fee calculator returns: the fee coin in the price's denom, or
/// `InvalidInput` for an unusable rate, or `ArithmeticOverflow` when the
/// quotient exceeds the machine word.
pub open spec fn spec_calculate_fee(price: CoinV, rate: Seq<char>) -> Result<
    CoinV,
    ContractError,
> {
    if !valid_rate(rate) {
        Err(ContractError::InvalidInput)
    } else if fee_value(price.amount, dec_value(rate)) > u128::MAX {
        Err(ContractError::ArithmeticOverflow)
    } else {
        Ok(CoinV { denom: price.denom, amount: fee_value(price.amount, dec_value(rate)) as u128 })
    }
}

/// Relies on `cosmwasm_std::Uint128::checked_multiply_ratio`: for a non-zero
/// denominator it returns `floor(a * numerator / denominator)` computed via
/// a 256-bit intermediate product, and `Err` exactly when that quotient
/// exceeds `u128::MAX`.
#[verifier::external_body]
fn mul_ratio_floor(a: u128, numerator: u128, denominator: u128) -> (r: Option<u128>)
    requires
        denominator != 0,
    ensures
        r is Some <==> (a as nat * numerator as nat) / (denominator as nat) <= u128::MAX,
        r matches Some(v) ==> v as nat == (a as nat * numerator as nat) / (denominator as nat),
{
    match cosmwasm_std::Uint128::new(a).checked_multiply_ratio(numerator, denominator) {
        Ok(v) => Some(v.u128()),
        Err(_) => None,
    }
}

/// Computes the fee owed on `price` at the given basis-point rate, in the
/// price's denom.
pub fn calculate_fee(price: &Coin, fee_percentage: &str) -> (r: Result<Coin, ContractError>)
    ensures
        ({
            let s = spec_calculate_fee(price@, fee_percentage@);
            match r {
                Ok(c) => s == Ok::<CoinV, ContractError>(c@),
                Err(e) => s == Err::<CoinV, ContractError>(e),
            }
        }),
{
    let rate = match parse_dec_u128(fee_percentage) {
        Some(v) => v,
        None => {
            return Err(ContractError::InvalidInput);
        },
    };
    match mul_ratio_floor(price.amount, rate, FEE_SCALE) {
        Some(amount) => Ok(Coin { denom: price.denom.clone(), amount }),
        None => Err(ContractError::ArithmeticOverflow),
    }
}

} // verus!
