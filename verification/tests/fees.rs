use credit_marketplace::error::ContractError;
use credit_marketplace::execute::{gov_send_from_fee_pool, gov_set_fee_params};
use credit_marketplace::fees::calculate_fee;
use credit_marketplace::state::{instantiate, Coin, FeeParams};

fn coin(amount: u128) -> Coin {
    Coin { denom: "uusd".to_string(), amount }
}

#[test]
fn fee_is_amount_times_rate_over_ten_thousand() {
    // 100 basis points = 1%
    let fee = calculate_fee(&coin(1000), "100").unwrap();
    assert_eq!(fee.amount, 10);
    assert_eq!(fee.denom, "uusd");

    // rounded down
    let fee = calculate_fee(&coin(199), "100").unwrap();
    assert_eq!(fee.amount, 1);
    let fee = calculate_fee(&coin(99), "100").unwrap();
    assert_eq!(fee.amount, 0);

    // 10000 basis points = the whole amount
    let fee = calculate_fee(&coin(1234), "10000").unwrap();
    assert_eq!(fee.amount, 1234);
}

#[test]
fn zero_rate_owes_zero() {
    assert_eq!(calculate_fee(&coin(0), "0").unwrap().amount, 0);
    assert_eq!(calculate_fee(&coin(123456), "0").unwrap().amount, 0);
    assert_eq!(calculate_fee(&coin(u128::MAX), "0").unwrap().amount, 0);
}

#[test]
fn fee_is_monotonic_in_amount_and_rate() {
    let mut prev = 0;
    for amount in [0u128, 1, 99, 100, 10_000, 1_000_000] {
        let fee = calculate_fee(&coin(amount), "250").unwrap().amount;
        assert!(fee >= prev);
        prev = fee;
    }
    let mut prev = 0;
    for rate in ["0", "1", "100", "2500", "10000"] {
        let fee = calculate_fee(&coin(31_415), rate).unwrap().amount;
        assert!(fee >= prev);
        prev = fee;
    }
}

#[test]
fn identical_inputs_give_identical_fees() {
    let a = calculate_fee(&coin(987_654_321), "333").unwrap();
    let b = calculate_fee(&coin(987_654_321), "333").unwrap();
    assert_eq!(a.amount, b.amount);
    assert_eq!(a.denom, b.denom);
}

#[test]
fn unusable_rates_are_invalid_input() {
    for bad in ["", "abc", "-1", "0.01", "+5", " 5"] {
        let err = calculate_fee(&coin(1000), bad).unwrap_err();
        assert_eq!(err, ContractError::InvalidInput);
    }
}

#[test]
fn fee_overflow_fails_rather_than_wraps() {
    // u128::MAX * 20000 / 10000 exceeds the machine word
    let err = calculate_fee(&coin(u128::MAX), "20000").unwrap_err();
    assert_eq!(err, ContractError::ArithmeticOverflow);
}

#[test]
fn set_fee_params_is_admin_gated() {
    let mut state = instantiate(FeeParams {
        buyer_percentage_fee: "100".to_string(),
        seller_percentage_fee: "100".to_string(),
    });
    let fees = FeeParams {
        buyer_percentage_fee: "250".to_string(),
        seller_percentage_fee: "50".to_string(),
    };
    let err = gov_set_fee_params(&mut state, false, fees).unwrap_err();
    assert_eq!(err, ContractError::Unauthorized);
    assert_eq!(state.fee_params.buyer_percentage_fee, "100");

    let fees = FeeParams {
        buyer_percentage_fee: "250".to_string(),
        seller_percentage_fee: "50".to_string(),
    };
    gov_set_fee_params(&mut state, true, fees).unwrap();
    assert_eq!(state.fee_params.buyer_percentage_fee, "250");
    assert_eq!(state.fee_params.seller_percentage_fee, "50");
}

#[test]
fn fee_pool_payout_is_admin_gated_and_passes_through() {
    let err = gov_send_from_fee_pool(false, "alice".to_string(), vec![coin(5)]).unwrap_err();
    assert_eq!(err, ContractError::Unauthorized);

    let (recipient, coins) =
        gov_send_from_fee_pool(true, "alice".to_string(), vec![coin(5), coin(7)]).unwrap();
    assert_eq!(recipient, "alice");
    assert_eq!(coins.len(), 2);
    assert_eq!(coins[0].amount, 5);
    assert_eq!(coins[1].amount, 7);
}
