use credit_marketplace::error::ContractError;
use credit_marketplace::execute::{buy_direct, cancel_sell_order, sell, update_sell_orders};
use credit_marketplace::msg::{BuyOrderMsg, SellOrderMsg, UpdateSellOrderMsg};
use credit_marketplace::query::{sell_order, sell_orders};
use credit_marketplace::state::{instantiate, Coin, FeeParams, Marketplace};

fn setup(rate: &str) -> Marketplace {
    instantiate(FeeParams {
        buyer_percentage_fee: rate.to_string(),
        seller_percentage_fee: rate.to_string(),
    })
}

fn sell_msg(quantity: &str, ask: u128) -> SellOrderMsg {
    SellOrderMsg {
        batch_denom: "eco.uC.001".to_string(),
        quantity: quantity.to_string(),
        ask_price: Coin { denom: "uusd".to_string(), amount: ask },
        disable_auto_retire: false,
        expiration: None,
    }
}

fn buy_msg(id: u64, quantity: &str, bid: u128, max_fee: u128) -> BuyOrderMsg {
    BuyOrderMsg {
        sell_order_id: id,
        quantity: quantity.to_string(),
        bid_price: Coin { denom: "uusd".to_string(), amount: bid },
        disable_auto_retire: false,
        retirement_jurisdiction: None,
        retirement_reason: None,
        max_fee_amount: Coin { denom: "uusd".to_string(), amount: max_fee },
    }
}

#[test]
fn proper_initialization() {
    let state = setup("0.01");
    assert_eq!(state.seq, 0);
    assert_eq!(state.orders.len(), 0);
    assert_eq!(state.denoms.len(), 0);
}

#[test]
fn test_sell_order() {
    let mut state = setup("0.01");
    let ids = sell(&mut state, "seller".to_string(), vec![sell_msg("100", 1000)]).unwrap();
    assert_eq!(ids, vec![1]);

    let res = sell_order(&state, 1).unwrap();
    assert_eq!(res.sell_order.seller, "seller");
    assert_eq!(res.sell_order.quantity, "100");
    assert_eq!(res.sell_order.ask_amount, "1000");
}

#[test]
fn test_buy_direct() {
    let mut state = setup("100");
    sell(&mut state, "seller".to_string(), vec![sell_msg("100", 1000)]).unwrap();

    buy_direct(&mut state, vec![buy_msg(1, "50", 1000, 10)]).unwrap();

    let res = sell_order(&state, 1).unwrap();
    assert_eq!(res.sell_order.quantity, "50");
}

#[test]
fn test_cancel_sell_order() {
    let mut state = setup("0.01");
    sell(&mut state, "seller".to_string(), vec![sell_msg("100", 1000)]).unwrap();

    let id = cancel_sell_order(&mut state, "seller".to_string(), 1).unwrap();
    assert_eq!(id, 1);

    let res = sell_orders(&state, None, None);
    assert_eq!(res.sell_orders.len(), 0);
}

#[test]
fn ids_start_at_one_increase_and_are_never_reused() {
    let mut state = setup("100");
    let ids = sell(
        &mut state,
        "s".to_string(),
        vec![sell_msg("10", 5), sell_msg("20", 6)],
    )
    .unwrap();
    assert_eq!(ids, vec![1, 2]);

    cancel_sell_order(&mut state, "s".to_string(), 2).unwrap();
    let ids = sell(&mut state, "s".to_string(), vec![sell_msg("30", 7)]).unwrap();
    assert_eq!(ids, vec![3]);

    let listed: Vec<u64> = sell_orders(&state, None, None)
        .sell_orders
        .iter()
        .map(|o| o.id)
        .collect();
    assert_eq!(listed, vec![1, 3]);
}

#[test]
fn sell_rejects_malformed_or_nonpositive_quantity() {
    for bad in ["", "abc", "0", "-5", "1.5", "+7"] {
        let mut state = setup("100");
        let err = sell(&mut state, "s".to_string(), vec![sell_msg(bad, 5)]).unwrap_err();
        assert_eq!(err, ContractError::InvalidInput);
        assert_eq!(state.orders.len(), 0);
    }
}

#[test]
fn sell_rejects_quantity_beyond_machine_range() {
    let mut state = setup("100");
    // one digit more than u128::MAX
    let big = "3402823669209384634633746074317682114560";
    let err = sell(&mut state, "s".to_string(), vec![sell_msg(big, 5)]).unwrap_err();
    assert_eq!(err, ContractError::InvalidInput);
}

#[test]
fn sell_batch_is_all_or_nothing() {
    let mut state = setup("100");
    let err = sell(
        &mut state,
        "s".to_string(),
        vec![sell_msg("10", 5), sell_msg("bad", 6)],
    )
    .unwrap_err();
    assert_eq!(err, ContractError::InvalidInput);
    assert_eq!(state.orders.len(), 0);
    assert_eq!(state.seq, 0);
}

#[test]
fn buy_full_fill_deletes_order() {
    let mut state = setup("100");
    sell(&mut state, "s".to_string(), vec![sell_msg("100", 1000)]).unwrap();

    buy_direct(&mut state, vec![buy_msg(1, "100", 1000, 10)]).unwrap();

    let err = sell_order(&state, 1).unwrap_err();
    assert_eq!(err, ContractError::NotFound);
}

#[test]
fn buy_partial_fill_leaves_other_fields_unchanged() {
    let mut state = setup("100");
    sell(&mut state, "s".to_string(), vec![sell_msg("100", 1000)]).unwrap();

    buy_direct(&mut state, vec![buy_msg(1, "30", 1000, 10)]).unwrap();

    let o = sell_order(&state, 1).unwrap().sell_order;
    assert_eq!(o.quantity, "70");
    assert_eq!(o.id, 1);
    assert_eq!(o.seller, "s");
    assert_eq!(o.ask_amount, "1000");
    assert_eq!(o.disable_auto_retire, false);
    assert_eq!(o.expiration, None);
    assert!(o.maker);
}

#[test]
fn bid_below_ask_is_rejected_without_state_change() {
    let mut state = setup("100");
    sell(&mut state, "s".to_string(), vec![sell_msg("100", 1000)]).unwrap();

    let err = buy_direct(&mut state, vec![buy_msg(1, "50", 999, 10)]).unwrap_err();
    assert_eq!(err, ContractError::InsufficientBidPrice);
    assert_eq!(sell_order(&state, 1).unwrap().sell_order.quantity, "100");
}

#[test]
fn buy_missing_order_is_not_found() {
    let mut state = setup("100");
    let err = buy_direct(&mut state, vec![buy_msg(9, "1", 1000, 10)]).unwrap_err();
    assert_eq!(err, ContractError::NotFound);
}

#[test]
fn buy_fee_over_cap_is_rejected() {
    let mut state = setup("100");
    sell(&mut state, "s".to_string(), vec![sell_msg("100", 1000)]).unwrap();

    // bid 1000 at 100 basis points owes 10; the cap is 9
    let err = buy_direct(&mut state, vec![buy_msg(1, "50", 1000, 9)]).unwrap_err();
    assert_eq!(err, ContractError::MaxFeeExceeded);
    assert_eq!(sell_order(&state, 1).unwrap().sell_order.quantity, "100");
}

#[test]
fn buy_oversized_fill_is_rejected_not_clamped() {
    let mut state = setup("100");
    sell(&mut state, "s".to_string(), vec![sell_msg("100", 1000)]).unwrap();

    let err = buy_direct(&mut state, vec![buy_msg(1, "101", 1000, 10)]).unwrap_err();
    assert_eq!(err, ContractError::InsufficientSellOrderQuantity);
    assert_eq!(sell_order(&state, 1).unwrap().sell_order.quantity, "100");
}

#[test]
fn buy_zero_or_malformed_fill_is_invalid_input() {
    for bad in ["0", "x", ""] {
        let mut state = setup("100");
        sell(&mut state, "s".to_string(), vec![sell_msg("100", 1000)]).unwrap();
        let err = buy_direct(&mut state, vec![buy_msg(1, bad, 1000, 10)]).unwrap_err();
        assert_eq!(err, ContractError::InvalidInput);
        assert_eq!(sell_order(&state, 1).unwrap().sell_order.quantity, "100");
    }
}

#[test]
fn buy_batch_is_all_or_nothing() {
    let mut state = setup("100");
    sell(&mut state, "s".to_string(), vec![sell_msg("100", 1000)]).unwrap();

    // the first item alone would succeed; the second fails on the bid
    let err = buy_direct(
        &mut state,
        vec![buy_msg(1, "50", 1000, 10), buy_msg(1, "50", 1, 10)],
    )
    .unwrap_err();
    assert_eq!(err, ContractError::InsufficientBidPrice);
    assert_eq!(sell_order(&state, 1).unwrap().sell_order.quantity, "100");
}

#[test]
fn two_buys_deplete_and_delete_the_order() {
    let mut state = setup("100");
    sell(&mut state, "seller".to_string(), vec![sell_msg("100", 1000)]).unwrap();

    buy_direct(&mut state, vec![buy_msg(1, "50", 1000, 10)]).unwrap();
    assert_eq!(sell_order(&state, 1).unwrap().sell_order.quantity, "50");

    buy_direct(&mut state, vec![buy_msg(1, "50", 1000, 10)]).unwrap();
    assert_eq!(sell_order(&state, 1).unwrap_err(), ContractError::NotFound);
}

#[test]
fn only_seller_may_update_or_cancel() {
    let mut state = setup("100");
    sell(&mut state, "alice".to_string(), vec![sell_msg("100", 1000)]).unwrap();

    let upd = UpdateSellOrderMsg {
        sell_order_id: 1,
        new_quantity: Some("200".to_string()),
        new_ask_price: None,
        disable_auto_retire: None,
        new_expiration: None,
    };
    let err = update_sell_orders(&mut state, "bob".to_string(), vec![upd]).unwrap_err();
    assert_eq!(err, ContractError::Unauthorized);
    assert_eq!(sell_order(&state, 1).unwrap().sell_order.quantity, "100");

    let err = cancel_sell_order(&mut state, "bob".to_string(), 1).unwrap_err();
    assert_eq!(err, ContractError::Unauthorized);
    assert!(sell_order(&state, 1).is_ok());
}

#[test]
fn update_replaces_exactly_the_given_fields() {
    let mut state = setup("100");
    sell(&mut state, "alice".to_string(), vec![sell_msg("100", 1000)]).unwrap();

    let upd = UpdateSellOrderMsg {
        sell_order_id: 1,
        new_quantity: Some("250".to_string()),
        new_ask_price: Some(Coin { denom: "uusd".to_string(), amount: 777 }),
        disable_auto_retire: Some(true),
        new_expiration: Some(42),
    };
    update_sell_orders(&mut state, "alice".to_string(), vec![upd]).unwrap();

    let o = sell_order(&state, 1).unwrap().sell_order;
    assert_eq!(o.quantity, "250");
    assert_eq!(o.ask_amount, "777");
    assert_eq!(o.disable_auto_retire, true);
    assert_eq!(o.expiration, Some(42));
    assert_eq!(o.seller, "alice");
}

#[test]
fn update_rejects_nonpositive_replacement_quantity() {
    for bad in ["0", "-1", "nope"] {
        let mut state = setup("100");
        sell(&mut state, "alice".to_string(), vec![sell_msg("100", 1000)]).unwrap();
        let upd = UpdateSellOrderMsg {
            sell_order_id: 1,
            new_quantity: Some(bad.to_string()),
            new_ask_price: None,
            disable_auto_retire: None,
            new_expiration: None,
        };
        let err = update_sell_orders(&mut state, "alice".to_string(), vec![upd]).unwrap_err();
        assert_eq!(err, ContractError::InvalidInput);
        assert_eq!(sell_order(&state, 1).unwrap().sell_order.quantity, "100");
    }
}

#[test]
fn update_missing_order_is_not_found() {
    let mut state = setup("100");
    let upd = UpdateSellOrderMsg {
        sell_order_id: 5,
        new_quantity: None,
        new_ask_price: None,
        disable_auto_retire: None,
        new_expiration: None,
    };
    let err = update_sell_orders(&mut state, "alice".to_string(), vec![upd]).unwrap_err();
    assert_eq!(err, ContractError::NotFound);
}

#[test]
fn cancel_missing_order_is_not_found() {
    let mut state = setup("100");
    let err = cancel_sell_order(&mut state, "alice".to_string(), 1).unwrap_err();
    assert_eq!(err, ContractError::NotFound);
}
