use credit_marketplace::error::ContractError;
use credit_marketplace::execute::{add_allowed_denom, remove_allowed_denom, sell};
use credit_marketplace::msg::SellOrderMsg;
use credit_marketplace::query::{
    allowed_denoms, sell_orders, sell_orders_by_batch, sell_orders_by_seller,
};
use credit_marketplace::state::{instantiate, Coin, FeeParams, Marketplace};

fn setup() -> Marketplace {
    instantiate(FeeParams {
        buyer_percentage_fee: "100".to_string(),
        seller_percentage_fee: "100".to_string(),
    })
}

fn sell_msg(quantity: &str, ask: u128) -> SellOrderMsg {
    SellOrderMsg {
        batch_denom: "eco.uC.001".to_string(),
        quantity: quantity.to_string(),
        ask_price: Coin { denom: "uusd".to_string(), amount: ask },
        disable_auto_retire: false,
        expiration: None,
    }
}

fn seed_orders(state: &mut Marketplace, seller: &str, n: usize) {
    let msgs: Vec<SellOrderMsg> = (0..n).map(|_| sell_msg("10", 5)).collect();
    sell(state, seller.to_string(), msgs).unwrap();
}

#[test]
fn omitted_limit_returns_at_most_ten() {
    let mut state = setup();
    seed_orders(&mut state, "s", 35);
    let page = sell_orders(&state, None, None).sell_orders;
    assert_eq!(page.len(), 10);
    let ids: Vec<u64> = page.iter().map(|o| o.id).collect();
    assert_eq!(ids, (1..=10).collect::<Vec<u64>>());
}

#[test]
fn huge_limit_is_clamped_to_thirty() {
    let mut state = setup();
    seed_orders(&mut state, "s", 35);
    let page = sell_orders(&state, None, Some(1000)).sell_orders;
    assert_eq!(page.len(), 30);
}

#[test]
fn consecutive_pages_do_not_overlap_and_are_gap_free() {
    let mut state = setup();
    seed_orders(&mut state, "s", 25);

    let p1 = sell_orders(&state, None, None).sell_orders;
    let cursor = p1.last().unwrap().id;
    let p2 = sell_orders(&state, Some(cursor), None).sell_orders;

    let mut ids: Vec<u64> = p1.iter().map(|o| o.id).collect();
    ids.extend(p2.iter().map(|o| o.id));
    assert_eq!(ids, (1..=20).collect::<Vec<u64>>());
}

#[test]
fn cursor_is_exclusive() {
    let mut state = setup();
    seed_orders(&mut state, "s", 5);
    let page = sell_orders(&state, Some(3), None).sell_orders;
    let ids: Vec<u64> = page.iter().map(|o| o.id).collect();
    assert_eq!(ids, vec![4, 5]);
}

#[test]
fn by_seller_filters_before_truncating() {
    let mut state = setup();
    // alternate sellers: odd ids belong to alice, even ids to bob
    for k in 0..24 {
        let who = if k % 2 == 0 { "alice" } else { "bob" };
        sell(&mut state, who.to_string(), vec![sell_msg("10", 5)]).unwrap();
    }
    let page = sell_orders_by_seller(&state, "alice".to_string(), None, None).sell_orders;
    assert_eq!(page.len(), 10);
    for o in &page {
        assert_eq!(o.seller, "alice");
    }
    let ids: Vec<u64> = page.iter().map(|o| o.id).collect();
    assert_eq!(ids, vec![1, 3, 5, 7, 9, 11, 13, 15, 17, 19]);
}

#[test]
fn by_seller_with_no_matches_is_empty() {
    let mut state = setup();
    seed_orders(&mut state, "alice", 5);
    let page = sell_orders_by_seller(&state, "carol".to_string(), None, None).sell_orders;
    assert!(page.is_empty());
}

#[test]
fn by_batch_matches_the_stored_batch_key() {
    let mut state = setup();
    seed_orders(&mut state, "s", 3);
    // creation stores the placeholder batch key, which renders as "0"
    let page = sell_orders_by_batch(&state, "0".to_string(), None, None).sell_orders;
    assert_eq!(page.len(), 3);
    let none = sell_orders_by_batch(&state, "eco.uC.001".to_string(), None, None).sell_orders;
    assert!(none.is_empty());
}

#[test]
fn denom_registry_add_list_overwrite_remove() {
    let mut state = setup();
    add_allowed_denom(&mut state, true, "uusd".to_string(), "USD".to_string(), 6).unwrap();
    add_allowed_denom(&mut state, true, "uatom".to_string(), "ATOM".to_string(), 6).unwrap();
    add_allowed_denom(&mut state, true, "ueur".to_string(), "EUR".to_string(), 6).unwrap();

    // listed in ascending key order regardless of insertion order
    let keys: Vec<String> = allowed_denoms(&state, None, None)
        .allowed_denoms
        .iter()
        .map(|d| d.bank_denom.clone())
        .collect();
    assert_eq!(keys, vec!["uatom", "ueur", "uusd"]);

    // re-adding the same key silently overwrites
    add_allowed_denom(&mut state, true, "uusd".to_string(), "Dollar".to_string(), 2).unwrap();
    let listed = allowed_denoms(&state, None, None).allowed_denoms;
    assert_eq!(listed.len(), 3);
    assert_eq!(listed[2].bank_denom, "uusd");
    assert_eq!(listed[2].display_denom, "Dollar");
    assert_eq!(listed[2].exponent, 2);

    // removal is idempotent
    remove_allowed_denom(&mut state, true, "ueur".to_string()).unwrap();
    remove_allowed_denom(&mut state, true, "ueur".to_string()).unwrap();
    let keys: Vec<String> = allowed_denoms(&state, None, None)
        .allowed_denoms
        .iter()
        .map(|d| d.bank_denom.clone())
        .collect();
    assert_eq!(keys, vec!["uatom", "uusd"]);
}

#[test]
fn denom_listing_uses_exclusive_key_cursor() {
    let mut state = setup();
    add_allowed_denom(&mut state, true, "a".to_string(), "A".to_string(), 0).unwrap();
    add_allowed_denom(&mut state, true, "b".to_string(), "B".to_string(), 0).unwrap();
    add_allowed_denom(&mut state, true, "c".to_string(), "C".to_string(), 0).unwrap();

    let keys: Vec<String> = allowed_denoms(&state, Some("a".to_string()), None)
        .allowed_denoms
        .iter()
        .map(|d| d.bank_denom.clone())
        .collect();
    assert_eq!(keys, vec!["b", "c"]);
}

#[test]
fn denom_mutation_requires_authorization() {
    let mut state = setup();
    let err =
        add_allowed_denom(&mut state, false, "uusd".to_string(), "USD".to_string(), 6).unwrap_err();
    assert_eq!(err, ContractError::Unauthorized);
    assert!(allowed_denoms(&state, None, None).allowed_denoms.is_empty());

    add_allowed_denom(&mut state, true, "uusd".to_string(), "USD".to_string(), 6).unwrap();
    let err = remove_allowed_denom(&mut state, false, "uusd".to_string()).unwrap_err();
    assert_eq!(err, ContractError::Unauthorized);
    assert_eq!(allowed_denoms(&state, None, None).allowed_denoms.len(), 1);
}
