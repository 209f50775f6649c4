//! The write operations of the marketplace: the sell-order lifecycle and the
//! administrative mutations.
//!
//! Each handler takes the [`Marketplace`] state by mutable reference and is
//! all-or-nothing, also across the items of one batched call: either every
//! item applies, or the state is left exactly as it was and the first
//! failure is reported.  Each handler's effect is pinned to a spec-level
//! transition function over the state's view.

use vstd::prelude::*;
use crate::error::ContractError;
use crate::fees::{spec_calculate_fee, calculate_fee};
use crate::msg::{BuyOrderMsg, BuyOrderMsgV, SellOrderMsg, SellOrderMsgV, UpdateSellOrderMsg, UpdateSellOrderMsgV};
use crate::numeric::{
    dec_str_of, dec_value, fits_u128, is_dec_string, format_u128, lemma_dec_str_of_value,
    parse_dec_u128,
};
use crate::state::{
    book_wf, coins_view, denoms_sorted, denoms_view, lemma_book_wf_remove, lemma_book_wf_update,
    lemma_lex_lt_asym, lemma_lex_lt_irrefl, lemma_lex_lt_neq, lemma_lex_lt_trans, lex_lt,
    AllowedDenom, Coin, CoinV, DenomV, FeeParams, FeeParamsV, KeyOrder, Marketplace, MarketplaceV,
    OrderV, SellOrder, orders_view, str_compare,
};

verus! {

/// A usable order quantity: a digit string denoting a positive number that
/// fits the machine word.
pub open spec fn valid_quantity(q: Seq<char>) -> bool {
    is_dec_string(q) && fits_u128(q) && dec_value(q) > 0
}

/// Index of the first order with the given id, or -1 if there is none.
/// Under the order-book invariant ids are unique, so this is the only one.
pub open spec fn first_idx(s: Seq<OrderV>, id: u64) -> int
    decreases s.len(),
{
    if s.len() == 0 {
        -1
    } else if s[0].id == id {
        0
    } else {
        let r = first_idx(s.drop_first(), id);
        if r == -1 {
            -1
        } else {
            r + 1
        }
    }
}

pub proof fn lemma_first_idx_is(s: Seq<OrderV>, id: u64, i: int)
    requires
        0 <= i < s.len(),
        s[i].id == id,
        forall|j: int| 0 <= j < i ==> (#[trigger] s[j]).id != id,
    ensures
        first_idx(s, id) == i,
    decreases i,
{
    if i > 0 {
        lemma_first_idx_is(s.drop_first(), id, i - 1);
    }
}

pub proof fn lemma_first_idx_none(s: Seq<OrderV>, id: u64)
    requires
        forall|j: int| 0 <= j < s.len() ==> (#[trigger] s[j]).id != id,
    ensures
        first_idx(s, id) == -1,
    decreases s.len(),
{
    if s.len() > 0 {
        lemma_first_idx_none(s.drop_first(), id);
    }
}

pub open spec fn sell_msgs_view(s: Seq<SellOrderMsg>) -> Seq<SellOrderMsgV> {
    s.map_values(|m: SellOrderMsg| m@)
}

pub open spec fn update_msgs_view(s: Seq<UpdateSellOrderMsg>) -> Seq<UpdateSellOrderMsgV> {
    s.map_values(|m: UpdateSellOrderMsg| m@)
}

pub open spec fn buy_msgs_view(s: Seq<BuyOrderMsg>) -> Seq<BuyOrderMsgV> {
    s.map_values(|m: BuyOrderMsg| m@)
}

/// The record created for one sell item: a fresh id, the caller as seller,
/// the quantity as given, the ask rendered from the price amount, and a
/// placeholder batch/market key (resolving the human-readable references is
/// an external integration point).
pub open spec fn order_of_sell_msg(id: u64, seller: Seq<char>, m: SellOrderMsgV) -> OrderV {
    OrderV {
        id,
        seller,
        batch_key: 0,
        quantity: m.quantity,
        market_id: 0,
        ask_amount: dec_str_of(m.ask_price.amount as nat),
        disable_auto_retire: m.disable_auto_retire,
        expiration: m.expiration,
        maker: true,
    }
}

/// The sell transition: per item, a malformed or non-positive quantity is
/// `InvalidInput`; an exhausted id space is `ArithmeticOverflow`; otherwise
/// the next id is drawn and the order appended.  Returns the new book, the
/// issued ids in order, and the new counter.
pub open spec fn apply_sell(
    orders: Seq<OrderV>,
    seq0: u64,
    seller: Seq<char>,
    items: Seq<SellOrderMsgV>,
) -> Result<(Seq<OrderV>, Seq<u64>, u64), ContractError>
    decreases items.len(),
{
    if items.len() == 0 {
        Ok((orders, Seq::<u64>::empty(), seq0))
    } else if !valid_quantity(items[0].quantity) {
        Err(ContractError::InvalidInput)
    } else if seq0 == u64::MAX {
        Err(ContractError::ArithmeticOverflow)
    } else {
        let id = (seq0 + 1) as u64;
        match apply_sell(
            orders.push(order_of_sell_msg(id, seller, items[0])),
            id,
            seller,
            items.drop_first(),
        ) {
            Ok(out) => Ok((out.0, seq![id] + out.1, out.2)),
            Err(e) => Err(e),
        }
    }
}

/// The amended record: every `Some` field of the request replaces the
/// stored one; a replacement ask price is rendered from its amount.
pub open spec fn updated_order(o: OrderV, u: UpdateSellOrderMsgV) -> OrderV {
    OrderV {
        id: o.id,
        seller: o.seller,
        batch_key: o.batch_key,
        quantity: match u.new_quantity {
            Some(q) => q,
            None => o.quantity,
        },
        market_id: o.market_id,
        ask_amount: match u.new_ask_price {
            Some(p) => dec_str_of(p.amount as nat),
            None => o.ask_amount,
        },
        disable_auto_retire: match u.disable_auto_retire {
            Some(b) => b,
            None => o.disable_auto_retire,
        },
        expiration: match u.new_expiration {
            Some(t) => Some(t),
            None => o.expiration,
        },
        maker: o.maker,
    }
}

/// The amendment transition for one item: the order must exist, only its
/// recorded seller may amend it, and a replacement quantity must be a
/// positive integer.
pub open spec fn apply_update_item(
    orders: Seq<OrderV>,
    caller: Seq<char>,
    u: UpdateSellOrderMsgV,
) -> Result<Seq<OrderV>, ContractError> {
    let i = first_idx(orders, u.sell_order_id);
    if i == -1 {
        Err(ContractError::NotFound)
    } else if orders[i].seller != caller {
        Err(ContractError::Unauthorized)
    } else if match u.new_quantity {
        Some(q) => !valid_quantity(q),
        None => false,
    } {
        Err(ContractError::InvalidInput)
    } else {
        Ok(orders.update(i, updated_order(orders[i], u)))
    }
}

/// The amendment transition for a batch, item by item, first error wins.
pub open spec fn apply_updates(
    orders: Seq<OrderV>,
    caller: Seq<char>,
    items: Seq<UpdateSellOrderMsgV>,
) -> Result<Seq<OrderV>, ContractError>
    decreases items.len(),
{
    if items.len() == 0 {
        Ok(orders)
    } else {
        match apply_update_item(orders, caller, items[0]) {
            Ok(os) => apply_updates(os, caller, items.drop_first()),
            Err(e) => Err(e),
        }
    }
}

/// The direct-buy transition for one requested fill, in strict order: the
/// order must exist; a bid below the ask is rejected; both fees must be
/// computable; the buyer fee must not exceed the caller's cap; the fill
/// must be a positive integer no greater than the remaining quantity.  A
/// fill that empties the order deletes it.
pub open spec fn apply_buy_item(orders: Seq<OrderV>, fees: FeeParamsV, it: BuyOrderMsgV) -> Result<
    Seq<OrderV>,
    ContractError,
> {
    let i = first_idx(orders, it.sell_order_id);
    if i == -1 {
        Err(ContractError::NotFound)
    } else {
        let o = orders[i];
        if (it.bid_price.amount as nat) < dec_value(o.ask_amount) {
            Err(ContractError::InsufficientBidPrice)
        } else {
            match spec_calculate_fee(it.bid_price, fees.buyer_percentage_fee) {
                Err(e) => Err(e),
                Ok(buyer_fee) => match spec_calculate_fee(it.bid_price, fees.seller_percentage_fee) {
                    Err(e) => Err(e),
                    Ok(_seller_fee) => {
                        if buyer_fee.amount > it.max_fee_amount.amount {
                            Err(ContractError::MaxFeeExceeded)
                        } else if !valid_quantity(it.quantity) {
                            Err(ContractError::InvalidInput)
                        } else if dec_value(it.quantity) > dec_value(o.quantity) {
                            Err(ContractError::InsufficientSellOrderQuantity)
                        } else {
                            let rem = (dec_value(o.quantity) - dec_value(it.quantity)) as nat;
                            if rem == 0 {
                                Ok(orders.remove(i))
                            } else {
                                Ok(
                                    orders.update(
                                        i,
                                        OrderV {
                                            id: o.id,
                                            seller: o.seller,
                                            batch_key: o.batch_key,
                                            quantity: dec_str_of(rem),
                                            market_id: o.market_id,
                                            ask_amount: o.ask_amount,
                                            disable_auto_retire: o.disable_auto_retire,
                                            expiration: o.expiration,
                                            maker: o.maker,
                                        },
                                    ),
                                )
                            }
                        }
                    },
                },
            }
        }
    }
}

/// The direct-buy transition for a batch, item by item, first error wins.
pub open spec fn apply_buy(
    orders: Seq<OrderV>,
    fees: FeeParamsV,
    items: Seq<BuyOrderMsgV>,
) -> Result<Seq<OrderV>, ContractError>
    decreases items.len(),
{
    if items.len() == 0 {
        Ok(orders)
    } else {
        match apply_buy_item(orders, fees, items[0]) {
            Ok(os) => apply_buy(os, fees, items.drop_first()),
            Err(e) => Err(e),
        }
    }
}

/// The cancellation transition: only the recorded seller may cancel, and
/// cancellation deletes the record unconditionally.
pub open spec fn apply_cancel(orders: Seq<OrderV>, caller: Seq<char>, id: u64) -> Result<
    Seq<OrderV>,
    ContractError,
> {
    let i = first_idx(orders, id);
    if i == -1 {
        Err(ContractError::NotFound)
    } else if orders[i].seller != caller {
        Err(ContractError::Unauthorized)
    } else {
        Ok(orders.remove(i))
    }
}

/// The registry upsert: the entry is placed at its key's position in the
/// key order; an existing entry under the same key is overwritten.
pub open spec fn insert_denom(s: Seq<DenomV>, d: DenomV) -> Seq<DenomV>
    decreases s.len(),
{
    if s.len() == 0 {
        seq![d]
    } else if lex_lt(d.bank_denom, s[0].bank_denom) {
        seq![d] + s
    } else if d.bank_denom == s[0].bank_denom {
        seq![d] + s.drop_first()
    } else {
        seq![s[0]] + insert_denom(s.drop_first(), d)
    }
}

/// The registry removal: drops the first entry under the key, if any; on a
/// registry with unique keys, the only one.
pub open spec fn remove_denom_key(s: Seq<DenomV>, key: Seq<char>) -> Seq<DenomV>
    decreases s.len(),
{
    if s.len() == 0 {
        s
    } else if s[0].bank_denom == key {
        s.drop_first()
    } else {
        seq![s[0]] + remove_denom_key(s.drop_first(), key)
    }
}

/// The upsert lands at the first position whose key is not below the new
/// key: it replaces an equal key there, and is inserted otherwise.
pub proof fn lemma_insert_denom_at(s: Seq<DenomV>, d: DenomV, p: int)
    requires
        0 <= p <= s.len(),
        forall|j: int| 0 <= j < p ==> lex_lt((#[trigger] s[j]).bank_denom, d.bank_denom),
    ensures
        p < s.len() && s[p].bank_denom == d.bank_denom ==> insert_denom(s, d) == s.take(p)
            + seq![d] + s.skip(p + 1),
        (p == s.len() || lex_lt(d.bank_denom, s[p].bank_denom)) ==> insert_denom(s, d) == s.take(
            p,
        ) + seq![d] + s.skip(p),
    decreases p,
{
    if p == 0 {
        if s.len() == 0 {
            assert(insert_denom(s, d) =~= s.take(0) + seq![d] + s.skip(0));
        } else {
            if s[0].bank_denom == d.bank_denom {
                lemma_lex_lt_irrefl(d.bank_denom);
                assert(seq![d] + s.drop_first() =~= s.take(0) + seq![d] + s.skip(1));
            }
            if lex_lt(d.bank_denom, s[0].bank_denom) {
                assert(seq![d] + s =~= s.take(0) + seq![d] + s.skip(0));
            }
        }
    } else {
        lemma_lex_lt_asym(s[0].bank_denom, d.bank_denom);
        lemma_lex_lt_neq(s[0].bank_denom, d.bank_denom);
        let t = s.drop_first();
        assert(forall|j: int| 0 <= j < p - 1 ==> lex_lt((#[trigger] t[j]).bank_denom, d.bank_denom));
        lemma_insert_denom_at(t, d, p - 1);
        assert(insert_denom(s, d) == seq![s[0]] + insert_denom(t, d));
        if p < s.len() && s[p].bank_denom == d.bank_denom {
            assert(t[p - 1] == s[p]);
            assert(seq![s[0]] + (t.take(p - 1) + seq![d] + t.skip(p)) =~= s.take(p) + seq![d]
                + s.skip(p + 1));
        }
        if p == s.len() || lex_lt(d.bank_denom, s[p].bank_denom) {
            assert(seq![s[0]] + (t.take(p - 1) + seq![d] + t.skip(p - 1)) =~= s.take(p) + seq![d]
                + s.skip(p));
        }
    }
}

/// The removal deletes exactly the entry at the key's position.
pub proof fn lemma_remove_denom_at(s: Seq<DenomV>, key: Seq<char>, p: int)
    requires
        0 <= p < s.len(),
        s[p].bank_denom == key,
        forall|j: int| 0 <= j < p ==> (#[trigger] s[j]).bank_denom != key,
    ensures
        remove_denom_key(s, key) == s.remove(p),
    decreases p,
{
    if p == 0 {
        assert(remove_denom_key(s, key) =~= s.remove(0));
    } else {
        let t = s.drop_first();
        assert(forall|j: int| 0 <= j < p - 1 ==> (#[trigger] t[j]).bank_denom != key);
        assert(t[p - 1] == s[p]);
        lemma_remove_denom_at(t, key, p - 1);
        assert(seq![s[0]] + t.remove(p - 1) =~= s.remove(p));
    }
}

/// Removing an absent key is a no-op.
pub proof fn lemma_remove_denom_absent(s: Seq<DenomV>, key: Seq<char>)
    requires
        forall|j: int| 0 <= j < s.len() ==> (#[trigger] s[j]).bank_denom != key,
    ensures
        remove_denom_key(s, key) == s,
    decreases s.len(),
{
    if s.len() > 0 {
        lemma_remove_denom_absent(s.drop_first(), key);
        assert(seq![s[0]] + s.drop_first() =~= s);
    }
}

/// The registry invariant only depends on the registry contents, so it
/// carries over to any state with the same registry.
pub proof fn lemma_denoms_wf_transfer(a: crate::state::MarketplaceV, b: crate::state::MarketplaceV)
    requires
        a.denoms_wf(),
        a.denoms == b.denoms,
    ensures
        b.denoms_wf(),
{
    assert forall|i: int, j: int|
        0 <= i < j < b.denoms.len() implies crate::state::lex_lt(
        (#[trigger] b.denoms[i]).bank_denom,
        (#[trigger] b.denoms[j]).bank_denom,
    ) by {
        assert(b.denoms[i] == a.denoms[i]);
        assert(b.denoms[j] == a.denoms[j]);
    }
}

/// Structural copy of the order book; the copy has the same view.
#[verifier::loop_isolation(false)]
fn copy_orders(v: &Vec<SellOrder>) -> (r: Vec<SellOrder>)
    ensures
        orders_view(r@) == orders_view(v@),
{
    let mut r: Vec<SellOrder> = Vec::new();
    proof {
        assert(orders_view(r@) =~= orders_view(v@).take(0));
    }
    let mut i: usize = 0;
    while i < v.len()
        invariant
            i <= v.len(),
            orders_view(r@) == orders_view(v@).take(i as int),
        decreases v.len() - i,
    {
        let o = &v[i];
        let c = SellOrder {
            id: o.id,
            seller: o.seller.clone(),
            batch_key: o.batch_key,
            quantity: o.quantity.clone(),
            market_id: o.market_id,
            ask_amount: o.ask_amount.clone(),
            disable_auto_retire: o.disable_auto_retire,
            expiration: o.expiration,
            maker: o.maker,
        };
        assert(c@ == o@);
        r.push(c);
        proof {
            assert(orders_view(r@) =~= orders_view(v@).take(i + 1));
        }
        i = i + 1;
    }
    proof {
        assert(orders_view(v@).take(v@.len() as int) =~= orders_view(v@));
    }
    r
}

/// Linear scan for the order with the given id.
#[verifier::loop_isolation(false)]
pub(crate) fn find_order_idx(v: &Vec<SellOrder>, id: u64) -> (r: Option<usize>)
    ensures
        match r {
            Some(i) => i < v@.len() && first_idx(orders_view(v@), id) == i as int,
            None => first_idx(orders_view(v@), id) == -1,
        },
{
    let mut i: usize = 0;
    while i < v.len()
        invariant
            i <= v.len(),
            forall|j: int| 0 <= j < i ==> (#[trigger] orders_view(v@)[j]).id != id,
        decreases v.len() - i,
    {
        if v[i].id == id {
            proof {
                lemma_first_idx_is(orders_view(v@), id, i as int);
            }
            return Some(i);
        }
        i = i + 1;
    }
    proof {
        lemma_first_idx_none(orders_view(v@), id);
    }
    None
}

/// Creates the given sell orders for `seller`, issuing one fresh id each.
///
/// The batch is all-or-nothing: if any item carries a quantity that is not a
/// positive integer, or the id space is exhausted, nothing is created and
/// the error of the first failing item is returned.  On success the issued
/// ids are returned in item order.
#[verifier::loop_isolation(false)]
pub fn sell(state: &mut Marketplace, seller: String, orders: Vec<SellOrderMsg>) -> (r: Result<
    Vec<u64>,
    ContractError,
>)
    requires
        old(state)@.wf(),
    ensures
        final(state)@.wf(),
        final(state)@.denoms == old(state)@.denoms,
        final(state)@.fee_params == old(state)@.fee_params,
        match apply_sell(old(state)@.orders, old(state)@.seq, seller@, sell_msgs_view(orders@)) {
            Ok(out) => {
                &&& r matches Ok(ids) && ids@ == out.1
                &&& final(state)@.orders == out.0
                &&& final(state)@.seq == out.2
            },
            Err(e) => r == Err::<Vec<u64>, ContractError>(e) && final(state)@ == old(state)@,
        },
{
    let ghost orders0 = state@.orders;
    let ghost seq0 = state.seq;
    let ghost items = sell_msgs_view(orders@);
    let mut work = copy_orders(&state.orders);
    let mut ids: Vec<u64> = Vec::new();
    let mut seq = state.seq;
    proof {
        assert(items.skip(0) =~= items);
        match apply_sell(orders0, seq0, seller@, items) {
            Ok(out) => {
                assert(Seq::<u64>::empty() + out.1 =~= out.1);
            },
            Err(_) => {},
        }
    }
    let mut k: usize = 0;
    while k < orders.len()
        invariant
            k <= orders.len(),
            book_wf(orders_view(work@), seq),
            apply_sell(orders0, seq0, seller@, items) == (match apply_sell(
                orders_view(work@),
                seq,
                seller@,
                items.skip(k as int),
            ) {
                Ok(out) => Ok::<(Seq<OrderV>, Seq<u64>, u64), ContractError>(
                    (out.0, ids@ + out.1, out.2),
                ),
                Err(e) => Err(e),
            }),
        decreases orders.len() - k,
    {
        let m = &orders[k];
        proof {
            assert(items.skip(k as int)[0] == items[k as int]);
        }
        let qty_ok = match parse_dec_u128(m.quantity.as_str()) {
            Some(v) => v > 0,
            None => false,
        };
        if !qty_ok {
            return Err(ContractError::InvalidInput);
        }
        if seq == u64::MAX {
            return Err(ContractError::ArithmeticOverflow);
        }
        let id = seq + 1;
        let order = SellOrder {
            id,
            seller: seller.clone(),
            batch_key: 0,
            quantity: m.quantity.clone(),
            market_id: 0,
            ask_amount: format_u128(m.ask_price.amount),
            disable_auto_retire: m.disable_auto_retire,
            expiration: m.expiration,
            maker: true,
        };
        proof {
            lemma_dec_str_of_value(m.ask_price.amount as nat);
            assert(order@ == order_of_sell_msg(id, seller@, items[k as int]));
        }
        let ghost wk = orders_view(work@);
        let ghost idsk = ids@;
        work.push(order);
        ids.push(id);
        seq = id;
        proof {
            assert(orders_view(work@) =~= wk.push(order@));
            assert(ids@ =~= idsk + seq![id]);
            assert(items.skip(k as int).drop_first() =~= items.skip(k as int + 1));
            assert forall|i: int| 0 <= i < orders_view(work@).len() implies (#[trigger] orders_view(
                work@,
            )[i]).wf() && 1 <= orders_view(work@)[i].id <= seq by {
                if i < wk.len() {
                    assert(orders_view(work@)[i] == wk[i]);
                } else {
                    assert(orders_view(work@)[i] == order@);
                }
            }
            assert forall|i: int, j: int|
                0 <= i < j < orders_view(work@).len() implies (#[trigger] orders_view(work@)[i]).id
                < (#[trigger] orders_view(work@)[j]).id by {
                if j < wk.len() {
                    assert(orders_view(work@)[i] == wk[i]);
                    assert(orders_view(work@)[j] == wk[j]);
                } else {
                    assert(orders_view(work@)[j] == order@);
                    assert(orders_view(work@)[i] == wk[i]);
                }
            }
            match apply_sell(orders_view(work@), id, seller@, items.skip(k as int + 1)) {
                Ok(out) => {
                    assert(idsk + (seq![id] + out.1) =~= (idsk + seq![id]) + out.1);
                },
                Err(_) => {},
            }
        }
        k = k + 1;
    }
    proof {
        assert(items.skip(k as int) =~= Seq::<SellOrderMsgV>::empty());
        assert(apply_sell(orders_view(work@), seq, seller@, items.skip(k as int))
            == Ok::<(Seq<OrderV>, Seq<u64>, u64), ContractError>(
            (orders_view(work@), Seq::<u64>::empty(), seq),
        ));
        assert(ids@ + Seq::<u64>::empty() =~= ids@);
    }
    state.orders = work;
    state.seq = seq;
    proof {
        lemma_denoms_wf_transfer(old(state)@, state@);
    }
    Ok(ids)
}

/// Amends the given sell orders for `caller`.
///
/// Per item, only the recorded seller may amend, and a replacement quantity
/// must be a positive integer.  Every `Some` field replaces the stored one
/// atomically per item.  The batch is all-or-nothing: on the first failing
/// item nothing is changed and its error is returned.
#[verifier::loop_isolation(false)]
pub fn update_sell_orders(
    state: &mut Marketplace,
    caller: String,
    updates: Vec<UpdateSellOrderMsg>,
) -> (r: Result<(), ContractError>)
    requires
        old(state)@.wf(),
    ensures
        final(state)@.wf(),
        final(state)@.seq == old(state)@.seq,
        final(state)@.denoms == old(state)@.denoms,
        final(state)@.fee_params == old(state)@.fee_params,
        match apply_updates(old(state)@.orders, caller@, update_msgs_view(updates@)) {
            Ok(os) => r is Ok && final(state)@.orders == os,
            Err(e) => r == Err::<(), ContractError>(e) && final(state)@ == old(state)@,
        },
{
    let ghost orders0 = state@.orders;
    let ghost items = update_msgs_view(updates@);
    let mut work = copy_orders(&state.orders);
    proof {
        assert(items.skip(0) =~= items);
    }
    let mut k: usize = 0;
    while k < updates.len()
        invariant
            k <= updates.len(),
            book_wf(orders_view(work@), state.seq),
            apply_updates(orders0, caller@, items) == apply_updates(
                orders_view(work@),
                caller@,
                items.skip(k as int),
            ),
        decreases updates.len() - k,
    {
        let u = &updates[k];
        proof {
            assert(items.skip(k as int)[0] == items[k as int]);
            assert(items.skip(k as int).drop_first() =~= items.skip(k as int + 1));
        }
        let idx = match find_order_idx(&work, u.sell_order_id) {
            Some(i) => i,
            None => {
                return Err(ContractError::NotFound);
            },
        };
        if !(work[idx].seller == caller) {
            return Err(ContractError::Unauthorized);
        }
        let quantity = match &u.new_quantity {
            Some(q) => {
                let ok = match parse_dec_u128(q.as_str()) {
                    Some(v) => v > 0,
                    None => false,
                };
                if !ok {
                    return Err(ContractError::InvalidInput);
                }
                q.clone()
            },
            None => work[idx].quantity.clone(),
        };
        let ask_amount = match &u.new_ask_price {
            Some(p) => {
                proof {
                    lemma_dec_str_of_value(p@.amount as nat);
                }
                format_u128(p.amount)
            },
            None => work[idx].ask_amount.clone(),
        };
        let cur = &work[idx];
        let new_order = SellOrder {
            id: cur.id,
            seller: cur.seller.clone(),
            batch_key: cur.batch_key,
            quantity,
            market_id: cur.market_id,
            ask_amount,
            disable_auto_retire: match u.disable_auto_retire {
                Some(b) => b,
                None => cur.disable_auto_retire,
            },
            expiration: match u.new_expiration {
                Some(t) => Some(t),
                None => cur.expiration,
            },
            maker: cur.maker,
        };
        proof {
            assert(new_order@ == updated_order(orders_view(work@)[idx as int], items[k as int]));
            assert(new_order@.wf());
        }
        let ghost wk = orders_view(work@);
        work.remove(idx);
        work.insert(idx, new_order);
        proof {
            assert(orders_view(work@) =~= wk.update(idx as int, new_order@));
            lemma_book_wf_update(wk, state.seq, idx as int, new_order@);
        }
        k = k + 1;
    }
    proof {
        assert(items.skip(k as int) =~= Seq::<UpdateSellOrderMsgV>::empty());
    }
    state.orders = work;
    proof {
        lemma_denoms_wf_transfer(old(state)@, state@);
    }
    Ok(())
}

/// Executes the requested fills against their sell orders.
///
/// Per item, in strict order: the order must exist (`NotFound`); a bid
/// below the ask is rejected (`InsufficientBidPrice`); buyer and seller
/// fees are computed from the current fee schedule; a buyer fee over the
/// caller's cap is rejected (`MaxFeeExceeded`); the fill must be a positive
/// integer (`InvalidInput`) no greater than the remaining quantity
/// (`InsufficientSellOrderQuantity` — an oversized request is rejected, not
/// clamped).  The fill is subtracted; a depleted order is deleted, never
/// stored at zero.  The batch is all-or-nothing: on the first failing item
/// nothing is changed and its error is returned.  Settlement is delegated
/// to the host's ledger after success.
#[verifier::loop_isolation(false)]
pub fn buy_direct(state: &mut Marketplace, orders: Vec<BuyOrderMsg>) -> (r: Result<
    (),
    ContractError,
>)
    requires
        old(state)@.wf(),
    ensures
        final(state)@.wf(),
        final(state)@.seq == old(state)@.seq,
        final(state)@.denoms == old(state)@.denoms,
        final(state)@.fee_params == old(state)@.fee_params,
        match apply_buy(old(state)@.orders, old(state)@.fee_params, buy_msgs_view(orders@)) {
            Ok(os) => r is Ok && final(state)@.orders == os,
            Err(e) => r == Err::<(), ContractError>(e) && final(state)@ == old(state)@,
        },
{
    let ghost orders0 = state@.orders;
    let ghost fees = state@.fee_params;
    let ghost items = buy_msgs_view(orders@);
    let mut work = copy_orders(&state.orders);
    proof {
        assert(items.skip(0) =~= items);
    }
    let mut k: usize = 0;
    while k < orders.len()
        invariant
            k <= orders.len(),
            book_wf(orders_view(work@), state.seq),
            state@.fee_params == fees,
            apply_buy(orders0, fees, items) == apply_buy(
                orders_view(work@),
                fees,
                items.skip(k as int),
            ),
        decreases orders.len() - k,
    {
        let order = &orders[k];
        proof {
            assert(items.skip(k as int)[0] == items[k as int]);
            assert(items.skip(k as int).drop_first() =~= items.skip(k as int + 1));
        }
        let idx = match find_order_idx(&work, order.sell_order_id) {
            Some(i) => i,
            None => {
                return Err(ContractError::NotFound);
            },
        };
        let ask_v = match parse_dec_u128(work[idx].ask_amount.as_str()) {
            Some(v) => v,
            None => {
                proof {
                    assert(false);
                }
                return Err(ContractError::NotFound);
            },
        };
        if order.bid_price.amount < ask_v {
            return Err(ContractError::InsufficientBidPrice);
        }
        let buyer_fee = match calculate_fee(
            &order.bid_price,
            state.fee_params.buyer_percentage_fee.as_str(),
        ) {
            Ok(c) => c,
            Err(e) => {
                return Err(e);
            },
        };
        match calculate_fee(&order.bid_price, state.fee_params.seller_percentage_fee.as_str()) {
            Ok(_) => {},
            Err(e) => {
                return Err(e);
            },
        };
        if buyer_fee.amount > order.max_fee_amount.amount {
            return Err(ContractError::MaxFeeExceeded);
        }
        let fill = match parse_dec_u128(order.quantity.as_str()) {
            Some(v) => v,
            None => {
                return Err(ContractError::InvalidInput);
            },
        };
        if fill == 0 {
            return Err(ContractError::InvalidInput);
        }
        let remaining = match parse_dec_u128(work[idx].quantity.as_str()) {
            Some(v) => v,
            None => {
                proof {
                    assert(false);
                }
                return Err(ContractError::InvalidInput);
            },
        };
        if fill > remaining {
            return Err(ContractError::InsufficientSellOrderQuantity);
        }
        let rem = remaining - fill;
        let ghost wk = orders_view(work@);
        if rem == 0 {
            work.remove(idx);
            proof {
                assert(orders_view(work@) =~= wk.remove(idx as int));
                lemma_book_wf_remove(wk, state.seq, idx as int);
            }
        } else {
            proof {
                lemma_dec_str_of_value(rem as nat);
            }
            let cur = &work[idx];
            let new_order = SellOrder {
                id: cur.id,
                seller: cur.seller.clone(),
                batch_key: cur.batch_key,
                quantity: format_u128(rem),
                market_id: cur.market_id,
                ask_amount: cur.ask_amount.clone(),
                disable_auto_retire: cur.disable_auto_retire,
                expiration: cur.expiration,
                maker: cur.maker,
            };
            proof {
                assert(new_order@.wf());
            }
            work.remove(idx);
            work.insert(idx, new_order);
            proof {
                assert(orders_view(work@) =~= wk.update(idx as int, new_order@));
                lemma_book_wf_update(wk, state.seq, idx as int, new_order@);
            }
        }
        k = k + 1;
    }
    proof {
        assert(items.skip(k as int) =~= Seq::<BuyOrderMsgV>::empty());
    }
    state.orders = work;
    proof {
        lemma_denoms_wf_transfer(old(state)@, state@);
    }
    Ok(())
}

/// Cancels the order: only its recorded seller may do so; the record is
/// deleted regardless of fill state or expiration.
pub fn cancel_sell_order(state: &mut Marketplace, caller: String, sell_order_id: u64) -> (r:
    Result<u64, ContractError>)
    requires
        old(state)@.wf(),
    ensures
        final(state)@.wf(),
        final(state)@.seq == old(state)@.seq,
        final(state)@.denoms == old(state)@.denoms,
        final(state)@.fee_params == old(state)@.fee_params,
        match apply_cancel(old(state)@.orders, caller@, sell_order_id) {
            Ok(os) => r == Ok::<u64, ContractError>(sell_order_id) && final(state)@.orders == os,
            Err(e) => r == Err::<u64, ContractError>(e) && final(state)@ == old(state)@,
        },
{
    let idx = match find_order_idx(&state.orders, sell_order_id) {
        Some(i) => i,
        None => {
            return Err(ContractError::NotFound);
        },
    };
    if !(state.orders[idx].seller == caller) {
        return Err(ContractError::Unauthorized);
    }
    let ghost pre = state@.orders;
    state.orders.remove(idx);
    proof {
        assert(orders_view(state.orders@) =~= pre.remove(idx as int));
        lemma_book_wf_remove(pre, state.seq, idx as int);
        lemma_denoms_wf_transfer(old(state)@, state@);
    }
    Ok(sell_order_id)
}

/// The book invariant only depends on the book and the counter, so it
/// carries over to any state that keeps both.
pub proof fn lemma_orders_wf_transfer(a: MarketplaceV, b: MarketplaceV)
    requires
        a.orders_wf(),
        a.orders == b.orders,
        a.seq == b.seq,
    ensures
        b.orders_wf(),
{
    assert forall|i: int| 0 <= i < b.orders.len() implies (#[trigger] b.orders[i]).wf() && 1
        <= b.orders[i].id <= b.seq by {
        assert(b.orders[i] == a.orders[i]);
    }
    assert forall|i: int, j: int|
        0 <= i < j < b.orders.len() implies (#[trigger] b.orders[i]).id < (
    #[trigger] b.orders[j]).id by {
        assert(b.orders[i] == a.orders[i]);
        assert(b.orders[j] == a.orders[j]);
    }
}

/// Placing an entry at the first position whose key is not below it keeps
/// the registry sorted, whether the entry there is replaced (`q == p + 1`)
/// or pushed right (`q == p`).
pub proof fn lemma_denoms_sorted_upsert(s: Seq<DenomV>, d: DenomV, p: int, q: int)
    requires
        denoms_sorted(s),
        0 <= p <= s.len(),
        p <= q <= p + 1,
        q <= s.len(),
        forall|j: int| 0 <= j < p ==> lex_lt((#[trigger] s[j]).bank_denom, d.bank_denom),
        q == p + 1 ==> s[p].bank_denom == d.bank_denom,
        q == p && p < s.len() ==> lex_lt(d.bank_denom, s[p].bank_denom),
    ensures
        denoms_sorted(s.take(p) + seq![d] + s.skip(q)),
{
    let s2 = s.take(p) + seq![d] + s.skip(q);
    assert forall|a: int, b: int|
        0 <= a < b < s2.len() implies lex_lt(
        (#[trigger] s2[a]).bank_denom,
        (#[trigger] s2[b]).bank_denom,
    ) by {
        if a < p {
            assert(s2[a] == s[a]);
        } else if a == p {
            assert(s2[a] == d);
        } else {
            assert(s2[a] == s[a - p - 1 + q]);
        }
        if b < p {
            assert(s2[b] == s[b]);
        } else if b == p {
            assert(s2[b] == d);
        } else {
            assert(s2[b] == s[b - p - 1 + q]);
        }
        if a == p && b > p {
            let b0 = b - p - 1 + q;
            if q == p + 1 {
                assert(lex_lt(s[p].bank_denom, s[b0].bank_denom));
            } else {
                if b0 > p {
                    lemma_lex_lt_trans(d.bank_denom, s[p].bank_denom, s[b0].bank_denom);
                }
            }
        }
    }
}

/// Deleting an entry keeps the registry sorted.
pub proof fn lemma_denoms_sorted_remove(s: Seq<DenomV>, i: int)
    requires
        denoms_sorted(s),
        0 <= i < s.len(),
    ensures
        denoms_sorted(s.remove(i)),
{
    let s2 = s.remove(i);
    assert forall|a: int, b: int|
        0 <= a < b < s2.len() implies lex_lt(
        (#[trigger] s2[a]).bank_denom,
        (#[trigger] s2[b]).bank_denom,
    ) by {
        let a0: int = if a < i {
            a
        } else {
            a + 1
        };
        let b0: int = if b < i {
            b
        } else {
            b + 1
        };
        assert(s2[a] == s[a0]);
        assert(s2[b] == s[b0]);
    }
}

/// First registry position whose key is not below `key`, and whether that
/// position holds exactly `key`.
#[verifier::loop_isolation(false)]
fn find_denom_pos(v: &Vec<AllowedDenom>, key: &str) -> (r: (usize, bool))
    ensures
        r.0 <= v@.len(),
        forall|j: int|
            0 <= j < r.0 ==> lex_lt((#[trigger] denoms_view(v@)[j]).bank_denom, key@),
        r.1 ==> r.0 < v@.len() && denoms_view(v@)[r.0 as int].bank_denom == key@,
        !r.1 && r.0 < v@.len() ==> lex_lt(key@, denoms_view(v@)[r.0 as int].bank_denom),
{
    let mut i: usize = 0;
    while i < v.len()
        invariant
            i <= v@.len(),
            forall|j: int|
                0 <= j < i ==> lex_lt((#[trigger] denoms_view(v@)[j]).bank_denom, key@),
        decreases v@.len() - i,
    {
        match str_compare(v[i].bank_denom.as_str(), key) {
            KeyOrder::Less => {
                i = i + 1;
            },
            KeyOrder::Equal => {
                return (i, true);
            },
            KeyOrder::Greater => {
                return (i, false);
            },
        }
    }
    (i, false)
}

/// Registers (or re-registers) a payment denom under an authorization-gate
/// verdict supplied by the host's policy collaborator.
///
/// The upsert silently overwrites an existing entry for the same key; the
/// registry stays sorted by key.
pub fn add_allowed_denom(
    state: &mut Marketplace,
    authorized: bool,
    bank_denom: String,
    display_denom: String,
    exponent: u32,
) -> (r: Result<(), ContractError>)
    requires
        old(state)@.wf(),
    ensures
        final(state)@.wf(),
        final(state)@.seq == old(state)@.seq,
        final(state)@.orders == old(state)@.orders,
        final(state)@.fee_params == old(state)@.fee_params,
        !authorized ==> r == Err::<(), ContractError>(ContractError::Unauthorized) && final(state)@ == old(state)@,
        authorized ==> r is Ok && final(state)@.denoms == insert_denom(
            old(state)@.denoms,
            (DenomV { bank_denom: bank_denom@, display_denom: display_denom@, exponent }),
        ),
{
    if !authorized {
        return Err(ContractError::Unauthorized);
    }
    let ghost s = state@.denoms;
    let ghost dv = DenomV { bank_denom: bank_denom@, display_denom: display_denom@, exponent };
    let (pos, key_present) = find_denom_pos(&state.denoms, bank_denom.as_str());
    let entry = AllowedDenom { bank_denom, display_denom, exponent };
    proof {
        lemma_insert_denom_at(s, dv, pos as int);
    }
    if key_present {
        state.denoms.remove(pos);
        state.denoms.insert(pos, entry);
        proof {
            assert(denoms_view(state.denoms@) =~= s.take(pos as int) + seq![dv] + s.skip(
                pos as int + 1,
            ));
            lemma_denoms_sorted_upsert(s, dv, pos as int, pos as int + 1);
        }
    } else {
        state.denoms.insert(pos, entry);
        proof {
            assert(denoms_view(state.denoms@) =~= s.take(pos as int) + seq![dv] + s.skip(
                pos as int,
            ));
            lemma_denoms_sorted_upsert(s, dv, pos as int, pos as int);
        }
    }
    proof {
        lemma_orders_wf_transfer(old(state)@, state@);
    }
    Ok(())
}

/// Deregisters a payment denom under an authorization-gate verdict supplied
/// by the host's policy collaborator.  Removing an absent key is a no-op,
/// not an error.
pub fn remove_allowed_denom(state: &mut Marketplace, authorized: bool, denom: String) -> (r:
    Result<(), ContractError>)
    requires
        old(state)@.wf(),
    ensures
        final(state)@.wf(),
        final(state)@.seq == old(state)@.seq,
        final(state)@.orders == old(state)@.orders,
        final(state)@.fee_params == old(state)@.fee_params,
        !authorized ==> r == Err::<(), ContractError>(ContractError::Unauthorized) && final(state)@ == old(state)@,
        authorized ==> r is Ok && final(state)@.denoms == remove_denom_key(
            old(state)@.denoms,
            denom@,
        ),
{
    if !authorized {
        return Err(ContractError::Unauthorized);
    }
    let ghost s = state@.denoms;
    let (pos, key_present) = find_denom_pos(&state.denoms, denom.as_str());
    if key_present {
        proof {
            assert forall|j: int| 0 <= j < pos implies (#[trigger] s[j]).bank_denom != denom@ by {
                lemma_lex_lt_neq(s[j].bank_denom, denom@);
            }
            lemma_remove_denom_at(s, denom@, pos as int);
        }
        state.denoms.remove(pos);
        proof {
            assert(denoms_view(state.denoms@) =~= s.remove(pos as int));
            lemma_denoms_sorted_remove(s, pos as int);
            lemma_orders_wf_transfer(old(state)@, state@);
        }
    } else {
        proof {
            assert forall|j: int| 0 <= j < s.len() implies (#[trigger] s[j]).bank_denom
                != denom@ by {
                if j < pos {
                    lemma_lex_lt_neq(s[j].bank_denom, denom@);
                } else if j == pos {
                    lemma_lex_lt_neq(denom@, s[j].bank_denom);
                } else {
                    lemma_lex_lt_trans(denom@, s[pos as int].bank_denom, s[j].bank_denom);
                    lemma_lex_lt_neq(denom@, s[j].bank_denom);
                }
            }
            lemma_remove_denom_absent(s, denom@);
        }
    }
    Ok(())
}

/// Replaces the fee schedule under an authorization-gate verdict supplied
/// by the host's policy collaborator.  The rates are stored as given and
/// validated when a fee is computed.
pub fn gov_set_fee_params(state: &mut Marketplace, authorized: bool, fees: FeeParams) -> (r:
    Result<(), ContractError>)
    requires
        old(state)@.wf(),
    ensures
        final(state)@.wf(),
        final(state)@.seq == old(state)@.seq,
        final(state)@.orders == old(state)@.orders,
        final(state)@.denoms == old(state)@.denoms,
        !authorized ==> r == Err::<(), ContractError>(ContractError::Unauthorized) && final(state)@ == old(state)@,
        authorized ==> r is Ok && final(state)@.fee_params == fees@,
{
    if !authorized {
        return Err(ContractError::Unauthorized);
    }
    state.fee_params = fees;
    proof {
        lemma_orders_wf_transfer(old(state)@, state@);
        lemma_denoms_wf_transfer(old(state)@, state@);
    }
    Ok(())
}

/// Authorizes a fee-pool payout and hands back the transfer to make; the
/// actual movement of funds is the host ledger's task, performed after this
/// succeeds.  The marketplace state itself is not touched.
pub fn gov_send_from_fee_pool(authorized: bool, recipient: String, coins: Vec<Coin>) -> (r: Result<
    (String, Vec<Coin>),
    ContractError,
>)
    ensures
        !authorized ==> r == Err::<(String, Vec<Coin>), ContractError>(
            ContractError::Unauthorized,
        ),
        authorized ==> (r matches Ok(t) && t.0@ == recipient@ && coins_view(t.1@) == coins_view(
            coins@,
        )),
{
    if !authorized {
        return Err(ContractError::Unauthorized);
    }
    Ok((recipient, coins))
}

} // verus!
