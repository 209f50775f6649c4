//! Global laws of the marketplace, proved from the transition and query
//! specifications: freshness of issued ids, coherence of consecutive pages,
//! and the shape of the fee rule.

use vstd::prelude::*;
use vstd::arithmetic::div_mod::lemma_div_is_ordered;
use vstd::arithmetic::mul::lemma_mul_inequality;
use crate::error::ContractError;
use crate::execute::{apply_sell, valid_quantity};
use crate::fees::{fee_value, spec_calculate_fee, valid_rate, FEE_SCALE};
use crate::msg::SellOrderMsgV;
use crate::numeric::{dec_value, is_dec_string};
use crate::query::{
    cursor_ok, eff_limit, filtered, lemma_filtered_push, order_page, orders_after, take_at_most,
};
use crate::state::{book_wf, CoinV, OrderV};

verus! {

/// A successful sell issues exactly one id per item, consecutively from the
/// counter: the `k`-th issued id is `seq0 + k + 1`.  Every issued id is
/// strictly greater than the counter, hence than every id ever issued
/// before — ids start at 1 on a fresh store, increase strictly, and are
/// never reused, across the lifetime of one store.
pub proof fn lemma_sell_ids_fresh(
    orders: Seq<OrderV>,
    seq0: u64,
    seller: Seq<char>,
    items: Seq<SellOrderMsgV>,
    out: (Seq<OrderV>, Seq<u64>, u64),
)
    requires
        forall|j: int| 0 <= j < orders.len() ==> (#[trigger] orders[j]).id <= seq0,
        apply_sell(orders, seq0, seller, items) == Ok::<(Seq<OrderV>, Seq<u64>, u64), ContractError>(out),
    ensures
        out.1.len() == items.len(),
        forall|k: int| 0 <= k < out.1.len() ==> #[trigger] out.1[k] == seq0 + k + 1,
        out.2 == seq0 + items.len(),
        forall|k: int, j: int|
            0 <= k < out.1.len() && 0 <= j < orders.len() ==> #[trigger] out.1[k] > (
            #[trigger] orders[j]).id,
    decreases items.len(),
{
    if items.len() == 0 {
    } else {
        let id = (seq0 + 1) as u64;
        let o = crate::execute::order_of_sell_msg(id, seller, items[0]);
        let pushed = orders.push(o);
        assert(forall|j: int| 0 <= j < pushed.len() ==> (#[trigger] pushed[j]).id <= id);
        match apply_sell(pushed, id, seller, items.drop_first()) {
            Ok(inner) => {
                lemma_sell_ids_fresh(pushed, id, seller, items.drop_first(), inner);
                assert(out.1 == seq![id] + inner.1);
                assert forall|k: int| 0 <= k < out.1.len() implies out.1[k] == seq0 + k + 1 by {
                    if k > 0 {
                        assert(out.1[k] == inner.1[k - 1]);
                    }
                }
            },
            Err(_) => {
                assert(false);
            },
        }
    }
}

/// Filtering keeps the strictly ascending id order, and no filtered element
/// precedes the head of the scanned sequence.
pub proof fn lemma_filtered_orders_sorted(s: Seq<OrderV>, p: spec_fn(OrderV) -> bool)
    requires
        forall|i: int, j: int|
            0 <= i < j < s.len() ==> (#[trigger] s[i]).id < (#[trigger] s[j]).id,
    ensures
        forall|k1: int, k2: int|
            0 <= k1 < k2 < filtered(s, p).len() ==> (#[trigger] filtered(s, p)[k1]).id < (
            #[trigger] filtered(s, p)[k2]).id,
        forall|k: int|
            0 <= k < filtered(s, p).len() ==> s.len() > 0 && (#[trigger] filtered(s, p)[k]).id
                >= s[0].id,
    decreases s.len(),
{
    if s.len() > 0 {
        let t = s.drop_first();
        assert(forall|i: int, j: int|
            0 <= i < j < t.len() ==> (#[trigger] t[i]).id < (#[trigger] t[j]).id);
        lemma_filtered_orders_sorted(t, p);
        if p(s[0]) {
            assert(filtered(s, p) == seq![s[0]] + filtered(t, p));
            assert forall|k: int| 0 <= k < filtered(s, p).len() implies s.len() > 0 && (
            #[trigger] filtered(s, p)[k]).id >= s[0].id by {
                if k > 0 {
                    assert(filtered(s, p)[k] == filtered(t, p)[k - 1]);
                    if t.len() > 0 {
                        assert(t[0] == s[1]);
                    }
                }
            }
            assert forall|k1: int, k2: int|
                0 <= k1 < k2 < filtered(s, p).len() implies (#[trigger] filtered(s, p)[k1]).id < (
            #[trigger] filtered(s, p)[k2]).id by {
                if k1 > 0 {
                    assert(filtered(s, p)[k1] == filtered(t, p)[k1 - 1]);
                    assert(filtered(s, p)[k2] == filtered(t, p)[k2 - 1]);
                } else {
                    assert(filtered(s, p)[k2] == filtered(t, p)[k2 - 1]);
                }
            }
        } else {
            assert(filtered(s, p) == filtered(t, p));
            assert forall|k: int| 0 <= k < filtered(s, p).len() implies s.len() > 0 && (
            #[trigger] filtered(s, p)[k]).id >= s[0].id by {
                if t.len() > 0 {
                    assert(t[0] == s[1]);
                }
            }
        }
    }
}

/// A predicate that is the conjunction of two filters selects the same
/// records as filtering twice.
pub proof fn lemma_filtered_compose<A>(
    s: Seq<A>,
    p: spec_fn(A) -> bool,
    q: spec_fn(A) -> bool,
    r: spec_fn(A) -> bool,
)
    requires
        forall|x: A| #[trigger] r(x) == (p(x) && q(x)),
    ensures
        filtered(s, r) == filtered(filtered(s, p), q),
    decreases s.len(),
{
    if s.len() == 0 {
        assert(filtered(s, r) =~= filtered(filtered(s, p), q));
    } else {
        let t = s.drop_first();
        lemma_filtered_compose(t, p, q, r);
        if p(s[0]) {
            let x = seq![s[0]] + filtered(t, p);
            assert(x[0] == s[0]);
            assert(x.drop_first() =~= filtered(t, p));
            if q(s[0]) {
                assert(filtered(x, q) == seq![s[0]] + filtered(filtered(t, p), q));
                assert(filtered(s, r) == seq![s[0]] + filtered(t, r));
            } else {
                assert(filtered(x, q) == filtered(filtered(t, p), q));
                assert(filtered(s, r) == filtered(t, r));
            }
        } else {
            assert(filtered(s, r) == filtered(t, r));
            assert(filtered(filtered(s, p), q) == filtered(filtered(t, p), q));
        }
    }
}

/// Filtering by a predicate that is false up to a threshold index and true
/// from it on drops exactly the prefix.
pub proof fn lemma_filtered_threshold<A>(s: Seq<A>, q: spec_fn(A) -> bool, m: int)
    requires
        0 <= m <= s.len(),
        forall|j: int| 0 <= j < m ==> !q(s[j]),
        forall|j: int| m <= j < s.len() ==> q(s[j]),
    ensures
        filtered(s, q) == s.skip(m),
    decreases s.len(),
{
    if s.len() == 0 {
        assert(filtered(s, q) =~= s.skip(m));
    } else {
        let t = s.drop_first();
        if m == 0 {
            lemma_filtered_threshold(t, q, 0);
            assert(t.skip(0) =~= t);
            assert(q(s[0]));
            assert(filtered(s, q) == seq![s[0]] + t);
            assert(seq![s[0]] + t =~= s.skip(0));
        } else {
            assert(forall|j: int| 0 <= j < m - 1 ==> !q(#[trigger] t[j]));
            assert(forall|j: int| m - 1 <= j < t.len() ==> q(#[trigger] t[j]));
            lemma_filtered_threshold(t, q, m - 1);
            assert(!q(s[0]));
            assert(filtered(s, q) == t.skip(m - 1));
            assert(t.skip(m - 1) =~= s.skip(m));
        }
    }
}

/// Two consecutive pages — the second one starting after the first page's
/// last id — never overlap, and together they are gap-free in ascending
/// order: their concatenation is exactly the first records past the
/// original cursor.
pub proof fn lemma_consecutive_pages(
    s: Seq<OrderV>,
    seqno: u64,
    start_after: Option<u64>,
    l1: Option<u32>,
    l2: Option<u32>,
)
    requires
        book_wf(s, seqno),
        order_page(s, start_after, l1).len() > 0,
    ensures
        ({
            let p1 = order_page(s, start_after, l1);
            let p2 = order_page(s, Some(p1.last().id), l2);
            &&& p1 + p2 == take_at_most(orders_after(s, start_after), p1.len() + p2.len())
            &&& forall|a: int, b: int|
                0 <= a < p1.len() && 0 <= b < p2.len() ==> (#[trigger] p1[a]).id < (
                #[trigger] p2[b]).id
        }),
{
    let cp = |o: OrderV| cursor_ok(o, start_after);
    let f = orders_after(s, start_after);
    let p1 = order_page(s, start_after, l1);
    let m1 = p1.len() as int;
    lemma_filtered_orders_sorted(s, cp);
    assert(p1 =~= f.take(m1));
    let last = p1.last();
    assert(last == f[m1 - 1]);
    assert(cp(last)) by {
        lemma_filtered_mem_pred(s, cp, m1 - 1);
    }
    let cp2 = |o: OrderV| cursor_ok(o, Some(last.id));
    let q = |o: OrderV| o.id > last.id;
    assert(forall|x: OrderV| #[trigger] cp2(x) == (cp(x) && q(x)));
    lemma_filtered_compose(s, cp, q, cp2);
    assert(forall|j: int| 0 <= j < m1 ==> !q(#[trigger] f[j]));
    assert(forall|j: int| m1 <= j < f.len() ==> q(#[trigger] f[j]));
    lemma_filtered_threshold(f, q, m1);
    let f2 = f.skip(m1);
    let p2 = order_page(s, Some(last.id), l2);
    assert(orders_after(s, Some(last.id)) == f2);
    let m2 = p2.len() as int;
    assert(p2 =~= f2.take(m2));
    assert(p1 + p2 =~= take_at_most(f, (m1 + m2) as nat));
    assert forall|a: int, b: int|
        0 <= a < p1.len() && 0 <= b < p2.len() implies (#[trigger] p1[a]).id < (
    #[trigger] p2[b]).id by {
        assert(p1[a] == f[a]);
        assert(p2[b] == f[m1 + b]);
    }
}

/// Every filtered element satisfies the filter.
pub proof fn lemma_filtered_mem_pred<A>(s: Seq<A>, p: spec_fn(A) -> bool, k: int)
    requires
        0 <= k < filtered(s, p).len(),
    ensures
        p(filtered(s, p)[k]),
    decreases s.len(),
{
    if s.len() > 0 {
        let t = s.drop_first();
        if p(s[0]) {
            if k > 0 {
                lemma_filtered_mem_pred(t, p, k - 1);
                assert(filtered(s, p)[k] == filtered(t, p)[k - 1]);
            }
        } else {
            lemma_filtered_mem_pred(t, p, k);
        }
    }
}

/// The rate string `"0"` is valid and yields a zero fee in the price's
/// denom.
pub proof fn lemma_fee_zero_rate_string(price: CoinV)
    ensures
        spec_calculate_fee(price, seq!['0']) == Ok::<CoinV, ContractError>(
            (CoinV { denom: price.denom, amount: 0 }),
        ),
{
    let z = seq!['0'];
    assert(is_dec_string(z));
    assert(z.drop_last() =~= Seq::<char>::empty());
    assert(dec_value(Seq::<char>::empty()) == 0);
    assert(dec_value(z) == 0);
    assert(valid_rate(z));
}

/// The fee never decreases as the amount grows.
pub proof fn lemma_fee_monotone_amount(a1: u128, a2: u128, rate: nat)
    requires
        a1 <= a2,
    ensures
        fee_value(a1, rate) <= fee_value(a2, rate),
{
    lemma_mul_inequality(a1 as int, a2 as int, rate as int);
    lemma_div_is_ordered((a1 as nat * rate) as int, (a2 as nat * rate) as int, FEE_SCALE as int);
}

/// The fee never decreases as the rate grows.
pub proof fn lemma_fee_monotone_rate(amount: u128, r1: nat, r2: nat)
    requires
        r1 <= r2,
    ensures
        fee_value(amount, r1) <= fee_value(amount, r2),
{
    lemma_mul_inequality(r1 as int, r2 as int, amount as int);
    lemma_div_is_ordered(
        (amount as nat * r1) as int,
        (amount as nat * r2) as int,
        FEE_SCALE as int,
    );
}

/// The fee rule is a function of the price and the rate alone: identical
/// inputs always produce identical output.
pub proof fn lemma_fee_deterministic(
    price: CoinV,
    rate: Seq<char>,
    r1: Result<CoinV, ContractError>,
    r2: Result<CoinV, ContractError>,
)
    requires
        r1 == spec_calculate_fee(price, rate),
        r2 == spec_calculate_fee(price, rate),
    ensures
        r1 == r2,
{
}

} // verus!
