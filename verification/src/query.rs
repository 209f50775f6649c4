//! The read layer: single-record lookup and paginated, filterable listing
//! over the order book and the denom registry.
//!
//! Listing is cursor-based: the cursor is the last-seen key, exclusive.  A
//! missing `limit` means [`DEFAULT_LIMIT`] records; a larger one is clamped
//! to [`MAX_LIMIT`], never rejected.  Filtered listings apply their filter
//! before truncating to the limit, scanning forward from the cursor, and
//! examine at most [`MAX_FILTER_SCAN`] records per call so a sparse filter
//! cannot make one query do unbounded work.

use vstd::prelude::*;
use crate::error::ContractError;
use crate::execute::{find_order_idx, first_idx};
use crate::msg::{AllowedDenomsResponse, SellOrderResponse, SellOrdersResponse};
use crate::numeric::dec_str_of;
use crate::state::{
    clone_denom, clone_order, denoms_view, lemma_lex_lt_asym, lemma_lex_lt_irrefl, lex_lt,
    orders_view, AllowedDenom, DenomV, KeyOrder, Marketplace, OrderV, SellOrder, str_compare,
};

verus! {

/// Page size when the request names none.
pub const DEFAULT_LIMIT: u32 = 10;

/// Hard cap on a page: an over-large request is clamped, never rejected.
pub const MAX_LIMIT: u32 = 30;

/// Hard cap on the records one filtered scan examines past the cursor.
pub const MAX_FILTER_SCAN: u32 = 4096;

/// The page size actually used: the requested one, defaulted and clamped.
pub open spec fn eff_limit(limit: Option<u32>) -> nat {
    let l: nat = match limit {
        Some(v) => v as nat,
        None => DEFAULT_LIMIT as nat,
    };
    if l > MAX_LIMIT as nat {
        MAX_LIMIT as nat
    } else {
        l
    }
}

/// The whole sequence if short enough, else its first `n` elements.
pub open spec fn take_at_most<A>(s: Seq<A>, n: nat) -> Seq<A> {
    if s.len() <= n {
        s
    } else {
        s.take(n as int)
    }
}

/// The elements satisfying `p`, in order.
pub open spec fn filtered<A>(s: Seq<A>, p: spec_fn(A) -> bool) -> Seq<A>
    decreases s.len(),
{
    if s.len() == 0 {
        Seq::<A>::empty()
    } else if p(s[0]) {
        seq![s[0]] + filtered(s.drop_first(), p)
    } else {
        filtered(s.drop_first(), p)
    }
}

pub proof fn lemma_filtered_push<A>(s: Seq<A>, p: spec_fn(A) -> bool, x: A)
    ensures
        filtered(s.push(x), p) == filtered(s, p) + (if p(x) {
            seq![x]
        } else {
            Seq::<A>::empty()
        }),
    decreases s.len(),
{
    if s.len() == 0 {
        assert(s.push(x)[0] == x);
        assert(s.push(x).drop_first() =~= Seq::<A>::empty());
        assert(filtered(Seq::<A>::empty(), p) == Seq::<A>::empty());
        assert(filtered(s, p) == Seq::<A>::empty());
        assert(filtered(s.push(x).drop_first(), p) == Seq::<A>::empty());
        if p(x) {
            assert(filtered(s.push(x), p) == seq![x] + Seq::<A>::empty());
            assert(seq![x] + Seq::<A>::empty() =~= Seq::<A>::empty() + seq![x]);
        } else {
            assert(filtered(s.push(x), p) =~= filtered(s, p));
        }
    } else {
        assert(s.push(x)[0] == s[0]);
        assert(s.push(x).drop_first() =~= s.drop_first().push(x));
        lemma_filtered_push(s.drop_first(), p, x);
        let tail = if p(x) {
            seq![x]
        } else {
            Seq::<A>::empty()
        };
        if p(s[0]) {
            assert(seq![s[0]] + (filtered(s.drop_first(), p) + tail) =~= (seq![s[0]] + filtered(
                s.drop_first(),
                p,
            )) + tail);
        }
    }
}

/// Filtering a prefix yields a prefix of the full filtering.
pub proof fn lemma_filtered_take_prefix<A>(s: Seq<A>, p: spec_fn(A) -> bool, i: int)
    requires
        0 <= i <= s.len(),
    ensures
        filtered(s.take(i), p).len() <= filtered(s, p).len(),
        filtered(s.take(i), p) == filtered(s, p).take(filtered(s.take(i), p).len() as int),
    decreases s.len() - i,
{
    if i == s.len() {
        assert(s.take(i) =~= s);
        assert(filtered(s, p).take(filtered(s, p).len() as int) =~= filtered(s, p));
    } else {
        assert(s.take(i + 1) =~= s.take(i).push(s[i]));
        lemma_filtered_push(s.take(i), p, s[i]);
        lemma_filtered_take_prefix(s, p, i + 1);
        let a = filtered(s.take(i), p);
        let b = filtered(s.take(i + 1), p);
        let f = filtered(s, p);
        assert(b.take(a.len() as int) =~= a);
        assert(f.take(b.len() as int).take(a.len() as int) =~= f.take(a.len() as int));
    }
}

/// When the scan stopped — at the end, or with a full page — the collected
/// prefix is exactly the page of the whole sequence.
pub proof fn lemma_page_complete<A>(s: Seq<A>, p: spec_fn(A) -> bool, i: int, lim: nat)
    requires
        0 <= i <= s.len(),
        filtered(s.take(i), p).len() <= lim,
        i == s.len() || filtered(s.take(i), p).len() == lim,
    ensures
        filtered(s.take(i), p) == take_at_most(filtered(s, p), lim),
{
    lemma_filtered_take_prefix(s, p, i);
    if i == s.len() {
        assert(s.take(i) =~= s);
    }
}

/// When a bounded filtered scan stopped — at the end, with the scan budget
/// spent, or with a full page — the collected records are exactly the page
/// of the bounded window.
pub proof fn lemma_filtered_page_complete<A>(
    s: Seq<A>,
    cp: spec_fn(A) -> bool,
    mp: spec_fn(A) -> bool,
    i: int,
    lim: nat,
    scan_cap: nat,
)
    requires
        0 <= i <= s.len(),
        filtered(s.take(i), cp).len() <= scan_cap,
        filtered(filtered(s.take(i), cp), mp).len() <= lim,
        i == s.len() || filtered(s.take(i), cp).len() == scan_cap || filtered(
            filtered(s.take(i), cp),
            mp,
        ).len() == lim,
    ensures
        filtered(filtered(s.take(i), cp), mp) == take_at_most(
            filtered(take_at_most(filtered(s, cp), scan_cap), mp),
            lim,
        ),
{
    let wi = filtered(s.take(i), cp);
    let f = filtered(s, cp);
    let w = take_at_most(f, scan_cap);
    lemma_filtered_take_prefix(s, cp, i);
    if i == s.len() {
        assert(s.take(i) =~= s);
        assert(wi == f);
        assert(w == f);
        assert(take_at_most(filtered(w, mp), lim) == filtered(wi, mp));
    } else if wi.len() == scan_cap {
        assert(w =~= wi);
        assert(take_at_most(filtered(w, mp), lim) == filtered(wi, mp));
    } else {
        // the page filled before the scan budget or the book ran out
        assert(wi.len() < scan_cap);
        assert(wi == f.take(wi.len() as int));
        assert(w.take(wi.len() as int) =~= wi);
        lemma_filtered_take_prefix(w, mp, wi.len() as int);
        assert(filtered(wi, mp) == filtered(w, mp).take(filtered(wi, mp).len() as int));
        assert(filtered(wi, mp).len() == lim);
        assert(take_at_most(filtered(w, mp), lim) == filtered(w, mp).take(lim as int));
    }
}

/// Whether a record lies past the (exclusive) id cursor.
pub open spec fn cursor_ok(o: OrderV, start_after: Option<u64>) -> bool {
    match start_after {
        Some(c) => o.id > c,
        None => true,
    }
}

pub open spec fn orders_after(s: Seq<OrderV>, start_after: Option<u64>) -> Seq<OrderV> {
    filtered(s, |o: OrderV| cursor_ok(o, start_after))
}

/// The page an unfiltered listing returns.
pub open spec fn order_page(s: Seq<OrderV>, start_after: Option<u64>, limit: Option<u32>) -> Seq<
    OrderV,
> {
    take_at_most(orders_after(s, start_after), eff_limit(limit))
}

pub open spec fn seller_matches(o: OrderV, seller: Seq<char>) -> bool {
    o.seller == seller
}

/// The by-batch filter: the record's batch key, rendered in decimal,
/// equals the requested batch reference.
pub open spec fn batch_matches(o: OrderV, batch_denom: Seq<char>) -> bool {
    dec_str_of(o.batch_key as nat) == batch_denom
}

/// The window a bounded filtered scan examines: the records past the
/// cursor, capped at the scan budget.
pub open spec fn scan_window(s: Seq<OrderV>, start_after: Option<u64>) -> Seq<OrderV> {
    take_at_most(orders_after(s, start_after), MAX_FILTER_SCAN as nat)
}

/// The page a by-seller listing returns: the filter applies before the
/// limit, within the scan window.
pub open spec fn seller_page(
    s: Seq<OrderV>,
    seller: Seq<char>,
    start_after: Option<u64>,
    limit: Option<u32>,
) -> Seq<OrderV> {
    take_at_most(
        filtered(scan_window(s, start_after), |o: OrderV| seller_matches(o, seller)),
        eff_limit(limit),
    )
}

/// The page a by-batch listing returns: the filter applies before the
/// limit, within the scan window.
pub open spec fn batch_page(
    s: Seq<OrderV>,
    batch_denom: Seq<char>,
    start_after: Option<u64>,
    limit: Option<u32>,
) -> Seq<OrderV> {
    take_at_most(
        filtered(scan_window(s, start_after), |o: OrderV| batch_matches(o, batch_denom)),
        eff_limit(limit),
    )
}

/// Whether a registry entry lies past the (exclusive) key cursor.
pub open spec fn denom_cursor_ok(d: DenomV, start_after: Option<Seq<char>>) -> bool {
    match start_after {
        Some(k) => lex_lt(k, d.bank_denom),
        None => true,
    }
}

pub open spec fn denoms_after(s: Seq<DenomV>, start_after: Option<Seq<char>>) -> Seq<DenomV> {
    filtered(s, |d: DenomV| denom_cursor_ok(d, start_after))
}

/// The page a registry listing returns.
pub open spec fn denom_page(
    s: Seq<DenomV>,
    start_after: Option<Seq<char>>,
    limit: Option<u32>,
) -> Seq<DenomV> {
    take_at_most(denoms_after(s, start_after), eff_limit(limit))
}

pub open spec fn str_opt_view(o: Option<String>) -> Option<Seq<char>> {
    match o {
        Some(s) => Some(s@),
        None => None,
    }
}

/// The requested page size, defaulted and clamped.
fn effective_limit(limit: Option<u32>) -> (r: usize)
    ensures
        r as nat == eff_limit(limit),
{
    let l: u32 = match limit {
        Some(v) => v,
        None => DEFAULT_LIMIT,
    };
    if l > MAX_LIMIT {
        MAX_LIMIT as usize
    } else {
        l as usize
    }
}

/// Returns the sell order with the given id, or `NotFound`.
pub fn sell_order(state: &Marketplace, sell_order_id: u64) -> (r: Result<
    SellOrderResponse,
    ContractError,
>)
    ensures
        match r {
            Ok(resp) => first_idx(state@.orders, sell_order_id) >= 0 && resp.sell_order@
                == state@.orders[first_idx(state@.orders, sell_order_id)],
            Err(e) => e == ContractError::NotFound && first_idx(state@.orders, sell_order_id)
                == -1,
        },
{
    match find_order_idx(&state.orders, sell_order_id) {
        Some(i) => Ok(SellOrderResponse { sell_order: clone_order(&state.orders[i]) }),
        None => Err(ContractError::NotFound),
    }
}

/// Lists sell orders in ascending id order, past the cursor, up to the
/// effective limit.
#[verifier::loop_isolation(false)]
pub fn sell_orders(state: &Marketplace, start_after: Option<u64>, limit: Option<u32>) -> (r:
    SellOrdersResponse)
    ensures
        orders_view(r.sell_orders@) == order_page(state@.orders, start_after, limit),
{
    let lim = effective_limit(limit);
    let ghost s = state@.orders;
    let ghost cp = |o: OrderV| cursor_ok(o, start_after);
    let mut out: Vec<SellOrder> = Vec::new();
    proof {
        assert(s.take(0) =~= Seq::<OrderV>::empty());
        assert(orders_view(out@) =~= filtered(s.take(0), cp));
    }
    let mut i: usize = 0;
    while i < state.orders.len() && out.len() < lim
        invariant
            i <= s.len(),
            out@.len() <= lim,
            orders_view(out@) == filtered(s.take(i as int), cp),
        decreases s.len() - i,
    {
        let o = &state.orders[i];
        let passes = match start_after {
            Some(c) => o.id > c,
            None => true,
        };
        let ghost prev = orders_view(out@);
        proof {
            assert(s.take(i as int).push(s[i as int]) =~= s.take(i as int + 1));
            lemma_filtered_push(s.take(i as int), cp, s[i as int]);
        }
        if passes {
            out.push(clone_order(o));
            proof {
                assert(orders_view(out@) =~= prev + seq![s[i as int]]);
            }
        }
        i = i + 1;
    }
    proof {
        lemma_page_complete(s, cp, i as int, lim as nat);
    }
    SellOrdersResponse { sell_orders: out }
}

/// Lists the seller's sell orders in ascending id order, past the cursor:
/// the filter applies before the limit, and at most [`MAX_FILTER_SCAN`]
/// records past the cursor are examined.
#[verifier::loop_isolation(false)]
pub fn sell_orders_by_seller(
    state: &Marketplace,
    seller: String,
    start_after: Option<u64>,
    limit: Option<u32>,
) -> (r: SellOrdersResponse)
    ensures
        orders_view(r.sell_orders@) == seller_page(state@.orders, seller@, start_after, limit),
{
    let lim = effective_limit(limit);
    let ghost s = state@.orders;
    let ghost cp = |o: OrderV| cursor_ok(o, start_after);
    let ghost mp = |o: OrderV| seller_matches(o, seller@);
    let mut out: Vec<SellOrder> = Vec::new();
    let mut scanned: u32 = 0;
    proof {
        assert(s.take(0) =~= Seq::<OrderV>::empty());
        assert(orders_view(out@) =~= filtered(filtered(s.take(0), cp), mp));
    }
    let mut i: usize = 0;
    while i < state.orders.len() && scanned < MAX_FILTER_SCAN && out.len() < lim
        invariant
            i <= s.len(),
            scanned as nat == filtered(s.take(i as int), cp).len(),
            scanned <= MAX_FILTER_SCAN,
            out@.len() <= lim,
            orders_view(out@) == filtered(filtered(s.take(i as int), cp), mp),
        decreases s.len() - i,
    {
        let o = &state.orders[i];
        let passes = match start_after {
            Some(c) => o.id > c,
            None => true,
        };
        let ghost prev_w = filtered(s.take(i as int), cp);
        let ghost prev = orders_view(out@);
        proof {
            assert(s.take(i as int).push(s[i as int]) =~= s.take(i as int + 1));
            lemma_filtered_push(s.take(i as int), cp, s[i as int]);
        }
        if passes {
            proof {
                assert(prev_w + seq![s[i as int]] =~= prev_w.push(s[i as int]));
                lemma_filtered_push(prev_w, mp, s[i as int]);
            }
            if o.seller == seller {
                out.push(clone_order(o));
                proof {
                    assert(orders_view(out@) =~= prev + seq![s[i as int]]);
                }
            }
            scanned = scanned + 1;
        } else {
            proof {
                assert(prev_w + Seq::<OrderV>::empty() =~= prev_w);
            }
        }
        i = i + 1;
    }
    proof {
        lemma_filtered_page_complete(s, cp, mp, i as int, lim as nat, MAX_FILTER_SCAN as nat);
    }
    SellOrdersResponse { sell_orders: out }
}

/// Lists the batch's sell orders in ascending id order, past the cursor:
/// the record matches when its batch key, rendered in decimal, equals the
/// requested batch reference.  The filter applies before the limit, and at
/// most [`MAX_FILTER_SCAN`] records past the cursor are examined.
#[verifier::loop_isolation(false)]
pub fn sell_orders_by_batch(
    state: &Marketplace,
    batch_denom: String,
    start_after: Option<u64>,
    limit: Option<u32>,
) -> (r: SellOrdersResponse)
    ensures
        orders_view(r.sell_orders@) == batch_page(state@.orders, batch_denom@, start_after, limit),
{
    let lim = effective_limit(limit);
    let ghost s = state@.orders;
    let ghost cp = |o: OrderV| cursor_ok(o, start_after);
    let ghost mp = |o: OrderV| batch_matches(o, batch_denom@);
    let mut out: Vec<SellOrder> = Vec::new();
    let mut scanned: u32 = 0;
    proof {
        assert(s.take(0) =~= Seq::<OrderV>::empty());
        assert(orders_view(out@) =~= filtered(filtered(s.take(0), cp), mp));
    }
    let mut i: usize = 0;
    while i < state.orders.len() && scanned < MAX_FILTER_SCAN && out.len() < lim
        invariant
            i <= s.len(),
            scanned as nat == filtered(s.take(i as int), cp).len(),
            scanned <= MAX_FILTER_SCAN,
            out@.len() <= lim,
            orders_view(out@) == filtered(filtered(s.take(i as int), cp), mp),
        decreases s.len() - i,
    {
        let o = &state.orders[i];
        let passes = match start_after {
            Some(c) => o.id > c,
            None => true,
        };
        let ghost prev_w = filtered(s.take(i as int), cp);
        let ghost prev = orders_view(out@);
        proof {
            assert(s.take(i as int).push(s[i as int]) =~= s.take(i as int + 1));
            lemma_filtered_push(s.take(i as int), cp, s[i as int]);
        }
        if passes {
            proof {
                assert(prev_w + seq![s[i as int]] =~= prev_w.push(s[i as int]));
                lemma_filtered_push(prev_w, mp, s[i as int]);
            }
            let key = crate::numeric::format_u128(o.batch_key as u128);
            if key == batch_denom {
                out.push(clone_order(o));
                proof {
                    assert(orders_view(out@) =~= prev + seq![s[i as int]]);
                }
            }
            scanned = scanned + 1;
        } else {
            proof {
                assert(prev_w + Seq::<OrderV>::empty() =~= prev_w);
            }
        }
        i = i + 1;
    }
    proof {
        lemma_filtered_page_complete(s, cp, mp, i as int, lim as nat, MAX_FILTER_SCAN as nat);
    }
    SellOrdersResponse { sell_orders: out }
}

/// Lists accepted payment denoms in ascending key order, past the cursor,
/// up to the effective limit.
#[verifier::loop_isolation(false)]
pub fn allowed_denoms(state: &Marketplace, start_after: Option<String>, limit: Option<u32>) -> (r:
    AllowedDenomsResponse)
    ensures
        denoms_view(r.allowed_denoms@) == denom_page(
            state@.denoms,
            str_opt_view(start_after),
            limit,
        ),
{
    let lim = effective_limit(limit);
    let ghost s = state@.denoms;
    let ghost cv = str_opt_view(start_after);
    let ghost cp = |d: DenomV| denom_cursor_ok(d, cv);
    let mut out: Vec<AllowedDenom> = Vec::new();
    proof {
        assert(s.take(0) =~= Seq::<DenomV>::empty());
        assert(denoms_view(out@) =~= filtered(s.take(0), cp));
    }
    let mut i: usize = 0;
    while i < state.denoms.len() && out.len() < lim
        invariant
            i <= s.len(),
            out@.len() <= lim,
            denoms_view(out@) == filtered(s.take(i as int), cp),
        decreases s.len() - i,
    {
        let d = &state.denoms[i];
        let passes = match &start_after {
            Some(c) => match str_compare(c.as_str(), d.bank_denom.as_str()) {
                KeyOrder::Less => true,
                KeyOrder::Equal => {
                    proof {
                        lemma_lex_lt_irrefl(c@);
                    }
                    false
                },
                KeyOrder::Greater => {
                    proof {
                        lemma_lex_lt_asym(d@.bank_denom, c@);
                    }
                    false
                },
            },
            None => true,
        };
        let ghost prev = denoms_view(out@);
        proof {
            assert(s.take(i as int).push(s[i as int]) =~= s.take(i as int + 1));
            lemma_filtered_push(s.take(i as int), cp, s[i as int]);
            assert(passes == cp(s[i as int]));
        }
        if passes {
            out.push(clone_denom(d));
            proof {
                assert(denoms_view(out@) =~= prev + seq![s[i as int]]);
            }
        }
        i = i + 1;
    }
    proof {
        lemma_page_complete(s, cp, i as int, lim as nat);
    }
    AllowedDenomsResponse { allowed_denoms: out }
}

} // verus!
