//! The marketplace's data model and state object.
//!
//! The persistent contract state is modelled as one explicit [`Marketplace`]
//! value: the sequence counter, the sell-order book ordered by id, the
//! registry of accepted payment denoms ordered by key, and the fee schedule.
//! The host that owns durable storage threads this value through each
//! operation and persists it under its own transaction boundary.

use vstd::prelude::*;
use crate::numeric::{dec_value, fits_u128, is_dec_string};

verus! {

/// An amount of a payment token.
#[derive(Debug)]
pub struct Coin {
    pub denom: String,
    pub amount: u128,
}

/// Spec-level image of a [`Coin`].
pub ghost struct CoinV {
    pub denom: Seq<char>,
    pub amount: u128,
}

impl View for Coin {
    type V = CoinV;

    open spec fn view(&self) -> CoinV {
        CoinV { denom: self.denom@, amount: self.amount }
    }
}

/// A standing offer to exchange a credit quantity for a minimum unit price.
///
/// `quantity` and `ask_amount` are non-negative arbitrary-precision integers
/// encoded as decimal strings.  `batch_key` and `market_id` reference an
/// inventory batch and a market; resolving them from human-readable
/// identifiers is an external integration point, so creation stores a
/// placeholder key.  `expiration` is advisory metadata only: nothing purges
/// an expired order automatically.
#[derive(Debug)]
pub struct SellOrder {
    pub id: u64,
    pub seller: String,
    pub batch_key: u64,
    pub quantity: String,
    pub market_id: u64,
    pub ask_amount: String,
    pub disable_auto_retire: bool,
    pub expiration: Option<u64>,
    pub maker: bool,
}

/// Spec-level image of a [`SellOrder`].
pub ghost struct OrderV {
    pub id: u64,
    pub seller: Seq<char>,
    pub batch_key: u64,
    pub quantity: Seq<char>,
    pub market_id: u64,
    pub ask_amount: Seq<char>,
    pub disable_auto_retire: bool,
    pub expiration: Option<u64>,
    pub maker: bool,
}

impl View for SellOrder {
    type V = OrderV;

    open spec fn view(&self) -> OrderV {
        OrderV {
            id: self.id,
            seller: self.seller@,
            batch_key: self.batch_key,
            quantity: self.quantity@,
            market_id: self.market_id,
            ask_amount: self.ask_amount@,
            disable_auto_retire: self.disable_auto_retire,
            expiration: self.expiration,
            maker: self.maker,
        }
    }
}

impl OrderV {
    /// The record invariant: the quantity is a digit string denoting a
    /// positive number, the ask a digit string, both within machine range.
    /// A quantity that reaches zero is rewritten as deletion, never stored.
    pub open spec fn wf(self) -> bool {
        &&& is_dec_string(self.quantity)
        &&& dec_value(self.quantity) > 0
        &&& fits_u128(self.quantity)
        &&& is_dec_string(self.ask_amount)
        &&& fits_u128(self.ask_amount)
    }
}

/// An accepted payment token and its display metadata.
#[derive(Debug)]
pub struct AllowedDenom {
    pub bank_denom: String,
    pub display_denom: String,
    pub exponent: u32,
}

/// Spec-level image of an [`AllowedDenom`].
pub ghost struct DenomV {
    pub bank_denom: Seq<char>,
    pub display_denom: Seq<char>,
    pub exponent: u32,
}

impl View for AllowedDenom {
    type V = DenomV;

    open spec fn view(&self) -> DenomV {
        DenomV {
            bank_denom: self.bank_denom@,
            display_denom: self.display_denom@,
            exponent: self.exponent,
        }
    }
}

/// A price-denom/precision configuration associated with a credit type.
/// Defined for future price-denom resolution; not consumed by the execution
/// path.
#[derive(Debug)]
pub struct Market {
    pub id: u64,
    pub credit_type_abbrev: String,
    pub bank_denom: String,
    pub precision_modifier: u32,
}

/// The fee schedule: buyer and seller rates as decimal strings, interpreted
/// by the fee calculator in basis points.  Stored as given and validated at
/// the point of use.
#[derive(Debug)]
pub struct FeeParams {
    pub buyer_percentage_fee: String,
    pub seller_percentage_fee: String,
}

/// Spec-level image of [`FeeParams`].
pub ghost struct FeeParamsV {
    pub buyer_percentage_fee: Seq<char>,
    pub seller_percentage_fee: Seq<char>,
}

impl View for FeeParams {
    type V = FeeParamsV;

    open spec fn view(&self) -> FeeParamsV {
        FeeParamsV {
            buyer_percentage_fee: self.buyer_percentage_fee@,
            seller_percentage_fee: self.seller_percentage_fee@,
        }
    }
}

pub open spec fn orders_view(s: Seq<SellOrder>) -> Seq<OrderV> {
    s.map_values(|o: SellOrder| o@)
}

pub open spec fn denoms_view(s: Seq<AllowedDenom>) -> Seq<DenomV> {
    s.map_values(|d: AllowedDenom| d@)
}

/// Strict lexicographic order on registry keys, by unicode scalar value.
pub open spec fn lex_lt(a: Seq<char>, b: Seq<char>) -> bool
    decreases a.len(),
{
    if b.len() == 0 {
        false
    } else if a.len() == 0 {
        true
    } else if a[0] < b[0] {
        true
    } else if a[0] > b[0] {
        false
    } else {
        lex_lt(a.drop_first(), b.drop_first())
    }
}

pub proof fn lemma_lex_lt_irrefl(a: Seq<char>)
    ensures
        !lex_lt(a, a),
    decreases a.len(),
{
    if a.len() > 0 {
        lemma_lex_lt_irrefl(a.drop_first());
    }
}

pub proof fn lemma_lex_lt_trans(a: Seq<char>, b: Seq<char>, c: Seq<char>)
    requires
        lex_lt(a, b),
        lex_lt(b, c),
    ensures
        lex_lt(a, c),
    decreases a.len(),
{
    if a.len() == 0 {
    } else if a[0] == b[0] && b[0] == c[0] {
        lemma_lex_lt_trans(a.drop_first(), b.drop_first(), c.drop_first());
    }
}

/// Ordered keys differ.
pub proof fn lemma_lex_lt_neq(a: Seq<char>, b: Seq<char>)
    requires
        lex_lt(a, b),
    ensures
        a != b,
{
    if a == b {
        lemma_lex_lt_irrefl(a);
    }
}

/// The key order is asymmetric.
pub proof fn lemma_lex_lt_asym(a: Seq<char>, b: Seq<char>)
    requires
        lex_lt(a, b),
    ensures
        !lex_lt(b, a),
{
    if lex_lt(b, a) {
        lemma_lex_lt_trans(a, b, a);
        lemma_lex_lt_irrefl(a);
    }
}

/// Three-way comparison result for registry keys.
#[derive(Debug)]
pub enum KeyOrder {
    Less,
    Equal,
    Greater,
}

/// If two keys agree on a prefix and the first differs upward at its end or
/// runs out first, it is lexicographically smaller.
proof fn lemma_lex_lt_at(a: Seq<char>, b: Seq<char>, i: int)
    requires
        0 <= i <= a.len(),
        i <= b.len(),
        a.take(i) == b.take(i),
        (i < a.len() && i < b.len() && a[i] < b[i]) || (i == a.len() && i < b.len()),
    ensures
        lex_lt(a, b),
    decreases i,
{
    if i == 0 {
    } else {
        assert(a.take(i)[0] == a[0]);
        assert(b.take(i)[0] == b[0]);
        assert(a.take(i).drop_first() =~= a.drop_first().take(i - 1));
        assert(b.take(i).drop_first() =~= b.drop_first().take(i - 1));
        lemma_lex_lt_at(a.drop_first(), b.drop_first(), i - 1);
    }
}

/// Compares two registry keys in lexicographic order.
#[verifier::loop_isolation(false)]
pub fn str_compare(a: &str, b: &str) -> (r: KeyOrder)
    ensures
        r is Less ==> lex_lt(a@, b@),
        r is Equal ==> a@ == b@,
        r is Greater ==> lex_lt(b@, a@),
{
    let la = a.unicode_len();
    let lb = b.unicode_len();
    let n = if la < lb {
        la
    } else {
        lb
    };
    let mut i: usize = 0;
    while i < n
        invariant
            i <= n,
            n == if la < lb {
                la as int
            } else {
                lb as int
            },
            a@.take(i as int) == b@.take(i as int),
        decreases n - i,
    {
        let ca = a.get_char(i);
        let cb = b.get_char(i);
        if ca < cb {
            proof {
                lemma_lex_lt_at(a@, b@, i as int);
            }
            return KeyOrder::Less;
        }
        if ca > cb {
            proof {
                lemma_lex_lt_at(b@, a@, i as int);
            }
            return KeyOrder::Greater;
        }
        proof {
            assert(a@[i as int] == b@[i as int]);
            assert(a@.take(i + 1) =~= b@.take(i + 1));
        }
        i = i + 1;
    }
    if la == lb {
        proof {
            assert(a@.take(la as int) =~= a@);
            assert(b@.take(lb as int) =~= b@);
        }
        KeyOrder::Equal
    } else if la < lb {
        proof {
            lemma_lex_lt_at(a@, b@, la as int);
        }
        KeyOrder::Less
    } else {
        proof {
            lemma_lex_lt_at(b@, a@, lb as int);
        }
        KeyOrder::Greater
    }
}

/// Registry invariant: keys strictly ascending in lexicographic order,
/// hence unique.
pub open spec fn denoms_sorted(s: Seq<DenomV>) -> bool {
    forall|i: int, j: int|
        0 <= i < j < s.len() ==> lex_lt(
            (#[trigger] s[i]).bank_denom,
            (#[trigger] s[j]).bank_denom,
        )
}

pub open spec fn coins_view(s: Seq<Coin>) -> Seq<CoinV> {
    s.map_values(|c: Coin| c@)
}

/// Structural copy of a sell-order record; the copy has the same view.
pub fn clone_order(o: &SellOrder) -> (r: SellOrder)
    ensures
        r@ == o@,
{
    SellOrder {
        id: o.id,
        seller: o.seller.clone(),
        batch_key: o.batch_key,
        quantity: o.quantity.clone(),
        market_id: o.market_id,
        ask_amount: o.ask_amount.clone(),
        disable_auto_retire: o.disable_auto_retire,
        expiration: o.expiration,
        maker: o.maker,
    }
}

/// Structural copy of a registry entry; the copy has the same view.
pub fn clone_denom(d: &AllowedDenom) -> (r: AllowedDenom)
    ensures
        r@ == d@,
{
    AllowedDenom {
        bank_denom: d.bank_denom.clone(),
        display_denom: d.display_denom.clone(),
        exponent: d.exponent,
    }
}

/// The whole marketplace state: sequence counter, order book, denom
/// registry, and fee schedule.
#[derive(Debug)]
pub struct Marketplace {
    pub seq: u64,
    pub orders: Vec<SellOrder>,
    pub denoms: Vec<AllowedDenom>,
    pub fee_params: FeeParams,
}

/// Spec-level image of the [`Marketplace`].
pub ghost struct MarketplaceV {
    pub seq: u64,
    pub orders: Seq<OrderV>,
    pub denoms: Seq<DenomV>,
    pub fee_params: FeeParamsV,
}

impl View for Marketplace {
    type V = MarketplaceV;

    open spec fn view(&self) -> MarketplaceV {
        MarketplaceV {
            seq: self.seq,
            orders: orders_view(self.orders@),
            denoms: denoms_view(self.denoms@),
            fee_params: self.fee_params@,
        }
    }
}

/// Order-book invariant: every record meets its invariant, ids are strictly
/// ascending (hence unique), start at 1, and never exceed the sequence
/// counter — so a deleted id is never issued again.
pub open spec fn book_wf(s: Seq<OrderV>, seqno: u64) -> bool {
    &&& forall|i: int| 0 <= i < s.len() ==> (#[trigger] s[i]).wf() && 1 <= s[i].id <= seqno
    &&& forall|i: int, j: int|
        0 <= i < j < s.len() ==> (#[trigger] s[i]).id < (#[trigger] s[j]).id
}

/// Replacing a record by one with the same id preserves the book invariant.
pub proof fn lemma_book_wf_update(s: Seq<OrderV>, seqno: u64, i: int, o: OrderV)
    requires
        book_wf(s, seqno),
        0 <= i < s.len(),
        o.wf(),
        o.id == s[i].id,
    ensures
        book_wf(s.update(i, o), seqno),
{
    let s2 = s.update(i, o);
    assert forall|a: int, b: int| 0 <= a < b < s2.len() implies (#[trigger] s2[a]).id < (
    #[trigger] s2[b]).id by {
        assert(s[a].id < s[b].id);
    }
}

/// Deleting a record preserves the book invariant.
pub proof fn lemma_book_wf_remove(s: Seq<OrderV>, seqno: u64, i: int)
    requires
        book_wf(s, seqno),
        0 <= i < s.len(),
    ensures
        book_wf(s.remove(i), seqno),
{
    let s2 = s.remove(i);
    assert forall|a: int| 0 <= a < s2.len() implies (#[trigger] s2[a]).wf() && 1 <= s2[a].id
        <= seqno by {
        if a < i {
            assert(s2[a] == s[a]);
        } else {
            assert(s2[a] == s[a + 1]);
        }
    }
    assert forall|a: int, b: int| 0 <= a < b < s2.len() implies (#[trigger] s2[a]).id < (
    #[trigger] s2[b]).id by {
        let a0: int = if a < i {
            a
        } else {
            a + 1
        };
        let b0: int = if b < i {
            b
        } else {
            b + 1
        };
        assert(s2[a] == s[a0]);
        assert(s2[b] == s[b0]);
    }
}

impl MarketplaceV {
    /// See [`book_wf`].
    pub open spec fn orders_wf(self) -> bool {
        book_wf(self.orders, self.seq)
    }

    /// See [`denoms_sorted`].
    pub open spec fn denoms_wf(self) -> bool {
        denoms_sorted(self.denoms)
    }

    pub open spec fn wf(self) -> bool {
        self.orders_wf() && self.denoms_wf()
    }
}

/// Creates a fresh marketplace with the given fee schedule, an empty order
/// book and registry, and the sequence counter at zero, so that the first
/// issued order id is 1.
pub fn instantiate(fee_params: FeeParams) -> (s: Marketplace)
    ensures
        s@.wf(),
        s@.seq == 0,
        s@.orders == Seq::<OrderV>::empty(),
        s@.denoms == Seq::<DenomV>::empty(),
        s@.fee_params == fee_params@,
{
    let s = Marketplace { seq: 0, orders: Vec::new(), denoms: Vec::new(), fee_params };
    proof {
        assert(s@.orders =~= Seq::<OrderV>::empty());
        assert(s@.denoms =~= Seq::<DenomV>::empty());
    }
    s
}

} // verus!
