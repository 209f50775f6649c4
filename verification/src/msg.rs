//! Request and response schemas of the marketplace operations.

use vstd::prelude::*;
use crate::state::{AllowedDenom, Coin, CoinV, FeeParams, SellOrder};

verus! {

/// Initial configuration: the fee schedule the marketplace starts with.
#[derive(Debug)]
pub struct InstantiateMsg {
    pub fee_params: FeeParams,
}

/// One sell order to create.
#[derive(Debug)]
pub struct SellOrderMsg {
    pub batch_denom: String,
    pub quantity: String,
    pub ask_price: Coin,
    pub disable_auto_retire: bool,
    pub expiration: Option<u64>,
}

/// Spec-level image of a [`SellOrderMsg`].
pub ghost struct SellOrderMsgV {
    pub batch_denom: Seq<char>,
    pub quantity: Seq<char>,
    pub ask_price: CoinV,
    pub disable_auto_retire: bool,
    pub expiration: Option<u64>,
}

impl View for SellOrderMsg {
    type V = SellOrderMsgV;

    open spec fn view(&self) -> SellOrderMsgV {
        SellOrderMsgV {
            batch_denom: self.batch_denom@,
            quantity: self.quantity@,
            ask_price: self.ask_price@,
            disable_auto_retire: self.disable_auto_retire,
            expiration: self.expiration,
        }
    }
}

/// One amendment to an existing sell order; every `Some` field replaces the
/// stored one atomically.
#[derive(Debug)]
pub struct UpdateSellOrderMsg {
    pub sell_order_id: u64,
    pub new_quantity: Option<String>,
    pub new_ask_price: Option<Coin>,
    pub disable_auto_retire: Option<bool>,
    pub new_expiration: Option<u64>,
}

/// Spec-level image of an [`UpdateSellOrderMsg`].
pub ghost struct UpdateSellOrderMsgV {
    pub sell_order_id: u64,
    pub new_quantity: Option<Seq<char>>,
    pub new_ask_price: Option<CoinV>,
    pub disable_auto_retire: Option<bool>,
    pub new_expiration: Option<u64>,
}

impl View for UpdateSellOrderMsg {
    type V = UpdateSellOrderMsgV;

    open spec fn view(&self) -> UpdateSellOrderMsgV {
        UpdateSellOrderMsgV {
            sell_order_id: self.sell_order_id,
            new_quantity: match self.new_quantity {
                Some(ref q) => Some(q@),
                None => None,
            },
            new_ask_price: match self.new_ask_price {
                Some(ref p) => Some(p@),
                None => None,
            },
            disable_auto_retire: self.disable_auto_retire,
            new_expiration: self.new_expiration,
        }
    }
}

/// One requested fill against an existing sell order.
#[derive(Debug)]
pub struct BuyOrderMsg {
    pub sell_order_id: u64,
    pub quantity: String,
    pub bid_price: Coin,
    pub disable_auto_retire: bool,
    pub retirement_jurisdiction: Option<String>,
    pub retirement_reason: Option<String>,
    pub max_fee_amount: Coin,
}

/// Spec-level image of a [`BuyOrderMsg`].
pub ghost struct BuyOrderMsgV {
    pub sell_order_id: u64,
    pub quantity: Seq<char>,
    pub bid_price: CoinV,
    pub disable_auto_retire: bool,
    pub retirement_jurisdiction: Option<Seq<char>>,
    pub retirement_reason: Option<Seq<char>>,
    pub max_fee_amount: CoinV,
}

impl View for BuyOrderMsg {
    type V = BuyOrderMsgV;

    open spec fn view(&self) -> BuyOrderMsgV {
        BuyOrderMsgV {
            sell_order_id: self.sell_order_id,
            quantity: self.quantity@,
            bid_price: self.bid_price@,
            disable_auto_retire: self.disable_auto_retire,
            retirement_jurisdiction: match self.retirement_jurisdiction {
                Some(ref s) => Some(s@),
                None => None,
            },
            retirement_reason: match self.retirement_reason {
                Some(ref s) => Some(s@),
                None => None,
            },
            max_fee_amount: self.max_fee_amount@,
        }
    }
}

/// The write operations, as data; a host dispatcher routes each variant to
/// its handler in [`crate::execute`].
#[derive(Debug)]
pub enum ExecuteMsg {
    Sell { orders: Vec<SellOrderMsg> },
    UpdateSellOrders { updates: Vec<UpdateSellOrderMsg> },
    CancelSellOrder { sell_order_id: u64 },
    BuyDirect { orders: Vec<BuyOrderMsg> },
    AddAllowedDenom { bank_denom: String, display_denom: String, exponent: u32 },
    RemoveAllowedDenom { denom: String },
    GovSetFeeParams { fees: FeeParams },
    GovSendFromFeePool { recipient: String, coins: Vec<Coin> },
}

/// The read operations, as data; a host dispatcher routes each variant to
/// its handler in [`crate::query`].
#[derive(Debug)]
pub enum QueryMsg {
    SellOrder { sell_order_id: u64 },
    SellOrders { start_after: Option<u64>, limit: Option<u32> },
    SellOrdersByBatch { batch_denom: String, start_after: Option<u64>, limit: Option<u32> },
    SellOrdersBySeller { seller: String, start_after: Option<u64>, limit: Option<u32> },
    AllowedDenoms { start_after: Option<String>, limit: Option<u32> },
}

#[derive(Debug)]
pub struct SellOrderResponse {
    pub sell_order: SellOrder,
}

#[derive(Debug)]
pub struct SellOrdersResponse {
    pub sell_orders: Vec<SellOrder>,
}

#[derive(Debug)]
pub struct AllowedDenomsResponse {
    pub allowed_denoms: Vec<AllowedDenom>,
}

} // verus!
