use vstd::prelude::*;

verus! {

/// The side of an order: a bid to buy or an offer to sell.
#[derive(Debug, Clone, Copy, PartialEq, Eq, Structural)]
pub enum OrderType {
    Buy,
    Sell,
}

/// A limit order for one security. Prices are in cents.
#[derive(Debug)]
pub struct Order {
    pub id: u64,
    pub order_type: OrderType,
    pub security_ticker: String,
    pub quantity: u64,
    pub price: u64,
    pub timestamp: u64,
}

impl Order {
    pub fn new(
        id: u64,
        order_type: OrderType,
        security_ticker: &str,
        quantity: u64,
        price: u64,
        timestamp: u64,
    ) -> (order: Order)
        ensures
            order.id == id,
            order.order_type == order_type,
            order.security_ticker@ == security_ticker@,
            order.quantity == quantity,
            order.price == price,
            order.timestamp == timestamp,
    {
        Order {
            id,
            order_type,
            security_ticker: security_ticker.to_string(),
            quantity,
            price,
            timestamp,
        }
    }
}

impl Clone for Order {
    fn clone(&self) -> (copy: Self)
        ensures
            copy == *self,
    {
        Order {
            id: self.id,
            order_type: self.order_type,
            security_ticker: self.security_ticker.clone(),
            quantity: self.quantity,
            price: self.price,
            timestamp: self.timestamp,
        }
    }
}

/// An executed match between a buy order and a sell order.
#[derive(Debug)]
pub struct Trade {
    pub matched_buy_order_id: u64,
    pub matched_sell_order_id: u64,
    pub security_ticker: String,
    pub quantity: u64,
    pub price: u64,
    pub timestamp: u64,
}

impl Trade {
    pub fn new(
        matched_buy_order_id: u64,
        matched_sell_order_id: u64,
        security_ticker: String,
        quantity: u64,
        price: u64,
        timestamp: u64,
    ) -> (trade: Trade)
        ensures
            trade == (Trade {
                matched_buy_order_id,
                matched_sell_order_id,
                security_ticker,
                quantity,
                price,
                timestamp,
            }),
    {
        Trade {
            matched_buy_order_id,
            matched_sell_order_id,
            security_ticker,
            quantity,
            price,
            timestamp,
        }
    }
}

impl Clone for Trade {
    fn clone(&self) -> (copy: Self)
        ensures
            copy == *self,
    {
        Trade {
            matched_buy_order_id: self.matched_buy_order_id,
            matched_sell_order_id: self.matched_sell_order_id,
            security_ticker: self.security_ticker.clone(),
            quantity: self.quantity,
            price: self.price,
            timestamp: self.timestamp,
        }
    }
}

} // verus!
