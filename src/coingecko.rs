use vstd::prelude::*;

verus! {

/// Order book snapshot in the CoinGecko format; amounts are decimal texts.
#[derive(Clone, Debug)]
pub struct CoinGeckoOrderBook {
    pub ticker_id: String,
    /// Milliseconds since the epoch, as text.
    pub timestamp: String,
    pub bids: Vec<(String, String)>,
    pub asks: Vec<(String, String)>,
}

/// A traded pair in the CoinGecko format.
#[derive(Clone, Debug)]
pub struct CoinGeckoPair {
    pub ticker_id: String,
    pub base: String,
    pub target: String,
    pub pool_id: String,
}

/// 24-hour ticker of a pair in the CoinGecko format; amounts are decimal texts.
#[derive(Clone, Debug)]
pub struct CoinGeckoTicker {
    pub ticker_id: String,
    pub base_currency: String,
    pub target_currency: String,
    pub last_price: String,
    pub base_volume: String,
    pub target_volume: String,
    pub high: String,
    pub low: String,
}

} // verus!
