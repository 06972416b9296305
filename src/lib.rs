//! Ingest-to-candle core of an order-book exchange's off-chain services: decoding of
//! fill and market-creation events from transaction logs, the batch decisions of the
//! transaction scraper, one-minute candles from fills, roll-ups into higher resolutions,
//! and the statements that persist them.

pub mod batching;
pub mod candle;
pub mod codec;
pub mod coingecko;
pub mod insert;
pub mod openbook_v2;
pub mod parsing;
pub mod resolution;
pub mod scheduler;
pub mod scraper;
pub mod trader;
pub mod transaction;
