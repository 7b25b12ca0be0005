//! Candle timeframes as the Binance and Bybit kline APIs name them.

pub mod frame;
pub mod timeframe;
