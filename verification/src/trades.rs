//! Market vocabulary: timeframes as exchanges write them, order sides,
//! trading pairs and exchange symbols.

pub mod exchange;
pub mod pair;
pub mod side;
pub mod timeframe;
pub mod timestamp;

pub use timeframe::{Timeframe, TimeframeDesignator};
