//! Value types with compact text forms.

pub mod large_number;
pub mod timeframe;
