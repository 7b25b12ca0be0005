//! Verified trading and tooling primitives: timeframes, trading pairs, a finite
//! deterministic RNG, a component lifecycle machine, and text helpers.

pub mod arch;
pub mod calendar;
pub mod fuzz;
pub mod io;
pub mod keys;
pub mod klines;
pub mod latency;
pub mod llm;
pub mod nix;
pub mod other;
pub mod primitives;
pub mod settings;
pub mod snapshots;
pub mod text;
pub mod trades;
