//! Small value types: clock-style durations.

pub mod time;
