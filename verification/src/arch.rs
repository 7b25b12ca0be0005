//! Architecture helpers: the lifecycle state machine of components, and keys
//! of items that know their parent.

pub mod component;
pub mod keyed;
pub mod registry;
