//! Router and driver multiplexing core for a chat-completion gateway.
//!
//! The crate maps model names to backend drivers through a registry,
//! manages each model's load/unload lifecycle with reference counting,
//! multiplexes concurrent chat streams against bounded driver slots,
//! and turns backend failures into well-defined error signals.

use vstd::prelude::*;

mod errors;
pub mod config;
pub mod drivers;
pub mod lifecycle;
pub mod protocol;
pub mod registry;
pub mod router;
pub mod transport;

pub use errors::ConfigError;
pub use errors::RouterError;

verus! {

} // verus!
