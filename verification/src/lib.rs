//! Parametric flight-delay insurance accounting.
//!
//! Customers buy coverage against flight disruption, a shared liquidity pool
//! backs the payouts, and a resolver settles every policy of a flight
//! according to the disruption outcome. The engine here is an explicit state
//! object: the host that owns persistence, authorization and asset transfers
//! loads the state, calls one operation, performs the transfer instructions
//! the operation returns, and stores the state back.

pub mod contract;
pub mod errors;
pub mod flight_index;
pub mod laws;
pub mod model;
pub mod policy;
pub mod transfer;

pub use contract::FlightInsuranceContract;
pub use errors::Error;
pub use flight_index::FlightEntry;
pub use policy::{FlightResolution, Policy, PolicyStatus, Principal};
pub use transfer::{AssetId, Transfer};
