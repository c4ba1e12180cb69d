//! A claim registry that binds content fingerprints to owners, with the rules that govern
//! creating, revoking and transferring a claim, and two small arithmetic helpers.
use vstd::prelude::*;

pub mod laws;
pub mod registry;
pub mod summation;
pub mod traffic;

pub use registry::{ensure_signed, AccountId, BlockNumber, Claim, Error, Event, Origin, Pallet};
pub use summation::sum;
pub use traffic::{Traffic, TrafficLight};
