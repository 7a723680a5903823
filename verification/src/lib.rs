//! Deterministic doctrine, policy and contract logic for GhostNet operating
//! modalities, with the outside effects (async ports, JSON values, hashing and
//! calendar conversion) kept behind narrow, documented boundaries.
use vstd::prelude::*;

pub mod keyed;
pub mod adapter;
pub mod calendar;
pub mod canonical;
pub mod clock;
pub mod incident;
pub mod net;
pub mod policy;
pub mod projection;
pub mod policy_extension;
pub mod report;
pub mod store;
pub mod styrene;
pub mod text;
pub mod window;

verus! {

/// Identifies the initial workspace contract.
pub const CONTRACT_VERSION: u32 = 1;

/// Human-readable product name used by command projections.
pub const PRODUCT_NAME: &'static str = "GhostNet";

} // verus!
