//! Translation layer for a group-contribution activity-coefficient engine:
//! parsing of "ID:COUNT" group tokens, construction of the in-memory mixture
//! model, deterministic benchmark scenario generation, and the timing
//! protocol around repeated engine invocations.

pub mod group;
pub mod mixture;
pub mod numeric;
pub mod scenario;
pub mod timing;
