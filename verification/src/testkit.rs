//! Scenario simulation for the block-sync reactor.
pub mod driver;
pub mod driver_laws;
pub mod invariants;
pub mod peer;
pub mod report_laws;
pub mod scenario;
pub mod serve_laws;
pub mod trace;
