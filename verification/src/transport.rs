//! Transport services.
pub mod service;
