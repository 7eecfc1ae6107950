pub mod chain;
pub mod engine;
pub mod frame;
pub mod header_sync;
pub mod layout;
pub mod le;
pub mod testkit;
pub mod time;
pub mod transport;
pub mod vec_map;
