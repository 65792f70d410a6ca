//! Calling stations: CWT station pools and the persistent caller queue.

pub mod caller_manager;
pub mod callsign;

pub use crate::contest::callsign::CallsignPool;
