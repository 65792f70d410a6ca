//! Contest trainer core: Morse timing, country data, contest rules,
//! caller simulation and the QSO state machine.

pub mod text;
pub mod num;
pub mod config;
pub mod messages;
pub mod morse;
pub mod cty;
pub mod contest;
pub mod random;
pub mod session;
pub mod state;
pub mod station;
pub mod stats;
pub mod report;
