//! Timeouts and shared storage for hierarchies of state machines.

mod bucket;
pub mod call_laws;
pub mod clock;
pub mod hms;
mod id_map;
pub mod kind;
pub mod laws;
pub mod ledger;
pub mod manager;
pub mod request;
pub mod signal;
pub mod storage;
pub mod text_laws;
pub mod tick_laws;
pub mod time;
