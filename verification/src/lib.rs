//! Core logic of a tray-resident desktop utility that spawns transient
//! overlay windows ("popups") on a periodic cadence.
//!
//! The library holds everything that can be stated and proved: the bounded
//! configuration record and its canonical JSON form, the random decision
//! rules for firing a popup and picking its opacity, the scheduler's phase
//! machine and per-tick decision, and the routing of tray menu events.
//! The host shell (window creation, file and tray plumbing) lives outside
//! and talks to this crate through plain values.

pub mod codec;
pub mod config;
pub mod engine;
pub mod scheduler;
pub mod tray;
