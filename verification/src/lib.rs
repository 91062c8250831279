//! Protocol engine for Mirajazz-family USB-HID macro keypads.
//!
//! The crate computes, and never performs, device traffic: every command
//! returns the output reports to be written, in order, and every input
//! report is handed in as bytes. Opening the device, reading and writing
//! reports and waiting on timers belong to the caller.

pub mod device;
pub mod error;
pub mod frame;
pub mod page;
pub mod state;
pub mod types;
pub mod watch;
