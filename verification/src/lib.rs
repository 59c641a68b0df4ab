//! Platform adapter between a stepping emulator core and firmware services.
//!
//! The crate holds the decisions of the adapter: how a clock reading becomes a
//! timestamp, when the input queue is read and how a key is debounced, how the
//! logical frame is scaled onto the video surface, and in which order the
//! machine is shut down. Firmware calls themselves are made by the caller, who
//! hands plain values in and carries the answers out.

pub mod adapter;
pub mod calendar;
pub mod clock;
pub mod color;
pub mod frame;
pub mod input;
pub mod power;
pub mod time;
