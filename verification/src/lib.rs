//! Provisioning logic for compressed-RAM block devices.
//!
//! The crate resolves declarative device configuration against the
//! system's memory, plans the descriptor artifacts an init system needs
//! to activate each device, and decides the low-level steps that set up
//! or tear down a single device.  All file and process I/O is left to
//! the caller; every function here computes over plain values.

pub mod config;
pub mod generator;
pub mod setup;
pub mod text;
