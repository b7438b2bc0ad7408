//! Verified core of a driver for Razer wireless headsets: wire protocol,
//! device state, equalizer model, settings and the rules of the front ends.

pub mod actions;
pub mod config;
pub mod ctl;
pub mod desktop;
pub mod devices;
pub mod eq;
pub mod error;
pub mod hid;
pub mod manager;
pub mod text;
pub mod views;
pub mod worker;

pub use error::Error;
