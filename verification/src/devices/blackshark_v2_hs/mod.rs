//! BlackShark V2 HyperSpeed: protocol, driver and simulator.

pub mod driver;
pub mod exchange;
pub mod headset;
pub mod persistence;
pub mod protocol;
pub mod reading;
pub mod refresh;
pub mod sim;
pub mod state;

pub use state::{HeadsetState, LedMode};
