//! The rules of the desktop programs: what the window and the tray show,
//! what they ask of the device and when they notify.

pub mod icon;
pub mod launch;
pub mod session;
pub mod tray;
