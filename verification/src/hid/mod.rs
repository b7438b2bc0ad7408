//! HID plumbing: report descriptors, hidraw nodes and the report channel.

pub mod descriptor;
pub mod hidraw;
pub mod lock;
pub mod sysfs;
pub mod transport;

pub use transport::Transport;
