//! Host-side management of the flash memory of a Qoob cartridge: the wire
//! protocol of its HID interface and the slot-based file table kept in its
//! 32 sectors of 64 KiB.
pub mod device;
pub mod error;
pub mod fs;
pub mod header;
pub mod model;
pub mod protocol;
pub mod util;

pub use error::{QoobError, QoobResult};
