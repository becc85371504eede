//! Errors raised by the protocol driver and the filesystem.
use vstd::prelude::*;

verus! {

/// Everything that can go wrong while talking to the device or managing its files.
#[derive(Debug, PartialEq, Eq)]
pub enum QoobError {
    /// No matching device is connected
    NoDev,
    /// More than one matching device is connected; none is picked
    MultipleDevs,
    /// A report was not transferred whole
    PartialTransfer { transferred: usize, requested: usize },
    /// The other consumer of the flash holds the bus
    BusBusy,
    /// The HID transport failed; holds its message
    HidError(String),
    /// No file starts in the given slot
    NoSuchFile(usize),
    /// The destination range is not blank
    RangeOccupied,
    /// The file does not fit between its slot and the end of flash
    TooBig,
    /// The payload does not start with a valid file header
    InvalidHeader,
    /// The data read back differs from the data written
    VerificationError,
}

/// Result of an operation of this library.
pub type QoobResult<T> = Result<T, QoobError>;

} // verus!
