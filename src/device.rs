//! Geometry of the flash and helpers on byte and sector counts.
use vstd::prelude::*;

verus! {

/// The size of a single flash sector
pub const SECTOR_SIZE: usize = 0x1_0000;

/// The total number of sectors in flash
pub const SECTOR_COUNT: usize = 32;

/// The total size of flash ([`SECTOR_SIZE`] * [`SECTOR_COUNT`])
pub const FLASH_SIZE: usize = 0x20_0000;

/// Number of whole sectors needed to hold `size` bytes.
pub open spec fn sectors_for(size: int) -> int {
    (size + SECTOR_SIZE - 1) / SECTOR_SIZE as int
}

/// How many sectors `size` would span
pub fn size_to_sectors(size: usize) -> (r: usize)
    ensures
        r == sectors_for(size as int),
{
    let whole = size / SECTOR_SIZE;
    if size % SECTOR_SIZE != 0 {
        whole + 1
    } else {
        whole
    }
}

} // verus!
