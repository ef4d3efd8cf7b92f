use vstd::prelude::*;

verus! {

/// Why a flash partition table was refused.
#[derive(Debug, Clone, Copy, PartialEq, Eq, Structural)]
pub enum FlashLayoutError {
    /// The first (bootloader) partition does not start at address 0.
    InvalidBootloaderStart,
    /// Two partitions share at least one byte.
    SectionsOverlap,
    /// A partition reaches past the end of flash.
    TooLarge,
    /// A partition has size 0.
    EmptySection,
    /// A partition's address or size is not a whole number of flash
    /// protection regions.
    Misaligned,
}

/// Why a RAM partition table was refused.
#[derive(Debug, Clone, Copy, PartialEq, Eq, Structural)]
pub enum RamLayoutError {
    /// Two partitions share at least one byte.
    SectionsOverlap,
    /// A partition lies partly or wholly outside the RAM window.
    TooLarge,
    /// A partition has size 0.
    EmptySection,
    /// A partition's offset from the start of RAM or its size is not a
    /// whole number of RAM protection regions.
    Misaligned,
}

} // verus!
