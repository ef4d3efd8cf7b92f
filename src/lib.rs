//! Secure-world stage of a two-stage boot on a TrustZone-M microcontroller:
//! partition tables for flash and RAM, their validation, the protection
//! regions derived from them, peripheral reclassification and the entry
//! point of the non-secure image.

pub mod error;
pub mod layout;
pub mod region;
pub mod peripheral;
pub mod handoff;

pub use error::{FlashLayoutError, RamLayoutError};
pub use handoff::{handoff_target, HandoffTarget};
pub use layout::{FlashLayout, RamLayout, Section, SectionFlags};
pub use peripheral::{config_peripherals, PeripheralPermission};
pub use region::{config_flash, config_ram, ProtectionRegions};
