//! Picotool reset interface for RP2040 firmware, and the flash planning of
//! the `drool` flasher, with their contracts proved.
pub mod chunks;
pub mod elf;
pub mod erase;
pub mod error;
pub mod geometry;
pub mod ms_os_20;
pub mod ordered_bytes;
pub mod plan;
pub mod protocol;
pub mod reboot;
pub mod reset_interface;
pub mod segments;
pub mod session;
