//! Host-side toolkit for the SP-1 stem player: it flashes firmware through the
//! bootloader, and manages and uploads songs over the firmware's USB protocol.

pub mod adpcm;
pub mod audio;
pub mod bytes;
pub mod cobs;
pub mod crc;
pub mod diag;
pub mod disk;
pub mod flash;
pub mod le;
pub mod packet;
pub mod proto;
pub mod serial;
pub mod upload;
pub mod usb;
