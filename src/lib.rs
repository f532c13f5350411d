//! Encoder for UF2 firmware images: a raw image is cut into fixed-size blocks
//! carrying their address, sequence number and family identifier, and the
//! blocks are written out as 512-byte little-endian records.
pub mod bytes;
pub mod crc;
pub mod format;
pub mod image;
pub mod lemmas;
