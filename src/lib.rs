//! Decoding of Android A/B OTA update payloads and reconstruction of the
//! partition images they describe.
pub mod codec;
pub mod extent;
pub mod extract;
pub mod header;
pub mod image;
pub mod index;
pub mod manifest;
pub mod payload;
pub mod wire;
