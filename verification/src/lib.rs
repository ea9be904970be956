//! Discovery of cast-enabled devices on the local network.
//!
//! The library holds the verified core: the record extractor that turns a
//! structured DNS response into a validated device identity, the pure
//! decision logic of the scan protocol, and the media container helpers.
//! Socket handling and threads live in the surrounding application.

pub mod device;
pub mod discover;
pub mod discovery;
pub mod dns;
pub mod hex;
pub mod media;
pub mod text;
