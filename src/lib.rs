//! Decoder for ROFL game-replay containers: header parsing, bounds-checked
//! offset resolution, two-stage Blowfish decryption, gzip decompression and
//! the variable-width section record stream.

pub mod codec;
pub mod container;
pub mod crypto;
pub mod error;
pub mod header;
pub mod layout;
pub mod sections;
pub mod types;

pub use container::RoflFile;
pub use crypto::decrypt_blowfish;
pub use error::RoflError;
pub use types::{BinHeader, PayloadHeader, Section, SectionTime, SegmentHeader};
