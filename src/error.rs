use vstd::prelude::*;

verus! {

/// Every way in which opening a container or decoding one of its segments fails.
#[derive(Debug, Clone, Copy, PartialEq, Eq, Structural)]
pub enum RoflError {
    /// The underlying storage could not be read.
    Io,
    /// The container does not start with the `RIOT` magic.
    Format,
    /// Fewer bytes are available than a fixed-size structure needs.
    TruncatedInput,
    /// An offset/size pair resolves outside the file.
    Bounds,
    /// The embedded metadata is not a well-formed JSON document.
    MetadataDecode,
    /// The encryption key text is not valid base64.
    KeyDecode,
    /// A cipher key is outside Blowfish's 4..=56 byte range.
    InvalidKey,
    /// Ciphertext whose length is not a multiple of the 8-byte block.
    BlockAlignment,
    /// The decrypted payload is not a valid gzip stream.
    Decompression,
    /// The record stream ends inside a record.
    TruncatedRecord,
    /// A segment index past the end of the segment table.
    Index,
}

} // verus!
