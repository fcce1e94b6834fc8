//! The records that a container is made of.
use vstd::prelude::*;

verus! {

/// The fixed-size header at the start of every container.
#[derive(Debug)]
pub struct BinHeader {
    /// The 256-byte opaque signature that follows the magic and padding.
    pub signature: Vec<u8>,
    pub header_size: u16,
    pub file_size: u32,
    pub metadata_offset: u32,
    pub metadata_size: u32,
    pub payload_header_offset: u32,
    pub payload_header_size: u32,
    /// Start of the segment table, relative to `payload_header_offset`.
    pub payload_offset: u32,
}

/// Match-level counters and the encryption key material.
#[derive(Debug)]
pub struct PayloadHeader {
    pub match_id: u64,
    pub match_duration: u32,
    pub keyframe_count: u32,
    pub chunk_count: u32,
    pub last_chunk_id: u32,
    pub first_chunk_id: u32,
    pub keyframe_interval: u32,
    pub encryption_key_length: u16,
    /// The base64 key text, decoded from UTF-8 with invalid sequences replaced.
    pub encryption_key: String,
}

/// One 17-byte entry of the segment table.
#[derive(Debug, Clone, Copy, PartialEq, Eq, Structural)]
pub struct SegmentHeader {
    pub segment_id: u32,
    /// 1 for a chunk; any other code is taken for a keyframe.
    pub segment_type: u8,
    pub length: u32,
    pub chunk_id: u32,
    /// Start of the segment's payload, relative to the end of the segment table.
    pub offset: u32,
}

impl SegmentHeader {
    pub open spec fn spec_is_chunk(&self) -> bool {
        self.segment_type == 1
    }

    /// Whether this segment is a chunk rather than a keyframe.
    pub fn is_chunk(&self) -> (r: bool)
        ensures
            r == self.spec_is_chunk(),
    {
        self.segment_type == 1
    }
}

/// When a section happens, as the record stores it.
#[derive(Debug, Clone, Copy, PartialEq, Eq, Structural)]
pub enum SectionTime {
    /// Seconds since the start of the match: the bit pattern of an IEEE-754 single.
    Absolute(u32),
    /// Milliseconds after the previous section of the same segment.
    SinceLast(u8),
}

/// One decoded record of a segment's record stream.
#[derive(Debug, Clone, Copy, PartialEq, Eq, Structural)]
pub struct Section {
    pub time: SectionTime,
    /// Length of the opaque payload that follows the record's fields.
    pub data_len: u32,
    /// The record's type, explicit or carried over from the previous record.
    pub type_id: u16,
    pub params: u32,
}

} // verus!
