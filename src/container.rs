//! The opened container and the per-segment decoding pipeline.
use crate::codec::{
    base64_decode_of, decimal_digits, decimal_string, decode_base64, decompress, gunzip_of,
    is_json_document, json_document,
};
use crate::crypto::{bytes_result, decrypt_blowfish, spec_decrypt};
use crate::error::RoflError;
use crate::header::{
    bin_header_at, bin_header_error, encode_bin_header, encode_payload_header,
    encode_segment_table, lemma_bin_header_round_trip, lemma_payload_header_round_trip,
    lemma_segment_table_len, lemma_segment_table_round_trip, parse_bin_header,
    parse_payload_header, payload_header_at, payload_header_fits, read_segment_table,
    segment_header_at, segment_table_at, utf8_lossy_of, BIN_HEADER_SIZE,
    PAYLOAD_HEADER_FIXED_SIZE, SEGMENT_HEADER_SIZE,
};
use crate::layout::{copy_range, le_u32};
use crate::sections::{parse_sections, spec_parse_sections};
use crate::types::{BinHeader, PayloadHeader, Section, SegmentHeader};
use vstd::prelude::*;

verus! {

/// The metadata byte range `[start, start + size)`.
pub open spec fn metadata_range(f: Seq<u8>) -> (int, int) {
    (le_u32(f, 268) as int, le_u32(f, 268) + le_u32(f, 272))
}

/// Where the segment table starts: `payload_offset` counts from the payload header.
pub open spec fn table_start(f: Seq<u8>) -> int {
    le_u32(f, 276) + le_u32(f, 284)
}

/// How many entries the segment table holds: chunks plus keyframes.
pub open spec fn table_count(f: Seq<u8>) -> int {
    le_u32(f, le_u32(f, 276) + 16) + le_u32(f, le_u32(f, 276) + 12)
}

/// Why a container cannot be opened from the bytes `f`, if it cannot.
pub open spec fn open_error(f: Seq<u8>) -> Option<RoflError> {
    let pho = le_u32(f, 276) as int;
    if bin_header_error(f) is Some {
        bin_header_error(f)
    } else if metadata_range(f).1 > f.len() {
        Some(RoflError::Bounds)
    } else if !json_document(f.subrange(metadata_range(f).0, metadata_range(f).1)) {
        Some(RoflError::MetadataDecode)
    } else if pho + le_u32(f, 280) > f.len() {
        Some(RoflError::Bounds)
    } else if !payload_header_fits(f, pho) {
        Some(RoflError::TruncatedInput)
    } else if table_start(f) + SEGMENT_HEADER_SIZE * table_count(f) > f.len() {
        Some(RoflError::Bounds)
    } else {
        None
    }
}

/// An opened container: its headers and its segment table, read once.
///
/// Segment payloads are not kept: each decode reads them again from the file's bytes.
#[derive(Debug)]
pub struct RoflFile {
    pub bin_header: BinHeader,
    /// The metadata JSON document, checked to be well-formed.
    pub metadata_json: Vec<u8>,
    pub payload_header: PayloadHeader,
    /// The segment table, in file order.
    pub segment_headers: Vec<SegmentHeader>,
}

impl RoflFile {
    /// Every part of `self` is what the file `f` stores.
    pub open spec fn read_from(&self, f: Seq<u8>) -> bool {
        &&& bin_header_at(self.bin_header, f)
        &&& self.metadata_json@ == f.subrange(metadata_range(f).0, metadata_range(f).1)
        &&& payload_header_at(self.payload_header, f, le_u32(f, 276) as int)
        &&& segment_table_at(self.segment_headers@, f, table_start(f), table_count(f))
    }

    /// Opens the container whose whole contents are `file`.
    pub fn open(file: &[u8]) -> (r: Result<RoflFile, RoflError>)
        ensures
            match open_error(file@) {
                Some(e) => r is Err && r->Err_0 == e,
                None => r is Ok && r->Ok_0.read_from(file@),
            },
    {
        let n = file.len();
        let bin_header = match parse_bin_header(file) {
            Ok(h) => h,
            Err(e) => return Err(e),
        };
        let mo = bin_header.metadata_offset as u64;
        let ms = bin_header.metadata_size as u64;
        if mo + ms > n as u64 {
            return Err(RoflError::Bounds);
        }
        let metadata_json = copy_range(file, mo as usize, (mo + ms) as usize);
        if !is_json_document(metadata_json.as_slice()) {
            return Err(RoflError::MetadataDecode);
        }
        let pho = bin_header.payload_header_offset as u64;
        if pho + bin_header.payload_header_size as u64 > n as u64 {
            return Err(RoflError::Bounds);
        }
        let payload_header = match parse_payload_header(file, pho as usize) {
            Ok(h) => h,
            Err(e) => return Err(e),
        };
        let start = pho + bin_header.payload_offset as u64;
        let count = payload_header.chunk_count as u64 + payload_header.keyframe_count as u64;
        if start + SEGMENT_HEADER_SIZE as u64 * count > n as u64 {
            return Err(RoflError::Bounds);
        }
        let segment_headers = read_segment_table(file, start as usize, count as usize);
        Ok(RoflFile { bin_header, metadata_json, payload_header, segment_headers })
    }

    /// How many segments the table holds.
    pub fn segment_count(&self) -> (r: usize)
        ensures
            r == self.segment_headers@.len(),
    {
        self.segment_headers.len()
    }

    /// The key that decrypts every segment: the base64-decoded key text, itself
    /// decrypted under the decimal digits of the match id.
    pub open spec fn spec_chunk_key(&self) -> Result<Seq<u8>, RoflError> {
        match base64_decode_of(self.payload_header.encryption_key@) {
            None => Err(RoflError::KeyDecode),
            Some(raw) => spec_decrypt(raw, decimal_digits(self.payload_header.match_id as nat)),
        }
    }

    /// Derives the key that decrypts every segment.
    pub fn chunk_key(&self) -> (r: Result<Vec<u8>, RoflError>)
        ensures
            bytes_result(r) == self.spec_chunk_key(),
    {
        let raw_key = match decode_base64(self.payload_header.encryption_key.as_str()) {
            Ok(k) => k,
            Err(_) => return Err(RoflError::KeyDecode),
        };
        let match_id = decimal_string(self.payload_header.match_id);
        decrypt_blowfish(raw_key.as_slice(), match_id.as_slice())
    }

    /// Where the payload of segment `index` starts in the file: past the segment
    /// table, whose size the payload header's counts give.
    pub open spec fn segment_start(&self, index: int) -> int {
        self.bin_header.payload_header_offset + self.bin_header.payload_offset
            + SEGMENT_HEADER_SIZE * (self.payload_header.chunk_count
            + self.payload_header.keyframe_count) + self.segment_headers@[index].offset
    }

    /// What decoding segment `index` of the file `f` yields.
    pub open spec fn spec_segment_data(&self, f: Seq<u8>, index: int) -> Result<Seq<u8>, RoflError> {
        if index < 0 || index >= self.segment_headers@.len() {
            Err(RoflError::Index)
        } else if self.segment_start(index) + self.segment_headers@[index].length > f.len() {
            Err(RoflError::Bounds)
        } else {
            let start = self.segment_start(index);
            let encrypted = f.subrange(start, start + self.segment_headers@[index].length);
            match self.spec_chunk_key() {
                Err(e) => Err(e),
                Ok(key) => spec_decode_payload(encrypted, key),
            }
        }
    }

    /// Reads, decrypts and decompresses segment `index` of the file whose bytes are `file`.
    pub fn get_segment_data(&self, file: &[u8], index: usize) -> (r: Result<Vec<u8>, RoflError>)
        ensures
            bytes_result(r) == self.spec_segment_data(file@, index as int),
    {
        if index >= self.segment_headers.len() {
            return Err(RoflError::Index);
        }
        let header = self.segment_headers[index];
        let table_size = SEGMENT_HEADER_SIZE as u64 * (self.payload_header.chunk_count as u64
            + self.payload_header.keyframe_count as u64);
        let start = self.bin_header.payload_header_offset as u64
            + self.bin_header.payload_offset as u64 + table_size + header.offset as u64;
        if start + header.length as u64 > file.len() as u64 {
            return Err(RoflError::Bounds);
        }
        let encrypted = copy_range(file, start as usize, (start + header.length as u64) as usize);
        let key = match self.chunk_key() {
            Ok(k) => k,
            Err(e) => return Err(e),
        };
        decode_payload(encrypted.as_slice(), key.as_slice())
    }

    /// What parsing segment `index` of the file `f` yields.
    pub open spec fn spec_parse_segment(&self, f: Seq<u8>, index: int) -> Result<Seq<Section>, RoflError> {
        match self.spec_segment_data(f, index) {
            Err(e) => Err(e),
            Ok(d) => match spec_parse_sections(d) {
                Some(s) => Ok(s),
                None => Err(RoflError::TruncatedRecord),
            },
        }
    }

    /// Decodes segment `index` of the file whose bytes are `file` into its sections.
    pub fn parse_segment(&self, file: &[u8], index: usize) -> (r: Result<Vec<Section>, RoflError>)
        ensures
            sections_result(r) == self.spec_parse_segment(file@, index as int),
    {
        let data = match self.get_segment_data(file, index) {
            Ok(d) => d,
            Err(e) => return Err(e),
        };
        parse_sections(data.as_slice())
    }

    /// Decodes every segment in table order; a segment that fails to decode
    /// leaves its error in its place and does not stop the others.
    pub fn parse_all_segments(&self, file: &[u8]) -> (r: Vec<Result<Vec<Section>, RoflError>>)
        ensures
            r@.len() == self.segment_headers@.len(),
            forall|i: int|
                0 <= i < r@.len() ==> sections_result(#[trigger] r@[i]) == self.spec_parse_segment(
                    file@,
                    i,
                ),
    {
        let mut out: Vec<Result<Vec<Section>, RoflError>> = Vec::new();
        let mut i: usize = 0;
        while i < self.segment_headers.len()
            invariant
                i <= self.segment_headers@.len(),
                out@.len() == i,
                forall|j: int|
                    0 <= j < i ==> sections_result(#[trigger] out@[j]) == self.spec_parse_segment(
                        file@,
                        j,
                    ),
            decreases self.segment_headers@.len() - i,
        {
            out.push(self.parse_segment(file, i));
            i = i + 1;
        }
        out
    }
}

/// The sections of a successful result, as a sequence.
pub open spec fn sections_result(r: Result<Vec<Section>, RoflError>) -> Result<Seq<Section>, RoflError> {
    match r {
        Ok(v) => Ok(v@),
        Err(e) => Err(e),
    }
}

/// What decrypting a segment's bytes under the chunk key and decompressing them yields.
pub open spec fn spec_decode_payload(encrypted: Seq<u8>, key: Seq<u8>) -> Result<Seq<u8>, RoflError> {
    match spec_decrypt(encrypted, key) {
        Err(e) => Err(e),
        Ok(plain) => match gunzip_of(plain) {
            None => Err(RoflError::Decompression),
            Some(d) => Ok(d),
        },
    }
}

/// Decrypts a segment's bytes under the chunk key and decompresses them.
pub fn decode_payload(encrypted: &[u8], key: &[u8]) -> (r: Result<Vec<u8>, RoflError>)
    ensures
        bytes_result(r) == spec_decode_payload(encrypted@, key@),
{
    let plain = match decrypt_blowfish(encrypted, key) {
        Ok(p) => p,
        Err(e) => return Err(e),
    };
    decompress(plain.as_slice())
}

} // verus!

verus! {

/// A container laid out as header, metadata, payload header, segment table and
/// segment data opens, and reads back exactly the values it was built from.
#[verifier::rlimit(40)]
pub proof fn lemma_open_round_trip(
    h: BinHeader,
    metadata: Seq<u8>,
    ph: PayloadHeader,
    key: Seq<u8>,
    table: Seq<SegmentHeader>,
    data: Seq<u8>,
)
    requires
        h.signature@.len() == 256,
        h.metadata_offset == BIN_HEADER_SIZE,
        h.metadata_size == metadata.len(),
        h.payload_header_offset == BIN_HEADER_SIZE + metadata.len(),
        h.payload_header_size <= PAYLOAD_HEADER_FIXED_SIZE + key.len(),
        h.payload_offset == PAYLOAD_HEADER_FIXED_SIZE + key.len(),
        json_document(metadata),
        ph.encryption_key_length == key.len(),
        ph.encryption_key@ == utf8_lossy_of(key),
        ph.chunk_count + ph.keyframe_count == table.len(),
    ensures
        ({
            let f = encode_bin_header(h) + metadata + encode_payload_header(ph, key)
                + encode_segment_table(table) + data;
            &&& open_error(f) is None
            &&& bin_header_at(h, f)
            &&& f.subrange(metadata_range(f).0, metadata_range(f).1) == metadata
            &&& payload_header_at(ph, f, h.payload_header_offset as int)
            &&& segment_table_at(table, f, table_start(f), table_count(f))
        }),
{
    let b = encode_bin_header(h);
    let p = encode_payload_header(ph, key);
    let t = encode_segment_table(table);
    let f = b + metadata + p + t + data;
    lemma_segment_table_len(table);
    assert(b.len() == BIN_HEADER_SIZE);
    assert(p.len() == PAYLOAD_HEADER_FIXED_SIZE + key.len());
    assert(f =~= b + (metadata + p + t + data));
    lemma_bin_header_round_trip(h, metadata + p + t + data);
    assert(le_u32(f, 268) == h.metadata_offset);
    assert(le_u32(f, 272) == h.metadata_size);
    assert(le_u32(f, 276) == h.payload_header_offset);
    assert(le_u32(f, 284) == h.payload_offset);
    assert(f.subrange(metadata_range(f).0, metadata_range(f).1) =~= metadata);
    assert(f =~= (b + metadata) + p + (t + data));
    lemma_payload_header_round_trip(ph, key, b + metadata, t + data);
    assert(table_count(f) == table.len());
    assert(table_start(f) == (b + metadata + p).len());
    assert(f =~= (b + metadata + p) + t + data);
    lemma_segment_table_round_trip(table, b + metadata + p, data);
}

/// An opened container holds one table entry per chunk and keyframe that its
/// payload header counts, in the order the file stores them.
pub proof fn lemma_segment_count(r: RoflFile, f: Seq<u8>)
    requires
        r.read_from(f),
    ensures
        r.segment_headers@.len() == r.payload_header.chunk_count + r.payload_header.keyframe_count,
        forall|i: int|
            0 <= i < r.segment_headers@.len() ==> #[trigger] r.segment_headers@[i]
                == segment_header_at(
                f,
                r.bin_header.payload_header_offset + r.bin_header.payload_offset
                    + SEGMENT_HEADER_SIZE * i,
            ),
{
}

/// Decoding a segment past the end of the table fails with `Index`; one whose
/// byte range leaves the file fails with `Bounds`.
pub proof fn lemma_segment_errors(r: RoflFile, f: Seq<u8>, index: int)
    ensures
        index >= r.segment_headers@.len() ==> r.spec_segment_data(f, index) == Err::<
            Seq<u8>,
            RoflError,
        >(RoflError::Index),
        0 <= index < r.segment_headers@.len() && r.segment_start(index)
            + r.segment_headers@[index].length > f.len() ==> r.spec_segment_data(f, index) == Err::<
            Seq<u8>,
            RoflError,
        >(RoflError::Bounds),
        index >= r.segment_headers@.len() ==> r.spec_parse_segment(f, index) == Err::<
            Seq<Section>,
            RoflError,
        >(RoflError::Index),
{
}

/// A container whose header reads and whose metadata lies within the file, but
/// is no JSON document, does not open, and fails with `MetadataDecode`.
pub proof fn lemma_bad_metadata(f: Seq<u8>)
    requires
        bin_header_error(f) is None,
        metadata_range(f).1 <= f.len(),
        !json_document(f.subrange(metadata_range(f).0, metadata_range(f).1)),
    ensures
        open_error(f) == Some(RoflError::MetadataDecode),
{
}

} // verus!
