//! The container header, the payload header and the segment table.
use crate::error::RoflError;
use crate::layout::{
    copy_range, le_u16, le_u32, le_u64, lemma_u16_round_trip, lemma_u32_round_trip,
    lemma_u64_round_trip, read_u16_le, read_u32_le, read_u64_le, u16_bytes, u32_bytes, u64_bytes,
};
use crate::types::{BinHeader, PayloadHeader, SegmentHeader};
use vstd::prelude::*;

verus! {

/// Bytes in the container header: magic, padding, signature and seven integers.
pub const BIN_HEADER_SIZE: usize = 288;

/// Bytes in the payload header before the key text.
pub const PAYLOAD_HEADER_FIXED_SIZE: usize = 34;

/// Bytes in one entry of the segment table.
pub const SEGMENT_HEADER_SIZE: usize = 17;

/// What `String::from_utf8_lossy` makes of a byte string.
pub uninterp spec fn utf8_lossy_of(b: Seq<u8>) -> Seq<char>;

/// Relies on `String::from_utf8_lossy`: invalid sequences become U+FFFD.
#[verifier::external_body]
fn utf8_lossy(b: &[u8]) -> (r: String)
    ensures
        r@ == utf8_lossy_of(b@),
{
    String::from_utf8_lossy(b).into_owned()
}

/// Whether the 4 bytes at the start spell `RIOT`.
pub open spec fn magic_ok(f: Seq<u8>) -> bool {
    f[0] == 0x52u8 && f[1] == 0x49u8 && f[2] == 0x4fu8 && f[3] == 0x54u8
}

/// Why the container header cannot be read from `f`, if it cannot.
pub open spec fn bin_header_error(f: Seq<u8>) -> Option<RoflError> {
    if f.len() < 4 {
        Some(RoflError::TruncatedInput)
    } else if !magic_ok(f) {
        Some(RoflError::Format)
    } else if f.len() < BIN_HEADER_SIZE {
        Some(RoflError::TruncatedInput)
    } else {
        None
    }
}

/// `h` holds the container header stored at the start of `f`.
pub open spec fn bin_header_at(h: BinHeader, f: Seq<u8>) -> bool {
    &&& h.signature@ == f.subrange(6, 262)
    &&& h.header_size == le_u16(f, 262)
    &&& h.file_size == le_u32(f, 264)
    &&& h.metadata_offset == le_u32(f, 268)
    &&& h.metadata_size == le_u32(f, 272)
    &&& h.payload_header_offset == le_u32(f, 276)
    &&& h.payload_header_size == le_u32(f, 280)
    &&& h.payload_offset == le_u32(f, 284)
}

/// Reads the container header at the start of the file.
pub fn parse_bin_header(f: &[u8]) -> (r: Result<BinHeader, RoflError>)
    ensures
        match bin_header_error(f@) {
            Some(e) => r is Err && r->Err_0 == e,
            None => r is Ok && bin_header_at(r->Ok_0, f@),
        },
{
    let n = f.len();
    if n < 4 {
        return Err(RoflError::TruncatedInput);
    }
    if !(f[0] == 0x52u8 && f[1] == 0x49u8 && f[2] == 0x4fu8 && f[3] == 0x54u8) {
        return Err(RoflError::Format);
    }
    if n < BIN_HEADER_SIZE {
        return Err(RoflError::TruncatedInput);
    }
    Ok(
        BinHeader {
            signature: copy_range(f, 6, 262),
            header_size: read_u16_le(f, 262),
            file_size: read_u32_le(f, 264),
            metadata_offset: read_u32_le(f, 268),
            metadata_size: read_u32_le(f, 272),
            payload_header_offset: read_u32_le(f, 276),
            payload_header_size: read_u32_le(f, 280),
            payload_offset: read_u32_le(f, 284),
        },
    )
}

/// The payload header at `off`, key text included, lies within `f`.
pub open spec fn payload_header_fits(f: Seq<u8>, off: int) -> bool {
    off + PAYLOAD_HEADER_FIXED_SIZE <= f.len() && off + PAYLOAD_HEADER_FIXED_SIZE + le_u16(
        f,
        off + 32,
    ) <= f.len()
}

/// `h` holds the payload header stored at `f[off..]`.
pub open spec fn payload_header_at(h: PayloadHeader, f: Seq<u8>, off: int) -> bool {
    let key_start = off + PAYLOAD_HEADER_FIXED_SIZE;
    &&& h.match_id == le_u64(f, off)
    &&& h.match_duration == le_u32(f, off + 8)
    &&& h.keyframe_count == le_u32(f, off + 12)
    &&& h.chunk_count == le_u32(f, off + 16)
    &&& h.last_chunk_id == le_u32(f, off + 20)
    &&& h.first_chunk_id == le_u32(f, off + 24)
    &&& h.keyframe_interval == le_u32(f, off + 28)
    &&& h.encryption_key_length == le_u16(f, off + 32)
    &&& h.encryption_key@ == utf8_lossy_of(
        f.subrange(key_start, key_start + h.encryption_key_length),
    )
}

/// Reads the payload header at `f[off..]`.
pub fn parse_payload_header(f: &[u8], off: usize) -> (r: Result<PayloadHeader, RoflError>)
    ensures
        payload_header_fits(f@, off as int) ==> r is Ok && payload_header_at(
            r->Ok_0,
            f@,
            off as int,
        ),
        !payload_header_fits(f@, off as int) ==> r is Err && r->Err_0 == RoflError::TruncatedInput,
{
    let n = f.len();
    if off > n || n - off < PAYLOAD_HEADER_FIXED_SIZE {
        return Err(RoflError::TruncatedInput);
    }
    let key_len = read_u16_le(f, off + 32);
    let key_start = off + PAYLOAD_HEADER_FIXED_SIZE;
    if key_len as usize > n - key_start {
        return Err(RoflError::TruncatedInput);
    }
    let key_bytes = copy_range(f, key_start, key_start + key_len as usize);
    Ok(
        PayloadHeader {
            match_id: read_u64_le(f, off),
            match_duration: read_u32_le(f, off + 8),
            keyframe_count: read_u32_le(f, off + 12),
            chunk_count: read_u32_le(f, off + 16),
            last_chunk_id: read_u32_le(f, off + 20),
            first_chunk_id: read_u32_le(f, off + 24),
            keyframe_interval: read_u32_le(f, off + 28),
            encryption_key_length: key_len,
            encryption_key: utf8_lossy(key_bytes.as_slice()),
        },
    )
}

/// The segment-table entry stored at `f[off..off + 17]`.
pub open spec fn segment_header_at(f: Seq<u8>, off: int) -> SegmentHeader {
    // The slice's length is a usize, so the offsets below cannot overflow.
    let _len = f.len();
    SegmentHeader {
        segment_id: le_u32(f, off),
        segment_type: f[off + 4],
        length: le_u32(f, off + 5),
        chunk_id: le_u32(f, off + 9),
        offset: le_u32(f, off + 13),
    }
}

/// Reads one segment-table entry.
pub fn parse_segment_header(f: &[u8], off: usize) -> (r: SegmentHeader)
    requires
        off + SEGMENT_HEADER_SIZE <= f@.len(),
    ensures
        r == segment_header_at(f@, off as int),
{
    // The slice's length is a usize, so the offsets below cannot overflow.
    let _len = f.len();
    SegmentHeader {
        segment_id: read_u32_le(f, off),
        segment_type: f[off + 4],
        length: read_u32_le(f, off + 5),
        chunk_id: read_u32_le(f, off + 9),
        offset: read_u32_le(f, off + 13),
    }
}

/// `t` holds the `count` entries of the segment table at `f[start..]`, in file order.
pub open spec fn segment_table_at(t: Seq<SegmentHeader>, f: Seq<u8>, start: int, count: int) -> bool {
    &&& t.len() == count
    &&& forall|i: int|
        0 <= i < count ==> #[trigger] t[i] == segment_header_at(f, start + SEGMENT_HEADER_SIZE * i)
}

/// Reads `count` consecutive segment-table entries starting at `f[start..]`.
pub fn read_segment_table(f: &[u8], start: usize, count: usize) -> (r: Vec<SegmentHeader>)
    requires
        start + SEGMENT_HEADER_SIZE * count <= f@.len(),
    ensures
        segment_table_at(r@, f@, start as int, count as int),
{
    let n = f.len();
    let mut t: Vec<SegmentHeader> = Vec::new();
    let mut i: usize = 0;
    let mut off: usize = start;
    while i < count
        invariant
            n == f@.len(),
            start + SEGMENT_HEADER_SIZE * count <= n,
            i <= count,
            off == start + SEGMENT_HEADER_SIZE * i,
            segment_table_at(t@, f@, start as int, i as int),
        decreases count - i,
    {
        proof {
            assert(SEGMENT_HEADER_SIZE * i + SEGMENT_HEADER_SIZE <= SEGMENT_HEADER_SIZE * count)
                by (nonlinear_arith)
                requires
                    i < count,
            ;
        }
        t.push(parse_segment_header(f, off));
        i = i + 1;
        off = off + SEGMENT_HEADER_SIZE;
    }
    t
}

/// The bytes of a container header holding the fields of `h`.
pub open spec fn encode_bin_header(h: BinHeader) -> Seq<u8> {
    seq![0x52u8, 0x49u8, 0x4fu8, 0x54u8, 0u8, 0u8] + h.signature@ + u16_bytes(h.header_size)
        + u32_bytes(h.file_size) + u32_bytes(h.metadata_offset) + u32_bytes(h.metadata_size)
        + u32_bytes(h.payload_header_offset) + u32_bytes(h.payload_header_size) + u32_bytes(
        h.payload_offset,
    )
}

/// A container header written out field by field reads back as the same fields,
/// whatever follows it.
pub proof fn lemma_bin_header_round_trip(h: BinHeader, rest: Seq<u8>)
    requires
        h.signature@.len() == 256,
    ensures
        bin_header_error(encode_bin_header(h) + rest) is None,
        bin_header_at(h, encode_bin_header(h) + rest),
{
    let f = encode_bin_header(h) + rest;
    assert(f.subrange(6, 262) =~= h.signature@);
    assert(f.subrange(262, 264) =~= u16_bytes(h.header_size));
    assert(f.subrange(264, 268) =~= u32_bytes(h.file_size));
    assert(f.subrange(268, 272) =~= u32_bytes(h.metadata_offset));
    assert(f.subrange(272, 276) =~= u32_bytes(h.metadata_size));
    assert(f.subrange(276, 280) =~= u32_bytes(h.payload_header_offset));
    assert(f.subrange(280, 284) =~= u32_bytes(h.payload_header_size));
    assert(f.subrange(284, 288) =~= u32_bytes(h.payload_offset));
    lemma_u16_round_trip(h.header_size, f, 262);
    lemma_u32_round_trip(h.file_size, f, 264);
    lemma_u32_round_trip(h.metadata_offset, f, 268);
    lemma_u32_round_trip(h.metadata_size, f, 272);
    lemma_u32_round_trip(h.payload_header_offset, f, 276);
    lemma_u32_round_trip(h.payload_header_size, f, 280);
    lemma_u32_round_trip(h.payload_offset, f, 284);
}

/// The bytes of a payload header holding the fields of `h` and the key bytes `key`.
pub open spec fn encode_payload_header(h: PayloadHeader, key: Seq<u8>) -> Seq<u8> {
    u64_bytes(h.match_id) + u32_bytes(h.match_duration) + u32_bytes(h.keyframe_count) + u32_bytes(
        h.chunk_count,
    ) + u32_bytes(h.last_chunk_id) + u32_bytes(h.first_chunk_id) + u32_bytes(h.keyframe_interval)
        + u16_bytes(h.encryption_key_length) + key
}

/// A payload header written out at any offset reads back as the same fields,
/// its key text being the key bytes decoded as UTF-8.
pub proof fn lemma_payload_header_round_trip(
    h: PayloadHeader,
    key: Seq<u8>,
    before: Seq<u8>,
    rest: Seq<u8>,
)
    requires
        h.encryption_key_length == key.len(),
        h.encryption_key@ == utf8_lossy_of(key),
    ensures
        payload_header_fits(before + encode_payload_header(h, key) + rest, before.len() as int),
        payload_header_at(h, before + encode_payload_header(h, key) + rest, before.len() as int),
{
    let f = before + encode_payload_header(h, key) + rest;
    let o = before.len() as int;
    assert(f.subrange(o, o + 8) =~= u64_bytes(h.match_id));
    assert(f.subrange(o + 8, o + 12) =~= u32_bytes(h.match_duration));
    assert(f.subrange(o + 12, o + 16) =~= u32_bytes(h.keyframe_count));
    assert(f.subrange(o + 16, o + 20) =~= u32_bytes(h.chunk_count));
    assert(f.subrange(o + 20, o + 24) =~= u32_bytes(h.last_chunk_id));
    assert(f.subrange(o + 24, o + 28) =~= u32_bytes(h.first_chunk_id));
    assert(f.subrange(o + 28, o + 32) =~= u32_bytes(h.keyframe_interval));
    assert(f.subrange(o + 32, o + 34) =~= u16_bytes(h.encryption_key_length));
    lemma_u64_round_trip(h.match_id, f, o);
    lemma_u32_round_trip(h.match_duration, f, o + 8);
    lemma_u32_round_trip(h.keyframe_count, f, o + 12);
    lemma_u32_round_trip(h.chunk_count, f, o + 16);
    lemma_u32_round_trip(h.last_chunk_id, f, o + 20);
    lemma_u32_round_trip(h.first_chunk_id, f, o + 24);
    lemma_u32_round_trip(h.keyframe_interval, f, o + 28);
    lemma_u16_round_trip(h.encryption_key_length, f, o + 32);
    assert(f.subrange(o + 34, o + 34 + key.len()) =~= key);
}

/// The 17 bytes of a segment-table entry holding the fields of `h`.
pub open spec fn encode_segment_header(h: SegmentHeader) -> Seq<u8> {
    u32_bytes(h.segment_id) + seq![h.segment_type] + u32_bytes(h.length) + u32_bytes(h.chunk_id)
        + u32_bytes(h.offset)
}

/// A segment-table entry written out at any offset reads back as the same entry.
pub proof fn lemma_segment_header_round_trip(h: SegmentHeader, before: Seq<u8>, rest: Seq<u8>)
    ensures
        segment_header_at(before + encode_segment_header(h) + rest, before.len() as int) == h,
{
    let f = before + encode_segment_header(h) + rest;
    let o = before.len() as int;
    assert(f.subrange(o, o + 4) =~= u32_bytes(h.segment_id));
    assert(f[o + 4] == h.segment_type);
    assert(f.subrange(o + 5, o + 9) =~= u32_bytes(h.length));
    assert(f.subrange(o + 9, o + 13) =~= u32_bytes(h.chunk_id));
    assert(f.subrange(o + 13, o + 17) =~= u32_bytes(h.offset));
    lemma_u32_round_trip(h.segment_id, f, o);
    lemma_u32_round_trip(h.length, f, o + 5);
    lemma_u32_round_trip(h.chunk_id, f, o + 9);
    lemma_u32_round_trip(h.offset, f, o + 13);
}

/// The bytes of a segment table holding the entries `hs`, in order.
pub open spec fn encode_segment_table(hs: Seq<SegmentHeader>) -> Seq<u8>
    decreases hs.len(),
{
    if hs.len() == 0 {
        Seq::empty()
    } else {
        encode_segment_table(hs.drop_last()) + encode_segment_header(hs.last())
    }
}

pub proof fn lemma_segment_table_len(hs: Seq<SegmentHeader>)
    ensures
        encode_segment_table(hs).len() == SEGMENT_HEADER_SIZE * hs.len(),
    decreases hs.len(),
{
    if hs.len() > 0 {
        lemma_segment_table_len(hs.drop_last());
    }
}

/// A segment table written out entry by entry reads back as the same entries,
/// in the same order.
pub proof fn lemma_segment_table_round_trip(hs: Seq<SegmentHeader>, before: Seq<u8>, rest: Seq<u8>)
    ensures
        segment_table_at(
            hs,
            before + encode_segment_table(hs) + rest,
            before.len() as int,
            hs.len() as int,
        ),
    decreases hs.len(),
{
    if hs.len() > 0 {
        let init = hs.drop_last();
        let last = encode_segment_header(hs.last());
        let f = before + encode_segment_table(hs) + rest;
        assert(f =~= before + encode_segment_table(init) + (last + rest));
        assert(f =~= (before + encode_segment_table(init)) + last + rest);
        lemma_segment_table_round_trip(init, before, last + rest);
        lemma_segment_header_round_trip(hs.last(), before + encode_segment_table(init), rest);
        lemma_segment_table_len(init);
        assert forall|i: int| 0 <= i < hs.len() implies #[trigger] hs[i] == segment_header_at(
            f,
            before.len() + SEGMENT_HEADER_SIZE * i,
        ) by {
            if i < init.len() {
                assert(hs[i] == init[i]);
            }
        }
    }
}

} // verus!
