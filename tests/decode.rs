use base64::Engine;
use blowfish::cipher::generic_array::GenericArray;
use blowfish::cipher::{BlockEncrypt, KeyInit};
use blowfish::Blowfish;
use byteorder::LittleEndian;
use flate2::write::GzEncoder;
use flate2::Compression;
use std::io::Write;

use mdr::codec::{decimal_string, decompress};
use mdr::container::decode_payload;
use mdr::crypto::remove_padding;
use mdr::header::{parse_bin_header, parse_payload_header, parse_segment_header};
use mdr::sections::parse_sections;
use mdr::{decrypt_blowfish, RoflError, RoflFile, Section, SectionTime, SegmentHeader};

const MATCH_ID: u64 = 7610660427;
const CHUNK_KEY: &[u8] = b"0123456789abcdef";

fn encrypt(data: &[u8], key: &[u8]) -> Vec<u8> {
    let cipher = Blowfish::<LittleEndian>::new_from_slice(key).unwrap();
    let mut out = data.to_vec();
    for chunk in out.chunks_mut(8) {
        let mut block = GenericArray::clone_from_slice(chunk);
        cipher.encrypt_block(&mut block);
        chunk.copy_from_slice(&block);
    }
    out
}

fn pad(data: &[u8]) -> Vec<u8> {
    let p = 8 - data.len() % 8;
    let mut out = data.to_vec();
    out.extend(std::iter::repeat(p as u8).take(p));
    out
}

fn gzip(data: &[u8]) -> Vec<u8> {
    let mut enc = GzEncoder::new(Vec::new(), Compression::default());
    enc.write_all(data).unwrap();
    enc.finish().unwrap()
}

fn record_stream() -> Vec<u8> {
    let mut d = vec![0x00u8];
    d.extend_from_slice(&1.5f32.to_le_bytes());
    d.extend_from_slice(&2u32.to_le_bytes());
    d.extend_from_slice(&0x1234u16.to_le_bytes());
    d.extend_from_slice(&7u32.to_le_bytes());
    d.extend_from_slice(&[0xaa, 0xbb]);
    d.push(0xd0);
    d.push(250);
    d.push(1);
    d.extend_from_slice(&9u32.to_le_bytes());
    d.push(0xcc);
    d
}

fn encoded_key() -> String {
    let raw = encrypt(&pad(CHUNK_KEY), MATCH_ID.to_string().as_bytes());
    base64::engine::general_purpose::STANDARD.encode(raw)
}

struct Fixture {
    metadata: Vec<u8>,
    key_text: Vec<u8>,
    segments: Vec<(u32, u8, Vec<u8>)>,
    chunk_count: u32,
    keyframe_count: u32,
}

impl Fixture {
    fn standard() -> Fixture {
        let seg0 = encrypt(&pad(&gzip(&record_stream())), CHUNK_KEY);
        let seg1 = encrypt(&pad(&gzip(&[])), CHUNK_KEY);
        Fixture {
            metadata: br#"{"gameLength":1800000,"gameVersion":"14.1.555","lastGameChunkId":30,"lastKeyFrameId":15,"statsJson":"[]"}"#.to_vec(),
            key_text: encoded_key().into_bytes(),
            segments: vec![(1, 1, seg0), (2, 2, seg1)],
            chunk_count: 1,
            keyframe_count: 1,
        }
    }

    fn build(&self) -> Vec<u8> {
        let metadata_offset = 288u32;
        let payload_header_offset = metadata_offset + self.metadata.len() as u32;
        let payload_header_size = 34 + self.key_text.len() as u32;
        let mut f = b"RIOT".to_vec();
        f.extend_from_slice(&[0, 0]);
        f.extend((0..256).map(|i| i as u8));
        f.extend_from_slice(&288u16.to_le_bytes());
        f.extend_from_slice(&0xdeadu32.to_le_bytes());
        f.extend_from_slice(&metadata_offset.to_le_bytes());
        f.extend_from_slice(&(self.metadata.len() as u32).to_le_bytes());
        f.extend_from_slice(&payload_header_offset.to_le_bytes());
        f.extend_from_slice(&payload_header_size.to_le_bytes());
        f.extend_from_slice(&payload_header_size.to_le_bytes());
        f.extend_from_slice(&self.metadata);
        f.extend_from_slice(&MATCH_ID.to_le_bytes());
        f.extend_from_slice(&1234u32.to_le_bytes());
        f.extend_from_slice(&self.keyframe_count.to_le_bytes());
        f.extend_from_slice(&self.chunk_count.to_le_bytes());
        f.extend_from_slice(&30u32.to_le_bytes());
        f.extend_from_slice(&1u32.to_le_bytes());
        f.extend_from_slice(&60000u32.to_le_bytes());
        f.extend_from_slice(&(self.key_text.len() as u16).to_le_bytes());
        f.extend_from_slice(&self.key_text);
        let mut offset = 0u32;
        for (id, kind, bytes) in &self.segments {
            f.extend_from_slice(&id.to_le_bytes());
            f.push(*kind);
            f.extend_from_slice(&(bytes.len() as u32).to_le_bytes());
            f.extend_from_slice(&(id * 10).to_le_bytes());
            f.extend_from_slice(&offset.to_le_bytes());
            offset += bytes.len() as u32;
        }
        for (_, _, bytes) in &self.segments {
            f.extend_from_slice(bytes);
        }
        f
    }
}

fn times(sections: &[Section]) -> Vec<f32> {
    let mut last = 0.0f32;
    sections
        .iter()
        .map(|s| {
            last = match s.time {
                SectionTime::Absolute(bits) => f32::from_bits(bits),
                SectionTime::SinceLast(ms) => last + ms as f32 / 1000.0,
            };
            last
        })
        .collect()
}

#[test]
fn open_reads_header_fields() {
    let fx = Fixture::standard();
    let file = fx.build();
    let rofl = RoflFile::open(&file).unwrap();
    let h = &rofl.bin_header;
    assert_eq!(h.signature, (0..256).map(|i| i as u8).collect::<Vec<u8>>());
    assert_eq!(h.header_size, 288);
    assert_eq!(h.file_size, 0xdead);
    assert_eq!(h.metadata_offset, 288);
    assert_eq!(h.metadata_size as usize, fx.metadata.len());
    assert_eq!(h.payload_header_offset as usize, 288 + fx.metadata.len());
    assert_eq!(h.payload_offset as usize, 34 + fx.key_text.len());
    assert_eq!(rofl.metadata_json, fx.metadata);
    let p = &rofl.payload_header;
    assert_eq!(p.match_id, MATCH_ID);
    assert_eq!(p.match_duration, 1234);
    assert_eq!(p.keyframe_count, 1);
    assert_eq!(p.chunk_count, 1);
    assert_eq!(p.last_chunk_id, 30);
    assert_eq!(p.first_chunk_id, 1);
    assert_eq!(p.keyframe_interval, 60000);
    assert_eq!(p.encryption_key_length as usize, fx.key_text.len());
    assert_eq!(p.encryption_key, encoded_key());
}

#[test]
fn segment_table_in_file_order() {
    let fx = Fixture::standard();
    let file = fx.build();
    let rofl = RoflFile::open(&file).unwrap();
    assert_eq!(rofl.segment_count(), 2);
    assert_eq!(
        rofl.segment_count(),
        (rofl.payload_header.chunk_count + rofl.payload_header.keyframe_count) as usize
    );
    let s0 = rofl.segment_headers[0];
    let s1 = rofl.segment_headers[1];
    assert_eq!((s0.segment_id, s0.segment_type, s0.chunk_id, s0.offset), (1, 1, 10, 0));
    assert_eq!(s0.length as usize, fx.segments[0].2.len());
    assert_eq!((s1.segment_id, s1.segment_type, s1.chunk_id), (2, 2, 20));
    assert_eq!(s1.offset as usize, fx.segments[0].2.len());
    assert!(s0.is_chunk());
    assert!(!s1.is_chunk());
}

#[test]
fn empty_segment_table() {
    let mut fx = Fixture::standard();
    fx.segments.clear();
    fx.chunk_count = 0;
    fx.keyframe_count = 0;
    let rofl = RoflFile::open(&fx.build()).unwrap();
    assert_eq!(rofl.segment_count(), 0);
}

#[test]
fn parse_segment_end_to_end() {
    let file = Fixture::standard().build();
    let rofl = RoflFile::open(&file).unwrap();
    assert_eq!(rofl.chunk_key().unwrap(), CHUNK_KEY.to_vec());
    assert_eq!(rofl.get_segment_data(&file, 0).unwrap(), record_stream());
    let sections = rofl.parse_segment(&file, 0).unwrap();
    assert_eq!(sections.len(), 2);
    assert_eq!(sections[0].type_id, 0x1234);
    assert_eq!(sections[1].type_id, 0x1234);
    assert_eq!(rofl.parse_segment(&file, 1).unwrap(), Vec::<Section>::new());
}

#[test]
fn parse_all_segments_keeps_each_result() {
    let mut fx = Fixture::standard();
    fx.segments[1].2 = encrypt(&pad(b"not gzip"), CHUNK_KEY);
    let file = fx.build();
    let rofl = RoflFile::open(&file).unwrap();
    let all = rofl.parse_all_segments(&file);
    assert_eq!(all.len(), 2);
    assert_eq!(all[0].as_ref().unwrap().len(), 2);
    assert_eq!(all[1], Err(RoflError::Decompression));
}

#[test]
fn crypto_round_trip() {
    let key = b"some key";
    for len in [0usize, 1, 7, 8, 9, 23, 64] {
        let plain: Vec<u8> = (0..len).map(|i| (i * 37 + 5) as u8).collect();
        let cipher = encrypt(&pad(&plain), key);
        assert_ne!(cipher, pad(&plain));
        assert_eq!(decrypt_blowfish(&cipher, key).unwrap(), plain);
    }
}

#[test]
fn misaligned_ciphertext_is_refused() {
    assert_eq!(decrypt_blowfish(&[0u8; 9], b"some key"), Err(RoflError::BlockAlignment));
    assert_eq!(decrypt_blowfish(&[0u8; 1], b"some key"), Err(RoflError::BlockAlignment));
}

#[test]
fn bad_key_length_is_refused() {
    assert_eq!(decrypt_blowfish(&[0u8; 8], b"abc"), Err(RoflError::InvalidKey));
    assert_eq!(decrypt_blowfish(&[0u8; 8], &[1u8; 57]), Err(RoflError::InvalidKey));
    assert_eq!(decrypt_blowfish(&[0u8; 9], b"abc"), Err(RoflError::InvalidKey));
    assert!(decrypt_blowfish(&[0u8; 8], &[1u8; 56]).is_ok());
    assert!(decrypt_blowfish(&[0u8; 8], b"abcd").is_ok());
}

#[test]
fn padding_removal() {
    let mut v = vec![1u8, 2, 3, 2];
    remove_padding(&mut v);
    assert_eq!(v, vec![1, 2]);
    let mut v = vec![1u8, 2, 0];
    remove_padding(&mut v);
    assert_eq!(v, vec![1, 2, 0]);
    let mut v = vec![1u8, 9];
    remove_padding(&mut v);
    assert_eq!(v, vec![1, 9]);
    let mut v = vec![3u8, 3, 3];
    remove_padding(&mut v);
    assert_eq!(v, Vec::<u8>::new());
    let mut v: Vec<u8> = vec![];
    remove_padding(&mut v);
    assert_eq!(v, Vec::<u8>::new());
}

#[test]
fn decompression_round_trip() {
    for data in [Vec::new(), b"hello hello hello".to_vec(), (0..5000).map(|i| (i % 251) as u8).collect()] {
        assert_eq!(decompress(&gzip(&data)).unwrap(), data);
    }
}

#[test]
fn corrupt_gzip_is_refused() {
    assert_eq!(decompress(b"not gzip at all"), Err(RoflError::Decompression));
    let mut g = gzip(b"hello hello hello");
    g.truncate(g.len() / 2);
    assert_eq!(decompress(&g), Err(RoflError::Decompression));
}

#[test]
fn decode_payload_decrypts_then_decompresses() {
    let stream = record_stream();
    let enc = encrypt(&pad(&gzip(&stream)), CHUNK_KEY);
    assert_eq!(decode_payload(&enc, CHUNK_KEY).unwrap(), stream);
    let not_gzip = encrypt(&pad(b"plain"), CHUNK_KEY);
    assert_eq!(decode_payload(&not_gzip, CHUNK_KEY), Err(RoflError::Decompression));
}

#[test]
fn two_records_carry_type_and_time() {
    let sections = parse_sections(&record_stream()).unwrap();
    assert_eq!(sections.len(), 2);
    assert_eq!(
        sections[0],
        Section { time: SectionTime::Absolute(1.5f32.to_bits()), data_len: 2, type_id: 0x1234, params: 7 }
    );
    assert_eq!(
        sections[1],
        Section { time: SectionTime::SinceLast(250), data_len: 1, type_id: 0x1234, params: 9 }
    );
    let t = times(&sections);
    assert_eq!(t[0], 1.5);
    assert_eq!(t[1], t[0] + 250.0 / 1000.0);
}

#[test]
fn compact_params_and_explicit_types() {
    // 0x20: one-byte params; 0x10: one-byte length; type explicit each time.
    let d = vec![0xb0u8, 10, 0, 5, 0, 3, 0xb0, 20, 0, 6, 0, 4];
    let sections = parse_sections(&d).unwrap();
    assert_eq!(sections.len(), 2);
    assert_eq!(sections[0], Section { time: SectionTime::SinceLast(10), data_len: 0, type_id: 5, params: 3 });
    assert_eq!(sections[1], Section { time: SectionTime::SinceLast(20), data_len: 0, type_id: 6, params: 4 });
    assert_eq!(times(&sections), vec![0.01f32, 0.01f32 + 0.02f32]);
}

#[test]
fn empty_stream_has_no_sections() {
    assert_eq!(parse_sections(&[]).unwrap(), Vec::<Section>::new());
}

#[test]
fn truncated_record_is_refused() {
    let full = record_stream();
    for cut in 1..full.len() {
        if cut == 17 {
            continue;
        }
        assert_eq!(parse_sections(&full[..cut]), Err(RoflError::TruncatedRecord), "cut {}", cut);
    }
    assert_eq!(parse_sections(&full[..17]).unwrap().len(), 1);
}

#[test]
fn index_past_table_is_refused() {
    let file = Fixture::standard().build();
    let rofl = RoflFile::open(&file).unwrap();
    assert_eq!(rofl.get_segment_data(&file, 2), Err(RoflError::Index));
    assert_eq!(rofl.parse_segment(&file, 99), Err(RoflError::Index));
}

#[test]
fn segment_past_file_end_is_refused() {
    let file = Fixture::standard().build();
    let rofl = RoflFile::open(&file).unwrap();
    let short = &file[..file.len() - 1];
    assert_eq!(rofl.get_segment_data(short, 1), Err(RoflError::Bounds));
    assert!(rofl.get_segment_data(short, 0).is_ok());
    let mut moved = RoflFile::open(&file).unwrap();
    moved.segment_headers[0] = SegmentHeader { offset: u32::MAX, ..moved.segment_headers[0] };
    assert_eq!(moved.parse_segment(&file, 0), Err(RoflError::Bounds));
}

#[test]
fn truncated_metadata_is_refused() {
    let mut fx = Fixture::standard();
    fx.metadata = br#"{"gameLength":1800000,"gameVers"#.to_vec();
    assert_eq!(RoflFile::open(&fx.build()).unwrap_err(), RoflError::MetadataDecode);
    fx.metadata = vec![0xff, 0xfe];
    assert_eq!(RoflFile::open(&fx.build()).unwrap_err(), RoflError::MetadataDecode);
}

#[test]
fn metadata_past_file_end_is_refused() {
    let mut file = Fixture::standard().build();
    file[272..276].copy_from_slice(&u32::MAX.to_le_bytes());
    assert_eq!(RoflFile::open(&file).unwrap_err(), RoflError::Bounds);
}

#[test]
fn payload_header_past_file_end_is_refused() {
    let mut file = Fixture::standard().build();
    let len = file.len() as u32;
    file[280..284].copy_from_slice(&len.to_le_bytes());
    assert_eq!(RoflFile::open(&file).unwrap_err(), RoflError::Bounds);
}

#[test]
fn segment_table_past_file_end_is_refused() {
    let mut fx = Fixture::standard();
    fx.keyframe_count = u32::MAX;
    assert_eq!(RoflFile::open(&fx.build()).unwrap_err(), RoflError::Bounds);
}

#[test]
fn bad_magic_and_short_file() {
    let mut file = Fixture::standard().build();
    assert_eq!(RoflFile::open(&file[..3]).unwrap_err(), RoflError::TruncatedInput);
    assert_eq!(RoflFile::open(&file[..100]).unwrap_err(), RoflError::TruncatedInput);
    assert_eq!(parse_bin_header(&file[..287]).unwrap_err(), RoflError::TruncatedInput);
    file[0] = b'X';
    assert_eq!(RoflFile::open(&file).unwrap_err(), RoflError::Format);
    assert_eq!(RoflFile::open(&file[..10]).unwrap_err(), RoflError::Format);
}

#[test]
fn payload_header_key_text() {
    let mut f = vec![0u8; 3];
    f.extend_from_slice(&42u64.to_le_bytes());
    f.extend_from_slice(&[0u8; 24]);
    f.extend_from_slice(&4u16.to_le_bytes());
    f.extend_from_slice(&[b'a', 0xff, b'b', b'c']);
    let p = parse_payload_header(&f, 3).unwrap();
    assert_eq!(p.match_id, 42);
    assert_eq!(p.encryption_key, "a\u{fffd}bc");
    assert_eq!(parse_payload_header(&f[..f.len() - 1], 3).unwrap_err(), RoflError::TruncatedInput);
    assert_eq!(parse_payload_header(&f, 4).unwrap_err(), RoflError::TruncatedInput);
}

#[test]
fn segment_header_layout() {
    let mut f = vec![9u8];
    f.extend_from_slice(&5u32.to_le_bytes());
    f.push(1);
    f.extend_from_slice(&100u32.to_le_bytes());
    f.extend_from_slice(&7u32.to_le_bytes());
    f.extend_from_slice(&0x01020304u32.to_le_bytes());
    let h = parse_segment_header(&f, 1);
    assert_eq!(h, SegmentHeader { segment_id: 5, segment_type: 1, length: 100, chunk_id: 7, offset: 0x01020304 });
}

#[test]
fn invalid_key_text_is_refused() {
    let mut fx = Fixture::standard();
    fx.key_text = b"%%%not base64%%%".to_vec();
    let file = fx.build();
    let rofl = RoflFile::open(&file).unwrap();
    assert_eq!(rofl.parse_segment(&file, 0), Err(RoflError::KeyDecode));
}

#[test]
fn decimal_match_id() {
    assert_eq!(decimal_string(0), b"0".to_vec());
    assert_eq!(decimal_string(7610660427), b"7610660427".to_vec());
    assert_eq!(decimal_string(u64::MAX), u64::MAX.to_string().into_bytes());
}

