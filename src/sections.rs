//! The record stream inside a decompressed segment.
//!
//! Each record starts with a control byte whose bits choose, field by field,
//! between a compact and a full-width encoding:
//! `0x80` set: the time is a 1-byte millisecond delta, else a 4-byte float;
//! `0x10` set: the payload length is 1 byte, else 4;
//! `0x40` set: the type is carried over from the previous record, else 2 bytes;
//! `0x20` set: the parameter is 1 byte, else 4.
//! The opaque payload follows the fields and is skipped.
use crate::error::RoflError;
use crate::layout::{
    le_u16, le_u32, lemma_u16_round_trip, lemma_u32_round_trip, read_u16_le, read_u32_le,
    u16_bytes, u32_bytes,
};
use crate::types::{Section, SectionTime};
use vstd::prelude::*;

verus! {

pub open spec fn time_width(h: u8) -> int {
    if h & 0x80u8 == 0 {
        4
    } else {
        1
    }
}

pub open spec fn len_width(h: u8) -> int {
    if h & 0x10u8 == 0 {
        4
    } else {
        1
    }
}

pub open spec fn type_width(h: u8) -> int {
    if h & 0x40u8 == 0 {
        2
    } else {
        0
    }
}

pub open spec fn params_width(h: u8) -> int {
    if h & 0x20u8 == 0 {
        4
    } else {
        1
    }
}

/// Bytes taken by a record's control byte and fields, payload excluded.
pub open spec fn fields_width(h: u8) -> int {
    1 + time_width(h) + len_width(h) + type_width(h) + params_width(h)
}

/// The record whose control byte is `d[pos]`, given the type of the record before it.
pub open spec fn record_at(d: Seq<u8>, pos: int, last_type: u16) -> Section {
    let h = d[pos];
    let t = pos + 1;
    let l = t + time_width(h);
    let y = l + len_width(h);
    let p = y + type_width(h);
    Section {
        time: if h & 0x80u8 == 0 {
            SectionTime::Absolute(le_u32(d, t))
        } else {
            SectionTime::SinceLast(d[t])
        },
        data_len: if h & 0x10u8 == 0 {
            le_u32(d, l)
        } else {
            d[l] as u32
        },
        type_id: if h & 0x40u8 == 0 {
            le_u16(d, y)
        } else {
            last_type
        },
        params: if h & 0x20u8 == 0 {
            le_u32(d, p)
        } else {
            d[p] as u32
        },
    }
}

/// The sections of `d[pos..]`, or `None` where the stream ends inside a record.
pub open spec fn parse_records(d: Seq<u8>, pos: int, last_type: u16) -> Option<Seq<Section>>
    decreases d.len() - pos,
{
    if pos < 0 || pos >= d.len() {
        Some(Seq::empty())
    } else if pos + fields_width(d[pos]) > d.len() {
        None
    } else {
        let s = record_at(d, pos, last_type);
        let next = pos + fields_width(d[pos]) + s.data_len;
        if next > d.len() {
            None
        } else {
            match parse_records(d, next, s.type_id) {
                Some(rest) => Some(seq![s] + rest),
                None => None,
            }
        }
    }
}

/// The sections of a whole segment: the type carried over starts at 0.
pub open spec fn spec_parse_sections(d: Seq<u8>) -> Option<Seq<Section>> {
    parse_records(d, 0, 0)
}

pub open spec fn prepend(p: Seq<Section>, r: Option<Seq<Section>>) -> Option<Seq<Section>> {
    match r {
        Some(s) => Some(p + s),
        None => None,
    }
}

/// Decodes a segment's record stream into its sections, in stream order.
pub fn parse_sections(data: &[u8]) -> (r: Result<Vec<Section>, RoflError>)
    ensures
        match spec_parse_sections(data@) {
            Some(s) => r is Ok && r->Ok_0@ == s,
            None => r == Err::<Vec<Section>, RoflError>(RoflError::TruncatedRecord),
        },
{
    let n = data.len();
    let mut out: Vec<Section> = Vec::new();
    let mut pos: usize = 0;
    let mut last_type: u16 = 0;
    while pos < n
        invariant
            n == data@.len(),
            pos <= n,
            prepend(out@, parse_records(data@, pos as int, last_type)) == spec_parse_sections(
                data@,
            ),
        decreases n - pos,
    {
        let h = data[pos];
        let tw: usize = if h & 0x80u8 == 0 { 4 } else { 1 };
        let lw: usize = if h & 0x10u8 == 0 { 4 } else { 1 };
        let yw: usize = if h & 0x40u8 == 0 { 2 } else { 0 };
        let pw: usize = if h & 0x20u8 == 0 { 4 } else { 1 };
        let fields = 1 + tw + lw + yw + pw;
        if fields > n - pos {
            return Err(RoflError::TruncatedRecord);
        }
        let t = pos + 1;
        let l = t + tw;
        let y = l + lw;
        let p = y + yw;
        let time = if h & 0x80u8 == 0 {
            SectionTime::Absolute(read_u32_le(data, t))
        } else {
            SectionTime::SinceLast(data[t])
        };
        let data_len = if h & 0x10u8 == 0 {
            read_u32_le(data, l)
        } else {
            data[l] as u32
        };
        let type_id = if h & 0x40u8 == 0 {
            read_u16_le(data, y)
        } else {
            last_type
        };
        let params = if h & 0x20u8 == 0 {
            read_u32_le(data, p)
        } else {
            data[p] as u32
        };
        let s = Section { time, data_len, type_id, params };
        assert(s == record_at(data@, pos as int, last_type));
        if data_len as usize > n - pos - fields {
            return Err(RoflError::TruncatedRecord);
        }
        let next = pos + fields + data_len as usize;
        proof {
            let rest = parse_records(data@, next as int, type_id);
            if let Some(tail) = rest {
                assert(out@ + (seq![s] + tail) =~= out@.push(s) + tail);
            }
        }
        out.push(s);
        last_type = type_id;
        pos = next;
    }
    Ok(out)
}

/// How state threads through a stream: the first record's type is explicit or,
/// with `0x40` set, the carried-over one; and the records after it are parsed
/// from where its payload ends, with its type carried over.
pub proof fn lemma_first_record(d: Seq<u8>, pos: int, last_type: u16)
    requires
        0 <= pos < d.len(),
        parse_records(d, pos, last_type) is Some,
    ensures
        ({
            let s = parse_records(d, pos, last_type)->Some_0;
            let h = d[pos];
            let next = pos + fields_width(h) + s[0].data_len;
            &&& s.len() >= 1
            &&& s[0] == record_at(d, pos, last_type)
            &&& (h & 0x40u8 != 0 ==> s[0].type_id == last_type)
            &&& (h & 0x40u8 == 0 ==> s[0].type_id == le_u16(
                d,
                pos + 1 + time_width(h) + len_width(h),
            ))
            &&& next <= d.len()
            &&& parse_records(d, next, s[0].type_id) == Some(s.drop_first())
        }),
{
    let s = parse_records(d, pos, last_type)->Some_0;
    let r = record_at(d, pos, last_type);
    let next = pos + fields_width(d[pos]) + r.data_len;
    let rest = parse_records(d, next, r.type_id)->Some_0;
    assert(s == seq![r] + rest);
    assert(s.drop_first() =~= rest);
}

/// A record with every field at full width (control byte `0x00`).
pub open spec fn encode_full_record(
    time_bits: u32,
    type_id: u16,
    params: u32,
    payload: Seq<u8>,
) -> Seq<u8> {
    seq![0x00u8] + u32_bytes(time_bits) + u32_bytes(payload.len() as u32) + u16_bytes(type_id)
        + u32_bytes(params) + payload
}

/// A record with a millisecond delta, a 1-byte length, the type carried over
/// and a full-width parameter (control byte `0xD0`).
pub open spec fn encode_compact_record(millis: u8, params: u32, payload: Seq<u8>) -> Seq<u8> {
    seq![0xd0u8, millis, payload.len() as u8] + u32_bytes(params) + payload
}

/// A full-width record followed by a compact one parses to two sections, the
/// second carrying the first one's type and its time as a delta after the first.
pub proof fn lemma_full_then_compact(
    time_bits: u32,
    type_id: u16,
    params: u32,
    payload: Seq<u8>,
    millis: u8,
    params2: u32,
    payload2: Seq<u8>,
)
    requires
        payload.len() <= u32::MAX,
        payload2.len() <= u8::MAX,
    ensures
        spec_parse_sections(
            encode_full_record(time_bits, type_id, params, payload) + encode_compact_record(
                millis,
                params2,
                payload2,
            ),
        ) == Some(
            seq![
                Section {
                    time: SectionTime::Absolute(time_bits),
                    data_len: payload.len() as u32,
                    type_id,
                    params,
                },
                Section {
                    time: SectionTime::SinceLast(millis),
                    data_len: payload2.len() as u32,
                    type_id,
                    params: params2,
                },
            ],
        ),
{
    let r1 = encode_full_record(time_bits, type_id, params, payload);
    let r2 = encode_compact_record(millis, params2, payload2);
    let d = r1 + r2;
    let n1 = r1.len() as int;
    let len1 = payload.len() as u32;
    let len2 = payload2.len() as u8;
    let full: u8 = 0x00;
    let compact: u8 = 0xd0;
    assert(full & 0x80u8 == 0 && full & 0x10u8 == 0 && full & 0x40u8 == 0 && full & 0x20u8 == 0)
        by (bit_vector)
        requires
            full == 0x00u8,
    ;
    assert(compact & 0x80u8 != 0 && compact & 0x10u8 != 0 && compact & 0x40u8 != 0 && compact
        & 0x20u8 == 0) by (bit_vector)
        requires
            compact == 0xd0u8,
    ;
    assert(d[0] == full);
    assert(d.subrange(1, 5) =~= u32_bytes(time_bits));
    assert(d.subrange(5, 9) =~= u32_bytes(len1));
    assert(d.subrange(9, 11) =~= u16_bytes(type_id));
    assert(d.subrange(11, 15) =~= u32_bytes(params));
    lemma_u32_round_trip(time_bits, d, 1);
    lemma_u32_round_trip(len1, d, 5);
    lemma_u16_round_trip(type_id, d, 9);
    lemma_u32_round_trip(params, d, 11);
    assert(n1 == 15 + payload.len());
    assert(d[n1] == compact);
    assert(d[n1 + 1] == millis);
    assert(d[n1 + 2] == len2);
    assert(d.subrange(n1 + 3, n1 + 7) =~= u32_bytes(params2));
    lemma_u32_round_trip(params2, d, n1 + 3);
    let s1 = Section {
        time: SectionTime::Absolute(time_bits),
        data_len: len1,
        type_id,
        params,
    };
    let s2 = Section {
        time: SectionTime::SinceLast(millis),
        data_len: len2 as u32,
        type_id,
        params: params2,
    };
    assert(record_at(d, 0, 0) == s1);
    assert(record_at(d, n1, type_id) == s2);
    assert(parse_records(d, d.len() as int, type_id) == Some(Seq::<Section>::empty()));
    assert(parse_records(d, n1, type_id) == Some(seq![s2] + Seq::<Section>::empty()));
    assert(seq![s2] + Seq::<Section>::empty() =~= seq![s2]);
    assert(parse_records(d, 0, 0) == Some(seq![s1] + seq![s2]));
    assert(seq![s1] + seq![s2] =~= seq![s1, s2]);
}

} // verus!
