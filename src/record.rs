//! Typed records of a bookmark's data region.
//!
//! A typed record is an eight-byte header `{ length: u32 LE, tag: u32 LE }`
//! followed by `length` payload bytes. Offsets are relative to the start of
//! the data region.
use vstd::prelude::*;
use crate::bytes::{
    as_signed32, as_signed64, be_u64, copy_range, le_u32, le_u64, read_i32_le, read_i64_le,
    read_u32_le, read_u64_be,
};

verus! {

pub const TAG_STRING: u32 = 0x0101;

pub const TAG_DATA: u32 = 0x0201;

pub const TAG_INT32: u32 = 0x0303;

pub const TAG_INT64: u32 = 0x0304;

pub const TAG_DATE: u32 = 0x0400;

pub const TAG_TRUE: u32 = 0x0501;

pub const TAG_ARRAY: u32 = 0x0601;

pub const TAG_URL: u32 = 0x0901;

/// A typed record, dispatched on its tag.
#[derive(Debug)]
pub enum RecordValue {
    /// UTF-8 string bytes, as stored.
    Utf8(Vec<u8>),
    /// Opaque bytes.
    Data(Vec<u8>),
    Int32(i32),
    Int64(i64),
    /// Bit pattern of an IEEE-754 double, stored big-endian.
    Date(u64),
    True,
    /// Offsets of the element records.
    Array(Vec<u32>),
    /// Absolute URL, as UTF-8 bytes.
    Url(Vec<u8>),
    /// A tag this decoder does not interpret, or a payload too short for its tag.
    Unknown { tag: u32, bytes: Vec<u8> },
}

/// Mathematical form of a typed record.
pub enum RecordView {
    Utf8(Seq<u8>),
    Data(Seq<u8>),
    Int32(i32),
    Int64(i64),
    Date(u64),
    True,
    Array(Seq<u32>),
    Url(Seq<u8>),
    Unknown { tag: u32, bytes: Seq<u8> },
}

impl View for RecordValue {
    type V = RecordView;

    open spec fn view(&self) -> RecordView {
        match self {
            RecordValue::Utf8(b) => RecordView::Utf8(b@),
            RecordValue::Data(b) => RecordView::Data(b@),
            RecordValue::Int32(v) => RecordView::Int32(*v),
            RecordValue::Int64(v) => RecordView::Int64(*v),
            RecordValue::Date(v) => RecordView::Date(*v),
            RecordValue::True => RecordView::True,
            RecordValue::Array(offs) => RecordView::Array(offs@),
            RecordValue::Url(b) => RecordView::Url(b@),
            RecordValue::Unknown { tag, bytes } => RecordView::Unknown { tag: *tag, bytes: bytes@ },
        }
    }
}

/// The payload length field of the record at `off`.
pub open spec fn record_len(data: Seq<u8>, off: int) -> int {
    le_u32(data, off)
}

/// The tag field of the record at `off`.
pub open spec fn record_tag(data: Seq<u8>, off: int) -> int {
    le_u32(data, off + 4)
}

/// The record at `off` has its header and its whole payload inside `data`.
pub open spec fn record_in_bounds(data: Seq<u8>, off: int) -> bool {
    &&& 0 <= off
    &&& off + 8 <= data.len()
    &&& off + 8 + record_len(data, off) <= data.len()
}

pub open spec fn record_payload(data: Seq<u8>, off: int) -> Seq<u8> {
    data.subrange(off + 8, off + 8 + record_len(data, off))
}

/// The packed little-endian offsets of an array payload; a trailing
/// partial word is not an offset.
pub open spec fn array_offsets(p: Seq<u8>) -> Seq<u32> {
    Seq::new((p.len() / 4) as nat, |k: int| le_u32(p, 4 * k) as u32)
}

/// What a payload with the given tag means.
pub open spec fn classify(tag: u32, p: Seq<u8>) -> RecordView {
    if tag == TAG_STRING {
        RecordView::Utf8(p)
    } else if tag == TAG_DATA {
        RecordView::Data(p)
    } else if tag == TAG_INT32 && p.len() >= 4 {
        RecordView::Int32(as_signed32(le_u32(p, 0)) as i32)
    } else if tag == TAG_INT64 && p.len() >= 8 {
        RecordView::Int64(as_signed64(le_u64(p, 0)) as i64)
    } else if tag == TAG_DATE && p.len() >= 8 {
        RecordView::Date(be_u64(p, 0) as u64)
    } else if tag == TAG_TRUE {
        RecordView::True
    } else if tag == TAG_ARRAY {
        RecordView::Array(array_offsets(p))
    } else if tag == TAG_URL {
        RecordView::Url(p)
    } else {
        RecordView::Unknown { tag, bytes: p }
    }
}

/// The record at `off`, where it is in bounds.
pub open spec fn record_at(data: Seq<u8>, off: int) -> RecordView {
    classify(record_tag(data, off) as u32, record_payload(data, off))
}

fn read_offsets(p: &[u8]) -> (r: Vec<u32>)
    ensures
        r@ == array_offsets(p@),
{
    let plen: usize = p.len();
    let count: usize = plen / 4;
    let mut r: Vec<u32> = Vec::new();
    let mut k: usize = 0;
    while k < count
        invariant
            plen == p@.len(),
            count == plen / 4,
            k <= count,
            r@ == array_offsets(p@).subrange(0, k as int),
        decreases count - k,
    {
        let v: u32 = read_u32_le(p, 4 * k);
        r.push(v);
        k = k + 1;
        assert(r@ =~= array_offsets(p@).subrange(0, k as int));
    }
    assert(r@ =~= array_offsets(p@));
    r
}

/// Reads the typed record at `off`; `None` when its header or payload
/// runs past the end of `data`.
pub fn read_record(data: &[u8], off: usize) -> (r: Option<RecordValue>)
    ensures
        r is Some <==> record_in_bounds(data@, off as int),
        r matches Some(v) ==> v@ == record_at(data@, off as int),
{
    let n: usize = data.len();
    if off > n || n - off < 8 {
        return None;
    }
    let len: u32 = read_u32_le(data, off);
    let tag: u32 = read_u32_le(data, off + 4);
    if (len as usize) > n - off - 8 {
        return None;
    }
    let start: usize = off + 8;
    let end: usize = start + len as usize;
    let p: Vec<u8> = copy_range(data, start, end);
    let ps: &[u8] = p.as_slice();
    let v: RecordValue = if tag == TAG_STRING {
        RecordValue::Utf8(p)
    } else if tag == TAG_DATA {
        RecordValue::Data(p)
    } else if tag == TAG_INT32 && p.len() >= 4 {
        RecordValue::Int32(read_i32_le(ps, 0))
    } else if tag == TAG_INT64 && p.len() >= 8 {
        RecordValue::Int64(read_i64_le(ps, 0))
    } else if tag == TAG_DATE && p.len() >= 8 {
        RecordValue::Date(read_u64_be(ps, 0))
    } else if tag == TAG_TRUE {
        RecordValue::True
    } else if tag == TAG_ARRAY {
        RecordValue::Array(read_offsets(ps))
    } else if tag == TAG_URL {
        RecordValue::Url(p)
    } else {
        RecordValue::Unknown { tag, bytes: p }
    };
    Some(v)
}

} // verus!
