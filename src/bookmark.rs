//! Decoder of Apple bookmark blobs.
//!
//! A bookmark starts with a 48-byte header: the signature `book`, the total
//! length, a version and the offset of the data region, which must be 48.
//! The data region opens with the offset of the table of contents (TOC).
//! The TOC lists `{ key, offset, reserved }` entries; each offset points at
//! a typed record, and the key says which field of the record it fills.
use vstd::prelude::*;
use crate::bytes::{copy_range, le_u32, le_u64, read_u32_le, read_u64_le};
use crate::error::LoginItemError;
use crate::lemmas::lemma_flags_bounded;
use crate::loginitems::{empty_item, ItemView, LoginItemsData};
use crate::record::{
    read_record, record_at, record_in_bounds, RecordValue, RecordView,
};
use crate::text::{utf8_string, utf8_text};

verus! {

/// Size of the fixed header.
pub const HEADER_SIZE: usize = 48;

pub const KEY_PATH: u32 = 0x1004;

pub const KEY_CNID_PATH: u32 = 0x1005;

pub const KEY_TARGET_FLAGS: u32 = 0x1010;

pub const KEY_CREATION: u32 = 0x1040;

pub const KEY_VOLUME_PATH: u32 = 0x2002;

pub const KEY_VOLUME_URL: u32 = 0x2005;

pub const KEY_VOLUME_NAME: u32 = 0x2010;

pub const KEY_VOLUME_UUID: u32 = 0x2011;

pub const KEY_VOLUME_SIZE: u32 = 0x2012;

pub const KEY_VOLUME_CREATION: u32 = 0x2013;

pub const KEY_VOLUME_FLAGS: u32 = 0x2020;

pub const KEY_VOLUME_ROOT: u32 = 0x2030;

pub const KEY_FOLDER_INDEX: u32 = 0xC001;

pub const KEY_USERNAME: u32 = 0xC011;

pub const KEY_UID: u32 = 0xC012;

pub const KEY_FILE_REF: u32 = 0xD001;

pub const KEY_CREATION_OPTIONS: u32 = 0xD010;

pub const KEY_LOCALIZED_NAME: u32 = 0xF017;

pub const KEY_SECURITY_EXTENSION_RW: u32 = 0xF080;

pub const KEY_SECURITY_EXTENSION_RO: u32 = 0xF081;

/// Bit of the first target flag word that marks an executable target.
pub const EXECUTABLE_FLAG: u64 = 0x02;

// ---------------------------------------------------------------------
// Field values of typed records
// ---------------------------------------------------------------------

/// Text of a string record.
pub open spec fn string_of(rec: RecordView) -> Option<Seq<char>> {
    match rec {
        RecordView::Utf8(p) => utf8_text(p),
        _ => None,
    }
}

/// Text of a URL record.
pub open spec fn url_of(rec: RecordView) -> Option<Seq<char>> {
    match rec {
        RecordView::Url(p) => utf8_text(p),
        _ => None,
    }
}

/// Text held in a data record.
pub open spec fn data_text_of(rec: RecordView) -> Option<Seq<char>> {
    match rec {
        RecordView::Data(p) => utf8_text(p),
        _ => None,
    }
}

/// The flag words of a data payload: up to three little-endian `u64`s.
pub open spec fn flag_words(p: Seq<u8>) -> Seq<u64> {
    let n = if p.len() / 8 < 3 {
        p.len() / 8
    } else {
        3
    };
    Seq::new(n as nat, |k: int| le_u64(p, 8 * k) as u64)
}

/// Effect on `r` of a non-array record under `key`: the field the key
/// selects takes the record's value when the record has the expected type;
/// otherwise `r` is unchanged.
pub open spec fn apply_scalar(r: ItemView, key: u32, rec: RecordView) -> ItemView {
    if key == KEY_TARGET_FLAGS {
        match rec {
            RecordView::Data(p) => ItemView { target_flags: flag_words(p), ..r },
            _ => r,
        }
    } else if key == KEY_CREATION {
        match rec {
            RecordView::Date(v) => ItemView { creation: v, ..r },
            _ => r,
        }
    } else if key == KEY_VOLUME_PATH {
        match string_of(rec) {
            Some(t) => ItemView { volume_path: t, ..r },
            None => r,
        }
    } else if key == KEY_VOLUME_URL {
        match url_of(rec) {
            Some(t) => ItemView { volume_url: t, ..r },
            None => r,
        }
    } else if key == KEY_VOLUME_NAME {
        match string_of(rec) {
            Some(t) => ItemView { volume_name: t, ..r },
            None => r,
        }
    } else if key == KEY_VOLUME_UUID {
        match string_of(rec) {
            Some(t) => ItemView { volume_uuid: t, ..r },
            None => r,
        }
    } else if key == KEY_VOLUME_SIZE {
        match rec {
            RecordView::Int64(v) => ItemView { volume_size: v, ..r },
            _ => r,
        }
    } else if key == KEY_VOLUME_CREATION {
        match rec {
            RecordView::Date(v) => ItemView { volume_creation: v, ..r },
            _ => r,
        }
    } else if key == KEY_VOLUME_FLAGS {
        match rec {
            RecordView::Data(p) => ItemView { volume_flag: flag_words(p), ..r },
            _ => r,
        }
    } else if key == KEY_VOLUME_ROOT {
        match rec {
            RecordView::True => ItemView { volume_root: true, ..r },
            _ => r,
        }
    } else if key == KEY_FOLDER_INDEX {
        match rec {
            RecordView::Int32(v) => ItemView { folder_index: v as i64, ..r },
            _ => r,
        }
    } else if key == KEY_USERNAME {
        match string_of(rec) {
            Some(t) => ItemView { username: t, ..r },
            None => r,
        }
    } else if key == KEY_UID {
        match rec {
            RecordView::Int32(v) => ItemView { uid: v, ..r },
            _ => r,
        }
    } else if key == KEY_FILE_REF {
        match rec {
            RecordView::True => ItemView { file_ref_flag: true, ..r },
            _ => r,
        }
    } else if key == KEY_CREATION_OPTIONS {
        match rec {
            RecordView::Int32(v) => ItemView { creation_options: v, ..r },
            _ => r,
        }
    } else if key == KEY_LOCALIZED_NAME {
        match string_of(rec) {
            Some(t) => ItemView { localized_name: t, ..r },
            None => r,
        }
    } else if key == KEY_SECURITY_EXTENSION_RW {
        match data_text_of(rec) {
            Some(t) => ItemView { security_extension_rw: t, ..r },
            None => r,
        }
    } else if key == KEY_SECURITY_EXTENSION_RO {
        match data_text_of(rec) {
            Some(t) => ItemView { security_extension_ro: t, ..r },
            None => r,
        }
    } else {
        r
    }
}

fn flag_values(p: Vec<u8>) -> (r: Vec<u64>)
    ensures
        r@ == flag_words(p@),
{
    let ps: &[u8] = p.as_slice();
    let plen: usize = ps.len();
    let n: usize = if plen / 8 < 3 {
        plen / 8
    } else {
        3
    };
    let mut r: Vec<u64> = Vec::new();
    let mut k: usize = 0;
    while k < n
        invariant
            plen == ps@.len(),
            ps@ == p@,
            n <= 3,
            n <= plen / 8,
            k <= n,
            r@ == flag_words(p@).subrange(0, k as int),
        decreases n - k,
    {
        r.push(read_u64_le(ps, 8 * k));
        k = k + 1;
        assert(r@ =~= flag_words(p@).subrange(0, k as int));
    }
    assert(r@ =~= flag_words(p@));
    r
}

fn string_value(rec: RecordValue) -> (r: Option<String>)
    ensures
        r is Some <==> string_of(rec@) is Some,
        r matches Some(s) ==> string_of(rec@) == Some(s@),
{
    match rec {
        RecordValue::Utf8(b) => utf8_string(b),
        _ => None,
    }
}

fn url_value(rec: RecordValue) -> (r: Option<String>)
    ensures
        r is Some <==> url_of(rec@) is Some,
        r matches Some(s) ==> url_of(rec@) == Some(s@),
{
    match rec {
        RecordValue::Url(b) => utf8_string(b),
        _ => None,
    }
}

fn data_text_value(rec: RecordValue) -> (r: Option<String>)
    ensures
        r is Some <==> data_text_of(rec@) is Some,
        r matches Some(s) ==> data_text_of(rec@) == Some(s@),
{
    match rec {
        RecordValue::Data(b) => utf8_string(b),
        _ => None,
    }
}

/// Fills the field that `key` selects from a non-array record.
fn apply_scalar_record(item: &mut LoginItemsData, key: u32, rec: RecordValue)
    ensures
        final(item)@ == apply_scalar(old(item)@, key, rec@),
{
    if key == KEY_TARGET_FLAGS {
        if let RecordValue::Data(p) = rec {
            item.target_flags = flag_values(p);
        }
    } else if key == KEY_CREATION {
        if let RecordValue::Date(v) = rec {
            item.creation = v;
        }
    } else if key == KEY_VOLUME_PATH {
        if let Some(t) = string_value(rec) {
            item.volume_path = t;
        }
    } else if key == KEY_VOLUME_URL {
        if let Some(t) = url_value(rec) {
            item.volume_url = t;
        }
    } else if key == KEY_VOLUME_NAME {
        if let Some(t) = string_value(rec) {
            item.volume_name = t;
        }
    } else if key == KEY_VOLUME_UUID {
        if let Some(t) = string_value(rec) {
            item.volume_uuid = t;
        }
    } else if key == KEY_VOLUME_SIZE {
        if let RecordValue::Int64(v) = rec {
            item.volume_size = v;
        }
    } else if key == KEY_VOLUME_CREATION {
        if let RecordValue::Date(v) = rec {
            item.volume_creation = v;
        }
    } else if key == KEY_VOLUME_FLAGS {
        if let RecordValue::Data(p) = rec {
            item.volume_flag = flag_values(p);
        }
    } else if key == KEY_VOLUME_ROOT {
        if let RecordValue::True = rec {
            item.volume_root = true;
        }
    } else if key == KEY_FOLDER_INDEX {
        if let RecordValue::Int32(v) = rec {
            item.folder_index = v as i64;
        }
    } else if key == KEY_USERNAME {
        if let Some(t) = string_value(rec) {
            item.username = t;
        }
    } else if key == KEY_UID {
        if let RecordValue::Int32(v) = rec {
            item.uid = v;
        }
    } else if key == KEY_FILE_REF {
        if let RecordValue::True = rec {
            item.file_ref_flag = true;
        }
    } else if key == KEY_CREATION_OPTIONS {
        if let RecordValue::Int32(v) = rec {
            item.creation_options = v;
        }
    } else if key == KEY_LOCALIZED_NAME {
        if let Some(t) = string_value(rec) {
            item.localized_name = t;
        }
    } else if key == KEY_SECURITY_EXTENSION_RW {
        if let Some(t) = data_text_value(rec) {
            item.security_extension_rw = t;
        }
    } else if key == KEY_SECURITY_EXTENSION_RO {
        if let Some(t) = data_text_value(rec) {
            item.security_extension_ro = t;
        }
    }
}

// ---------------------------------------------------------------------
// Arrays of offsets
//
// The path and CNID keys refer to an array record whose elements are
// offsets of further records. Elements are resolved one level deep only:
// an element that is itself an array is a type mismatch, which bounds the
// recursion on hostile input.
// ---------------------------------------------------------------------

/// Every element of the array has its record inside `data`.
pub open spec fn elements_in_bounds(data: Seq<u8>, offs: Seq<u32>) -> bool {
    forall|i: int| 0 <= i < offs.len() ==> record_in_bounds(data, #[trigger] offs[i] as int)
}

/// The strings that the array's elements hold, when every element is a
/// valid string record.
pub open spec fn array_strings(data: Seq<u8>, offs: Seq<u32>) -> Option<Seq<Seq<char>>> {
    if forall|i: int| 0 <= i < offs.len() ==> string_of(record_at(data, #[trigger] offs[i] as int)) is Some {
        Some(Seq::new(offs.len(), |i: int| string_of(record_at(data, offs[i] as int))->0))
    } else {
        None
    }
}

/// The eight-byte integer of a record.
pub open spec fn int64_of(rec: RecordView) -> Option<i64> {
    match rec {
        RecordView::Int64(v) => Some(v),
        _ => None,
    }
}

/// The integers that the array's elements hold, when every element is an
/// eight-byte integer record.
pub open spec fn array_int64s(data: Seq<u8>, offs: Seq<u32>) -> Option<Seq<i64>> {
    if forall|i: int| 0 <= i < offs.len() ==> int64_of(record_at(data, #[trigger] offs[i] as int)) is Some {
        Some(Seq::new(offs.len(), |i: int| int64_of(record_at(data, offs[i] as int))->0))
    } else {
        None
    }
}

/// Reads the string elements of an array. `Err` when an element's record
/// runs past the data region; `Ok(None)` when some element is not a valid
/// string.
fn resolve_strings(data: &[u8], offs: &Vec<u32>) -> (r: Result<Option<Vec<String>>, ()>)
    ensures
        r is Ok <==> elements_in_bounds(data@, offs@),
        r matches Ok(o) ==> (o is Some <==> array_strings(data@, offs@) is Some),
        r matches Ok(Some(v)) ==> array_strings(data@, offs@) == Some(v.deep_view()),
{
    let mut out: Vec<String> = Vec::new();
    let mut all: bool = true;
    let mut i: usize = 0;
    while i < offs.len()
        invariant
            i <= offs@.len(),
            forall|j: int| 0 <= j < i ==> record_in_bounds(data@, #[trigger] offs@[j] as int),
            all == forall|j: int|
                0 <= j < i ==> string_of(record_at(data@, #[trigger] offs@[j] as int)) is Some,
            all ==> out.deep_view() == Seq::new(
                i as nat,
                |j: int| string_of(record_at(data@, offs@[j] as int))->0,
            ),
        decreases offs@.len() - i,
    {
        match read_record(data, offs[i] as usize) {
            None => {
                return Err(());
            },
            Some(rec) => {
                match string_value(rec) {
                    Some(t) => {
                        if all {
                            let ghost before = out.deep_view();
                            out.push(t);
                            assert(out.deep_view() =~= before.push(t@));
                            assert(out.deep_view() =~= Seq::new(
                                (i + 1) as nat,
                                |j: int| string_of(record_at(data@, offs@[j] as int))->0,
                            ));
                        }
                    },
                    None => {
                        all = false;
                    },
                }
            },
        }
        i = i + 1;
    }
    if all {
        assert(out.deep_view() =~= Seq::new(
            offs@.len(),
            |j: int| string_of(record_at(data@, offs@[j] as int))->0,
        ));
        Ok(Some(out))
    } else {
        Ok(None)
    }
}

/// Reads the integer elements of an array, as [`resolve_strings`] does strings.
fn resolve_int64s(data: &[u8], offs: &Vec<u32>) -> (r: Result<Option<Vec<i64>>, ()>)
    ensures
        r is Ok <==> elements_in_bounds(data@, offs@),
        r matches Ok(o) ==> (o is Some <==> array_int64s(data@, offs@) is Some),
        r matches Ok(Some(v)) ==> array_int64s(data@, offs@) == Some(v@),
{
    let mut out: Vec<i64> = Vec::new();
    let mut all: bool = true;
    let mut i: usize = 0;
    while i < offs.len()
        invariant
            i <= offs@.len(),
            forall|j: int| 0 <= j < i ==> record_in_bounds(data@, #[trigger] offs@[j] as int),
            all == forall|j: int|
                0 <= j < i ==> int64_of(record_at(data@, #[trigger] offs@[j] as int)) is Some,
            all ==> out@ == Seq::new(
                i as nat,
                |j: int| int64_of(record_at(data@, offs@[j] as int))->0,
            ),
        decreases offs@.len() - i,
    {
        match read_record(data, offs[i] as usize) {
            None => {
                return Err(());
            },
            Some(rec) => {
                if let RecordValue::Int64(v) = rec {
                    if all {
                        out.push(v);
                        assert(out@ =~= Seq::new(
                            (i + 1) as nat,
                            |j: int| int64_of(record_at(data@, offs@[j] as int))->0,
                        ));
                    }
                } else {
                    all = false;
                }
            },
        }
        i = i + 1;
    }
    if all {
        assert(out@ =~= Seq::new(
            offs@.len(),
            |j: int| int64_of(record_at(data@, offs@[j] as int))->0,
        ));
        Ok(Some(out))
    } else {
        Ok(None)
    }
}

// ---------------------------------------------------------------------
// Table of contents
// ---------------------------------------------------------------------

/// Effect of one TOC entry on `r`; `None` when the entry's record, or for
/// the path and CNID keys an element of its array, runs past the data region.
pub open spec fn apply_entry(data: Seq<u8>, key: u32, off: int, r: ItemView) -> Option<ItemView> {
    if !record_in_bounds(data, off) {
        None
    } else {
        let rec = record_at(data, off);
        if key == KEY_PATH {
            match rec {
                RecordView::Array(offs) => if !elements_in_bounds(data, offs) {
                    None
                } else {
                    match array_strings(data, offs) {
                        Some(p) => Some(ItemView { path: p, ..r }),
                        None => Some(r),
                    }
                },
                _ => Some(r),
            }
        } else if key == KEY_CNID_PATH {
            match rec {
                RecordView::Array(offs) => if !elements_in_bounds(data, offs) {
                    None
                } else {
                    match array_int64s(data, offs) {
                        Some(c) => Some(ItemView { cnid_path: c, ..r }),
                        None => Some(r),
                    }
                },
                _ => Some(r),
            }
        } else {
            Some(apply_scalar(r, key, rec))
        }
    }
}

/// Offset of the TOC header within the data region.
pub open spec fn toc_offset(data: Seq<u8>) -> int {
    le_u32(data, 0)
}

/// Number of entries the TOC declares.
pub open spec fn toc_count(data: Seq<u8>) -> int {
    le_u32(data, toc_offset(data) + 16)
}

/// The TOC-offset field, the TOC header and body, and all declared entries
/// lie inside the data region, and the record heap before the TOC is not
/// inverted.
pub open spec fn toc_in_bounds(data: Seq<u8>) -> bool {
    &&& data.len() >= 4
    &&& 4 <= toc_offset(data)
    &&& toc_offset(data) + 20 <= data.len()
    &&& toc_offset(data) + 20 + 12 * toc_count(data) <= data.len()
}

/// Key of the TOC entry `k`.
pub open spec fn entry_key(data: Seq<u8>, k: int) -> u32 {
    le_u32(data, toc_offset(data) + 20 + 12 * k) as u32
}

/// Record offset of the TOC entry `k`.
pub open spec fn entry_offset(data: Seq<u8>, k: int) -> int {
    le_u32(data, toc_offset(data) + 24 + 12 * k)
}

/// `r` after the first `k` TOC entries, applied in order; `None` once an
/// entry is malformed.
pub open spec fn apply_entries(data: Seq<u8>, r: ItemView, k: int) -> Option<ItemView>
    decreases k,
{
    if k <= 0 {
        Some(r)
    } else {
        match apply_entries(data, r, k - 1) {
            Some(x) => apply_entry(data, entry_key(data, k - 1), entry_offset(data, k - 1), x),
            None => None,
        }
    }
}

/// The record built from the first `k` TOC entries, starting from the
/// all-default record.
pub open spec fn decode_entries(data: Seq<u8>, k: int) -> Option<ItemView> {
    apply_entries(data, empty_item(), k)
}

/// `r` with the executable flag derived from its first target flag word.
pub open spec fn with_executable_flag(r: ItemView) -> ItemView {
    ItemView {
        has_executable_flag: r.target_flags.len() >= 1 && r.target_flags[0] & EXECUTABLE_FLAG
            != 0,
        ..r
    }
}

/// Outcome of decoding one candidate blob.
pub enum Decoded {
    /// The header does not identify a bookmark; the blob is passed over.
    NotBookmark,
    /// A bookmark whose structure is broken.
    Malformed,
    Item(ItemView),
}

/// The blob starts with the bytes `book`.
pub open spec fn has_signature(b: Seq<u8>) -> bool {
    &&& b.len() >= 4
    &&& b[0] == 0x62
    &&& b[1] == 0x6f
    &&& b[2] == 0x6f
    &&& b[3] == 0x6b
}

/// The data region: everything after the header.
pub open spec fn data_region(b: Seq<u8>) -> Seq<u8> {
    b.subrange(HEADER_SIZE as int, b.len() as int)
}

/// What a blob decodes to.
pub open spec fn decode_bookmark(b: Seq<u8>) -> Decoded {
    if !has_signature(b) {
        Decoded::NotBookmark
    } else if b.len() < HEADER_SIZE {
        Decoded::Malformed
    } else if le_u32(b, 12) != HEADER_SIZE {
        Decoded::NotBookmark
    } else if !toc_in_bounds(data_region(b)) {
        Decoded::Malformed
    } else {
        match decode_entries(data_region(b), toc_count(data_region(b))) {
            Some(r) => Decoded::Item(with_executable_flag(r)),
            None => Decoded::Malformed,
        }
    }
}

proof fn lemma_malformed_stays(data: Seq<u8>, k: int, m: int)
    requires
        k <= m,
        decode_entries(data, k) is None,
    ensures
        decode_entries(data, m) is None,
    decreases m - k,
{
    if k < m {
        lemma_malformed_stays(data, k, m - 1);
    }
}

/// Applies one TOC entry to `item`; false when the entry is malformed.
fn apply_toc_entry(data: &[u8], key: u32, off: u32, item: &mut LoginItemsData) -> (ok: bool)
    ensures
        ok == apply_entry(data@, key, off as int, old(item)@) is Some,
        ok ==> apply_entry(data@, key, off as int, old(item)@) == Some(final(item)@),
        !ok ==> final(item)@ == old(item)@,
{
    let rec: RecordValue = match read_record(data, off as usize) {
        None => {
            return false;
        },
        Some(rec) => rec,
    };
    if key == KEY_PATH {
        if let RecordValue::Array(offs) = rec {
            match resolve_strings(data, &offs) {
                Err(()) => {
                    return false;
                },
                Ok(Some(p)) => {
                    item.path = p;
                },
                Ok(None) => {},
            }
        }
    } else if key == KEY_CNID_PATH {
        if let RecordValue::Array(offs) = rec {
            match resolve_int64s(data, &offs) {
                Err(()) => {
                    return false;
                },
                Ok(Some(c)) => {
                    item.cnid_path = c;
                },
                Ok(None) => {},
            }
        }
    } else {
        apply_scalar_record(item, key, rec);
    }
    true
}

/// Decodes one candidate blob.
///
/// A blob that does not start with `book`, or whose header names a data
/// offset other than 48, is passed over (`Ok(None)`). A bookmark whose
/// header, TOC, records or path arrays run past the blob fails with
/// `Bookmark`. Otherwise every TOC entry fills its field in order.
pub fn parse_bookmark(blob: &[u8]) -> (r: Result<Option<LoginItemsData>, LoginItemError>)
    ensures
        decode_bookmark(blob@) is NotBookmark <==> r matches Ok(None),
        decode_bookmark(blob@) is Malformed <==> r == Err::<Option<LoginItemsData>, LoginItemError>(
            LoginItemError::Bookmark,
        ),
        r matches Ok(Some(item)) ==> decode_bookmark(blob@) == Decoded::Item(item@),
        r matches Ok(Some(item)) ==> item.target_flags@.len() <= 3 && item.volume_flag@.len() <= 3,
        r is Err ==> r == Err::<Option<LoginItemsData>, LoginItemError>(LoginItemError::Bookmark),
{
    let n: usize = blob.len();
    if n < 4 || blob[0] != 0x62 || blob[1] != 0x6f || blob[2] != 0x6f || blob[3] != 0x6b {
        return Ok(None);
    }
    if n < HEADER_SIZE {
        return Err(LoginItemError::Bookmark);
    }
    if read_u32_le(blob, 12) as usize != HEADER_SIZE {
        return Ok(None);
    }
    let region: Vec<u8> = copy_range(blob, HEADER_SIZE, n);
    let data: &[u8] = region.as_slice();
    assert(data@ == data_region(blob@));
    let dlen: usize = data.len();
    if dlen < 4 {
        return Err(LoginItemError::Bookmark);
    }
    let toc: usize = read_u32_le(data, 0) as usize;
    if toc < 4 || toc > dlen || dlen - toc < 20 {
        return Err(LoginItemError::Bookmark);
    }
    let count: usize = read_u32_le(data, toc + 16) as usize;
    if count > (dlen - toc - 20) / 12 {
        return Err(LoginItemError::Bookmark);
    }
    assert(toc_in_bounds(data@));
    let mut item: LoginItemsData = LoginItemsData::empty();
    let mut k: usize = 0;
    while k < count
        invariant
            has_signature(blob@),
            blob@.len() >= HEADER_SIZE,
            le_u32(blob@, 12) == HEADER_SIZE,
            data@ == data_region(blob@),
            dlen == data@.len(),
            toc == toc_offset(data@),
            count == toc_count(data@),
            toc_in_bounds(data@),
            k <= count,
            decode_entries(data@, k as int) == Some(item@),
        decreases count - k,
    {
        let base: usize = toc + 20 + 12 * k;
        let key: u32 = read_u32_le(data, base);
        let off: u32 = read_u32_le(data, base + 4);
        if !apply_toc_entry(data, key, off, &mut item) {
            proof {
                assert(key == entry_key(data@, k as int));
                assert(off == entry_offset(data@, k as int));
                assert(decode_entries(data@, k + 1) is None);
                lemma_malformed_stays(data@, k + 1, count as int);
            }
            return Err(LoginItemError::Bookmark);
        }
        k = k + 1;
    }
    item.has_executable_flag = item.target_flags.len() >= 1 && item.target_flags[0]
        & EXECUTABLE_FLAG != 0;
    proof {
        lemma_flags_bounded(blob@);
    }
    Ok(Some(item))
}

} // verus!
