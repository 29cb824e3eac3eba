//! Laws of bookmark decoding.
use vstd::prelude::*;
use crate::bookmark::{
    apply_entry, apply_entries, array_int64s, array_strings, data_region, decode_bookmark, decode_entries,
    entry_key, entry_offset, has_signature, toc_count, Decoded, KEY_CNID_PATH, KEY_PATH,
};
use crate::loginitems::{decode_all, ItemView};
use crate::record::{record_at, RecordView};

verus! {

/// Applying the same TOC entry a second time changes nothing: field
/// assignment is idempotent.
pub proof fn lemma_entry_idempotent(data: Seq<u8>, key: u32, off: int, r: ItemView)
    requires
        apply_entry(data, key, off, r) is Some,
    ensures
        apply_entry(data, key, off, apply_entry(data, key, off, r)->0) == apply_entry(
            data,
            key,
            off,
            r,
        ),
{
}

/// TOC entries with different keys may be applied in either order.
pub proof fn lemma_entries_commute(
    data: Seq<u8>,
    key1: u32,
    off1: int,
    key2: u32,
    off2: int,
    r: ItemView,
)
    requires
        key1 != key2,
        apply_entry(data, key1, off1, r) is Some,
        apply_entry(data, key2, off2, r) is Some,
    ensures
        apply_entry(data, key2, off2, apply_entry(data, key1, off1, r)->0) == apply_entry(
            data,
            key1,
            off1,
            apply_entry(data, key2, off2, r)->0,
        ),
{
}

/// Both flag fields hold at most three words.
pub open spec fn flags_bounded(r: ItemView) -> bool {
    r.target_flags.len() <= 3 && r.volume_flag.len() <= 3
}

proof fn lemma_entries_flags_bounded(data: Seq<u8>, k: int)
    requires
        decode_entries(data, k) is Some,
    ensures
        flags_bounded(decode_entries(data, k)->0),
    decreases k,
{
    if k > 0 {
        lemma_entries_flags_bounded(data, k - 1);
    }
}

/// A decoded bookmark has at most three target flag words and at most
/// three volume flag words.
pub proof fn lemma_flags_bounded(b: Seq<u8>)
    requires
        decode_bookmark(b) is Item,
    ensures
        flags_bounded(decode_bookmark(b)->Item_0),
{
    lemma_entries_flags_bounded(data_region(b), toc_count(data_region(b)));
}

/// Decoding is a function of the blob's bytes: equal blobs give equal
/// outcomes, records included.
pub proof fn lemma_decode_deterministic(b1: Seq<u8>, b2: Seq<u8>)
    requires
        b1 == b2,
    ensures
        decode_bookmark(b1) == decode_bookmark(b2),
{
}

/// A blob that does not start with `book` is no bookmark: it gives no
/// record and no error.
pub proof fn lemma_foreign_blob_passed_over(b: Seq<u8>)
    requires
        !has_signature(b),
    ensures
        decode_bookmark(b) == Decoded::NotBookmark,
{
}

/// Adding a blob that does not start with `book` anywhere among the
/// candidates changes neither the records nor whether decoding fails.
pub proof fn lemma_foreign_blob_ignored(blobs: Seq<Seq<u8>>, i: int, b: Seq<u8>)
    requires
        0 <= i <= blobs.len(),
        !has_signature(b),
    ensures
        decode_all(blobs.insert(i, b)) == decode_all(blobs),
    decreases blobs.len(),
{
    let ext = blobs.insert(i, b);
    if i == blobs.len() {
        assert(ext.drop_last() =~= blobs);
    } else {
        lemma_foreign_blob_ignored(blobs.drop_last(), i, b);
        assert(ext.drop_last() =~= blobs.drop_last().insert(i, b));
        assert(ext.last() == blobs.last());
    }
}

/// Some TOC entry among the first `k` has the key.
pub open spec fn key_seen(data: Seq<u8>, k: int, key: u32) -> bool {
    exists|j: int| 0 <= j < k && #[trigger] entry_key(data, j) == key
}

/// Every TOC entry with the path key refers to an array of `n` valid
/// strings.
pub open spec fn path_arrays_have(data: Seq<u8>, n: nat) -> bool {
    forall|k: int|
        0 <= k < toc_count(data) && #[trigger] entry_key(data, k) == KEY_PATH ==> match record_at(
            data,
            entry_offset(data, k),
        ) {
            RecordView::Array(offs) => offs.len() == n && array_strings(data, offs) is Some,
            _ => false,
        }
}

/// Every TOC entry with the CNID key refers to an array of `n` eight-byte
/// integers.
pub open spec fn cnid_arrays_have(data: Seq<u8>, n: nat) -> bool {
    forall|k: int|
        0 <= k < toc_count(data) && #[trigger] entry_key(data, k) == KEY_CNID_PATH ==> match record_at(
            data,
            entry_offset(data, k),
        ) {
            RecordView::Array(offs) => offs.len() == n && array_int64s(data, offs) is Some,
            _ => false,
        }
}

proof fn lemma_entries_path_len(data: Seq<u8>, n: nat, k: int)
    requires
        0 <= k <= toc_count(data),
        decode_entries(data, k) is Some,
        path_arrays_have(data, n),
        cnid_arrays_have(data, n),
    ensures
        (decode_entries(data, k)->0).path.len() == if key_seen(data, k, KEY_PATH) {
            n as int
        } else {
            0
        },
        (decode_entries(data, k)->0).cnid_path.len() == if key_seen(data, k, KEY_CNID_PATH) {
            n as int
        } else {
            0
        },
    decreases k,
{
    if k > 0 {
        lemma_entries_path_len(data, n, k - 1);
        let key = entry_key(data, k - 1);
        if key_seen(data, k - 1, KEY_PATH) {
            let j = choose|j: int| 0 <= j < k - 1 && #[trigger] entry_key(data, j) == KEY_PATH;
            assert(0 <= j < k && entry_key(data, j) == KEY_PATH);
        }
        if key_seen(data, k - 1, KEY_CNID_PATH) {
            let j = choose|j: int| 0 <= j < k - 1 && #[trigger] entry_key(data, j) == KEY_CNID_PATH;
            assert(0 <= j < k && entry_key(data, j) == KEY_CNID_PATH);
        }
        if key == KEY_PATH || key == KEY_CNID_PATH {
            assert(key_seen(data, k, key));
        }
        if key_seen(data, k, KEY_PATH) && key != KEY_PATH {
            let j = choose|j: int| 0 <= j < k && #[trigger] entry_key(data, j) == KEY_PATH;
            assert(j != k - 1);
            assert(key_seen(data, k - 1, KEY_PATH));
        }
        if key_seen(data, k, KEY_CNID_PATH) && key != KEY_CNID_PATH {
            let j = choose|j: int| 0 <= j < k && #[trigger] entry_key(data, j) == KEY_CNID_PATH;
            assert(j != k - 1);
            assert(key_seen(data, k - 1, KEY_CNID_PATH));
        }
    }
}

/// A decoded bookmark has one CNID per path component, where every path
/// array and every CNID array of its TOC has the same number `n` of
/// well-typed elements and the TOC lists a path array exactly when it
/// lists a CNID array.
pub proof fn lemma_path_matches_cnids(b: Seq<u8>, n: nat)
    requires
        decode_bookmark(b) is Item,
        path_arrays_have(data_region(b), n),
        cnid_arrays_have(data_region(b), n),
        key_seen(data_region(b), toc_count(data_region(b)), KEY_PATH) == key_seen(
            data_region(b),
            toc_count(data_region(b)),
            KEY_CNID_PATH,
        ),
    ensures
        (decode_bookmark(b)->Item_0).path.len() == (decode_bookmark(b)->Item_0).cnid_path.len(),
{
    let data = data_region(b);
    lemma_entries_path_len(data, n, toc_count(data));
}

/// No two TOC entries share a key.
pub open spec fn toc_keys_distinct(data: Seq<u8>) -> bool {
    forall|i: int, j: int|
        0 <= i < j < toc_count(data) ==> #[trigger] entry_key(data, i) != #[trigger] entry_key(
            data,
            j,
        )
}

/// Once the first `k` entries are applied, applying any one of them again
/// changes nothing.
proof fn lemma_applied_entry_stable(data: Seq<u8>, j: int, k: int)
    requires
        0 <= j < k <= toc_count(data),
        toc_keys_distinct(data),
        decode_entries(data, k) is Some,
    ensures
        apply_entry(data, entry_key(data, j), entry_offset(data, j), decode_entries(data, k)->0)
            == decode_entries(data, k),
    decreases k,
{
    let prev = decode_entries(data, k - 1);
    lemma_prefix_decodes(data, k - 1, k);
    let last_key = entry_key(data, k - 1);
    let last_off = entry_offset(data, k - 1);
    if j == k - 1 {
        lemma_entry_idempotent(data, last_key, last_off, prev->0);
    } else {
        lemma_applied_entry_stable(data, j, k - 1);
        lemma_entries_commute(
            data,
            entry_key(data, j),
            entry_offset(data, j),
            last_key,
            last_off,
            prev->0,
        );
    }
}

proof fn lemma_prefix_decodes(data: Seq<u8>, k: int, m: int)
    requires
        0 <= k <= m,
        decode_entries(data, m) is Some,
    ensures
        decode_entries(data, k) is Some,
    decreases m - k,
{
    if k < m {
        lemma_prefix_decodes(data, k + 1, m);
    }
}

/// Decoding is idempotent: where the TOC's keys are distinct, applying all
/// its entries once more to the decoded record gives the same record.
pub proof fn lemma_redecode_unchanged(b: Seq<u8>)
    requires
        decode_bookmark(b) is Item,
        toc_keys_distinct(data_region(b)),
    ensures
        apply_entries(
            data_region(b),
            decode_entries(data_region(b), toc_count(data_region(b)))->0,
            toc_count(data_region(b)),
        ) == decode_entries(data_region(b), toc_count(data_region(b))),
{
    let data = data_region(b);
    let n = toc_count(data);
    lemma_reapply_prefix(data, decode_entries(data, n)->0, n, n);
}

proof fn lemma_reapply_prefix(data: Seq<u8>, r: ItemView, k: int, n: int)
    requires
        0 <= k <= n,
        n == toc_count(data),
        toc_keys_distinct(data),
        decode_entries(data, n) == Some(r),
    ensures
        apply_entries(data, r, k) == Some(r),
    decreases k,
{
    if k > 0 {
        lemma_reapply_prefix(data, r, k - 1, n);
        lemma_applied_entry_stable(data, k - 1, n);
    }
}

} // verus!
