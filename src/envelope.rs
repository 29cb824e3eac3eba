//! The property-list envelope of bookmark blobs, and the locator that
//! picks candidate blobs out of it.
use vstd::prelude::*;
use crate::bookmark::HEADER_SIZE;
use crate::bytes::copy_range;
use crate::text::same_text;

verus! {

/// A property-list value, reduced to what login-item decoding reads.
#[derive(Debug)]
pub enum PlistValue {
    Array(Vec<PlistValue>),
    /// Key-value pairs, in document order.
    Dictionary(Vec<(String, PlistValue)>),
    Data(Vec<u8>),
    Text(String),
    /// Any other scalar: boolean, integer, real, date or UID.
    Other,
}

/// The key of the keyed-archiver object table.
pub open spec fn objects_key() -> Seq<char> {
    "$objects"@
}

/// The object table: the first `$objects` entry whose value is an array.
pub open spec fn objects_array(entries: Seq<(String, PlistValue)>) -> Option<Seq<PlistValue>>
    decreases entries.len(),
{
    if entries.len() == 0 {
        None
    } else if entries[0].0@ == objects_key() && entries[0].1 is Array {
        Some(entries[0].1->Array_0@)
    } else {
        objects_array(entries.drop_first())
    }
}

/// The blob `v` holds, as a candidate, if it is one: data of at least the
/// header's size.
pub open spec fn data_candidate(v: PlistValue) -> Seq<Seq<u8>> {
    match v {
        PlistValue::Data(d) => if d@.len() >= HEADER_SIZE {
            seq![d@]
        } else {
            Seq::empty()
        },
        _ => Seq::empty(),
    }
}

/// Candidates among the values of a dictionary, in order.
pub open spec fn dictionary_candidates(entries: Seq<(String, PlistValue)>) -> Seq<Seq<u8>>
    decreases entries.len(),
{
    if entries.len() == 0 {
        Seq::empty()
    } else {
        dictionary_candidates(entries.drop_last()) + data_candidate(entries.last().1)
    }
}

/// Candidates of one object-table entry: a blob itself, or the blobs one
/// level down in a dictionary.
pub open spec fn object_candidates(v: PlistValue) -> Seq<Seq<u8>> {
    match v {
        PlistValue::Data(_) => data_candidate(v),
        PlistValue::Dictionary(entries) => dictionary_candidates(entries@),
        _ => Seq::empty(),
    }
}

/// Candidates of an object table, in traversal order.
pub open spec fn objects_candidates(objects: Seq<PlistValue>) -> Seq<Seq<u8>>
    decreases objects.len(),
{
    if objects.len() == 0 {
        Seq::empty()
    } else {
        objects_candidates(objects.drop_last()) + object_candidates(objects.last())
    }
}

/// Candidate bookmark blobs of a top-level dictionary; none without an
/// object table.
pub open spec fn bookmark_candidates(root: Seq<(String, PlistValue)>) -> Seq<Seq<u8>> {
    match objects_array(root) {
        Some(objects) => objects_candidates(objects),
        None => Seq::empty(),
    }
}

/// Appends the blob that `v` holds, if it is a candidate.
fn push_candidate(v: &PlistValue, out: &mut Vec<Vec<u8>>)
    ensures
        final(out).deep_view() == old(out).deep_view() + data_candidate(*v),
{
    let ghost before = out.deep_view();
    if let PlistValue::Data(d) = v {
        if d.len() >= HEADER_SIZE {
            let blob: Vec<u8> = copy_range(d.as_slice(), 0, d.len());
            assert(blob@ =~= d@);
            assert(blob.deep_view() =~= blob@);
            out.push(blob);
            assert(out.deep_view() =~= before.push(blob@));
            assert(out.deep_view() =~= before + data_candidate(*v));
            return;
        }
    }
    assert(out.deep_view() =~= before + data_candidate(*v));
}

fn push_object_candidates(v: &PlistValue, out: &mut Vec<Vec<u8>>)
    ensures
        final(out).deep_view() == old(out).deep_view() + object_candidates(*v),
{
    let ghost before = out.deep_view();
    match v {
        PlistValue::Data(_) => {
            push_candidate(v, out);
        },
        PlistValue::Dictionary(entries) => {
            let mut i: usize = 0;
            while i < entries.len()
                invariant
                    i <= entries@.len(),
                    out.deep_view() == before + dictionary_candidates(entries@.subrange(0, i as int)),
                decreases entries@.len() - i,
            {
                push_candidate(&entries[i].1, out);
                assert(entries@.subrange(0, i + 1).drop_last() =~= entries@.subrange(0, i as int));
                assert(out.deep_view() =~= before + dictionary_candidates(entries@.subrange(0, i + 1)));
                i = i + 1;
            }
            assert(entries@.subrange(0, entries@.len() as int) =~= entries@);
        },
        _ => {
            assert(out.deep_view() =~= before + object_candidates(*v));
        },
    }
}

/// Finds the object table of a top-level dictionary.
fn find_objects(root: &Vec<(String, PlistValue)>) -> (r: Option<&Vec<PlistValue>>)
    ensures
        r is Some <==> objects_array(root@) is Some,
        r matches Some(o) ==> objects_array(root@) == Some(o@),
{
    let mut i: usize = 0;
    assert(root@.subrange(0, root@.len() as int) =~= root@);
    while i < root.len()
        invariant
            i <= root@.len(),
            objects_array(root@) == objects_array(root@.subrange(i as int, root@.len() as int)),
        decreases root@.len() - i,
    {
        let ghost rest = root@.subrange(i as int, root@.len() as int);
        assert(rest.drop_first() =~= root@.subrange(i + 1, root@.len() as int));
        if same_text(root[i].0.as_str(), "$objects") {
            if let PlistValue::Array(objects) = &root[i].1 {
                return Some(objects);
            }
        }
        i = i + 1;
    }
    None
}

/// Candidate bookmark blobs of a property list's top-level dictionary.
///
/// Walks the `$objects` array: each data entry, and each data value one
/// level down inside a dictionary entry, that is at least as long as a
/// bookmark header is a candidate. Without an `$objects` array there are
/// none.
pub fn get_bookmarks(root: &Vec<(String, PlistValue)>) -> (r: Vec<Vec<u8>>)
    ensures
        r.deep_view() == bookmark_candidates(root@),
{
    let mut out: Vec<Vec<u8>> = Vec::new();
    assert(out.deep_view() =~= Seq::<Seq<u8>>::empty());
    match find_objects(root) {
        None => {},
        Some(objects) => {
            let mut i: usize = 0;
            while i < objects.len()
                invariant
                    i <= objects@.len(),
                    out.deep_view() == objects_candidates(objects@.subrange(0, i as int)),
                decreases objects@.len() - i,
            {
                push_object_candidates(&objects[i], &mut out);
                assert(objects@.subrange(0, i + 1).drop_last() =~= objects@.subrange(0, i as int));
                i = i + 1;
            }
            assert(objects@.subrange(0, objects@.len() as int) =~= objects@);
        },
    }
    out
}

} // verus!
