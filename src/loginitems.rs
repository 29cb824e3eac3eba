//! Login-item records and the documents that hold them.
use vstd::prelude::*;
use crate::bookmark::{decode_bookmark, parse_bookmark, Decoded};
use crate::envelope::{bookmark_candidates, get_bookmarks, PlistValue};
use crate::error::LoginItemError;
use crate::text::{contains, has_infix, has_prefix, starts_with};

verus! {

/// One login item: a decoded bookmark, or an application's bundled helper.
#[derive(Debug)]
pub struct LoginItemsData {
    /// Path components of the target, without a leading slash.
    pub path: Vec<String>,
    /// Catalog node identifier of each path component.
    pub cnid_path: Vec<i64>,
    /// Target creation time: bit pattern of an IEEE-754 double counting
    /// seconds since 2001-01-01 UTC.
    pub creation: u64,
    pub volume_path: String,
    pub volume_url: String,
    pub volume_name: String,
    pub volume_uuid: String,
    /// Volume size in bytes.
    pub volume_size: i64,
    /// Volume creation time, as a bit pattern like `creation`.
    pub volume_creation: u64,
    /// Volume resource-property flags.
    pub volume_flag: Vec<u64>,
    /// The volume is the filesystem root.
    pub volume_root: bool,
    pub localized_name: String,
    /// Read-write sandbox extension token, empty when absent.
    pub security_extension_rw: String,
    /// Read-only sandbox extension token, empty when absent.
    pub security_extension_ro: String,
    /// Target resource-property flags.
    pub target_flags: Vec<u64>,
    pub username: String,
    pub folder_index: i64,
    pub uid: i32,
    pub creation_options: i32,
    /// The item comes from an application's bundled registration.
    pub is_bundled: bool,
    pub app_id: String,
    pub app_binary: String,
    pub has_executable_flag: bool,
    pub file_ref_flag: bool,
}

/// Mathematical form of a [`LoginItemsData`].
pub struct ItemView {
    pub path: Seq<Seq<char>>,
    pub cnid_path: Seq<i64>,
    pub creation: u64,
    pub volume_path: Seq<char>,
    pub volume_url: Seq<char>,
    pub volume_name: Seq<char>,
    pub volume_uuid: Seq<char>,
    pub volume_size: i64,
    pub volume_creation: u64,
    pub volume_flag: Seq<u64>,
    pub volume_root: bool,
    pub localized_name: Seq<char>,
    pub security_extension_rw: Seq<char>,
    pub security_extension_ro: Seq<char>,
    pub target_flags: Seq<u64>,
    pub username: Seq<char>,
    pub folder_index: i64,
    pub uid: i32,
    pub creation_options: i32,
    pub is_bundled: bool,
    pub app_id: Seq<char>,
    pub app_binary: Seq<char>,
    pub has_executable_flag: bool,
    pub file_ref_flag: bool,
}

impl View for LoginItemsData {
    type V = ItemView;

    open spec fn view(&self) -> ItemView {
        ItemView {
            path: self.path.deep_view(),
            cnid_path: self.cnid_path@,
            creation: self.creation,
            volume_path: self.volume_path@,
            volume_url: self.volume_url@,
            volume_name: self.volume_name@,
            volume_uuid: self.volume_uuid@,
            volume_size: self.volume_size,
            volume_creation: self.volume_creation,
            volume_flag: self.volume_flag@,
            volume_root: self.volume_root,
            localized_name: self.localized_name@,
            security_extension_rw: self.security_extension_rw@,
            security_extension_ro: self.security_extension_ro@,
            target_flags: self.target_flags@,
            username: self.username@,
            folder_index: self.folder_index,
            uid: self.uid,
            creation_options: self.creation_options,
            is_bundled: self.is_bundled,
            app_id: self.app_id@,
            app_binary: self.app_binary@,
            has_executable_flag: self.has_executable_flag,
            file_ref_flag: self.file_ref_flag,
        }
    }
}

/// The record with every field at its default: empty, zero or false.
pub open spec fn empty_item() -> ItemView {
    ItemView {
        path: Seq::empty(),
        cnid_path: Seq::empty(),
        creation: 0,
        volume_path: Seq::empty(),
        volume_url: Seq::empty(),
        volume_name: Seq::empty(),
        volume_uuid: Seq::empty(),
        volume_size: 0,
        volume_creation: 0,
        volume_flag: Seq::empty(),
        volume_root: false,
        localized_name: Seq::empty(),
        security_extension_rw: Seq::empty(),
        security_extension_ro: Seq::empty(),
        target_flags: Seq::empty(),
        username: Seq::empty(),
        folder_index: 0,
        uid: 0,
        creation_options: 0,
        is_bundled: false,
        app_id: Seq::empty(),
        app_binary: Seq::empty(),
        has_executable_flag: false,
        file_ref_flag: false,
    }
}

impl LoginItemsData {
    /// A record with every field at its default.
    pub fn empty() -> (r: LoginItemsData)
        ensures
            r@ == empty_item(),
    {
        let r = LoginItemsData {
            path: Vec::new(),
            cnid_path: Vec::new(),
            creation: 0,
            volume_path: String::new(),
            volume_url: String::new(),
            volume_name: String::new(),
            volume_uuid: String::new(),
            volume_size: 0,
            volume_creation: 0,
            volume_flag: Vec::new(),
            volume_root: false,
            localized_name: String::new(),
            security_extension_rw: String::new(),
            security_extension_ro: String::new(),
            target_flags: Vec::new(),
            username: String::new(),
            folder_index: 0,
            uid: 0,
            creation_options: 0,
            is_bundled: false,
            app_id: String::new(),
            app_binary: String::new(),
            has_executable_flag: false,
            file_ref_flag: false,
        };
        assert(r@.path =~= Seq::<Seq<char>>::empty());
        r
    }
}

/// The login items read from one artifact.
#[derive(Debug)]
pub struct LoginItemsResults {
    pub results: Vec<LoginItemsData>,
    /// The artifact's path.
    pub path: String,
}

/// Views of a sequence of records.
pub open spec fn item_views(items: Seq<LoginItemsData>) -> Seq<ItemView> {
    items.map_values(|x: LoginItemsData| x@)
}

/// Records of a sequence of candidate blobs, in order: blobs that are no
/// bookmark are passed over; `None` when one is a malformed bookmark.
pub open spec fn decode_all(blobs: Seq<Seq<u8>>) -> Option<Seq<ItemView>>
    decreases blobs.len(),
{
    if blobs.len() == 0 {
        Some(Seq::empty())
    } else {
        match decode_all(blobs.drop_last()) {
            None => None,
            Some(items) => match decode_bookmark(blobs.last()) {
                Decoded::NotBookmark => Some(items),
                Decoded::Malformed => None,
                Decoded::Item(v) => Some(items.push(v)),
            },
        }
    }
}

proof fn lemma_decode_all_fails_on(blobs: Seq<Seq<u8>>, k: int)
    requires
        0 <= k <= blobs.len(),
        decode_all(blobs.subrange(0, k)) is None,
    ensures
        decode_all(blobs) is None,
    decreases blobs.len() - k,
{
    if k < blobs.len() {
        assert(blobs.subrange(0, k + 1).drop_last() =~= blobs.subrange(0, k));
        lemma_decode_all_fails_on(blobs, k + 1);
    } else {
        assert(blobs.subrange(0, k) =~= blobs);
    }
}

/// The marker in the file name of an application's bundled login-item list.
pub open spec fn bundled_marker() -> Seq<char> {
    "loginitems"@
}

/// Prefix of the version key of a bundled login-item list.
pub open spec fn version_prefix() -> Seq<char> {
    "version"@
}

/// The string a property-list value holds, or empty.
pub open spec fn text_or_empty(v: PlistValue) -> Seq<char> {
    match v {
        PlistValue::Text(s) => s@,
        _ => Seq::empty(),
    }
}

/// The record of a bundled helper binary.
pub open spec fn bundled_item(binary: Seq<char>, app_id: Seq<char>) -> ItemView {
    ItemView { is_bundled: true, app_binary: binary, app_id: app_id, ..empty_item() }
}

/// Records of a bundled login-item list: one per key, in order, except
/// the version keys.
pub open spec fn bundled_items(entries: Seq<(String, PlistValue)>) -> Seq<ItemView>
    decreases entries.len(),
{
    if entries.len() == 0 {
        Seq::empty()
    } else {
        let prev = bundled_items(entries.drop_last());
        let (key, value) = entries.last();
        if has_prefix(key@, version_prefix()) {
            prev
        } else {
            prev.push(bundled_item(key@, text_or_empty(value)))
        }
    }
}

impl LoginItemsData {
    /// Decodes candidate blobs in order. Blobs that are no bookmark are
    /// passed over; the first malformed bookmark fails the whole decode.
    pub fn decode_bookmarks(blobs: &Vec<Vec<u8>>) -> (r: Result<Vec<LoginItemsData>, LoginItemError>)
        ensures
            r is Ok <==> decode_all(blobs.deep_view()) is Some,
            r matches Ok(items) ==> decode_all(blobs.deep_view()) == Some(item_views(items@)),
            r matches Err(e) ==> e == LoginItemError::Bookmark,
    {
        let ghost bs = blobs.deep_view();
        let mut items: Vec<LoginItemsData> = Vec::new();
        let mut i: usize = 0;
        while i < blobs.len()
            invariant
                bs == blobs.deep_view(),
                i <= blobs@.len(),
                decode_all(bs.subrange(0, i as int)) == Some(item_views(items@)),
            decreases blobs@.len() - i,
        {
            let blob: &[u8] = blobs[i].as_slice();
            assert(blob@ =~= bs[i as int]);
            assert(bs.subrange(0, i + 1).drop_last() =~= bs.subrange(0, i as int));
            assert(bs.subrange(0, i + 1).last() == bs[i as int]);
            match parse_bookmark(blob) {
                Err(_) => {
                    proof {
                        lemma_decode_all_fails_on(bs, i + 1);
                    }
                    return Err(LoginItemError::Bookmark);
                },
                Ok(None) => {},
                Ok(Some(item)) => {
                    let ghost before = items@;
                    let ghost v = item@;
                    items.push(item);
                    assert(item_views(items@) =~= item_views(before).push(v));
                },
            }
            i = i + 1;
        }
        assert(bs.subrange(0, blobs@.len() as int) =~= bs);
        Ok(items)
    }

    /// Decodes the login items of a background-items or shared-file-list
    /// property list, given its top-level dictionary and its path.
    ///
    /// Fails with `Bookmark` exactly when a candidate blob is a malformed
    /// bookmark.
    pub fn parse_loginitems(path: &str, plist: &Vec<(String, PlistValue)>) -> (r: Result<
        LoginItemsResults,
        LoginItemError,
    >)
        ensures
            r is Ok <==> decode_all(bookmark_candidates(plist@)) is Some,
            r matches Ok(doc) ==> decode_all(bookmark_candidates(plist@)) == Some(
                item_views(doc.results@),
            ) && doc.path@ == path@,
            r matches Err(e) ==> e == LoginItemError::Bookmark,
    {
        let blobs: Vec<Vec<u8>> = get_bookmarks(plist);
        let results: Vec<LoginItemsData> = LoginItemsData::decode_bookmarks(&blobs)?;
        Ok(LoginItemsResults { results, path: path.to_owned() })
    }

    /// Whether a file of an application registration directory is a
    /// bundled login-item list: its path contains `loginitems`.
    pub fn is_bundled_list(path: &str) -> (r: bool)
        ensures
            r == has_infix(path@, bundled_marker()),
    {
        contains(path, "loginitems")
    }

    /// The login items of an application's bundled login-item list, given
    /// its top-level dictionary (helper binary identifier to application
    /// identifier) and its path.
    ///
    /// Each key but those starting with `version` gives one bundled record;
    /// a value that is not a string gives an empty application identifier.
    pub fn loginitems_bundled_apps(path: &str, plist: &Vec<(String, PlistValue)>) -> (r:
        LoginItemsResults)
        ensures
            item_views(r.results@) == bundled_items(plist@),
            r.path@ == path@,
    {
        let mut results: Vec<LoginItemsData> = Vec::new();
        let mut i: usize = 0;
        while i < plist.len()
            invariant
                i <= plist@.len(),
                item_views(results@) == bundled_items(plist@.subrange(0, i as int)),
            decreases plist@.len() - i,
        {
            let ghost prefix = plist@.subrange(0, i + 1);
            assert(prefix.drop_last() =~= plist@.subrange(0, i as int));
            assert(prefix.last() == plist@[i as int]);
            let key: &String = &plist[i].0;
            if !starts_with(key.as_str(), "version") {
                let mut item: LoginItemsData = LoginItemsData::empty();
                item.is_bundled = true;
                item.app_binary = key.clone();
                if let PlistValue::Text(id) = &plist[i].1 {
                    item.app_id = id.clone();
                }
                let ghost before = results@;
                let ghost v = item@;
                assert(v == bundled_item(key@, text_or_empty(plist@[i as int].1)));
                results.push(item);
                assert(item_views(results@) =~= item_views(before).push(v));
            }
            i = i + 1;
        }
        assert(plist@.subrange(0, plist@.len() as int) =~= plist@);
        LoginItemsResults { results, path: path.to_owned() }
    }
}

} // verus!
