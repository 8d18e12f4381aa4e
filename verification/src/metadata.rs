//! Building file records from paths and filesystem metadata. The shape of
//! every derived field — base name, lowercased extension, parent, hidden
//! flag, MIME guess — is pinned by `ev_extract`.
use vstd::prelude::*;

use crate::database::{ev, EntryView};
use crate::mime::mime_of;
use crate::path_utils::{
    base_name_spec, extension_of_name, get_extension, get_file_name, get_parent, is_hidden_spec,
    parent_of,
};
use crate::text::lower;
use crate::types::FileEntry;
use crate::walker::FileMeta;

verus! {

/// The record extraction derives from a path, its metadata and the
/// current instant.
pub open spec fn ev_extract(path: Seq<char>, meta: FileMeta, now: i64) -> EntryView {
    EntryView {
        id: None,
        path: path,
        name: base_name_spec(path),
        extension: (match extension_of_name(base_name_spec(path)) {
            Some(e) => Some(lower(e)),
            None => None,
        }),
        size: meta.size,
        created_at: meta.created_at,
        modified_at: meta.modified_at,
        accessed_at: meta.accessed_at,
        is_directory: meta.is_directory,
        is_hidden: is_hidden_spec(path),
        is_symlink: meta.is_symlink,
        parent_path: parent_of(path),
        mime_type: (if meta.is_directory {
            None
        } else {
            mime_of(path)
        }),
        file_hash: None,
        indexed_at: now,
        last_verified: now,
    }
}

pub struct MetadataExtractor;

impl MetadataExtractor {
    /// One record built from a path and its stat result, at instant `now`.
    pub fn extract(path: &str, meta: &FileMeta, now: i64) -> (r: FileEntry)
        ensures
            ev(r) == ev_extract(path@, *meta, now),
    {
        let name = get_file_name(path);
        let extension: Option<String> = match get_extension(path) {
            Some(e) => Some(crate::text::lower_str(e.as_str())),
            None => None,
        };
        let parent_path = get_parent(path);
        let is_hidden = crate::path_utils::is_hidden(path);
        let mime_type: Option<String> = if meta.is_directory {
            None
        } else {
            crate::mime::detect_mime_type(path)
        };
        let r = FileEntry {
            id: None,
            path: path.to_owned(),
            name,
            extension,
            size: meta.size,
            created_at: meta.created_at,
            modified_at: meta.modified_at,
            accessed_at: meta.accessed_at,
            is_directory: meta.is_directory,
            is_hidden,
            is_symlink: meta.is_symlink,
            parent_path,
            mime_type,
            file_hash: None,
            indexed_at: now,
            last_verified: now,
        };
        proof {
            assert(ev(r) =~= ev_extract(path@, *meta, now));
        }
        r
    }

    /// Is the filesystem's modification time after the given instant?
    pub fn is_modified_since(meta: &FileMeta, since: i64) -> (r: bool)
        ensures
            r == (match meta.modified_at {
                Some(m) => m > since,
                None => false,
            }),
    {
        match meta.modified_at {
            Some(m) => m > since,
            None => false,
        }
    }
}

impl FileEntry {
    /// A bare record for a path at instant `now`: derived name, extension
    /// and parent, everything else at its initial value.
    pub fn new(path: String, now: i64) -> (r: FileEntry)
        ensures
            r.path == path,
            r.name@ == base_name_spec(path@),
            r.size == 0,
            r.id is None,
            r.indexed_at == now,
            r.last_verified == now,
            r.modified_at is None,
            r.is_directory == false,
    {
        let name = get_file_name(path.as_str());
        let extension = get_extension(path.as_str());
        let parent_path = get_parent(path.as_str());
        FileEntry {
            id: None,
            path,
            name,
            extension,
            size: 0,
            created_at: None,
            modified_at: None,
            accessed_at: None,
            is_directory: false,
            is_hidden: false,
            is_symlink: false,
            parent_path,
            mime_type: None,
            file_hash: None,
            indexed_at: now,
            last_verified: now,
        }
    }
}

} // verus!
