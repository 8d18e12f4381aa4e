//! The persistent index's logical store: file records keyed by path,
//! content previews and full-text rows keyed by file id, and the exclusion
//! rules. Every operation is specified against the sequence of records.
use vstd::prelude::*;

use crate::text::{chars_of, contains_seq, eq_vec, lower, lower_vec};
use crate::types::{ContentPreview, ExclusionRule, FileEntry, IndexStats};

verus! {

/// One full-text row: a file id with the searchable name, path and content.
pub struct FtsEntry {
    pub file_id: i64,
    pub name: String,
    pub path: String,
    pub content: String,
}

/// The store.
pub struct Database {
    files: Vec<FileEntry>,
    contents: Vec<(i64, ContentPreview)>,
    fts: Vec<FtsEntry>,
    rules: Vec<ExclusionRule>,
    access_log: Vec<(i64, i64)>,
}

// ---------------------------------------------------------------------------
// The record-sequence model
// ---------------------------------------------------------------------------

/// Index of the record holding `path`, or -1.
pub open spec fn find_path(s: Seq<FileEntry>, path: Seq<char>) -> int
    decreases s.len(),
{
    if s.len() == 0 {
        -1
    } else if s[0].path@ == path {
        0
    } else if find_path(s.drop_first(), path) == -1 {
        -1
    } else {
        1 + find_path(s.drop_first(), path)
    }
}

pub open spec fn has_path(s: Seq<FileEntry>, path: Seq<char>) -> bool {
    find_path(s, path) >= 0
}

/// Index of the first record carrying `id`, or -1.
pub open spec fn id_find(s: Seq<FileEntry>, id: i64) -> int
    decreases s.len(),
{
    if s.len() == 0 {
        -1
    } else if s[0].id == Some(id) {
        0
    } else if id_find(s.drop_first(), id) == -1 {
        -1
    } else {
        1 + id_find(s.drop_first(), id)
    }
}

/// The file ids of the full-text rows a pattern hits, scanned from the
/// front, at most `limit` of them.
pub open spec fn fts_hits_limit(rows: Seq<FtsEntry>, pattern: Seq<char>, limit: int) -> Seq<i64>
    decreases rows.len(),
{
    if rows.len() == 0 || limit <= 0 {
        Seq::empty()
    } else if Database::fts_hit(rows[0], pattern) {
        seq![rows[0].file_id] + fts_hits_limit(rows.drop_first(), pattern, limit - 1)
    } else {
        fts_hits_limit(rows.drop_first(), pattern, limit)
    }
}

pub proof fn lemma_id_find(s: Seq<FileEntry>, id: i64)
    ensures
        -1 <= id_find(s, id) < s.len(),
        id_find(s, id) >= 0 ==> s[id_find(s, id)].id == Some(id),
        forall|k: int| 0 <= k < id_find(s, id) ==> s[k].id != Some(id),
        id_find(s, id) == -1 ==> forall|k: int| 0 <= k < s.len() ==> s[k].id != Some(id),
    decreases s.len(),
{
    if s.len() > 0 && s[0].id != Some(id) {
        lemma_id_find(s.drop_first(), id);
        assert(forall|k: int| 1 <= k < s.len() ==> s[k] == s.drop_first()[k - 1]);
    }
}

pub proof fn lemma_find_path(s: Seq<FileEntry>, path: Seq<char>)
    ensures
        -1 <= find_path(s, path) < s.len(),
        find_path(s, path) >= 0 ==> s[find_path(s, path)].path@ == path,
        forall|k: int| 0 <= k < find_path(s, path) ==> s[k].path@ != path,
        find_path(s, path) == -1 ==> forall|k: int| 0 <= k < s.len() ==> s[k].path@ != path,
    decreases s.len(),
{
    if s.len() > 0 && s[0].path@ != path {
        lemma_find_path(s.drop_first(), path);
        assert(forall|k: int| 1 <= k < s.len() ==> s[k] == s.drop_first()[k - 1]);
    }
}

/// The id one larger than any in use (ids start at 1, and saturate at
/// the largest id the store can hold).
pub open spec fn next_id_spec(s: Seq<FileEntry>) -> int
    decreases s.len(),
{
    if s.len() == 0 {
        1
    } else {
        let head = next_id_spec(s.drop_last());
        match s.last().id {
            Some(i) => {
                let c = if i >= i64::MAX {
                    i64::MAX as int
                } else {
                    i + 1
                };
                if c > head {
                    c
                } else {
                    head
                }
            },
            None => head,
        }
    }
}

/// An update merged onto an existing record: the id, creation time,
/// first-indexing time and path stay; everything else is taken fresh.
pub open spec fn merged(old: FileEntry, new: FileEntry) -> FileEntry {
    FileEntry {
        id: old.id,
        path: old.path,
        created_at: old.created_at,
        indexed_at: old.indexed_at,
        ..new
    }
}

/// Insert-or-update by path: a known path is merged in place, a new path
/// appended with the next free id.
pub open spec fn upsert_spec(s: Seq<FileEntry>, e: FileEntry) -> Seq<FileEntry> {
    let i = find_path(s, e.path@);
    if i >= 0 {
        s.update(i, merged(s[i], e))
    } else {
        s.push(FileEntry { id: Some(next_id_spec(s) as i64), ..e })
    }
}

/// A batch folded in, first record first.
pub open spec fn upsert_all(s: Seq<FileEntry>, batch: Seq<FileEntry>) -> Seq<FileEntry>
    decreases batch.len(),
{
    if batch.len() == 0 {
        s
    } else {
        upsert_all(upsert_spec(s, batch[0]), batch.drop_first())
    }
}

/// Deletion by path: the record holding it removed, if any.
pub open spec fn delete_spec(s: Seq<FileEntry>, path: Seq<char>) -> Seq<FileEntry> {
    let i = find_path(s, path);
    if i >= 0 {
        s.remove(i)
    } else {
        s
    }
}

/// Well-formed store: paths unique, every record carrying a positive id.
pub open spec fn records_wf(s: Seq<FileEntry>) -> bool {
    &&& forall|i: int, j: int|
        0 <= i < j < s.len() ==> (#[trigger] s[i]).path@ != (#[trigger] s[j]).path@
    &&& forall|i: int| 0 <= i < s.len() ==> (#[trigger] s[i]).id is Some && 1 <= s[i].id->0
}

/// First `limit` records accepted by `pred`, in order.
pub open spec fn filter_limit(
    s: Seq<FileEntry>,
    pred: spec_fn(FileEntry) -> bool,
    limit: int,
) -> Seq<FileEntry>
    decreases s.len(),
{
    if s.len() == 0 || limit <= 0 {
        Seq::empty()
    } else if pred(s[0]) {
        seq![s[0]] + filter_limit(s.drop_first(), pred, limit - 1)
    } else {
        filter_limit(s.drop_first(), pred, limit)
    }
}

/// The name filter of the store's coarse name search: case-insensitive
/// containment of the pattern in the record's name.
pub open spec fn name_matches(pattern: Seq<char>) -> spec_fn(FileEntry) -> bool {
    |e: FileEntry| contains_seq(lower(e.name@), lower(pattern))
}

/// The extension filter of the store's extension search: exact equality.
pub open spec fn ext_matches(ext: Seq<char>) -> spec_fn(FileEntry) -> bool {
    |e: FileEntry|
        match e.extension {
            Some(x) => x@ == ext,
            None => false,
        }
}

impl Database {
    pub closed spec fn view(&self) -> Seq<FileEntry> {
        self.files@
    }

    pub closed spec fn contents_view(&self) -> Seq<(i64, ContentPreview)> {
        self.contents@
    }

    pub closed spec fn fts_view(&self) -> Seq<FtsEntry> {
        self.fts@
    }

    pub closed spec fn rules_view(&self) -> Seq<ExclusionRule> {
        self.rules@
    }

    pub closed spec fn access_view(&self) -> Seq<(i64, i64)> {
        self.access_log@
    }

    pub open spec fn wf(&self) -> bool {
        records_wf(self.view())
    }

    /// An empty store.
    pub fn new() -> (r: Database)
        ensures
            r@ == Seq::<FileEntry>::empty(),
            r.contents_view() == Seq::<(i64, ContentPreview)>::empty(),
            r.fts_view() == Seq::<FtsEntry>::empty(),
            r.rules_view() == Seq::<ExclusionRule>::empty(),
            r.access_view() == Seq::<(i64, i64)>::empty(),
            r.wf(),
    {
        Database {
            files: Vec::new(),
            contents: Vec::new(),
            fts: Vec::new(),
            rules: Vec::new(),
            access_log: Vec::new(),
        }
    }

    /// How many records the store holds.
    pub fn record_count(&self) -> (r: usize)
        ensures
            r == self@.len(),
    {
        self.files.len()
    }

    fn find_index(&self, path: &str) -> (r: Option<usize>)
        ensures
            match r {
                Some(i) => find_path(self@, path@) == i,
                None => find_path(self@, path@) == -1,
            },
    {
        let pv = chars_of(path);
        let mut i: usize = 0;
        while i < self.files.len()
            invariant
                i <= self.files@.len(),
                pv@ == path@,
                forall|k: int| 0 <= k < i ==> (#[trigger] self.files@[k]).path@ != path@,
            decreases self.files.len() - i,
        {
            let fv = chars_of(self.files[i].path.as_str());
            if eq_vec(&fv, &pv) {
                proof {
                    lemma_find_path(self@, path@);
                    if find_path(self@, path@) < i {
                        assert(self@[find_path(self@, path@)].path@ != path@);
                    }
                    if find_path(self@, path@) > i || find_path(self@, path@) == -1 {
                        assert(self@[i as int].path@ != path@);
                    }
                }
                return Some(i);
            }
            i = i + 1;
        }
        proof {
            lemma_find_path(self@, path@);
            if find_path(self@, path@) >= 0 {
                assert(self@[find_path(self@, path@)].path@ != path@);
            }
        }
        None
    }

    fn next_id(&self) -> (r: i64)
        requires
            self.wf(),
        ensures
            r == next_id_spec(self@),
    {
        let mut r: i64 = 1;
        let mut i: usize = 0;
        proof {
            assert(self@.take(0) =~= Seq::<FileEntry>::empty());
        }
        while i < self.files.len()
            invariant
                i <= self.files@.len(),
                self.wf(),
                r == next_id_spec(self@.take(i as int)),
                1 <= r,
                r <= i64::MAX,
            decreases self.files.len() - i,
        {
            proof {
                assert(self@.take(i + 1).drop_last() =~= self@.take(i as int));
                assert(self@.take(i + 1).last() == self@[i as int]);
            }
            match self.files[i].id {
                Some(id) => {
                    if id >= r {
                        if id >= i64::MAX {
                            r = i64::MAX;
                        } else {
                            r = id + 1;
                        }
                    }
                },
                None => {
                },
            }
            i = i + 1;
        }
        proof {
            assert(self@.take(self@.len() as int) =~= self@);
        }
        r
    }

    /// Insert-or-update one record, keyed on its path; gives back the id
    /// under which the path is now stored.
    pub fn insert_file(&mut self, file: &FileEntry) -> (r: i64)
        requires
            old(self).wf(),
        ensures
            final(self)@ == upsert_spec(old(self)@, *file),
            final(self).wf(),
            final(self).contents_view() == old(self).contents_view(),
            final(self).fts_view() == old(self).fts_view(),
            final(self).rules_view() == old(self).rules_view(),
            has_path(final(self)@, file.path@),
            Some(r) == final(self)@[find_path(final(self)@, file.path@)].id,
    {
        proof {
            lemma_find_path(self@, file.path@);
        }
        match self.find_index(file.path.as_str()) {
            Some(i) => {
                let old_entry = &self.files[i];
                let new_entry = FileEntry {
                    id: old_entry.id,
                    path: old_entry.path.clone(),
                    created_at: old_entry.created_at,
                    indexed_at: old_entry.indexed_at,
                    name: file.name.clone(),
                    extension: crate::types::copy_opt_string(&file.extension),
                    size: file.size,
                    modified_at: file.modified_at,
                    accessed_at: file.accessed_at,
                    is_directory: file.is_directory,
                    is_hidden: file.is_hidden,
                    is_symlink: file.is_symlink,
                    parent_path: crate::types::copy_opt_string(&file.parent_path),
                    mime_type: crate::types::copy_opt_string(&file.mime_type),
                    file_hash: crate::types::copy_opt_string(&file.file_hash),
                    last_verified: file.last_verified,
                };
                let id = match new_entry.id {
                    Some(id) => id,
                    None => 0,
                };
                proof {
                    assert(new_entry == merged(old(self)@[i as int], *file));
                }
                self.files.set(i, new_entry);
                proof {
                    lemma_upsert_wf_update(old(self)@, *file, i as int);
                    lemma_find_path_update(old(self)@, *file, i as int);
                }
                id
            },
            None => {
                let id = self.next_id();
                let new_entry = FileEntry { id: Some(id), ..file.duplicate() };
                self.files.push(new_entry);
                proof {
                    lemma_upsert_wf_push(old(self)@, *file);
                    lemma_find_path_push(old(self)@, FileEntry { id: Some(id), ..*file });
                }
                id
            },
        }
    }

    /// A whole batch inserted, first record first. (The store is in
    /// memory; atomicity of the batch is the caller's transaction.)
    pub fn insert_files_batch(&mut self, files: &Vec<FileEntry>) -> (r: Result<
        (),
        crate::error::SearchError,
    >)
        requires
            old(self).wf(),
        ensures
            r is Ok,
            final(self)@ == upsert_all(old(self)@, files@),
            final(self).wf(),
            final(self).contents_view() == old(self).contents_view(),
            final(self).fts_view() == old(self).fts_view(),
            final(self).rules_view() == old(self).rules_view(),
    {
        let mut i: usize = 0;
        proof {
            assert(files@.skip(0) =~= files@);
        }
        while i < files.len()
            invariant
                i <= files@.len(),
                self.wf(),
                upsert_all(old(self)@, files@) == upsert_all(self@, files@.skip(i as int)),
                self.contents_view() == old(self).contents_view(),
                self.fts_view() == old(self).fts_view(),
                self.rules_view() == old(self).rules_view(),
            decreases files.len() - i,
        {
            proof {
                assert(files@.skip(i as int)[0] == files@[i as int]);
                assert(files@.skip(i as int).drop_first() =~= files@.skip(i + 1));
            }
            self.insert_file(&files[i]);
            i = i + 1;
        }
        proof {
            assert(files@.skip(files@.len() as int) =~= Seq::<FileEntry>::empty());
        }
        Ok(())
    }

    /// The record holding `path`, copied out.
    pub fn find_by_path(&self, path: &str) -> (r: Option<FileEntry>)
        ensures
            match r {
                Some(e) => has_path(self@, path@) && e == self@[find_path(self@, path@)],
                None => !has_path(self@, path@),
            },
    {
        match self.find_index(path) {
            Some(i) => {
                proof {
                    lemma_find_path(self@, path@);
                }
                Some(self.files[i].duplicate())
            },
            None => None,
        }
    }

    /// The first record carrying `id`, copied out.
    pub fn find_by_id(&self, id: i64) -> (r: Option<FileEntry>)
        ensures
            match r {
                Some(e) => id_find(self@, id) >= 0 && e == self@[id_find(self@, id)],
                None => id_find(self@, id) == -1,
            },
    {
        proof {
            lemma_id_find(self@, id);
        }
        let mut i: usize = 0;
        while i < self.files.len()
            invariant
                i <= self.files@.len(),
                forall|k: int| 0 <= k < i ==> (#[trigger] self@[k]).id != Some(id),
            decreases self.files.len() - i,
        {
            let matches_id = match self.files[i].id {
                Some(x) => x == id,
                None => false,
            };
            if matches_id {
                proof {
                    if id_find(self@, id) < i {
                        assert(self@[id_find(self@, id)].id != Some(id));
                    }
                    if id_find(self@, id) > i || id_find(self@, id) == -1 {
                        assert(self@[i as int].id != Some(id));
                    }
                }
                return Some(self.files[i].duplicate());
            }
            i = i + 1;
        }
        proof {
            if id_find(self@, id) >= 0 {
                assert(self@[id_find(self@, id)].id != Some(id));
            }
        }
        None
    }

    /// The record holding `path` removed, if present.
    pub fn delete_by_path(&mut self, path: &str)
        requires
            old(self).wf(),
        ensures
            final(self)@ == delete_spec(old(self)@, path@),
            final(self).wf(),
            final(self).contents_view() == old(self).contents_view(),
            final(self).fts_view() == old(self).fts_view(),
            final(self).rules_view() == old(self).rules_view(),
            !has_path(final(self)@, path@),
    {
        proof {
            lemma_find_path(old(self)@, path@);
        }
        match self.find_index(path) {
            Some(i) => {
                self.files.remove(i);
                proof {
                    lemma_delete_wf(old(self)@, path@, i as int);
                }
            },
            None => {
            },
        }
    }

    /// Up to `limit` records whose name contains the pattern, up to ASCII
    /// case, in store order.
    pub fn search_by_name(&self, pattern: &str, limit: usize) -> (r: Vec<FileEntry>)
        ensures
            r@ == filter_limit(self@, name_matches(pattern@), limit as int),
    {
        let pl = lower_vec(&chars_of(pattern));
        let mut r: Vec<FileEntry> = Vec::new();
        let mut i: usize = 0;
        let ghost pred = name_matches(pattern@);
        proof {
            assert(self@.skip(0) =~= self@);
            assert(r@ + filter_limit(self@, pred, limit as int) =~= filter_limit(
                self@,
                pred,
                limit as int,
            ));
        }
        while i < self.files.len() && r.len() < limit
            invariant
                i <= self.files@.len(),
                r@.len() <= limit,
                pred == name_matches(pattern@),
                pl@ == lower(pattern@),
                filter_limit(self@, pred, limit as int) == r@ + filter_limit(
                    self@.skip(i as int),
                    pred,
                    limit - r@.len(),
                ),
            decreases self.files.len() - i,
        {
            proof {
                assert(self@.skip(i as int)[0] == self@[i as int]);
                assert(self@.skip(i as int).drop_first() =~= self@.skip(i + 1));
            }
            let nl = lower_vec(&chars_of(self.files[i].name.as_str()));
            if crate::text::contains_vec(&nl, &pl) {
                let ghost r0 = r@;
                r.push(self.files[i].duplicate());
                proof {
                    assert(r@ =~= r0.push(self@[i as int]));
                    assert(r0 + (seq![self@[i as int]] + filter_limit(
                        self@.skip(i + 1),
                        pred,
                        limit - r0.len() - 1,
                    )) =~= r@ + filter_limit(self@.skip(i + 1), pred, limit - r@.len()));
                }
            }
            i = i + 1;
        }
        proof {
            if i >= self.files@.len() {
                assert(self@.skip(i as int) =~= Seq::<FileEntry>::empty());
                assert(r@ + Seq::<FileEntry>::empty() =~= r@);
            } else {
                assert(filter_limit(self@.skip(i as int), pred, 0) =~= Seq::<FileEntry>::empty());
                assert(r@ + Seq::<FileEntry>::empty() =~= r@);
            }
        }
        r
    }

    /// Up to `limit` records whose stored extension equals `ext` exactly.
    pub fn search_by_extension(&self, ext: &str, limit: usize) -> (r: Vec<FileEntry>)
        ensures
            r@ == filter_limit(self@, ext_matches(ext@), limit as int),
    {
        let ev = chars_of(ext);
        let mut r: Vec<FileEntry> = Vec::new();
        let mut i: usize = 0;
        let ghost pred = ext_matches(ext@);
        proof {
            assert(self@.skip(0) =~= self@);
            assert(r@ + filter_limit(self@, pred, limit as int) =~= filter_limit(
                self@,
                pred,
                limit as int,
            ));
        }
        while i < self.files.len() && r.len() < limit
            invariant
                i <= self.files@.len(),
                r@.len() <= limit,
                pred == ext_matches(ext@),
                ev@ == ext@,
                filter_limit(self@, pred, limit as int) == r@ + filter_limit(
                    self@.skip(i as int),
                    pred,
                    limit - r@.len(),
                ),
            decreases self.files.len() - i,
        {
            proof {
                assert(self@.skip(i as int)[0] == self@[i as int]);
                assert(self@.skip(i as int).drop_first() =~= self@.skip(i + 1));
            }
            let hit = match &self.files[i].extension {
                Some(x) => eq_vec(&chars_of(x.as_str()), &ev),
                None => false,
            };
            if hit {
                let ghost r0 = r@;
                r.push(self.files[i].duplicate());
                proof {
                    assert(r@ =~= r0.push(self@[i as int]));
                    assert(r0 + (seq![self@[i as int]] + filter_limit(
                        self@.skip(i + 1),
                        pred,
                        limit - r0.len() - 1,
                    )) =~= r@ + filter_limit(self@.skip(i + 1), pred, limit - r@.len()));
                }
            }
            i = i + 1;
        }
        proof {
            if i >= self.files@.len() {
                assert(self@.skip(i as int) =~= Seq::<FileEntry>::empty());
                assert(r@ + Seq::<FileEntry>::empty() =~= r@);
            } else {
                assert(filter_limit(self@.skip(i as int), pred, 0) =~= Seq::<FileEntry>::empty());
                assert(r@ + Seq::<FileEntry>::empty() =~= r@);
            }
        }
        r
    }

    /// Stable pagination over the records in store order: the page of up
    /// to `limit` records from position `offset` on.
    pub fn get_all_files(&self, limit: usize, offset: usize) -> (r: Vec<FileEntry>)
        ensures
            r@ == self@.subrange(
                if offset <= self@.len() {
                    offset as int
                } else {
                    self@.len() as int
                },
                if offset + limit <= self@.len() {
                    offset + limit
                } else {
                    self@.len() as int
                },
            ),
    {
        let mut r: Vec<FileEntry> = Vec::new();
        let n = self.files.len();
        if offset >= n {
            proof {
                assert(self@.subrange(self@.len() as int, self@.len() as int)
                    =~= Seq::<FileEntry>::empty());
                if offset <= self@.len() {
                    assert(self@.subrange(offset as int, offset as int)
                        =~= Seq::<FileEntry>::empty());
                }
            }
            return r;
        }
        let mut i: usize = offset;
        let end: usize = if n - offset > limit {
            offset + limit
        } else {
            n
        };
        while i < end
            invariant
                offset <= i <= end <= self.files@.len(),
                end - offset <= limit,
                end == (if self.files@.len() - offset > limit {
                    offset + limit
                } else {
                    self.files@.len() as int
                }),
                r@ == self@.subrange(offset as int, i as int),
            decreases end - i,
        {
            let ghost r0 = r@;
            r.push(self.files[i].duplicate());
            proof {
                assert(self@.subrange(offset as int, i + 1) =~= r0.push(self@[i as int]));
            }
            i = i + 1;
        }
        r
    }

    /// Index of the content row for `file_id`, or none.
    fn find_content(&self, file_id: i64) -> (r: Option<usize>)
        ensures
            match r {
                Some(i) => i < self.contents_view().len() && self.contents_view()[i as int].0
                    == file_id,
                None => forall|k: int|
                    0 <= k < self.contents_view().len() ==> (#[trigger] self.contents_view()[
                        k
                    ]).0 != file_id,
            },
    {
        let mut i: usize = 0;
        while i < self.contents.len()
            invariant
                i <= self.contents@.len(),
                forall|k: int| 0 <= k < i ==> (#[trigger] self.contents@[k]).0 != file_id,
            decreases self.contents.len() - i,
        {
            if self.contents[i].0 == file_id {
                return Some(i);
            }
            i = i + 1;
        }
        None
    }

    /// Insert-or-update the content preview of one file.
    pub fn insert_content(&mut self, file_id: i64, preview: &ContentPreview)
        ensures
            final(self)@ == old(self)@,
            final(self).rules_view() == old(self).rules_view(),
            final(self).fts_view() == old(self).fts_view(),
            exists|k: int|
                0 <= k < final(self).contents_view().len() && (
                #[trigger] final(self).contents_view()[k]) == (file_id, *preview),
            forall|k: int|
                0 <= k < old(self).contents_view().len() && (#[trigger] old(
                    self,
                ).contents_view()[k]).0 != file_id ==> final(self).contents_view().contains(
                    old(self).contents_view()[k],
                ),
    {
        match self.find_content(file_id) {
            Some(i) => {
                let ghost c0 = self.contents@;
                self.contents.set(i, (file_id, preview.duplicate()));
                proof {
                    assert(self.contents_view()[i as int] == (file_id, *preview));
                    assert(forall|k: int|
                        0 <= k < c0.len() && (#[trigger] c0[k]).0 != file_id
                            ==> self.contents_view()[k] == c0[k]);
                    assert(forall|k: int|
                        0 <= k < c0.len() && (#[trigger] c0[k]).0 != file_id
                            ==> self.contents_view().contains(c0[k]));
                }
            },
            None => {
                let ghost c0 = self.contents@;
                self.contents.push((file_id, preview.duplicate()));
                proof {
                    assert(self.contents_view()[c0.len() as int] == (file_id, *preview));
                    assert(forall|k: int|
                        0 <= k < c0.len() ==> self.contents_view()[k] == c0[k]);
                    assert(forall|k: int|
                        0 <= k < c0.len() && (#[trigger] c0[k]).0 != file_id
                            ==> self.contents_view().contains(c0[k]));
                }
            },
        }
    }

    /// Append one full-text row.
    pub fn insert_fts_entry(&mut self, file_id: i64, name: &str, path: &str, content: &str)
        ensures
            final(self)@ == old(self)@,
            final(self).rules_view() == old(self).rules_view(),
            final(self).contents_view() == old(self).contents_view(),
            final(self).fts_view().len() == old(self).fts_view().len() + 1,
            final(self).fts_view().last().file_id == file_id,
            final(self).fts_view().last().name@ == name@,
            final(self).fts_view().last().path@ == path@,
            final(self).fts_view().last().content@ == content@,
            forall|k: int|
                0 <= k < old(self).fts_view().len() ==> final(self).fts_view()[k] == old(
                    self,
                ).fts_view()[k],
    {
        self.fts.push(
            FtsEntry {
                file_id,
                name: name.to_owned(),
                path: path.to_owned(),
                content: content.to_owned(),
            },
        );
    }

    /// Does a full-text row hit the query? Case-insensitive containment in
    /// the row's name, path or content.
    pub open spec fn fts_hit(row: FtsEntry, pattern: Seq<char>) -> bool {
        ||| contains_seq(lower(row.name@), lower(pattern))
        ||| contains_seq(lower(row.path@), lower(pattern))
        ||| contains_seq(lower(row.content@), lower(pattern))
    }

    /// Some full-text row hit by the pattern carries this id.
    pub open spec fn id_hit(&self, pattern: Seq<char>, id: i64) -> bool {
        exists|j: int|
            0 <= j < self.fts_view().len() && Database::fts_hit(
                #[trigger] self.fts_view()[j],
                pattern,
            ) && self.fts_view()[j].file_id == id
    }

    /// The file ids of the rows the pattern hits, in scan order, at most
    /// `limit` of them.
    pub open spec fn fts_hits_limit_of(&self, pattern: Seq<char>, limit: int) -> Seq<i64> {
        fts_hits_limit(self.fts_view(), pattern, limit)
    }

    /// The file ids of full-text rows hit by the query, in row order, at
    /// most `limit` of them: exactly the hit scan `fts_hits_limit`
    /// names, so when the limit is not reached every hit row's id is
    /// reported.
    pub fn search_content(&self, pattern: &str, limit: usize) -> (r: Vec<i64>)
        ensures
            r@ == fts_hits_limit(self.fts_view(), pattern@, limit as int),
            forall|k: int| 0 <= k < r@.len() ==> self.id_hit(pattern@, #[trigger] r@[k]),
            r@.len() <= limit,
            (r@.len() < limit) ==> forall|j: int|
                0 <= j < self.fts_view().len() && Database::fts_hit(
                    #[trigger] self.fts_view()[j],
                    pattern@,
                ) ==> r@.contains(self.fts_view()[j].file_id),
    {
        let pl = lower_vec(&chars_of(pattern));
        let mut r: Vec<i64> = Vec::new();
        let mut i: usize = 0;
        proof {
            assert(self.fts_view().skip(0) =~= self.fts_view());
            assert(r@ + fts_hits_limit(self.fts_view().skip(0), pattern@, limit as int)
                =~= fts_hits_limit(self.fts_view(), pattern@, limit as int));
        }
        while i < self.fts.len() && r.len() < limit
            invariant
                i <= self.fts@.len(),
                r@.len() <= limit,
                pl@ == lower(pattern@),
                fts_hits_limit(self.fts_view(), pattern@, limit as int) == r@ + fts_hits_limit(
                    self.fts_view().skip(i as int),
                    pattern@,
                    limit - r@.len(),
                ),
                forall|k: int| 0 <= k < r@.len() ==> self.id_hit(pattern@, #[trigger] r@[k]),
                forall|j: int|
                    0 <= j < i && Database::fts_hit(#[trigger] self.fts_view()[j], pattern@)
                        ==> r@.contains(self.fts_view()[j].file_id),
            decreases self.fts.len() - i,
        {
            let row = &self.fts[i];
            let nm = lower_vec(&chars_of(row.name.as_str()));
            let pt = lower_vec(&chars_of(row.path.as_str()));
            let ct = lower_vec(&chars_of(row.content.as_str()));
            if crate::text::contains_vec(&nm, &pl) || crate::text::contains_vec(&pt, &pl)
                || crate::text::contains_vec(&ct, &pl) {
                let ghost r0 = r@;
                r.push(row.file_id);
                proof {
                    assert(Database::fts_hit(self.fts_view()[i as int], pattern@));
                    assert forall|k: int| 0 <= k < r@.len() implies self.id_hit(
                        pattern@,
                        #[trigger] r@[k],
                    ) by {
                        if k < r0.len() {
                            assert(r@[k] == r0[k]);
                            assert(self.id_hit(pattern@, r0[k]));
                        } else {
                            assert(0 <= i < self.fts_view().len() && Database::fts_hit(
                                self.fts_view()[i as int],
                                pattern@,
                            ) && self.fts_view()[i as int].file_id == r@[k]);
                        }
                    }
                    assert forall|j: int|
                        0 <= j < i && Database::fts_hit(
                            #[trigger] self.fts_view()[j],
                            pattern@,
                        ) implies r@.contains(self.fts_view()[j].file_id) by {
                        let x = self.fts_view()[j].file_id;
                        assert(r0.contains(x));
                        let n = choose|n: int| 0 <= n < r0.len() && r0[n] == x;
                        assert(r@[n] == x);
                    }
                    assert(r@[r0.len() as int] == self.fts_view()[i as int].file_id);
                    assert(r@.contains(self.fts_view()[i as int].file_id));
                    let rest = self.fts_view().skip(i as int);
                    assert(rest[0] == self.fts_view()[i as int]);
                    assert(rest.drop_first() =~= self.fts_view().skip(i + 1));
                    assert(fts_hits_limit(rest, pattern@, limit - r0.len()) == seq![
                        rest[0].file_id,
                    ] + fts_hits_limit(rest.drop_first(), pattern@, limit - r0.len() - 1));
                    assert(r0 + fts_hits_limit(rest, pattern@, limit - r0.len()) =~= r@
                        + fts_hits_limit(
                        self.fts_view().skip(i + 1),
                        pattern@,
                        limit - r@.len(),
                    ));
                }
            } else {
                proof {
                    assert(!Database::fts_hit(self.fts_view()[i as int], pattern@));
                    let rest = self.fts_view().skip(i as int);
                    assert(rest[0] == self.fts_view()[i as int]);
                    assert(rest.drop_first() =~= self.fts_view().skip(i + 1));
                    assert(fts_hits_limit(rest, pattern@, limit - r@.len())
                        == fts_hits_limit(rest.drop_first(), pattern@, limit - r@.len()));
                }
            }
            i = i + 1;
        }
        proof {
            if i == self.fts@.len() {
                assert(self.fts_view().skip(i as int) =~= Seq::<FtsEntry>::empty());
                assert(fts_hits_limit(self.fts_view().skip(i as int), pattern@, limit - r@.len())
                    =~= Seq::<i64>::empty());
            } else {
                assert(r@.len() == limit);
                assert(fts_hits_limit(self.fts_view().skip(i as int), pattern@, 0)
                    =~= Seq::<i64>::empty());
            }
            assert(r@ + Seq::<i64>::empty() =~= r@);
        }
        r
    }

    /// Record one exclusion rule.
    pub fn add_exclusion_rule(&mut self, rule: &ExclusionRule)
        ensures
            final(self)@ == old(self)@,
            final(self).contents_view() == old(self).contents_view(),
            final(self).fts_view() == old(self).fts_view(),
            final(self).rules_view() == old(self).rules_view().push(*rule),
    {
        self.rules.push(rule.duplicate());
    }

    /// Every stored exclusion rule, in insertion order.
    pub fn get_exclusion_rules(&self) -> (r: Vec<ExclusionRule>)
        ensures
            r@ == self.rules_view(),
    {
        let mut r: Vec<ExclusionRule> = Vec::new();
        let mut i: usize = 0;
        while i < self.rules.len()
            invariant
                i <= self.rules@.len(),
                r@ == self.rules_view().take(i as int),
            decreases self.rules.len() - i,
        {
            r.push(self.rules[i].duplicate());
            proof {
                assert(self.rules_view().take(i + 1) =~= self.rules_view().take(i as int).push(
                    self.rules_view()[i as int],
                ));
            }
            i = i + 1;
        }
        proof {
            assert(self.rules_view().take(self.rules_view().len() as int)
                =~= self.rules_view());
        }
        r
    }

    /// Append one access-log row.
    pub fn log_access(&mut self, file_id: i64, at: i64)
        ensures
            final(self)@ == old(self)@,
            final(self).contents_view() == old(self).contents_view(),
            final(self).fts_view() == old(self).fts_view(),
            final(self).rules_view() == old(self).rules_view(),
            final(self).access_view() == old(self).access_view().push((file_id, at)),
    {
        self.access_log.push((file_id, at));
    }

    /// Sum of the sizes of the plain-file records, saturating at the
    /// counter's width.
    pub open spec fn total_size_spec(s: Seq<FileEntry>) -> int
        decreases s.len(),
    {
        if s.len() == 0 {
            0
        } else {
            let head = Database::total_size_spec(s.drop_last());
            let add: int = if s.last().is_directory {
                0
            } else {
                s.last().size as int
            };
            if head + add > u64::MAX {
                u64::MAX as int
            } else {
                head + add
            }
        }
    }

    pub open spec fn count_if(s: Seq<FileEntry>, pred: spec_fn(FileEntry) -> bool) -> int
        decreases s.len(),
    {
        if s.len() == 0 {
            0
        } else {
            Database::count_if(s.drop_last(), pred) + (if pred(s.last()) {
                1int
            } else {
                0int
            })
        }
    }

    /// The latest first-indexing instant among the records; zero when
    /// the store is empty.
    pub open spec fn last_update_spec(s: Seq<FileEntry>) -> int
        decreases s.len(),
    {
        if s.len() == 0 {
            0
        } else {
            let head = Database::last_update_spec(s.drop_last());
            if s.last().indexed_at > head {
                s.last().indexed_at as int
            } else {
                head
            }
        }
    }

    /// Aggregate counters over the whole store. The store lives in
    /// memory, so the reported index size on disk is zero.
    pub fn get_stats(&self) -> (r: IndexStats)
        requires
            self@.len() <= usize::MAX,
        ensures
            r.total_files == Database::count_if(self@, |e: FileEntry| !e.is_directory),
            r.total_directories == Database::count_if(self@, |e: FileEntry| e.is_directory),
            r.total_size == Database::total_size_spec(self@),
            r.indexed_files == self.contents_view().len(),
            r.last_update == Database::last_update_spec(self@),
            r.index_size == 0,
    {
        let ghost files_pred = |e: FileEntry| !e.is_directory;
        let ghost dirs_pred = |e: FileEntry| e.is_directory;
        let mut total_files: usize = 0;
        let mut total_directories: usize = 0;
        let mut total_size: u64 = 0;
        let mut last_update: i64 = 0;
        let mut i: usize = 0;
        proof {
            assert(self@.take(0) =~= Seq::<FileEntry>::empty());
        }
        while i < self.files.len()
            invariant
                i <= self.files@.len(),
                files_pred == (|e: FileEntry| !e.is_directory),
                dirs_pred == (|e: FileEntry| e.is_directory),
                total_files == Database::count_if(self@.take(i as int), files_pred),
                total_directories == Database::count_if(self@.take(i as int), dirs_pred),
                total_files + total_directories == i,
                total_size == Database::total_size_spec(self@.take(i as int)),
                last_update == Database::last_update_spec(self@.take(i as int)),
                last_update >= 0,
            decreases self.files.len() - i,
        {
            proof {
                assert(self@.take(i + 1).drop_last() =~= self@.take(i as int));
                assert(self@.take(i + 1).last() == self@[i as int]);
            }
            let e = &self.files[i];
            if e.is_directory {
                total_directories = total_directories + 1;
            } else {
                total_files = total_files + 1;
                if total_size > u64::MAX - e.size {
                    total_size = u64::MAX;
                } else {
                    total_size = total_size + e.size;
                }
            }
            if e.indexed_at > last_update {
                last_update = e.indexed_at;
            }
            i = i + 1;
        }
        proof {
            assert(self@.take(self@.len() as int) =~= self@);
        }
        IndexStats {
            total_files,
            total_directories,
            total_size,
            indexed_files: self.contents.len(),
            last_update,
            index_size: 0,
        }
    }

    /// Empty every table except the exclusion rules.
    pub fn clear_all(&mut self)
        ensures
            final(self)@ == Seq::<FileEntry>::empty(),
            final(self).contents_view() == Seq::<(i64, ContentPreview)>::empty(),
            final(self).fts_view() == Seq::<FtsEntry>::empty(),
            final(self).access_view() == Seq::<(i64, i64)>::empty(),
            final(self).rules_view() == old(self).rules_view(),
            final(self).wf(),
    {
        self.files = Vec::new();
        self.contents = Vec::new();
        self.fts = Vec::new();
        self.access_log = Vec::new();
    }

    /// Compaction; the in-memory store has nothing to compact.
    pub fn vacuum(&mut self)
        ensures
            *final(self) == *old(self),
    {
    }
}

// ---------------------------------------------------------------------------
// The view of a record: every field as a mathematical value
// ---------------------------------------------------------------------------

/// A record, field for field, at the level of views.
#[verifier::ext_equal]
pub struct EntryView {
    pub id: Option<i64>,
    pub path: Seq<char>,
    pub name: Seq<char>,
    pub extension: Option<Seq<char>>,
    pub size: u64,
    pub created_at: Option<i64>,
    pub modified_at: Option<i64>,
    pub accessed_at: Option<i64>,
    pub is_directory: bool,
    pub is_hidden: bool,
    pub is_symlink: bool,
    pub parent_path: Option<Seq<char>>,
    pub mime_type: Option<Seq<char>>,
    pub file_hash: Option<Seq<char>>,
    pub indexed_at: i64,
    pub last_verified: i64,
}

pub open spec fn view_opt(s: Option<String>) -> Option<Seq<char>> {
    match s {
        Some(x) => Some(x@),
        None => None,
    }
}

/// The view of one record.
pub open spec fn ev(e: FileEntry) -> EntryView {
    EntryView {
        id: e.id,
        path: e.path@,
        name: e.name@,
        extension: view_opt(e.extension),
        size: e.size,
        created_at: e.created_at,
        modified_at: e.modified_at,
        accessed_at: e.accessed_at,
        is_directory: e.is_directory,
        is_hidden: e.is_hidden,
        is_symlink: e.is_symlink,
        parent_path: view_opt(e.parent_path),
        mime_type: view_opt(e.mime_type),
        file_hash: view_opt(e.file_hash),
        indexed_at: e.indexed_at,
        last_verified: e.last_verified,
    }
}

pub open spec fn ev_seq(s: Seq<FileEntry>) -> Seq<EntryView> {
    s.map_values(|e: FileEntry| ev(e))
}

/// `find_path` at the level of views.
pub open spec fn ev_find(s: Seq<EntryView>, path: Seq<char>) -> int
    decreases s.len(),
{
    if s.len() == 0 {
        -1
    } else if s[0].path == path {
        0
    } else if ev_find(s.drop_first(), path) == -1 {
        -1
    } else {
        1 + ev_find(s.drop_first(), path)
    }
}

pub proof fn lemma_ev_find(s: Seq<EntryView>, path: Seq<char>)
    ensures
        -1 <= ev_find(s, path) < s.len(),
        ev_find(s, path) >= 0 ==> s[ev_find(s, path)].path == path,
        forall|k: int| 0 <= k < ev_find(s, path) ==> s[k].path != path,
        ev_find(s, path) == -1 ==> forall|k: int| 0 <= k < s.len() ==> s[k].path != path,
    decreases s.len(),
{
    if s.len() > 0 && s[0].path != path {
        lemma_ev_find(s.drop_first(), path);
        assert(forall|k: int| 1 <= k < s.len() ==> s[k] == s.drop_first()[k - 1]);
    }
}

/// `next_id_spec` at the level of views.
pub open spec fn ev_next_id(s: Seq<EntryView>) -> int
    decreases s.len(),
{
    if s.len() == 0 {
        1
    } else {
        let head = ev_next_id(s.drop_last());
        match s.last().id {
            Some(i) => {
                let c = if i >= i64::MAX {
                    i64::MAX as int
                } else {
                    i + 1
                };
                if c > head {
                    c
                } else {
                    head
                }
            },
            None => head,
        }
    }
}

/// `merged` at the level of views.
pub open spec fn ev_merged(old: EntryView, new: EntryView) -> EntryView {
    EntryView {
        id: old.id,
        path: old.path,
        created_at: old.created_at,
        indexed_at: old.indexed_at,
        ..new
    }
}

/// `upsert_spec` at the level of views.
pub open spec fn ev_upsert(s: Seq<EntryView>, e: EntryView) -> Seq<EntryView> {
    let i = ev_find(s, e.path);
    if i >= 0 {
        s.update(i, ev_merged(s[i], e))
    } else {
        s.push(EntryView { id: Some(ev_next_id(s) as i64), ..e })
    }
}

/// `upsert_all` at the level of views.
pub open spec fn ev_upsert_all(s: Seq<EntryView>, batch: Seq<EntryView>) -> Seq<EntryView>
    decreases batch.len(),
{
    if batch.len() == 0 {
        s
    } else {
        ev_upsert_all(ev_upsert(s, batch[0]), batch.drop_first())
    }
}

/// Upserting a concatenated batch is upserting its halves in turn.
pub proof fn lemma_ev_upsert_all_concat(s: Seq<EntryView>, a: Seq<EntryView>, b: Seq<EntryView>)
    ensures
        ev_upsert_all(s, a + b) == ev_upsert_all(ev_upsert_all(s, a), b),
    decreases a.len(),
{
    if a.len() == 0 {
        assert(a + b =~= b);
    } else {
        assert((a + b)[0] == a[0]);
        assert((a + b).drop_first() =~= a.drop_first() + b);
        lemma_ev_upsert_all_concat(ev_upsert(s, a[0]), a.drop_first(), b);
    }
}

/// `delete_spec` at the level of views.
pub open spec fn ev_delete(s: Seq<EntryView>, path: Seq<char>) -> Seq<EntryView> {
    let i = ev_find(s, path);
    if i >= 0 {
        s.remove(i)
    } else {
        s
    }
}

/// Finding a path commutes with taking views.
pub proof fn lemma_find_commutes(s: Seq<FileEntry>, path: Seq<char>)
    ensures
        ev_find(ev_seq(s), path) == find_path(s, path),
    decreases s.len(),
{
    if s.len() > 0 {
        lemma_find_commutes(s.drop_first(), path);
        assert(ev_seq(s.drop_first()) =~= ev_seq(s).drop_first());
        assert(ev_seq(s)[0] == ev(s[0]));
    }
}

/// The next id commutes with taking views.
pub proof fn lemma_next_id_commutes(s: Seq<FileEntry>)
    ensures
        ev_next_id(ev_seq(s)) == next_id_spec(s),
    decreases s.len(),
{
    if s.len() > 0 {
        lemma_next_id_commutes(s.drop_last());
        assert(ev_seq(s.drop_last()) =~= ev_seq(s).drop_last());
        assert(ev_seq(s).last() == ev(s.last()));
    }
}

/// Insert-or-update commutes with taking views.
pub proof fn lemma_upsert_commutes(s: Seq<FileEntry>, e: FileEntry)
    ensures
        ev_seq(upsert_spec(s, e)) == ev_upsert(ev_seq(s), ev(e)),
{
    lemma_find_commutes(s, e.path@);
    lemma_find_path(s, e.path@);
    lemma_ev_find(ev_seq(s), e.path@);
    let i = find_path(s, e.path@);
    if i >= 0 {
        assert(ev(merged(s[i], e)) =~= ev_merged(ev_seq(s)[i], ev(e)));
        assert(ev_seq(s.update(i, merged(s[i], e))) =~= ev_seq(s).update(
            i,
            ev_merged(ev_seq(s)[i], ev(e)),
        ));
    } else {
        lemma_next_id_commutes(s);
        assert(ev(FileEntry { id: Some(next_id_spec(s) as i64), ..e }) =~= (EntryView {
            id: Some(ev_next_id(ev_seq(s)) as i64),
            ..ev(e)
        }));
        assert(ev_seq(s.push(FileEntry { id: Some(next_id_spec(s) as i64), ..e }))
            =~= ev_seq(s).push(
            EntryView { id: Some(ev_next_id(ev_seq(s)) as i64), ..ev(e) },
        ));
    }
}

/// Batch insertion commutes with taking views.
pub proof fn lemma_upsert_all_commutes(s: Seq<FileEntry>, batch: Seq<FileEntry>)
    ensures
        ev_seq(upsert_all(s, batch)) == ev_upsert_all(ev_seq(s), ev_seq(batch)),
    decreases batch.len(),
{
    if batch.len() > 0 {
        lemma_upsert_commutes(s, batch[0]);
        lemma_upsert_all_commutes(upsert_spec(s, batch[0]), batch.drop_first());
        assert(ev_seq(batch).drop_first() =~= ev_seq(batch.drop_first()));
        assert(ev_seq(batch)[0] == ev(batch[0]));
    }
}

/// Deletion commutes with taking views.
pub proof fn lemma_delete_commutes(s: Seq<FileEntry>, path: Seq<char>)
    ensures
        ev_seq(delete_spec(s, path)) == ev_delete(ev_seq(s), path),
{
    lemma_find_commutes(s, path);
    lemma_find_path(s, path);
    let i = find_path(s, path);
    if i >= 0 {
        assert(ev_seq(s.remove(i)) =~= ev_seq(s).remove(i));
    }
}

// ---------------------------------------------------------------------------
// Lemmas about the model
// ---------------------------------------------------------------------------

/// The next id over a prefix never exceeds the next id over the whole.
pub proof fn lemma_next_id_le(s: Seq<FileEntry>, i: int)
    requires
        0 <= i <= s.len(),
    ensures
        next_id_spec(s.take(i)) <= next_id_spec(s),
    decreases s.len() - i,
{
    if i < s.len() {
        lemma_next_id_le(s, i + 1);
        assert(s.take(i + 1).drop_last() =~= s.take(i));
    } else {
        assert(s.take(i) =~= s);
    }
}

/// The next id stays within the id type.
pub proof fn lemma_next_id_bound(s: Seq<FileEntry>)
    ensures
        1 <= next_id_spec(s) <= i64::MAX,
    decreases s.len(),
{
    if s.len() > 0 {
        lemma_next_id_bound(s.drop_last());
    }
}

proof fn lemma_upsert_wf_update(s: Seq<FileEntry>, e: FileEntry, i: int)
    requires
        records_wf(s),
        0 <= i < s.len(),
        i == find_path(s, e.path@),
    ensures
        records_wf(upsert_spec(s, e)),
    decreases s.len(),
{
    let s2 = s.update(i, merged(s[i], e));
    assert(s2[i].path@ == s[i].path@);
    assert(s2[i].id == s[i].id);
    assert(forall|k: int| 0 <= k < s.len() && k != i ==> s2[k] == s[k]);
    assert(next_id_spec(s2) == next_id_spec(s)) by {
        lemma_next_id_same(s, s2);
    }
}

/// Two stores with the same ids slot for slot have the same next id.
proof fn lemma_next_id_same(a: Seq<FileEntry>, b: Seq<FileEntry>)
    requires
        a.len() == b.len(),
        forall|k: int| 0 <= k < a.len() ==> (#[trigger] a[k]).id == b[k].id,
    ensures
        next_id_spec(a) == next_id_spec(b),
    decreases a.len(),
{
    if a.len() > 0 {
        lemma_next_id_same(a.drop_last(), b.drop_last());
        assert(forall|k: int| 0 <= k < a.len() - 1 ==> a.drop_last()[k] == a[k]);
        assert(forall|k: int| 0 <= k < b.len() - 1 ==> b.drop_last()[k] == b[k]);
        assert(a.last().id == b.last().id);
    }
}

proof fn lemma_upsert_wf_push(s: Seq<FileEntry>, e: FileEntry)
    requires
        records_wf(s),
        find_path(s, e.path@) == -1,
    ensures
        records_wf(upsert_spec(s, e)),
{
    let e2 = FileEntry { id: Some(next_id_spec(s) as i64), ..e };
    let s2 = s.push(e2);
    lemma_find_path(s, e.path@);
    lemma_next_id_bound(s);
    assert(s2.drop_last() =~= s);
    assert(s2.last() == e2);
    assert(forall|k: int| 0 <= k < s.len() ==> s2[k] == s[k]);
}

proof fn lemma_find_path_update(s: Seq<FileEntry>, e: FileEntry, i: int)
    requires
        0 <= i < s.len(),
        i == find_path(s, e.path@),
    ensures
        find_path(upsert_spec(s, e), e.path@) == i,
    decreases i,
{
    lemma_find_path(s, e.path@);
    let s2 = s.update(i, merged(s[i], e));
    lemma_find_path_stable(s, s2, e.path@, i);
}

/// Two stores that agree below and at the hit index find the same path.
proof fn lemma_find_path_stable(a: Seq<FileEntry>, b: Seq<FileEntry>, path: Seq<char>, i: int)
    requires
        0 <= i < a.len(),
        a.len() == b.len(),
        forall|k: int| 0 <= k < i ==> (#[trigger] a[k]).path@ != path && b[k].path@ != path,
        b[i].path@ == path,
    ensures
        find_path(b, path) == i,
    decreases i,
{
    if i == 0 {
    } else {
        assert(a[0].path@ != path);
        assert(b[0].path@ != path);
        lemma_find_path_stable(a.drop_first(), b.drop_first(), path, i - 1);
        assert(forall|k: int| 0 <= k < i - 1 ==> a.drop_first()[k] == a[k + 1]);
        assert(forall|k: int| 0 <= k < b.len() - 1 ==> b.drop_first()[k] == b[k + 1]);
    }
}

proof fn lemma_find_path_push(s: Seq<FileEntry>, e: FileEntry)
    requires
        find_path(s, e.path@) == -1,
    ensures
        find_path(s.push(e), e.path@) == s.len(),
    decreases s.len(),
{
    lemma_find_path(s, e.path@);
    lemma_find_path_stable(s.push(e), s.push(e), e.path@, s.len() as int);
}

proof fn lemma_delete_wf(s: Seq<FileEntry>, path: Seq<char>, i: int)
    requires
        records_wf(s),
        0 <= i < s.len(),
        i == find_path(s, path),
    ensures
        records_wf(s.remove(i)),
        !has_path(s.remove(i), path),
{
    lemma_find_path(s, path);
    let s2 = s.remove(i);
    assert(forall|k: int| 0 <= k < i ==> s2[k] == s[k]);
    assert(forall|k: int| i <= k < s2.len() ==> s2[k] == s[k + 1]);
    assert(forall|k: int|
        0 <= k < s2.len() ==> (#[trigger] s2[k]).id is Some && 1 <= s2[k].id->0);
    assert(forall|k: int| 0 <= k < s2.len() ==> (#[trigger] s2[k]).path@ != path);
    lemma_find_path(s2, path);
    if find_path(s2, path) >= 0 {
        assert(s2[find_path(s2, path)].path@ != path);
    }
}

} // verus!
