//! The directory walker. It runs over a snapshot of the tree — directories
//! with their entries and canonical identities — and yields the candidate
//! file set: non-excluded, non-hidden files, each directory entered at most
//! once by canonical identity, so link cycles cannot prolong the walk. The
//! worklist measure proves termination on every snapshot, cyclic or not.
use vstd::prelude::*;

use crate::exclusion::{excluded_by, ExclusionFilter};
use crate::path_utils::{hidden_name, join_one};
use crate::text::{chars_of, eq_vec, string_of};
use crate::types::ExclusionRule;

verus! {

/// What a directory entry's metadata says, as plain values.
#[derive(Debug, Clone, Copy)]
pub struct FileMeta {
    pub size: u64,
    pub is_directory: bool,
    pub is_symlink: bool,
    pub created_at: Option<i64>,
    pub modified_at: Option<i64>,
    pub accessed_at: Option<i64>,
}

/// One candidate the walk yields: a file path with its metadata.
pub struct WalkedFile {
    pub path: String,
    pub meta: FileMeta,
}

/// The pair a walked file stands for.
pub open spec fn walked_view(w: WalkedFile) -> (Seq<char>, FileMeta) {
    (w.path@, w.meta)
}

/// One entry of a directory: its name, metadata, and the canonical
/// identity of what it denotes (resolving links).
pub struct FsChild {
    pub name: String,
    pub meta: FileMeta,
    pub canon: String,
}

/// One directory of the snapshot.
pub struct FsDir {
    pub path: String,
    pub canon: String,
    pub children: Vec<FsChild>,
}

/// A snapshot of the tree under some root.
pub struct FsSnapshot {
    pub dirs: Vec<FsDir>,
}

/// The walker's configuration slice.
#[derive(Debug, Clone, Copy)]
pub struct WalkConfig {
    pub index_hidden_files: bool,
    pub follow_symlinks: bool,
}

/// Index of the snapshot directory with this canonical identity, or -1.
pub open spec fn dir_by_canon(dirs: Seq<FsDir>, canon: Seq<char>) -> int
    decreases dirs.len(),
{
    if dirs.len() == 0 {
        -1
    } else if dirs[0].canon@ == canon {
        0
    } else if dir_by_canon(dirs.drop_first(), canon) == -1 {
        -1
    } else {
        1 + dir_by_canon(dirs.drop_first(), canon)
    }
}

pub proof fn lemma_dir_by_canon(dirs: Seq<FsDir>, canon: Seq<char>)
    ensures
        -1 <= dir_by_canon(dirs, canon) < dirs.len(),
        dir_by_canon(dirs, canon) >= 0 ==> dirs[dir_by_canon(dirs, canon)].canon@ == canon,
        forall|k: int| 0 <= k < dir_by_canon(dirs, canon) ==> dirs[k].canon@ != canon,
        dir_by_canon(dirs, canon) == -1 ==> forall|k: int|
            0 <= k < dirs.len() ==> dirs[k].canon@ != canon,
    decreases dirs.len(),
{
    if dirs.len() > 0 && dirs[0].canon@ != canon {
        lemma_dir_by_canon(dirs.drop_first(), canon);
        assert(forall|k: int| 1 <= k < dirs.len() ==> dirs[k] == dirs.drop_first()[k - 1]);
    }
}

/// How many directories are still unvisited.
pub open spec fn count_false(s: Seq<bool>) -> int
    decreases s.len(),
{
    if s.len() == 0 {
        0
    } else {
        count_false(s.drop_last()) + (if s.last() {
            0int
        } else {
            1int
        })
    }
}

pub proof fn lemma_count_false_update(s: Seq<bool>, i: int)
    requires
        0 <= i < s.len(),
        !s[i],
    ensures
        count_false(s.update(i, true)) == count_false(s) - 1,
    decreases s.len(),
{
    if i == s.len() - 1 {
        assert(s.update(i, true).drop_last() =~= s.drop_last());
    } else {
        lemma_count_false_update(s.drop_last(), i);
        assert(s.update(i, true).drop_last() =~= s.drop_last().update(i, true));
        assert(s.update(i, true).last() == s.last());
    }
}

pub proof fn lemma_count_false_nonneg(s: Seq<bool>)
    ensures
        count_false(s) >= 0,
    decreases s.len(),
{
    if s.len() > 0 {
        lemma_count_false_nonneg(s.drop_last());
    }
}

/// May the walk enter (or yield) an entry with this path and name?
pub open spec fn admitted(
    rules: Seq<ExclusionRule>,
    cfg: WalkConfig,
    path: Seq<char>,
    name: Seq<char>,
) -> bool {
    !excluded_by(rules, path) && (cfg.index_hidden_files || !hidden_name(name))
}

/// One directory's children scanned: the files yielded, the sub-walks
/// queued (each freshly marked visited), and the updated visit record.
pub open spec fn scan_children(
    dirs: Seq<FsDir>,
    children: Seq<FsChild>,
    dir_path: Seq<char>,
    visited: Seq<bool>,
    rules: Seq<ExclusionRule>,
    cfg: WalkConfig,
) -> (Seq<(Seq<char>, FileMeta)>, Seq<(int, Seq<char>)>, Seq<bool>)
    decreases children.len(),
{
    if children.len() == 0 {
        (Seq::empty(), Seq::empty(), visited)
    } else {
        let c = children[0];
        let cpath = join_one(dir_path, c.name@);
        let rest = children.drop_first();
        if !admitted(rules, cfg, cpath, c.name@) {
            scan_children(dirs, rest, dir_path, visited, rules, cfg)
        } else if c.meta.is_directory {
            if c.meta.is_symlink && !cfg.follow_symlinks {
                scan_children(dirs, rest, dir_path, visited, rules, cfg)
            } else {
                let di = dir_by_canon(dirs, c.canon@);
                if 0 <= di < visited.len() && !visited[di] {
                    let (fs, subs, v2) = scan_children(
                        dirs,
                        rest,
                        dir_path,
                        visited.update(di, true),
                        rules,
                        cfg,
                    );
                    (fs, seq![(di, cpath)] + subs, v2)
                } else {
                    scan_children(dirs, rest, dir_path, visited, rules, cfg)
                }
            }
        } else {
            let (fs, subs, v2) = scan_children(dirs, rest, dir_path, visited, rules, cfg);
            (seq![(cpath, c.meta)] + fs, subs, v2)
        }
    }
}

/// Scanning marks exactly the directories it queues, and queues only
/// in-range ones.
pub proof fn lemma_scan_children(
    dirs: Seq<FsDir>,
    children: Seq<FsChild>,
    dir_path: Seq<char>,
    visited: Seq<bool>,
    rules: Seq<ExclusionRule>,
    cfg: WalkConfig,
)
    ensures
        ({
            let (fs, subs, v2) = scan_children(dirs, children, dir_path, visited, rules, cfg);
            &&& v2.len() == visited.len()
            &&& count_false(v2) + subs.len() == count_false(visited)
            &&& forall|k: int| 0 <= k < subs.len() ==> 0 <= (#[trigger] subs[k]).0 < dirs.len()
        }),
    decreases children.len(),
{
    if children.len() > 0 {
        let c = children[0];
        let cpath = join_one(dir_path, c.name@);
        let rest = children.drop_first();
        lemma_scan_children(dirs, rest, dir_path, visited, rules, cfg);
        if admitted(rules, cfg, cpath, c.name@) && c.meta.is_directory && !(c.meta.is_symlink
            && !cfg.follow_symlinks) {
            let di = dir_by_canon(dirs, c.canon@);
            if 0 <= di < visited.len() && !visited[di] {
                lemma_scan_children(dirs, rest, dir_path, visited.update(di, true), rules, cfg);
                lemma_count_false_update(visited, di);
                lemma_dir_by_canon(dirs, c.canon@);
            }
        }
    }
}

/// The walk itself: directories processed off the worklist, each at most
/// once. The measure — worklist length plus twice the unvisited count —
/// shrinks at every step, so the walk ends on every snapshot.
pub open spec fn walk_loop(
    dirs: Seq<FsDir>,
    pending: Seq<(int, Seq<char>)>,
    visited: Seq<bool>,
    rules: Seq<ExclusionRule>,
    cfg: WalkConfig,
) -> Seq<(Seq<char>, FileMeta)>
    decreases pending.len() + 2 * count_false(visited), (if pending.len() + 2 * count_false(
        visited,
    ) >= 0 {
        0int
    } else {
        0int
    })
    when count_false(visited) >= 0
    via walk_loop_decreases
{
    if pending.len() == 0 {
        Seq::empty()
    } else {
        let (di, dpath) = pending[0];
        if 0 <= di < dirs.len() {
            let (fs, subs, v2) = scan_children(
                dirs,
                dirs[di].children@,
                dpath,
                visited,
                rules,
                cfg,
            );
            fs + walk_loop(dirs, pending.drop_first() + subs, v2, rules, cfg)
        } else {
            walk_loop(dirs, pending.drop_first(), visited, rules, cfg)
        }
    }
}

#[via_fn]
proof fn walk_loop_decreases(
    dirs: Seq<FsDir>,
    pending: Seq<(int, Seq<char>)>,
    visited: Seq<bool>,
    rules: Seq<ExclusionRule>,
    cfg: WalkConfig,
) {
    if pending.len() > 0 {
        let (di, dpath) = pending[0];
        if 0 <= di < dirs.len() {
            lemma_scan_children(dirs, dirs[di].children@, dpath, visited, rules, cfg);
            lemma_count_false_nonneg(
                scan_children(dirs, dirs[di].children@, dpath, visited, rules, cfg).2,
            );
        }
    }
}

/// The candidate set of a snapshot under a root: empty unless the root
/// is a known, admitted directory; otherwise the walk from it.
pub open spec fn walk_spec(
    dirs: Seq<FsDir>,
    root: Seq<char>,
    rules: Seq<ExclusionRule>,
    cfg: WalkConfig,
) -> Seq<(Seq<char>, FileMeta)> {
    let ri = root_index(dirs, root);
    if ri == -1 {
        Seq::empty()
    } else if !admitted(rules, cfg, root, crate::path_utils::base_name_spec(root)) {
        Seq::empty()
    } else {
        let visited0 = Seq::new(dirs.len(), |k: int| k == ri);
        walk_loop(dirs, seq![(ri, root)], visited0, rules, cfg)
    }
}

/// Index of the snapshot directory listed under this path, or -1.
pub open spec fn root_index(dirs: Seq<FsDir>, root: Seq<char>) -> int
    decreases dirs.len(),
{
    if dirs.len() == 0 {
        -1
    } else if dirs[0].path@ == root {
        0
    } else if root_index(dirs.drop_first(), root) == -1 {
        -1
    } else {
        1 + root_index(dirs.drop_first(), root)
    }
}

proof fn lemma_root_index(dirs: Seq<FsDir>, root: Seq<char>)
    ensures
        -1 <= root_index(dirs, root) < dirs.len(),
        root_index(dirs, root) >= 0 ==> dirs[root_index(dirs, root)].path@ == root,
        forall|k: int| 0 <= k < root_index(dirs, root) ==> dirs[k].path@ != root,
        root_index(dirs, root) == -1 ==> forall|k: int|
            0 <= k < dirs.len() ==> dirs[k].path@ != root,
    decreases dirs.len(),
{
    if dirs.len() > 0 && dirs[0].path@ != root {
        lemma_root_index(dirs.drop_first(), root);
        assert(forall|k: int| 1 <= k < dirs.len() ==> dirs[k] == dirs.drop_first()[k - 1]);
    }
}

/// Exclusion soundness: no walked path matches an active exclusion rule
/// (and none is hidden unless hidden files are indexed).
pub proof fn lemma_walk_exclusion_sound(
    dirs: Seq<FsDir>,
    root: Seq<char>,
    rules: Seq<ExclusionRule>,
    cfg: WalkConfig,
)
    ensures
        forall|k: int|
            0 <= k < walk_spec(dirs, root, rules, cfg).len() ==> !excluded_by(
                rules,
                (#[trigger] walk_spec(dirs, root, rules, cfg)[k]).0,
            ),
{
    let ri = root_index(dirs, root);
    if ri != -1 && admitted(rules, cfg, root, crate::path_utils::base_name_spec(root)) {
        let visited0 = Seq::new(dirs.len(), |k: int| k == ri);
        lemma_count_false_nonneg(visited0);
        lemma_walk_loop_sound(dirs, seq![(ri, root)], visited0, rules, cfg);
    }
}

proof fn lemma_walk_loop_sound(
    dirs: Seq<FsDir>,
    pending: Seq<(int, Seq<char>)>,
    visited: Seq<bool>,
    rules: Seq<ExclusionRule>,
    cfg: WalkConfig,
)
    requires
        count_false(visited) >= 0,
    ensures
        forall|k: int|
            0 <= k < walk_loop(dirs, pending, visited, rules, cfg).len() ==> !excluded_by(
                rules,
                (#[trigger] walk_loop(dirs, pending, visited, rules, cfg)[k]).0,
            ),
    decreases pending.len() + 2 * count_false(visited),
{
    if pending.len() > 0 {
        let (di, dpath) = pending[0];
        if 0 <= di < dirs.len() {
            let (fs, subs, v2) = scan_children(
                dirs,
                dirs[di].children@,
                dpath,
                visited,
                rules,
                cfg,
            );
            lemma_scan_children(dirs, dirs[di].children@, dpath, visited, rules, cfg);
            lemma_count_false_nonneg(v2);
            lemma_scan_files_sound(dirs, dirs[di].children@, dpath, visited, rules, cfg);
            lemma_walk_loop_sound(dirs, pending.drop_first() + subs, v2, rules, cfg);
            let whole = walk_loop(dirs, pending, visited, rules, cfg);
            let tail = walk_loop(dirs, pending.drop_first() + subs, v2, rules, cfg);
            assert(fs == scan_children(dirs, dirs[di].children@, dpath, visited, rules, cfg).0);
            assert(whole == fs + tail);
            assert forall|k: int| 0 <= k < whole.len() implies !excluded_by(
                rules,
                (#[trigger] whole[k]).0,
            ) by {
                if k < fs.len() {
                    assert(whole[k] == fs[k]);
                    assert(!excluded_by(rules, fs[k].0));
                } else {
                    assert(whole[k] == tail[k - fs.len()]);
                    assert(!excluded_by(rules, tail[k - fs.len()].0));
                }
            }
        } else {
            lemma_walk_loop_sound(dirs, pending.drop_first(), visited, rules, cfg);
            let whole = walk_loop(dirs, pending, visited, rules, cfg);
            let inner = walk_loop(dirs, pending.drop_first(), visited, rules, cfg);
            assert(whole == inner);
            assert forall|k: int| 0 <= k < whole.len() implies !excluded_by(
                rules,
                (#[trigger] whole[k]).0,
            ) by {
                assert(whole[k] == inner[k]);
                assert(!excluded_by(rules, inner[k].0));
            }
        }
    }
}

// ---------------------------------------------------------------------------
// The executable walker
// ---------------------------------------------------------------------------

/// Walks snapshots under an exclusion filter and a configuration.
pub struct DirectoryWalker {
    pub config: WalkConfig,
    pub filter: ExclusionFilter,
}

impl DirectoryWalker {
    pub fn new(config: WalkConfig, filter: ExclusionFilter) -> (r: DirectoryWalker)
        ensures
            r.config == config,
            r.filter == filter,
    {
        DirectoryWalker { config, filter }
    }

    fn find_dir_by_canon(&self, snap: &FsSnapshot, canon: &Vec<char>) -> (r: Option<usize>)
        ensures
            match r {
                Some(i) => dir_by_canon(snap.dirs@, canon@) == i,
                None => dir_by_canon(snap.dirs@, canon@) == -1,
            },
    {
        let mut i: usize = 0;
        while i < snap.dirs.len()
            invariant
                i <= snap.dirs@.len(),
                forall|k: int| 0 <= k < i ==> (#[trigger] snap.dirs@[k]).canon@ != canon@,
            decreases snap.dirs.len() - i,
        {
            let cv = chars_of(snap.dirs[i].canon.as_str());
            if eq_vec(&cv, canon) {
                proof {
                    lemma_dir_by_canon(snap.dirs@, canon@);
                    if dir_by_canon(snap.dirs@, canon@) < i {
                        assert(snap.dirs@[dir_by_canon(snap.dirs@, canon@)].canon@ != canon@);
                    }
                    if dir_by_canon(snap.dirs@, canon@) > i || dir_by_canon(snap.dirs@, canon@)
                        == -1 {
                        assert(snap.dirs@[i as int].canon@ != canon@);
                    }
                }
                return Some(i);
            }
            i = i + 1;
        }
        proof {
            lemma_dir_by_canon(snap.dirs@, canon@);
            if dir_by_canon(snap.dirs@, canon@) >= 0 {
                assert(snap.dirs@[dir_by_canon(snap.dirs@, canon@)].canon@ != canon@);
            }
        }
        None
    }

    fn find_root(&self, snap: &FsSnapshot, root: &Vec<char>) -> (r: Option<usize>)
        ensures
            match r {
                Some(i) => root_index(snap.dirs@, root@) == i,
                None => root_index(snap.dirs@, root@) == -1,
            },
    {
        let mut i: usize = 0;
        while i < snap.dirs.len()
            invariant
                i <= snap.dirs@.len(),
                forall|k: int| 0 <= k < i ==> (#[trigger] snap.dirs@[k]).path@ != root@,
            decreases snap.dirs.len() - i,
        {
            let pv = chars_of(snap.dirs[i].path.as_str());
            if eq_vec(&pv, root) {
                proof {
                    lemma_root_index(snap.dirs@, root@);
                    if root_index(snap.dirs@, root@) < i {
                        assert(snap.dirs@[root_index(snap.dirs@, root@)].path@ != root@);
                    }
                    if root_index(snap.dirs@, root@) > i || root_index(snap.dirs@, root@)
                        == -1 {
                        assert(snap.dirs@[i as int].path@ != root@);
                    }
                }
                return Some(i);
            }
            i = i + 1;
        }
        proof {
            lemma_root_index(snap.dirs@, root@);
            if root_index(snap.dirs@, root@) >= 0 {
                assert(snap.dirs@[root_index(snap.dirs@, root@)].path@ != root@);
            }
        }
        None
    }

    /// Is this path–name pair admitted under the filter and configuration?
    fn admitted_exec(&self, path: &Vec<char>, name: &Vec<char>) -> (r: bool)
        requires
            self.filter.wf(),
        ensures
            r == admitted(self.filter.rules_view(), self.config, path@, name@),
    {
        let ps = string_of(path);
        if self.filter.is_excluded(ps.as_str()) {
            return false;
        }
        if !self.config.index_hidden_files && crate::path_utils::hidden_name_exec(name) {
            return false;
        }
        true
    }

    /// The walk over one snapshot: the admitted candidate files under
    /// `root`, in worklist order, every directory entered at most once.
    pub fn walk(&self, snap: &FsSnapshot, root: &str) -> (r: Result<
        Vec<WalkedFile>,
        crate::error::SearchError,
    >)
        requires
            self.filter.wf(),
        ensures
            r is Ok,
            r->Ok_0@.map_values(|w: WalkedFile| walked_view(w)) == walk_spec(
                snap.dirs@,
                root@,
                self.filter.rules_view(),
                self.config,
            ),
    {
        let ghost rules = self.filter.rules_view();
        let ghost cfg = self.config;
        let rv = chars_of(root);
        let mut out: Vec<WalkedFile> = Vec::new();
        let ri = match self.find_root(snap, &rv) {
            Some(i) => i,
            None => {
                proof {
                    assert(out@.map_values(|w: WalkedFile| walked_view(w)) =~= walk_spec(
                        snap.dirs@,
                        root@,
                        rules,
                        cfg,
                    ));
                }
                return Ok(out);
            },
        };
        proof {
            lemma_root_index(snap.dirs@, root@);
        }
        let root_name_vec = crate::text::chars_of(
            crate::path_utils::get_file_name(root).as_str(),
        );
        if !self.admitted_exec(&rv, &root_name_vec) {
            proof {
                assert(out@.map_values(|w: WalkedFile| walked_view(w)) =~= walk_spec(
                    snap.dirs@,
                    root@,
                    rules,
                    cfg,
                ));
            }
            return Ok(out);
        }
        let mut visited: Vec<bool> = Vec::new();
        let mut vi: usize = 0;
        while vi < snap.dirs.len()
            invariant
                vi <= snap.dirs@.len(),
                visited@.len() == vi,
                forall|k: int| 0 <= k < vi ==> visited@[k] == (k == ri),
                ri < snap.dirs@.len(),
            decreases snap.dirs.len() - vi,
        {
            visited.push(vi == ri);
            vi = vi + 1;
        }
        proof {
            assert(visited@ =~= Seq::new(snap.dirs@.len(), |k: int| k == ri as int));
        }
        let mut pending: Vec<(usize, String)> = Vec::new();
        pending.push((ri, root.to_owned()));
        let ghost pending_view = |p: (usize, String)| (p.0 as int, p.1@);
        proof {
            assert(pending@.map_values(pending_view) =~= seq![(ri as int, root@)]);
            lemma_count_false_nonneg(visited@);
            assert(out@.map_values(|w: WalkedFile| walked_view(w)) + walk_loop(
                snap.dirs@,
                pending@.map_values(pending_view),
                visited@,
                rules,
                cfg,
            ) =~= walk_spec(snap.dirs@, root@, rules, cfg));
        }
        while pending.len() > 0
            invariant
                self.filter.wf(),
                rules == self.filter.rules_view(),
                cfg == self.config,
                pending_view == (|p: (usize, String)| (p.0 as int, p.1@)),
                visited@.len() == snap.dirs@.len(),
                forall|k: int| 0 <= k < pending@.len() ==> (#[trigger] pending@[k]).0
                    < snap.dirs@.len(),
                count_false(visited@) >= 0,
                walk_spec(snap.dirs@, root@, rules, cfg) == out@.map_values(
                    |w: WalkedFile| walked_view(w),
                ) + walk_loop(
                    snap.dirs@,
                    pending@.map_values(pending_view),
                    visited@,
                    rules,
                    cfg,
                ),
            decreases pending@.len() + 2 * count_false(visited@),
        {
            let ghost pv0 = pending@.map_values(pending_view);
            let (di, dpath) = pending.remove(0);
            proof {
                assert(pending@.map_values(pending_view) =~= pv0.drop_first());
                assert(pv0[0] == (di as int, dpath@));
                lemma_scan_children(snap.dirs@, snap.dirs@[di as int].children@, dpath@,
                    visited@, rules, cfg);
            }
            let dpv = chars_of(dpath.as_str());
            let ghost v_entry = visited@;
            let ghost scan_total = scan_children(
                snap.dirs@,
                snap.dirs@[di as int].children@,
                dpath@,
                v_entry,
                rules,
                cfg,
            );
            let nchildren = snap.dirs[di].children.len();
            let mut j: usize = 0;
            let ghost children = snap.dirs@[di as int].children@;
            let mut newsubs: Vec<(usize, String)> = Vec::new();
            let ghost out_entry = out@.map_values(|w: WalkedFile| walked_view(w));
            proof {
                assert(children.skip(0) =~= children);
                assert(newsubs@.map_values(pending_view) =~= Seq::<(int, Seq<char>)>::empty());
                assert(out@.map_values(|w: WalkedFile| walked_view(w)) =~= out_entry + Seq::<(
                    Seq<char>,
                    FileMeta,
                )>::empty());
            }
            while j < nchildren
                invariant
                    self.filter.wf(),
                    rules == self.filter.rules_view(),
                    cfg == self.config,
                    pending_view == (|p: (usize, String)| (p.0 as int, p.1@)),
                    j <= children.len(),
                    di < snap.dirs@.len(),
                    nchildren == children.len(),
                    children == snap.dirs@[di as int].children@,
                    dpv@ == dpath@,
                    visited@.len() == snap.dirs@.len(),
                    scan_total == scan_children(
                        snap.dirs@,
                        snap.dirs@[di as int].children@,
                        dpath@,
                        v_entry,
                        rules,
                        cfg,
                    ),
                    scan_total.0 == seq_minus_prefix(
                        out@.map_values(|w: WalkedFile| walked_view(w)),
                        out_entry,
                    ) + scan_children(
                        snap.dirs@,
                        children.skip(j as int),
                        dpath@,
                        visited@,
                        rules,
                        cfg,
                    ).0,
                    scan_total.1 == newsubs@.map_values(pending_view) + scan_children(
                        snap.dirs@,
                        children.skip(j as int),
                        dpath@,
                        visited@,
                        rules,
                        cfg,
                    ).1,
                    scan_total.2 == scan_children(
                        snap.dirs@,
                        children.skip(j as int),
                        dpath@,
                        visited@,
                        rules,
                        cfg,
                    ).2,
                    out@.map_values(|w: WalkedFile| walked_view(w)).len() >= out_entry.len(),
                    forall|k: int|
                        0 <= k < out_entry.len() ==> out@.map_values(
                            |w: WalkedFile| walked_view(w),
                        )[k] == out_entry[k],
                    forall|k: int| 0 <= k < newsubs@.len() ==> (#[trigger] newsubs@[k]).0
                        < snap.dirs@.len(),
                decreases children.len() - j,
            {
                proof {
                    assert(children.skip(j as int)[0] == children[j as int]);
                    assert(children.skip(j as int).drop_first() =~= children.skip(j + 1));
                }
                let c = &snap.dirs[di].children[j];
                let namev = chars_of(c.name.as_str());
                let cpathv = crate::path_utils::join_one_exec(&dpv, &namev);
                if self.admitted_exec(&cpathv, &namev) {
                    if c.meta.is_directory {
                        if !(c.meta.is_symlink && !self.config.follow_symlinks) {
                            let canonv = chars_of(c.canon.as_str());
                            match self.find_dir_by_canon(snap, &canonv) {
                                Some(ci) => {
                                    proof {
                                        lemma_dir_by_canon(snap.dirs@, canonv@);
                                    }
                                    if !visited[ci] {
                                        visited.set(ci, true);
                                        let ghost ns0 = newsubs@.map_values(pending_view);
                                        newsubs.push((ci, string_of(&cpathv)));
                                        proof {
                                            assert(newsubs@.map_values(pending_view) =~= ns0.push(
                                                (ci as int, join_one(dpath@, children[j as int].name@)),
                                            ));
                                            assert(ns0 + (seq![
                                                (ci as int, join_one(dpath@, children[j as int].name@)),
                                            ] + scan_children(
                                                snap.dirs@,
                                                children.skip(j + 1),
                                                dpath@,
                                                visited@,
                                                rules,
                                                cfg,
                                            ).1) =~= newsubs@.map_values(pending_view)
                                                + scan_children(
                                                snap.dirs@,
                                                children.skip(j + 1),
                                                dpath@,
                                                visited@,
                                                rules,
                                                cfg,
                                            ).1);
                                        }
                                    }
                                },
                                None => {
                                },
                            }
                        }
                    } else {
                        let ghost of0 = seq_minus_prefix(
                            out@.map_values(|w: WalkedFile| walked_view(w)),
                            out_entry,
                        );
                        out.push(WalkedFile { path: string_of(&cpathv), meta: c.meta });
                        proof {
                            assert(out@.map_values(|w: WalkedFile| walked_view(w)) =~= out_entry
                                + of0.push(
                                (join_one(dpath@, children[j as int].name@), children[j as int].meta),
                            ));
                            assert(seq_minus_prefix(
                                out@.map_values(|w: WalkedFile| walked_view(w)),
                                out_entry,
                            ) =~= of0.push(
                                (join_one(dpath@, children[j as int].name@), children[j as int].meta),
                            ));
                            assert(of0 + (seq![
                                (join_one(dpath@, children[j as int].name@), children[j as int].meta),
                            ] + scan_children(
                                snap.dirs@,
                                children.skip(j + 1),
                                dpath@,
                                visited@,
                                rules,
                                cfg,
                            ).0) =~= seq_minus_prefix(
                                out@.map_values(|w: WalkedFile| walked_view(w)),
                                out_entry,
                            ) + scan_children(
                                snap.dirs@,
                                children.skip(j + 1),
                                dpath@,
                                visited@,
                                rules,
                                cfg,
                            ).0);
                        }
                    }
                }
                j = j + 1;
            }
            proof {
                assert(children.skip(children.len() as int) =~= Seq::<FsChild>::empty());
                assert(scan_total.0 =~= seq_minus_prefix(
                    out@.map_values(|w: WalkedFile| walked_view(w)),
                    out_entry,
                ));
                assert(scan_total.1 =~= newsubs@.map_values(pending_view));
                assert(scan_total.2 =~= visited@);
                lemma_count_false_nonneg(visited@);
            }
            let mut ns = newsubs;
            pending.append(&mut ns);
            proof {
                assert(pending@.map_values(pending_view) =~= pv0.drop_first() + scan_total.1);
                assert(out_entry + (scan_total.0 + walk_loop(
                    snap.dirs@,
                    pv0.drop_first() + scan_total.1,
                    visited@,
                    rules,
                    cfg,
                )) =~= out@.map_values(|w: WalkedFile| walked_view(w)) + walk_loop(
                    snap.dirs@,
                    pending@.map_values(pending_view),
                    visited@,
                    rules,
                    cfg,
                ));
            }
        }
        proof {
            assert(walk_loop(
                snap.dirs@,
                pending@.map_values(pending_view),
                visited@,
                rules,
                cfg,
            ) =~= Seq::<(Seq<char>, FileMeta)>::empty());
            assert(out@.map_values(|w: WalkedFile| walked_view(w)) =~= walk_spec(
                snap.dirs@,
                root@,
                rules,
                cfg,
            ));
        }
        Ok(out)
    }
}

/// What remains of `s` after its prefix `p`.
pub open spec fn seq_minus_prefix(
    s: Seq<(Seq<char>, FileMeta)>,
    p: Seq<(Seq<char>, FileMeta)>,
) -> Seq<(Seq<char>, FileMeta)> {
    s.skip(p.len() as int)
}

/// Every file a scan yields was admitted, so none is excluded.
proof fn lemma_scan_files_sound(
    dirs: Seq<FsDir>,
    children: Seq<FsChild>,
    dir_path: Seq<char>,
    visited: Seq<bool>,
    rules: Seq<ExclusionRule>,
    cfg: WalkConfig,
)
    ensures
        forall|k: int|
            0 <= k < scan_children(dirs, children, dir_path, visited, rules, cfg).0.len()
                ==> !excluded_by(
                rules,
                (#[trigger] scan_children(dirs, children, dir_path, visited, rules, cfg).0[
                    k
                ]).0,
            ),
    decreases children.len(),
{
    if children.len() > 0 {
        let c = children[0];
        let cpath = join_one(dir_path, c.name@);
        let rest = children.drop_first();
        let whole = scan_children(dirs, children, dir_path, visited, rules, cfg).0;
        lemma_scan_files_sound(dirs, rest, dir_path, visited, rules, cfg);
        if !admitted(rules, cfg, cpath, c.name@) {
            assert(whole == scan_children(dirs, rest, dir_path, visited, rules, cfg).0);
        } else if c.meta.is_directory {
            if c.meta.is_symlink && !cfg.follow_symlinks {
                assert(whole == scan_children(dirs, rest, dir_path, visited, rules, cfg).0);
            } else {
                let di = dir_by_canon(dirs, c.canon@);
                if 0 <= di < visited.len() && !visited[di] {
                    lemma_scan_files_sound(
                        dirs,
                        rest,
                        dir_path,
                        visited.update(di, true),
                        rules,
                        cfg,
                    );
                    assert(whole == scan_children(
                        dirs,
                        rest,
                        dir_path,
                        visited.update(di, true),
                        rules,
                        cfg,
                    ).0);
                } else {
                    assert(whole == scan_children(dirs, rest, dir_path, visited, rules, cfg).0);
                }
            }
        } else {
            let fr = scan_children(dirs, rest, dir_path, visited, rules, cfg).0;
            assert(whole == seq![(cpath, c.meta)] + fr);
            assert forall|k: int| 0 <= k < whole.len() implies !excluded_by(
                rules,
                (#[trigger] whole[k]).0,
            ) by {
                if k == 0 {
                    assert(whole[k].0 == cpath);
                } else {
                    assert(whole[k] == fr[k - 1]);
                    assert(!excluded_by(rules, fr[k - 1].0));
                }
            }
        }
    }
}

} // verus!
