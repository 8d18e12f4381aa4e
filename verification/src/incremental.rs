//! Incremental maintenance of the index: the add/update/remove deltas
//! between the stored records under a root and a fresh snapshot of the
//! filesystem, and the verification counters over the same comparison.
use vstd::prelude::*;

use crate::database::{
    ev, ev_find, ev_seq, ev_upsert, lemma_ev_find, lemma_find_commutes, lemma_find_path,
    lemma_upsert_commutes, Database, EntryView,
};
use crate::metadata::{ev_extract, MetadataExtractor};
use crate::text::starts_with_seq;
use crate::types::UpdateStats;
use crate::walker::{walked_view, FileMeta, WalkedFile};

verus! {

/// Does the stored record call for a refresh against this metadata?
/// Yes when the filesystem's time is later than the stored one, or when
/// no time is stored at all.
pub open spec fn needs_refresh(stored: EntryView, meta: FileMeta) -> bool {
    match stored.modified_at {
        Some(last) => match meta.modified_at {
            Some(t) => t > last,
            None => false,
        },
        None => true,
    }
}

/// Phase one of an update: each current file inserted when new, refreshed
/// when out of date; gives the new records and the added and updated
/// counts.
pub open spec fn ev_apply_current(
    s: Seq<EntryView>,
    current: Seq<(Seq<char>, FileMeta)>,
    now: i64,
) -> (Seq<EntryView>, int, int)
    decreases current.len(),
{
    if current.len() == 0 {
        (s, 0, 0)
    } else {
        let (p, m) = current[0];
        let i = ev_find(s, p);
        if i == -1 {
            let r = ev_apply_current(ev_upsert(s, ev_extract(p, m, now)), current.drop_first(),
                now);
            (r.0, r.1 + 1, r.2)
        } else if needs_refresh(s[i], m) {
            let r = ev_apply_current(ev_upsert(s, ev_extract(p, m, now)), current.drop_first(),
                now);
            (r.0, r.1, r.2 + 1)
        } else {
            ev_apply_current(s, current.drop_first(), now)
        }
    }
}

/// A record survives phase two iff it is outside the root or still on
/// the filesystem.
pub open spec fn keeps(v: EntryView, cur_paths: Seq<Seq<char>>, root: Seq<char>) -> bool {
    !starts_with_seq(v.path, root) || cur_paths.contains(v.path)
}

/// Phase two of an update: stale records under the root dropped.
pub open spec fn ev_drop_stale(
    s: Seq<EntryView>,
    cur_paths: Seq<Seq<char>>,
    root: Seq<char>,
) -> Seq<EntryView> {
    s.filter(|v: EntryView| keeps(v, cur_paths, root))
}

pub open spec fn current_paths(current: Seq<(Seq<char>, FileMeta)>) -> Seq<Seq<char>> {
    current.map_values(|pm: (Seq<char>, FileMeta)| pm.0)
}

/// The incremental indexer: pure delta logic over the store.
pub struct IncrementalIndexer;

impl IncrementalIndexer {
    /// One file brought up to date: refreshed from its metadata when it
    /// exists, removed from the index when it does not.
    pub fn update_file(db: &mut Database, path: &str, meta: &Option<FileMeta>, now: i64) -> (r:
        bool)
        requires
            old(db).wf(),
        ensures
            r == true,
            final(db).wf(),
            ev_seq(final(db)@) == (match *meta {
                Some(m) => ev_upsert(ev_seq(old(db)@), ev_extract(path@, m, now)),
                None => crate::database::ev_delete(ev_seq(old(db)@), path@),
            }),
    {
        match meta {
            Some(m) => {
                let entry = MetadataExtractor::extract(path, m, now);
                db.insert_file(&entry);
                proof {
                    lemma_upsert_commutes(old(db)@, entry);
                }
                true
            },
            None => {
                db.delete_by_path(path);
                proof {
                    crate::database::lemma_delete_commutes(old(db)@, path@);
                }
                true
            },
        }
    }

    /// Phase one run over the whole current set.
    fn apply_current(db: &mut Database, current: &Vec<WalkedFile>, now: i64) -> (r: (
        usize,
        usize,
    ))
        requires
            old(db).wf(),
        ensures
            final(db).wf(),
            ({
                let spec_r = ev_apply_current(
                    ev_seq(old(db)@),
                    current@.map_values(|w: WalkedFile| walked_view(w)),
                    now,
                );
                ev_seq(final(db)@) == spec_r.0 && r.0 == spec_r.1 && r.1 == spec_r.2
            }),
    {
        let ghost cur = current@.map_values(|w: WalkedFile| walked_view(w));
        let mut added: usize = 0;
        let mut updated: usize = 0;
        let mut i: usize = 0;
        proof {
            assert(cur.skip(0) =~= cur);
        }
        while i < current.len()
            invariant
                i <= current@.len(),
                db.wf(),
                cur == current@.map_values(|w: WalkedFile| walked_view(w)),
                added + updated <= i,
                ({
                    let total = ev_apply_current(ev_seq(old(db)@), cur, now);
                    let rest = ev_apply_current(ev_seq(db@), cur.skip(i as int), now);
                    total.0 == rest.0 && total.1 == added + rest.1 && total.2 == updated
                        + rest.2
                }),
            decreases current.len() - i,
        {
            proof {
                assert(cur.skip(i as int)[0] == cur[i as int]);
                assert(cur.skip(i as int).drop_first() =~= cur.skip(i + 1));
            }
            let w = &current[i];
            let found = db.find_by_path(w.path.as_str());
            proof {
                lemma_find_commutes(db@, w.path@);
                lemma_find_path(db@, w.path@);
                lemma_ev_find(ev_seq(db@), w.path@);
            }
            match found {
                None => {
                    let entry = MetadataExtractor::extract(w.path.as_str(), &w.meta, now);
                    let ghost before = db@;
                    db.insert_file(&entry);
                    proof {
                        lemma_upsert_commutes(before, entry);
                    }
                    added = added + 1;
                },
                Some(stored) => {
                    let refresh = match stored.modified_at {
                        Some(last) => MetadataExtractor::is_modified_since(&w.meta, last),
                        None => true,
                    };
                    proof {
                        assert(ev(stored) == ev_seq(db@)[ev_find(ev_seq(db@), cur[i as int].0)]);
                        assert(refresh == needs_refresh(
                            ev_seq(db@)[ev_find(ev_seq(db@), cur[i as int].0)],
                            cur[i as int].1,
                        ));
                    }
                    if refresh {
                        let entry = MetadataExtractor::extract(w.path.as_str(), &w.meta, now);
                        let ghost before = db@;
                        db.insert_file(&entry);
                        proof {
                            lemma_upsert_commutes(before, entry);
                        }
                        updated = updated + 1;
                    }
                },
            }
            i = i + 1;
        }
        proof {
            assert(cur.skip(cur.len() as int) =~= Seq::<(Seq<char>, FileMeta)>::empty());
        }
        (added, updated)
    }

    /// The whole incremental update: phase one over the current files,
    /// phase two dropping stale records under the root.
    pub fn update(db: &mut Database, current: &Vec<WalkedFile>, root: &str, now: i64) -> (r:
        UpdateStats)
        requires
            old(db).wf(),
        ensures
            final(db).wf(),
            ({
                let cur = current@.map_values(|w: WalkedFile| walked_view(w));
                let phase1 = ev_apply_current(ev_seq(old(db)@), cur, now);
                &&& ev_seq(final(db)@) == ev_drop_stale(phase1.0, current_paths(cur), root@)
                &&& r.added == phase1.1
                &&& r.updated == phase1.2
                &&& r.removed == phase1.0.len() - ev_seq(final(db)@).len()
            }),
    {
        let ghost cur = current@.map_values(|w: WalkedFile| walked_view(w));
        let (added, updated) = Self::apply_current(db, current, now);
        let ghost s0 = ev_seq(db@);
        let n = db.record_count();
        let all = db.get_all_files(n, 0);
        proof {
            assert(all@ =~= db@);
        }
        let rootv = crate::text::chars_of(root);
        let ghost keep = |v: EntryView| keeps(v, current_paths(cur), root@);
        let mut removed: usize = 0;
        let mut k: usize = 0;
        proof {
            assert(ev_seq(all@).take(0) =~= Seq::<EntryView>::empty());
            reveal_with_fuel(Seq::filter, 2);
            assert(ev_seq(all@).take(0).filter(keep) =~= Seq::<EntryView>::empty());
            assert(ev_seq(db@) =~= ev_seq(all@).take(0).filter(keep) + ev_seq(all@).skip(0));
        }
        while k < all.len()
            invariant
                k <= all@.len(),
                db.wf(),
                s0 == ev_seq(all@),
                keep == (|v: EntryView| keeps(v, current_paths(cur), root@)),
                rootv@ == root@,
                removed + ev_seq(all@).take(k as int).filter(keep).len() == k,
                ev_seq(db@) == ev_seq(all@).take(k as int).filter(keep) + ev_seq(all@).skip(
                    k as int,
                ),
                forall|j: int, j2: int|
                    0 <= j < j2 < all@.len() ==> (#[trigger] all@[j]).path@ != (
                    #[trigger] all@[j2]).path@,
            decreases all.len() - k,
        {
            proof {
                reveal_with_fuel(Seq::filter, 2);
                assert(ev_seq(all@).take(k + 1).drop_last() =~= ev_seq(all@).take(k as int));
                assert(ev_seq(all@).take(k + 1).last() == ev_seq(all@)[k as int]);
                assert(ev_seq(all@).skip(k as int)[0] == ev_seq(all@)[k as int]);
                assert(ev_seq(all@).skip(k as int).drop_first() =~= ev_seq(all@).skip(k + 1));
            }
            let e = &all[k];
            let pv = crate::text::chars_of(e.path.as_str());
            let under_root = crate::text::starts_with_vec(&pv, &rootv);
            let mut in_current = false;
            let mut c: usize = 0;
            while c < current.len()
                invariant
                    c <= current@.len(),
                    cur == current@.map_values(|w: WalkedFile| walked_view(w)),
                    pv@ == all@[k as int].path@,
                    k < all@.len(),
                    in_current == exists|t: int|
                        0 <= t < c && (#[trigger] cur[t]).0 == all@[k as int].path@,
                decreases current.len() - c,
            {
                let cpv = crate::text::chars_of(current[c].path.as_str());
                if crate::text::eq_vec(&cpv, &pv) {
                    proof {
                        assert(cur[c as int].0 == all@[k as int].path@);
                    }
                    in_current = true;
                }
                i_step(&mut c);
            }
            proof {
                assert(in_current == current_paths(cur).contains(all@[k as int].path@)) by {
                    if in_current {
                        let t = choose|t: int|
                            0 <= t < current@.len() && (#[trigger] cur[t]).0 == all@[
                                k as int
                            ].path@;
                        assert(current_paths(cur)[t] == all@[k as int].path@);
                    } else {
                        if current_paths(cur).contains(all@[k as int].path@) {
                            let t = choose|t: int|
                                0 <= t < current_paths(cur).len() && current_paths(cur)[t]
                                    == all@[k as int].path@;
                            assert(cur[t].0 == all@[k as int].path@);
                        }
                    }
                }
            }
            if under_root && !in_current {
                proof {
                    assert(!keep(ev_seq(all@)[k as int]));
                    lemma_delete_at_junction(
                        ev_seq(all@),
                        ev_seq(db@),
                        keep,
                        k as int,
                        removed as int,
                    );
                }
                let ghost before = db@;
                db.delete_by_path(e.path.as_str());
                proof {
                    crate::database::lemma_delete_commutes(before, all@[k as int].path@);
                }
                removed = removed + 1;
            } else {
                proof {
                    assert(keep(ev_seq(all@)[k as int]));
                    assert(ev_seq(all@).take(k + 1).filter(keep) =~= ev_seq(all@).take(
                        k as int,
                    ).filter(keep).push(ev_seq(all@)[k as int]));
                    assert(ev_seq(all@).take(k as int).filter(keep).push(ev_seq(all@)[k as int])
                        + ev_seq(all@).skip(k + 1) =~= ev_seq(all@).take(k as int).filter(keep)
                        + ev_seq(all@).skip(k as int));
                }
            }
            k = k + 1;
        }
        proof {
            assert(ev_seq(all@).take(all@.len() as int) =~= ev_seq(all@));
            assert(ev_seq(all@).skip(all@.len() as int) =~= Seq::<EntryView>::empty());
            assert(ev_seq(all@).filter(keep) + Seq::<EntryView>::empty() =~= ev_seq(
                all@,
            ).filter(keep));
            ev_seq(all@).lemma_filter_len(keep);
        }
        UpdateStats { added, updated, removed }
    }
}

/// The exec loop's tiny step, kept separate so borrows stay simple.
fn i_step(c: &mut usize)
    requires
        *old(c) < usize::MAX,
    ensures
        *final(c) == *old(c) + 1,
{
    *c = *c + 1;
}

/// Deleting the head of the unprocessed tail splices the store around it.
proof fn lemma_delete_at_junction(
    s0: Seq<EntryView>,
    db_now: Seq<EntryView>,
    keep: spec_fn(EntryView) -> bool,
    k: int,
    removed: int,
)
    requires
        0 <= k < s0.len(),
        db_now == s0.take(k).filter(keep) + s0.skip(k),
        forall|j: int, j2: int| 0 <= j < j2 < s0.len() ==> s0[j].path != s0[j2].path,
    ensures
        crate::database::ev_delete(db_now, s0[k].path) == s0.take(k).filter(keep) + s0.skip(
            k + 1,
        ),
{
    let prefix = s0.take(k).filter(keep);
    let tail = s0.skip(k);
    broadcast use vstd::seq_lib::group_seq_lib_default;

    assert forall|j: int| 0 <= j < prefix.len() implies prefix[j].path != s0[k].path by {
        s0.take(k).lemma_filter_pred(keep, j);
        lemma_filter_elem_from(s0.take(k), keep, j);
        let src = choose|src: int|
            0 <= src < s0.take(k).len() && s0.take(k)[src] == prefix[j];
        assert(s0[src] == prefix[j]);
        assert(s0[src].path != s0[k].path);
    }
    lemma_ev_find_concat(prefix, tail, s0[k].path);
    assert(tail[0] == s0[k]);
    lemma_ev_find(db_now, s0[k].path);
    assert(crate::database::ev_find(db_now, s0[k].path) == prefix.len());
    assert(db_now.remove(prefix.len() as int) =~= prefix + s0.skip(k + 1)) by {
        assert(tail.drop_first() =~= s0.skip(k + 1));
    }
}

/// Every filtered element comes from somewhere in the source.
pub proof fn lemma_filter_elem_from(s: Seq<EntryView>, keep: spec_fn(EntryView) -> bool, j: int)
    requires
        0 <= j < s.filter(keep).len(),
    ensures
        exists|src: int| 0 <= src < s.len() && s[src] == s.filter(keep)[j],
    decreases s.len(),
{
    reveal_with_fuel(Seq::filter, 2);
    if s.len() > 0 {
        if keep(s.last()) && j == s.filter(keep).len() - 1 {
            assert(s[s.len() - 1] == s.filter(keep)[j]);
        } else {
            assert(s.filter(keep) == s.drop_last().filter(keep).push(s.last()) || s.filter(
                keep,
            ) == s.drop_last().filter(keep));
            lemma_filter_elem_from(s.drop_last(), keep, j);
            let src = choose|src: int|
                0 <= src < s.drop_last().len() && s.drop_last()[src] == s.drop_last().filter(
                    keep,
                )[j];
            assert(s[src] == s.filter(keep)[j]);
        }
    }
}

/// Finding in a concatenation whose head lacks the path and whose tail
/// starts with it lands on the junction.
proof fn lemma_ev_find_concat(a: Seq<EntryView>, b: Seq<EntryView>, path: Seq<char>)
    requires
        forall|j: int| 0 <= j < a.len() ==> a[j].path != path,
        b.len() > 0,
        b[0].path == path,
    ensures
        crate::database::ev_find(a + b, path) == a.len(),
    decreases a.len(),
{
    if a.len() == 0 {
        assert(a + b =~= b);
    } else {
        assert((a + b)[0] == a[0]);
        lemma_ev_find_concat(a.drop_first(), b, path);
        assert((a + b).drop_first() =~= a.drop_first() + b);
    }
}

} // verus!
