//! The engine: one store, one configuration, one exclusion filter, one
//! debouncer, composed into the indexing–search pipeline. Filesystem
//! snapshots and clock instants come in as plain values; everything the
//! engine decides from them is verified.
use vstd::prelude::*;

use crate::config::SearchConfig;
use crate::database::{
    ev, ev_seq, ev_upsert, ev_upsert_all, lemma_upsert_all_commutes, Database, EntryView,
};
use crate::debounce::{deliver_spec, EventDebouncer, FileEventType};
use crate::error::SearchError;
use crate::exclusion::{excluded_by, ExclusionFilter};
use crate::executor::SearchExecutor;
use crate::incremental::IncrementalIndexer;
use crate::metadata::{ev_extract, MetadataExtractor};
use crate::query::{parse_spec, Query, QueryParser};
use crate::types::{ExclusionRule, ExclusionRuleType, IndexStats, Progress, SearchResult,
    UpdateStats, VerificationStats};
use crate::walker::{walk_spec, walked_view, DirectoryWalker, FileMeta, FsSnapshot, WalkConfig,
    WalkedFile};

verus! {

/// The records a snapshot walk turns into, at instant `now`.
pub open spec fn extracted_views(
    walked: Seq<(Seq<char>, FileMeta)>,
    now: i64,
) -> Seq<EntryView> {
    walked.map_values(|pm: (Seq<char>, FileMeta)| ev_extract(pm.0, pm.1, now))
}

/// The walk occurrence the verification pass consults for a stored path:
/// the last one wins, as a later visit overwrites an earlier sighting.
pub open spec fn walk_meta_of(w: Seq<(Seq<char>, FileMeta)>, p: Seq<char>) -> Option<FileMeta>
    decreases w.len(),
{
    if w.len() == 0 {
        None
    } else if w.last().0 == p {
        Some(w.last().1)
    } else {
        walk_meta_of(w.drop_last(), p)
    }
}

/// Is a stored record stale against the walked metadata: the snapshot's
/// modification time is newer than the stored one, or the record never
/// had one.
pub open spec fn outdated_against(e: crate::types::FileEntry, m: FileMeta) -> bool {
    match e.modified_at {
        Some(last) => match m.modified_at {
            Some(t) => t > last,
            None => false,
        },
        None => true,
    }
}

/// The record's path no longer appears in the walk.
pub open spec fn verify_missing(e: crate::types::FileEntry, w: Seq<(Seq<char>, FileMeta)>) -> bool {
    walk_meta_of(w, e.path@) is None
}

/// The record's path still appears, with newer metadata.
pub open spec fn verify_outdated(e: crate::types::FileEntry, w: Seq<(Seq<char>, FileMeta)>) -> bool {
    match walk_meta_of(w, e.path@) {
        Some(m) => outdated_against(e, m),
        None => false,
    }
}

/// The record's path still appears, no newer than what is stored.
pub open spec fn verify_valid(e: crate::types::FileEntry, w: Seq<(Seq<char>, FileMeta)>) -> bool {
    match walk_meta_of(w, e.path@) {
        Some(m) => !outdated_against(e, m),
        None => false,
    }
}

/// A consumer of indexing progress. The answer says whether the pass
/// should go on: answering `false` between batches stops it. The shell
/// implements this over its own reporting and cancellation.
pub trait ProgressSink {
    fn report(&mut self, p: &Progress) -> bool;
}

/// The engine.
pub struct SearchEngine {
    pub database: Database,
    pub config: SearchConfig,
    pub exclusion_filter: ExclusionFilter,
    pub debouncer: EventDebouncer,
    pub watching: bool,
}

impl SearchEngine {
    /// The walker's configuration slice of the engine's configuration.
    pub open spec fn walk_config(&self) -> WalkConfig {
        WalkConfig {
            index_hidden_files: self.config.index_hidden_files,
            follow_symlinks: self.config.follow_symlinks,
        }
    }

    pub open spec fn wf(&self) -> bool {
        self.database.wf() && self.exclusion_filter.wf()
    }

    /// An engine over a fresh store: rules taken from the configuration.
    pub fn with_config(config: SearchConfig) -> (r: Result<SearchEngine, SearchError>)
        ensures
            match r {
                Ok(e) => {
                    &&& e.wf()
                    &&& e.database@ == Seq::<crate::types::FileEntry>::empty()
                    &&& e.config == config
                    &&& e.watching == false
                    &&& e.exclusion_filter.rules_view().len()
                        == config.exclusion_patterns@.len()
                    &&& forall|k: int|
                        0 <= k < config.exclusion_patterns@.len() ==> (
                        #[trigger] e.exclusion_filter.rules_view()[k]).pattern@
                            == config.exclusion_patterns@[k]@
                            && e.exclusion_filter.rules_view()[k].rule_type
                            == ExclusionRuleType::Glob
                },
                Err(e) => e is Parse,
            },
    {
        let database = Database::new();
        let exclusion_filter = match ExclusionFilter::from_patterns(&config.exclusion_patterns) {
            Ok(f) => f,
            Err(e) => {
                return Err(e);
            },
        };
        let debouncer = EventDebouncer::new(config.watch_debounce_ms);
        Ok(
            SearchEngine {
                database,
                config,
                exclusion_filter,
                debouncer,
                watching: false,
            },
        )
    }

    /// A full index pass over a snapshot at instant `now`: the walked
    /// candidates extracted and upserted as one batch; gives the number
    /// of records written.
    pub fn index_directory(&mut self, snap: &FsSnapshot, root: &str, now: i64) -> (r: Result<
        usize,
        SearchError,
    >)
        requires
            old(self).wf(),
        ensures
            final(self).wf(),
            final(self).config == old(self).config,
            final(self).exclusion_filter == old(self).exclusion_filter,
            r is Ok,
            r->Ok_0 == walk_spec(
                snap.dirs@,
                root@,
                old(self).exclusion_filter.rules_view(),
                old(self).walk_config(),
            ).len(),
            ev_seq(final(self).database@) == ev_upsert_all(
                ev_seq(old(self).database@),
                extracted_views(
                    walk_spec(
                        snap.dirs@,
                        root@,
                        old(self).exclusion_filter.rules_view(),
                        old(self).walk_config(),
                    ),
                    now,
                ),
            ),
    {
        let batch = self.walk_extract(snap, root, now);
        let ghost before = self.database@;
        match self.database.insert_files_batch(&batch) {
            Ok(_) => {
            },
            Err(e) => {
                return Err(e);
            },
        }
        proof {
            lemma_upsert_all_commutes(before, batch@);
        }
        Ok(batch.len())
    }

    /// Walks a snapshot and extracts the records it yields; the engine
    /// itself is left exactly as it was.
    fn walk_extract(&mut self, snap: &FsSnapshot, root: &str, now: i64) -> (r: Vec<
        crate::types::FileEntry,
    >)
        requires
            old(self).wf(),
        ensures
            *final(self) == *old(self),
            ev_seq(r@) == extracted_views(
                walk_spec(
                    snap.dirs@,
                    root@,
                    old(self).exclusion_filter.rules_view(),
                    old(self).walk_config(),
                ),
                now,
            ),
            r@.len() == walk_spec(
                snap.dirs@,
                root@,
                old(self).exclusion_filter.rules_view(),
                old(self).walk_config(),
            ).len(),
    {
        let walker = DirectoryWalker::new(
            WalkConfig {
                index_hidden_files: self.config.index_hidden_files,
                follow_symlinks: self.config.follow_symlinks,
            },
            ExclusionFilter::empty(),
        );
        let walker = DirectoryWalker { config: walker.config, filter: self.take_filter() };
        let walked = match walker.walk(snap, root) {
            Ok(w) => w,
            Err(_) => {
                proof {
                    assert(false);
                }
                Vec::new()
            },
        };
        self.exclusion_filter = walker.filter;
        let ghost wseq = walk_spec(
            snap.dirs@,
            root@,
            old(self).exclusion_filter.rules_view(),
            old(self).walk_config(),
        );
        let mut batch: Vec<crate::types::FileEntry> = Vec::new();
        let mut i: usize = 0;
        proof {
            assert(extracted_views(wseq, now).take(0) =~= Seq::<EntryView>::empty());
            assert(ev_seq(batch@) =~= Seq::<EntryView>::empty());
        }
        while i < walked.len()
            invariant
                i <= walked@.len(),
                walked@.map_values(|w: WalkedFile| walked_view(w)) == wseq,
                ev_seq(batch@) == extracted_views(wseq, now).take(i as int),
            decreases walked.len() - i,
        {
            let entry = MetadataExtractor::extract(walked[i].path.as_str(), &walked[i].meta, now);
            batch.push(entry);
            proof {
                assert(extracted_views(wseq, now).take(i + 1) =~= extracted_views(
                    wseq,
                    now,
                ).take(i as int).push(extracted_views(wseq, now)[i as int]));
                assert(ev_seq(batch@) =~= ev_seq(batch@.drop_last()).push(ev(batch@.last())));
                assert(ev(batch@.last()) == ev_extract(wseq[i as int].0, wseq[i as int].1, now));
            }
            i = i + 1;
        }
        proof {
            assert(extracted_views(wseq, now).take(wseq.len() as int) =~= extracted_views(
                wseq,
                now,
            ));
        }
        batch
    }

    /// A full index pass that writes the walked records in batches of the
    /// configured size, reporting progress to the sink after each batch;
    /// the sink may stop the pass between batches, which leaves exactly
    /// the written prefix behind and reports how far it came.
    pub fn index_directory_with_progress<P: ProgressSink>(
        &mut self,
        snap: &FsSnapshot,
        root: &str,
        now: i64,
        sink: &mut P,
    ) -> (r: Result<usize, SearchError>)
        requires
            old(self).wf(),
        ensures
            final(self).wf(),
            final(self).config == old(self).config,
            final(self).exclusion_filter == old(self).exclusion_filter,
            r is Ok,
            ({
                let wseq = walk_spec(
                    snap.dirs@,
                    root@,
                    old(self).exclusion_filter.rules_view(),
                    old(self).walk_config(),
                );
                &&& r->Ok_0 <= wseq.len()
                &&& ev_seq(final(self).database@) == ev_upsert_all(
                    ev_seq(old(self).database@),
                    extracted_views(wseq, now).take(r->Ok_0 as int),
                )
            }),
    {
        let batch = self.walk_extract(snap, root, now);
        let ghost wseq = walk_spec(
            snap.dirs@,
            root@,
            old(self).exclusion_filter.rules_view(),
            old(self).walk_config(),
        );
        let ghost evb = extracted_views(wseq, now);
        let ghost s0 = ev_seq(self.database@);
        let total = batch.len();
        let mut done: usize = 0;
        proof {
            assert(evb.take(0) =~= Seq::<EntryView>::empty());
        }
        while done < total
            invariant
                done <= total,
                total == batch@.len(),
                self.wf(),
                self.config == old(self).config,
                self.exclusion_filter == old(self).exclusion_filter,
                ev_seq(batch@) == evb,
                evb.len() == total,
                ev_seq(self.database@) == ev_upsert_all(s0, evb.take(done as int)),
            decreases total - done,
        {
            let step = if self.config.batch_size == 0 {
                total - done
            } else {
                self.config.batch_size
            };
            let end = if step >= total - done {
                total
            } else {
                done + step
            };
            let mut chunk: Vec<crate::types::FileEntry> = Vec::new();
            let mut j = done;
            proof {
                assert(ev_seq(chunk@) =~= evb.subrange(done as int, done as int));
            }
            while j < end
                invariant
                    done <= j <= end <= total,
                    total == batch@.len(),
                    ev_seq(batch@) == evb,
                    ev_seq(chunk@) == evb.subrange(done as int, j as int),
                decreases end - j,
            {
                chunk.push(batch[j].duplicate());
                proof {
                    assert(ev_seq(chunk@) =~= ev_seq(chunk@.drop_last()).push(
                        ev(chunk@.last()),
                    ));
                    assert(ev(chunk@.last()) == ev_seq(batch@)[j as int]);
                    assert(evb.subrange(done as int, j + 1) =~= evb.subrange(
                        done as int,
                        j as int,
                    ).push(evb[j as int]));
                }
                j = j + 1;
            }
            let ghost before = self.database@;
            match self.database.insert_files_batch(&chunk) {
                Ok(_) => {
                },
                Err(_) => {
                },
            }
            proof {
                lemma_upsert_all_commutes(before, chunk@);
                crate::database::lemma_ev_upsert_all_concat(
                    s0,
                    evb.take(done as int),
                    evb.subrange(done as int, end as int),
                );
                assert(evb.take(done as int) + evb.subrange(done as int, end as int)
                    =~= evb.take(end as int));
            }
            done = end;
            let progress = Progress::new(done, total, String::new());
            if !sink.report(&progress) {
                return Ok(done);
            }
        }
        Ok(done)
    }

    /// Swaps the engine's filter out for the walker's lifetime.
    fn take_filter(&mut self) -> (r: ExclusionFilter)
        ensures
            r == old(self).exclusion_filter,
            final(self).database == old(self).database,
            final(self).config == old(self).config,
            final(self).debouncer == old(self).debouncer,
            final(self).watching == old(self).watching,
    {
        let mut f = ExclusionFilter::empty();
        core_swap(&mut f, &mut self.exclusion_filter);
        f
    }

    /// The incremental pass over a snapshot at instant `now`.
    pub fn update_index(&mut self, snap: &FsSnapshot, root: &str, now: i64) -> (r: Result<
        UpdateStats,
        SearchError,
    >)
        requires
            old(self).wf(),
        ensures
            final(self).wf(),
            final(self).config == old(self).config,
            final(self).exclusion_filter == old(self).exclusion_filter,
            r is Ok,
            ({
                let cur = walk_spec(
                    snap.dirs@,
                    root@,
                    old(self).exclusion_filter.rules_view(),
                    old(self).walk_config(),
                );
                let phase1 = crate::incremental::ev_apply_current(
                    ev_seq(old(self).database@),
                    cur,
                    now,
                );
                &&& ev_seq(final(self).database@) == crate::incremental::ev_drop_stale(
                    phase1.0,
                    crate::incremental::current_paths(cur),
                    root@,
                )
                &&& r->Ok_0.added == phase1.1
                &&& r->Ok_0.updated == phase1.2
                &&& r->Ok_0.removed == phase1.0.len() - ev_seq(final(self).database@).len()
            }),
    {
        let walker = DirectoryWalker::new(
            WalkConfig {
                index_hidden_files: self.config.index_hidden_files,
                follow_symlinks: self.config.follow_symlinks,
            },
            ExclusionFilter::empty(),
        );
        let walker = DirectoryWalker { config: walker.config, filter: self.take_filter() };
        let walked = match walker.walk(snap, root) {
            Ok(w) => w,
            Err(e) => {
                self.exclusion_filter = walker.filter;
                return Err(e);
            },
        };
        self.exclusion_filter = walker.filter;
        let stats = IncrementalIndexer::update(&mut self.database, &walked, root, now);
        Ok(stats)
    }

    /// Feeds one indexed file's bytes into the content tables: the
    /// analyzed preview row for the stored record, and one full-text row
    /// over its name, path and preview text. A row is written exactly
    /// when the path is stored with an id, the file is small enough, and
    /// the bytes look like text; the record table itself never changes.
    pub fn index_file_content(&mut self, path: &str, data: &[u8]) -> (r: bool)
        requires
            old(self).wf(),
        ensures
            final(self).wf(),
            final(self).config == old(self).config,
            final(self).exclusion_filter == old(self).exclusion_filter,
            final(self).debouncer == old(self).debouncer,
            final(self).watching == old(self).watching,
            final(self).database@ == old(self).database@,
            final(self).database.rules_view() == old(self).database.rules_view(),
            ({
                let s = old(self).database@;
                let found = crate::database::has_path(s, path@) && s[crate::database::find_path(
                    s,
                    path@,
                )].id is Some;
                let takes = found && s[crate::database::find_path(s, path@)].size <= old(
                    self,
                ).config.max_file_size_for_content && crate::encoding::likely_text_spec(data@);
                &&& r == takes
                &&& !r ==> final(self).database.contents_view() == old(
                    self,
                ).database.contents_view() && final(self).database.fts_view() == old(
                    self,
                ).database.fts_view()
                &&& r ==> ({
                    let e = s[crate::database::find_path(s, path@)];
                    let id = e.id->Some_0;
                    let text = crate::encoding::decoded_text(data@);
                    let cut = (if 1000 <= text.len() {
                        1000int
                    } else {
                        text.len() as int
                    });
                    &&& exists|k: int|
                        0 <= k < final(self).database.contents_view().len() && {
                            let row = #[trigger] final(self).database.contents_view()[k];
                            &&& row.0 == id
                            &&& row.1.preview@ == text.take(cut)
                            &&& row.1.word_count == crate::content::word_count_spec(text)
                            &&& row.1.line_count == crate::content::lines_of(text)
                            &&& row.1.encoding@ == crate::encoding::detected_encoding(
                                crate::content::sample_of(data@),
                            )
                        }
                    &&& final(self).database.fts_view().len() == old(
                        self,
                    ).database.fts_view().len() + 1
                    &&& final(self).database.fts_view().last().file_id == id
                    &&& final(self).database.fts_view().last().name@ == e.name@
                    &&& final(self).database.fts_view().last().path@ == path@
                    &&& final(self).database.fts_view().last().content@ == text.take(cut)
                    &&& forall|k: int|
                        0 <= k < old(self).database.fts_view().len()
                            ==> final(self).database.fts_view()[k]
                            == old(self).database.fts_view()[k]
                })
            }),
    {
        let entry = match self.database.find_by_path(path) {
            Some(e) => e,
            None => {
                return false;
            },
        };
        let id = match entry.id {
            Some(i) => i,
            None => {
                return false;
            },
        };
        let analyzer = crate::content::ContentAnalyzer::new(self.config.max_file_size_for_content);
        let preview = match analyzer.analyze_bytes(data, entry.size) {
            Some(p) => p,
            None => {
                return false;
            },
        };
        self.database.insert_content(id, &preview);
        self.database.insert_fts_entry(id, entry.name.as_str(), path, preview.preview.as_str());
        true
    }

    /// Parses one query line and runs it at instant `now`: an unparsable
    /// line is an invalid query; a parsed one succeeds exactly when it is
    /// workable, and then carries the executor's full answer for it.
    pub fn search(&self, input: &str, now: i64) -> (r: Result<Vec<SearchResult>, SearchError>)
        ensures
            (r is Err && r->Err_0 is InvalidQuery) <==> parse_spec(input@, now) is None,
            parse_spec(input@, now) matches Some(q) ==> {
                &&& (r is Ok <==> crate::executor::execute_ok(self.config, q))
                &&& (r is Ok ==> crate::executor::execute_post(
                    self.database,
                    self.config,
                    q,
                    now,
                    r->Ok_0@,
                ))
                &&& (r is Err ==> r->Err_0 is Parse)
            },
    {
        let query = match QueryParser::parse(input, now) {
            Ok(q) => q,
            Err(e) => {
                return Err(e);
            },
        };
        match SearchExecutor::execute(&self.database, &self.config, &query, now) {
            Ok(results) => Ok(results),
            Err(e) => Err(e),
        }
    }

    /// Runs a structured query at instant `now`: success exactly when the
    /// query is workable, and then the executor's full answer for it.
    pub fn search_with_query(&self, query: &Query, now: i64) -> (r: Result<
        Vec<SearchResult>,
        SearchError,
    >)
        ensures
            r is Ok <==> crate::executor::execute_ok(self.config, query@),
            r is Ok ==> crate::executor::execute_post(
                self.database,
                self.config,
                query@,
                now,
                r->Ok_0@,
            ),
            r is Err ==> r->Err_0 is Parse,
    {
        SearchExecutor::execute(&self.database, &self.config, &query, now)
    }

    /// Marks the engine as watching; the platform subscription is the
    /// shell's to run.
    pub fn start_watching(&mut self) -> (r: Result<(), SearchError>)
        ensures
            r is Ok,
            final(self).watching == true,
            final(self).database == old(self).database,
            final(self).config == old(self).config,
            final(self).exclusion_filter == old(self).exclusion_filter,
    {
        self.watching = true;
        Ok(())
    }

    pub fn stop_watching(&mut self) -> (r: Result<(), SearchError>)
        ensures
            r is Ok,
            final(self).watching == false,
            final(self).database == old(self).database,
            final(self).config == old(self).config,
            final(self).exclusion_filter == old(self).exclusion_filter,
    {
        self.watching = false;
        Ok(())
    }

    pub fn is_watching(&self) -> (r: bool)
        ensures
            r == self.watching,
    {
        self.watching
    }

    /// One raw watcher notification pushed through the decision path:
    /// dropped kinds, excluded paths and debounced repeats go nowhere;
    /// everything else refreshes or removes the path's record. Gives
    /// back the applied event kind, if one was applied.
    pub fn handle_event(
        &mut self,
        path: &str,
        kind: crate::watch::RawEventKind,
        meta: &Option<FileMeta>,
        now_ms: u64,
        now: i64,
    ) -> (r: Option<FileEventType>)
        requires
            old(self).wf(),
        ensures
            final(self).wf(),
            final(self).config == old(self).config,
            final(self).exclusion_filter == old(self).exclusion_filter,
            final(self).watching == old(self).watching,
            final(self).debouncer.window() == old(self).debouncer.window(),
            ({
                let mapped = crate::watch::map_kind_spec(kind);
                let admitted = mapped is Some && !excluded_by(
                    old(self).exclusion_filter.rules_view(),
                    path@,
                ) && deliver_spec(
                    old(self).debouncer.last_at(path@),
                    now_ms,
                    old(self).debouncer.window(),
                );
                let consulted = mapped is Some && !excluded_by(
                    old(self).exclusion_filter.rules_view(),
                    path@,
                );
                &&& r == (if admitted {
                    mapped
                } else {
                    Option::<FileEventType>::None
                })
                &&& ev_seq(final(self).database@) == (if admitted {
                    match *meta {
                        Some(m) => ev_upsert(
                            ev_seq(old(self).database@),
                            ev_extract(path@, m, now),
                        ),
                        None => crate::database::ev_delete(ev_seq(old(self).database@), path@),
                    }
                } else {
                    ev_seq(old(self).database@)
                })
                &&& final(self).debouncer.last_at(path@) == (if consulted {
                    Some(now_ms)
                } else {
                    old(self).debouncer.last_at(path@)
                })
                &&& forall|p: Seq<char>|
                    p != path@ ==> #[trigger] final(self).debouncer.last_at(p) == old(
                        self,
                    ).debouncer.last_at(p)
            }),
    {
        let mapped = crate::watch::map_event_kind(kind);
        let event_type = match mapped {
            Some(t) => t,
            None => {
                return None;
            },
        };
        if self.exclusion_filter.is_excluded(path) {
            return None;
        }
        if !self.debouncer.should_process(path, event_type, now_ms) {
            return None;
        }
        IncrementalIndexer::update_file(&mut self.database, path, meta, now);
        Some(event_type)
    }

    /// The aggregate counters of the store, every field as the store
    /// states it.
    pub fn get_stats(&self) -> (r: IndexStats)
        requires
            self.database@.len() <= usize::MAX,
        ensures
            r.total_files == Database::count_if(
                self.database@,
                |e: crate::types::FileEntry| !e.is_directory,
            ),
            r.total_directories == Database::count_if(
                self.database@,
                |e: crate::types::FileEntry| e.is_directory,
            ),
            r.total_size == Database::total_size_spec(self.database@),
            r.indexed_files == self.database.contents_view().len(),
            r.last_update == Database::last_update_spec(self.database@),
            r.index_size == 0,
    {
        self.database.get_stats()
    }

    /// Empties the index; the exclusion rules stay.
    pub fn clear_index(&mut self) -> (r: Result<(), SearchError>)
        requires
            old(self).wf(),
        ensures
            r is Ok,
            final(self).wf(),
            final(self).database@ == Seq::<crate::types::FileEntry>::empty(),
            final(self).config == old(self).config,
            final(self).exclusion_filter == old(self).exclusion_filter,
    {
        self.database.clear_all();
        Ok(())
    }

    /// Compaction; nothing to compact in the in-memory store.
    pub fn vacuum(&mut self) -> (r: Result<(), SearchError>)
        ensures
            r is Ok,
            *final(self) == *old(self),
    {
        self.database.vacuum();
        Ok(())
    }

    /// Classifies every stored record under the root against a snapshot
    /// walk without exclusions: its path missing from the walk, outdated
    /// against it, or still valid; each counter is the exact count of its
    /// class, and the store is not touched.
    pub fn verify_index(&self, snap: &FsSnapshot, root: &str) -> (r: Result<
        VerificationStats,
        SearchError,
    >)
        requires
            self.wf(),
        ensures
            r is Ok,
            r->Ok_0.total_indexed == r->Ok_0.valid + r->Ok_0.outdated + r->Ok_0.missing,
            ({
                let w = walk_spec(
                    snap.dirs@,
                    root@,
                    Seq::<ExclusionRule>::empty(),
                    self.walk_config(),
                );
                &&& r->Ok_0.total_indexed == self.database@.filter(
                    |e: crate::types::FileEntry| crate::text::starts_with_seq(e.path@, root@),
                ).len()
                &&& r->Ok_0.missing == self.database@.filter(
                    |e: crate::types::FileEntry|
                        crate::text::starts_with_seq(e.path@, root@) && verify_missing(e, w),
                ).len()
                &&& r->Ok_0.outdated == self.database@.filter(
                    |e: crate::types::FileEntry|
                        crate::text::starts_with_seq(e.path@, root@) && verify_outdated(e, w),
                ).len()
                &&& r->Ok_0.valid == self.database@.filter(
                    |e: crate::types::FileEntry|
                        crate::text::starts_with_seq(e.path@, root@) && verify_valid(e, w),
                ).len()
            }),
    {
        let ghost w = walk_spec(snap.dirs@, root@, Seq::<ExclusionRule>::empty(), self.walk_config());
        let ghost p_under = |e: crate::types::FileEntry|
            crate::text::starts_with_seq(e.path@, root@);
        let ghost p_missing = |e: crate::types::FileEntry|
            crate::text::starts_with_seq(e.path@, root@) && verify_missing(e, w);
        let ghost p_outdated = |e: crate::types::FileEntry|
            crate::text::starts_with_seq(e.path@, root@) && verify_outdated(e, w);
        let ghost p_valid = |e: crate::types::FileEntry|
            crate::text::starts_with_seq(e.path@, root@) && verify_valid(e, w);
        let walker = DirectoryWalker::new(
            WalkConfig {
                index_hidden_files: self.config.index_hidden_files,
                follow_symlinks: self.config.follow_symlinks,
            },
            ExclusionFilter::empty(),
        );
        let n = self.database.record_count();
        let all = self.database.get_all_files(n, 0);
        let rootv = crate::text::chars_of(root);
        let mut stats = VerificationStats { total_indexed: 0, valid: 0, outdated: 0, missing: 0 };
        let reader = DirectoryWalker { config: walker.config, filter: ExclusionFilter::empty() };
        let walked = match reader.walk(snap, root) {
            Ok(ws) => ws,
            Err(_) => Vec::new(),
        };
        proof {
            assert(all@ =~= self.database@);
            assert(walked@.map_values(|x: WalkedFile| walked_view(x)) == w);
            reveal_with_fuel(Seq::filter, 2);
            assert(all@.take(0).filter(p_under) =~= Seq::<crate::types::FileEntry>::empty());
            assert(all@.take(0).filter(p_missing) =~= Seq::<crate::types::FileEntry>::empty());
            assert(all@.take(0).filter(p_outdated) =~= Seq::<crate::types::FileEntry>::empty());
            assert(all@.take(0).filter(p_valid) =~= Seq::<crate::types::FileEntry>::empty());
        }
        let mut k: usize = 0;
        while k < all.len()
            invariant
                k <= all@.len(),
                all@ == self.database@,
                rootv@ == root@,
                walked@.map_values(|x: WalkedFile| walked_view(x)) == w,
                p_under == (|e: crate::types::FileEntry|
                    crate::text::starts_with_seq(e.path@, root@)),
                p_missing == (|e: crate::types::FileEntry|
                    crate::text::starts_with_seq(e.path@, root@) && verify_missing(e, w)),
                p_outdated == (|e: crate::types::FileEntry|
                    crate::text::starts_with_seq(e.path@, root@) && verify_outdated(e, w)),
                p_valid == (|e: crate::types::FileEntry|
                    crate::text::starts_with_seq(e.path@, root@) && verify_valid(e, w)),
                stats.total_indexed == all@.take(k as int).filter(p_under).len(),
                stats.missing == all@.take(k as int).filter(p_missing).len(),
                stats.outdated == all@.take(k as int).filter(p_outdated).len(),
                stats.valid == all@.take(k as int).filter(p_valid).len(),
                stats.total_indexed == stats.valid + stats.outdated + stats.missing,
                stats.total_indexed <= k,
            decreases all.len() - k,
        {
            proof {
                reveal_with_fuel(Seq::filter, 2);
                assert(all@.take(k + 1).drop_last() =~= all@.take(k as int));
                assert(all@.take(k + 1).last() == all@[k as int]);
            }
            let e = &all[k];
            let pv = crate::text::chars_of(e.path.as_str());
            if crate::text::starts_with_vec(&pv, &rootv) {
                let mut found: Option<FileMeta> = None;
                let mut c: usize = 0;
                proof {
                    assert(w.take(0) =~= Seq::<(Seq<char>, FileMeta)>::empty());
                }
                while c < walked.len()
                    invariant
                        c <= walked@.len(),
                        pv@ == all@[k as int].path@,
                        k < all@.len(),
                        walked@.map_values(|x: WalkedFile| walked_view(x)) == w,
                        found == walk_meta_of(w.take(c as int), pv@),
                    decreases walked.len() - c,
                {
                    proof {
                        assert(w.take(c + 1).drop_last() =~= w.take(c as int));
                        assert(w.take(c + 1).last() == w[c as int]);
                        assert(w[c as int] == walked_view(walked@[c as int]));
                    }
                    let wv = crate::text::chars_of(walked[c].path.as_str());
                    if crate::text::eq_vec(&wv, &pv) {
                        found = Some(walked[c].meta);
                    }
                    c = c + 1;
                }
                proof {
                    assert(w.take(w.len() as int) =~= w);
                }
                stats.total_indexed = stats.total_indexed + 1;
                proof {
                    assert(p_under(all@[k as int]));
                    assert(all@.take(k + 1).filter(p_under) =~= all@.take(k as int).filter(
                        p_under,
                    ).push(all@[k as int]));
                }
                match found {
                    None => {
                        stats.missing = stats.missing + 1;
                        proof {
                            assert(verify_missing(all@[k as int], w));
                            assert(all@.take(k + 1).filter(p_missing) =~= all@.take(
                                k as int,
                            ).filter(p_missing).push(all@[k as int]));
                            assert(all@.take(k + 1).filter(p_outdated) =~= all@.take(
                                k as int,
                            ).filter(p_outdated));
                            assert(all@.take(k + 1).filter(p_valid) =~= all@.take(
                                k as int,
                            ).filter(p_valid));
                        }
                    },
                    Some(m) => {
                        let outdated = match e.modified_at {
                            Some(last) => MetadataExtractor::is_modified_since(&m, last),
                            None => true,
                        };
                        proof {
                            assert(walk_meta_of(w, all@[k as int].path@) == Some(m));
                            assert(outdated == outdated_against(all@[k as int], m));
                            assert(all@.take(k + 1).filter(p_missing) =~= all@.take(
                                k as int,
                            ).filter(p_missing));
                        }
                        if outdated {
                            stats.outdated = stats.outdated + 1;
                            proof {
                                assert(verify_outdated(all@[k as int], w));
                                assert(all@.take(k + 1).filter(p_outdated) =~= all@.take(
                                    k as int,
                                ).filter(p_outdated).push(all@[k as int]));
                                assert(all@.take(k + 1).filter(p_valid) =~= all@.take(
                                    k as int,
                                ).filter(p_valid));
                            }
                        } else {
                            stats.valid = stats.valid + 1;
                            proof {
                                assert(verify_valid(all@[k as int], w));
                                assert(all@.take(k + 1).filter(p_valid) =~= all@.take(
                                    k as int,
                                ).filter(p_valid).push(all@[k as int]));
                                assert(all@.take(k + 1).filter(p_outdated) =~= all@.take(
                                    k as int,
                                ).filter(p_outdated));
                            }
                        }
                    },
                }
            } else {
                proof {
                    assert(!p_under(all@[k as int]));
                    assert(all@.take(k + 1).filter(p_under) =~= all@.take(k as int).filter(
                        p_under,
                    ));
                    assert(all@.take(k + 1).filter(p_missing) =~= all@.take(k as int).filter(
                        p_missing,
                    ));
                    assert(all@.take(k + 1).filter(p_outdated) =~= all@.take(k as int).filter(
                        p_outdated,
                    ));
                    assert(all@.take(k + 1).filter(p_valid) =~= all@.take(k as int).filter(
                        p_valid,
                    ));
                }
            }
            k = k + 1;
        }
        proof {
            assert(all@.take(all@.len() as int) =~= all@);
        }
        Ok(stats)
    }

    /// Records one more glob exclusion rule, both in the store and in the
    /// live filter; fails exactly when the glob engine rejects the
    /// pattern, and then changes nothing.
    pub fn add_exclusion_pattern(&mut self, pattern: String) -> (r: Result<(), SearchError>)
        requires
            old(self).wf(),
        ensures
            final(self).wf(),
            final(self).config == old(self).config,
            final(self).database@ == old(self).database@,
            final(self).debouncer == old(self).debouncer,
            final(self).watching == old(self).watching,
            r is Ok <==> crate::matcher::glob_ok(pattern@),
            r is Ok ==> final(self).exclusion_filter.rules_view() == old(
                self,
            ).exclusion_filter.rules_view().push(
                (ExclusionRule { pattern: pattern, rule_type: ExclusionRuleType::Glob }),
            ) && final(self).database.rules_view() == old(self).database.rules_view().push(
                (ExclusionRule { pattern: pattern, rule_type: ExclusionRuleType::Glob }),
            ),
            r is Err ==> r->Err_0 is Parse && final(self).exclusion_filter == old(
                self,
            ).exclusion_filter && final(self).database == old(self).database,
    {
        let rule = ExclusionRule { pattern, rule_type: ExclusionRuleType::Glob };
        let mut patterns: Vec<ExclusionRule> = self.rules_copy();
        let ghost olds = self.exclusion_filter.rules_view();
        patterns.push(rule.duplicate());
        proof {
            assert(patterns@ =~= olds.push(rule));
            assert(crate::exclusion::rules_ok(olds));
            if crate::matcher::glob_ok(pattern@) {
                assert forall|i: int| 0 <= i < patterns@.len() implies crate::exclusion::rule_ok(
                    #[trigger] patterns@[i],
                ) by {
                    if i < olds.len() {
                        assert(patterns@[i] == olds[i]);
                    } else {
                        assert(patterns@[i] == rule);
                    }
                }
            } else {
                assert(patterns@[olds.len() as int] == rule);
                assert(!crate::exclusion::rule_ok(rule));
                assert(!crate::exclusion::rules_ok(patterns@));
            }
        }
        match ExclusionFilter::new(patterns) {
            Ok(f) => {
                self.exclusion_filter = f;
                self.database.add_exclusion_rule(&rule);
                Ok(())
            },
            Err(e) => Err(e),
        }
    }

    /// A copy of the live rules.
    fn rules_copy(&self) -> (r: Vec<ExclusionRule>)
        ensures
            r@ == self.exclusion_filter.rules_view(),
    {
        let mut r: Vec<ExclusionRule> = Vec::new();
        let ghost rules = self.exclusion_filter.rules_view();
        let n = self.exclusion_filter.rule_count();
        let mut i: usize = 0;
        while i < n
            invariant
                i <= rules.len(),
                n == rules.len(),
                rules == self.exclusion_filter.rules_view(),
                r@ == rules.take(i as int),
            decreases n - i,
        {
            r.push(self.exclusion_filter.rule_at(i));
            proof {
                assert(rules.take(i + 1) =~= rules.take(i as int).push(rules[i as int]));
            }
            i = i + 1;
        }
        proof {
            assert(rules.take(rules.len() as int) =~= rules);
        }
        r
    }
}

/// Exchanges the two referents' values, through `core::mem::swap` as vstd
/// specifies it.
fn core_swap(a: &mut ExclusionFilter, b: &mut ExclusionFilter)
    ensures
        *final(a) == *old(b),
        *final(b) == *old(a),
{
    core::mem::swap(a, b)
}

// ---------------------------------------------------------------------------
// Idempotent indexing
// ---------------------------------------------------------------------------

/// The part of a record the indexing laws compare: path, size and
/// modification time.
pub open spec fn essence(v: EntryView) -> (Seq<char>, u64, Option<i64>) {
    (v.path, v.size, v.modified_at)
}

pub open spec fn essence_seq(s: Seq<EntryView>) -> Seq<(Seq<char>, u64, Option<i64>)> {
    s.map_values(|v: EntryView| essence(v))
}

/// Batch paths are pairwise distinct.
pub open spec fn distinct_paths(b: Seq<EntryView>) -> bool {
    forall|k1: int, k2: int|
        0 <= k1 < k2 < b.len() ==> (#[trigger] b[k1]).path != (#[trigger] b[k2]).path
}

/// After a batch with distinct paths, each batch record's path holds its
/// essence.
proof fn lemma_batch_present(s: Seq<EntryView>, b: Seq<EntryView>, k: int)
    requires
        distinct_paths(b),
        0 <= k < b.len(),
    ensures
        ({
            let u = ev_upsert_all(s, b);
            let i = crate::database::ev_find(u, b[k].path);
            i >= 0 && essence(u[i]) == essence(b[k])
        }),
    decreases b.len(),
{
    let u = ev_upsert_all(s, b);
    let s1 = ev_upsert(s, b[0]);
    assert(u == ev_upsert_all(s1, b.drop_first()));
    if k == 0 {
        crate::database::lemma_ev_find(s, b[0].path);
        let i0 = crate::database::ev_find(s1, b[0].path);
        lemma_upsert_present(s, b[0]);
        assert(forall|k2: int|
            0 <= k2 < b.drop_first().len() ==> #[trigger] b.drop_first()[k2] == b[k2 + 1]);
        lemma_untouched(s1, b.drop_first(), b[0].path);
    } else {
        assert(forall|k2: int|
            0 <= k2 < b.drop_first().len() ==> #[trigger] b.drop_first()[k2] == b[k2 + 1]);
        assert(distinct_paths(b.drop_first()));
        lemma_batch_present(s1, b.drop_first(), k - 1);
    }
}

/// One upsert leaves the record's path holding its essence.
proof fn lemma_upsert_present(s: Seq<EntryView>, e: EntryView)
    ensures
        ({
            let u = ev_upsert(s, e);
            let i = crate::database::ev_find(u, e.path);
            i >= 0 && essence(u[i]) == essence(e)
        }),
{
    crate::database::lemma_ev_find(s, e.path);
    let i = crate::database::ev_find(s, e.path);
    if i >= 0 {
        let u = s.update(i, crate::database::ev_merged(s[i], e));
        lemma_find_paths_equal(s, u, e.path);
        assert(crate::database::ev_find(u, e.path) == i);
    } else {
        let u = s.push(EntryView { id: Some(crate::database::ev_next_id(s) as i64), ..e });
        lemma_push_find(s, EntryView { id: Some(crate::database::ev_next_id(s) as i64), ..e });
    }
}

/// Two stores with pathwise-equal records find every path at the same
/// index.
proof fn lemma_find_paths_equal(a: Seq<EntryView>, b: Seq<EntryView>, p: Seq<char>)
    requires
        a.len() == b.len(),
        forall|k: int| 0 <= k < a.len() ==> (#[trigger] a[k]).path == b[k].path,
    ensures
        crate::database::ev_find(b, p) == crate::database::ev_find(a, p),
    decreases a.len(),
{
    if a.len() > 0 {
        assert(b[0].path == a[0].path);
        lemma_find_paths_equal(a.drop_first(), b.drop_first(), p);
        assert(forall|k: int| 0 <= k < a.len() - 1 ==> a.drop_first()[k] == a[k + 1]);
        assert(forall|k: int| 0 <= k < b.len() - 1 ==> b.drop_first()[k] == b[k + 1]);
    }
}

/// A pushed fresh path is found at the end.
proof fn lemma_push_find(s: Seq<EntryView>, e: EntryView)
    requires
        crate::database::ev_find(s, e.path) == -1,
    ensures
        crate::database::ev_find(s.push(e), e.path) == s.len(),
    decreases s.len(),
{
    crate::database::lemma_ev_find(s, e.path);
    if s.len() == 0 {
        assert(s.push(e)[0] == e);
    } else {
        assert(s[0].path != e.path);
        crate::database::lemma_ev_find(s.drop_first(), e.path);
        assert(crate::database::ev_find(s.drop_first(), e.path) == -1);
        assert(s.push(e)[0] == s[0]);
        assert(s.push(e).drop_first() =~= s.drop_first().push(e));
        lemma_push_find(s.drop_first(), e);
    }
}

/// Upserting other paths never disturbs the essence stored at `p`.
proof fn lemma_untouched(s: Seq<EntryView>, b: Seq<EntryView>, p: Seq<char>)
    requires
        forall|k: int| 0 <= k < b.len() ==> (#[trigger] b[k]).path != p,
    ensures
        ({
            let u = ev_upsert_all(s, b);
            let i0 = crate::database::ev_find(s, p);
            let i1 = crate::database::ev_find(u, p);
            (i0 >= 0 <==> i1 >= 0) && (i0 >= 0 ==> essence(u[i1]) == essence(s[i0]))
        }),
    decreases b.len(),
{
    if b.len() > 0 {
        lemma_upsert_other(s, b[0], p);
        assert(forall|k: int|
            0 <= k < b.drop_first().len() ==> #[trigger] b.drop_first()[k] == b[k + 1]);
        lemma_untouched(ev_upsert(s, b[0]), b.drop_first(), p);
    }
}

/// One upsert of another path keeps the record at `p` as it is.
proof fn lemma_upsert_other(s: Seq<EntryView>, e: EntryView, p: Seq<char>)
    requires
        e.path != p,
    ensures
        ({
            let u = ev_upsert(s, e);
            let i0 = crate::database::ev_find(s, p);
            let i1 = crate::database::ev_find(u, p);
            (i0 >= 0 <==> i1 >= 0) && (i0 >= 0 ==> u[i1] == s[i0])
        }),
{
    crate::database::lemma_ev_find(s, e.path);
    crate::database::lemma_ev_find(s, p);
    let i = crate::database::ev_find(s, e.path);
    if i >= 0 {
        let u = s.update(i, crate::database::ev_merged(s[i], e));
        lemma_find_paths_equal(s, u, p);
        crate::database::lemma_ev_find(u, p);
        assert(crate::database::ev_find(u, p) == crate::database::ev_find(s, p));
        if crate::database::ev_find(s, p) >= 0 {
            assert(u[crate::database::ev_find(s, p)] == s[crate::database::ev_find(s, p)]) by {
                assert(s[i].path == e.path);
                assert(s[crate::database::ev_find(s, p)].path == p);
            }
        }
    } else {
        let e2 = EntryView { id: Some(crate::database::ev_next_id(s) as i64), ..e };
        let u = s.push(e2);
        lemma_ev_find_push_other(s, e2, p);
        crate::database::lemma_ev_find(u, p);
    }
}

proof fn lemma_ev_find_push_other(s: Seq<EntryView>, e: EntryView, p: Seq<char>)
    requires
        e.path != p,
    ensures
        crate::database::ev_find(s.push(e), p) == crate::database::ev_find(s, p),
    decreases s.len(),
{
    if s.len() == 0 {
        assert(s.push(e)[0] == e);
        assert(s.push(e).drop_first() =~= Seq::<EntryView>::empty());
        assert(crate::database::ev_find(Seq::<EntryView>::empty(), p) == -1);
    } else {
        assert(s.push(e)[0] == s[0]);
        assert(s.push(e).drop_first() =~= s.drop_first().push(e));
        lemma_ev_find_push_other(s.drop_first(), e, p);
        crate::database::lemma_ev_find(s.drop_first(), p);
        let d0 = crate::database::ev_find(s.drop_first(), p);
        if s[0].path == p {
        } else if d0 >= 0 {
            assert(crate::database::ev_find(s, p) == 1 + d0);
            assert(crate::database::ev_find(s.push(e), p) == 1 + d0);
        } else {
            assert(crate::database::ev_find(s, p) == -1);
            assert(crate::database::ev_find(s.push(e), p) == -1);
        }
    }
}

/// A second pass of a batch whose essences are already in place changes
/// no essence: the store's records keep their paths, sizes and times.
proof fn lemma_second_pass(s: Seq<EntryView>, b: Seq<EntryView>)
    requires
        forall|k: int|
            0 <= k < b.len() ==> {
                let i = crate::database::ev_find(s, (#[trigger] b[k]).path);
                i >= 0 && essence(s[i]) == essence(b[k])
            },
    ensures
        essence_seq(ev_upsert_all(s, b)) == essence_seq(s),
    decreases b.len(),
{
    if b.len() > 0 {
        crate::database::lemma_ev_find(s, b[0].path);
        let i = crate::database::ev_find(s, b[0].path);
        assert(i >= 0 && essence(s[i]) == essence(b[0]));
        let u1 = ev_upsert(s, b[0]);
        assert(u1 == s.update(i, crate::database::ev_merged(s[i], b[0])));
        assert(essence_seq(u1) =~= essence_seq(s));
        lemma_find_paths_equal(s, u1, b[0].path);
        assert forall|k: int| 0 <= k < b.drop_first().len() implies {
            let i2 = crate::database::ev_find(u1, (#[trigger] b.drop_first()[k]).path);
            i2 >= 0 && essence(u1[i2]) == essence(b.drop_first()[k])
        } by {
            assert(b.drop_first()[k] == b[k + 1]);
            lemma_find_paths_equal(s, u1, b[k + 1].path);
            crate::database::lemma_ev_find(s, b[k + 1].path);
            let io = crate::database::ev_find(s, b[k + 1].path);
            assert(io >= 0 && essence(s[io]) == essence(b[k + 1]));
            assert(essence(u1[io]) == essence_seq(u1)[io]);
            assert(essence(s[io]) == essence_seq(s)[io]);
        }
        lemma_second_pass(u1, b.drop_first());
    }
}

/// Idempotent indexing: running the same batch of extracted records twice
/// over any store leaves the same paths, sizes and modification times as
/// running it once — re-indexing an unchanged tree changes nothing the
/// index answers from. The batches may differ in their indexing instants;
/// their paths must be distinct, as a walked candidate set's are.
pub proof fn lemma_index_idempotent(s: Seq<EntryView>, b1: Seq<EntryView>, b2: Seq<EntryView>)
    requires
        distinct_paths(b1),
        b1.len() == b2.len(),
        forall|k: int|
            0 <= k < b1.len() ==> (#[trigger] b2[k]).path == b1[k].path && essence(b2[k])
                == essence(b1[k]),
    ensures
        essence_seq(ev_upsert_all(ev_upsert_all(s, b1), b2)) == essence_seq(
            ev_upsert_all(s, b1),
        ),
{
    let u = ev_upsert_all(s, b1);
    assert forall|k: int| 0 <= k < b2.len() implies {
        let i = crate::database::ev_find(u, (#[trigger] b2[k]).path);
        i >= 0 && essence(u[i]) == essence(b2[k])
    } by {
        lemma_batch_present(s, b1, k);
        assert(b2[k].path == b1[k].path);
    }
    lemma_second_pass(u, b2);
}

// ---------------------------------------------------------------------------
// Incremental correctness
// ---------------------------------------------------------------------------

/// Store paths are pairwise distinct.
pub open spec fn ev_distinct(s: Seq<EntryView>) -> bool {
    forall|k1: int, k2: int|
        0 <= k1 < k2 < s.len() ==> (#[trigger] s[k1]).path != (#[trigger] s[k2]).path
}

/// Current-file paths are pairwise distinct.
pub open spec fn cur_distinct(c: Seq<(Seq<char>, FileMeta)>) -> bool {
    forall|k1: int, k2: int|
        0 <= k1 < k2 < c.len() ==> (#[trigger] c[k1]).0 != (#[trigger] c[k2]).0
}

/// The set of record essences.
pub open spec fn essence_set(s: Seq<EntryView>) -> Set<(Seq<char>, u64, Option<i64>)> {
    essence_seq(s).to_set()
}

/// One upsert keeps the store's paths distinct.
proof fn lemma_upsert_distinct(s: Seq<EntryView>, e: EntryView)
    requires
        ev_distinct(s),
    ensures
        ev_distinct(ev_upsert(s, e)),
{
    crate::database::lemma_ev_find(s, e.path);
    let i = crate::database::ev_find(s, e.path);
    if i >= 0 {
        let u = s.update(i, crate::database::ev_merged(s[i], e));
        assert(forall|k: int| 0 <= k < u.len() ==> (#[trigger] u[k]).path == s[k].path);
    } else {
        let u = s.push(EntryView { id: Some(crate::database::ev_next_id(s) as i64), ..e });
        assert(forall|k: int| 0 <= k < s.len() ==> (#[trigger] u[k]) == s[k]);
        assert(u[s.len() as int].path == e.path);
    }
}

/// One upsert adds at most the record's own path.
proof fn lemma_upsert_domain(s: Seq<EntryView>, e: EntryView, i: int)
    requires
        0 <= i < ev_upsert(s, e).len(),
    ensures
        ev_upsert(s, e)[i].path == e.path || exists|j: int|
            0 <= j < s.len() && (#[trigger] s[j]).path == ev_upsert(s, e)[i].path,
{
    crate::database::lemma_ev_find(s, e.path);
    let f = crate::database::ev_find(s, e.path);
    if f >= 0 {
        let u = s.update(f, crate::database::ev_merged(s[f], e));
        if i != f {
            assert(s[i].path == u[i].path);
        }
    } else {
        if i < s.len() {
            assert(s[i].path == ev_upsert(s, e)[i].path);
        }
    }
}

/// Phase one: distinctness is kept, new paths come only from the current
/// files, and untouched paths keep their records.
proof fn lemma_apply_current_props(s: Seq<EntryView>, c: Seq<(Seq<char>, FileMeta)>, now: i64)
    requires
        ev_distinct(s),
    ensures
        ({
            let a = crate::incremental::ev_apply_current(s, c, now).0;
            &&& ev_distinct(a)
            &&& forall|i: int|
                0 <= i < a.len() ==> crate::incremental::current_paths(c).contains(
                    (#[trigger] a[i]).path,
                ) || exists|j: int| 0 <= j < s.len() && (#[trigger] s[j]).path == a[i].path
            &&& forall|p: Seq<char>|
                !crate::incremental::current_paths(c).contains(p) ==> ((
                #[trigger] crate::database::ev_find(a, p)) >= 0 <==> crate::database::ev_find(
                    s,
                    p,
                ) >= 0) && (crate::database::ev_find(s, p) >= 0 ==> a[crate::database::ev_find(
                    a,
                    p,
                )] == s[crate::database::ev_find(s, p)])
        }),
    decreases c.len(),
{
    let a = crate::incremental::ev_apply_current(s, c, now).0;
    if c.len() > 0 {
        let (p0, m0) = c[0];
        let i0 = crate::database::ev_find(s, p0);
        crate::database::lemma_ev_find(s, p0);
        let rest = c.drop_first();
        assert(forall|k: int| 0 <= k < rest.len() ==> #[trigger] rest[k] == c[k + 1]);
        assert(crate::incremental::current_paths(c)[0] == p0);
        assert forall|x: Seq<char>|
            crate::incremental::current_paths(rest).contains(x)
                implies crate::incremental::current_paths(c).contains(x) by {
            let t = choose|t: int|
                0 <= t < rest.len() && crate::incremental::current_paths(rest)[t] == x;
            assert(crate::incremental::current_paths(c)[t + 1] == x);
        }
        let touched = i0 == -1 || crate::incremental::needs_refresh(s[i0], m0);
        if touched {
            let e0 = ev_extract(p0, m0, now);
            let s1 = ev_upsert(s, e0);
            lemma_upsert_distinct(s, e0);
            lemma_apply_current_props(s1, rest, now);
            assert(a == crate::incremental::ev_apply_current(s1, rest, now).0);
            assert forall|i: int|
                0 <= i < a.len() implies crate::incremental::current_paths(c).contains(
                (#[trigger] a[i]).path,
            ) || exists|j: int| 0 <= j < s.len() && (#[trigger] s[j]).path == a[i].path by {
                if crate::incremental::current_paths(rest).contains(a[i].path) {
                } else if exists|j: int| 0 <= j < s1.len() && (#[trigger] s1[j]).path == a[
                    i
                ].path {
                    let j = choose|j: int| 0 <= j < s1.len() && (#[trigger] s1[j]).path == a[
                        i
                    ].path;
                    lemma_upsert_domain(s, e0, j);
                    if s1[j].path == e0.path {
                        assert(crate::incremental::current_paths(c)[0] == a[i].path);
                    }
                }
            }
            assert forall|p: Seq<char>|
                !crate::incremental::current_paths(c).contains(p) implies ((
            #[trigger] crate::database::ev_find(a, p)) >= 0 <==> crate::database::ev_find(s, p)
                >= 0) && (crate::database::ev_find(s, p) >= 0 ==> a[crate::database::ev_find(
                a,
                p,
            )] == s[crate::database::ev_find(s, p)]) by {
                assert(p != p0) by {
                    if p == p0 {
                        assert(crate::incremental::current_paths(c)[0] == p);
                    }
                }
                lemma_upsert_other(s, e0, p);
                assert(!crate::incremental::current_paths(rest).contains(p)) by {
                    if crate::incremental::current_paths(rest).contains(p) {
                        let t = choose|t: int|
                            0 <= t < rest.len() && crate::incremental::current_paths(rest)[t]
                                == p;
                        assert(crate::incremental::current_paths(c)[t + 1] == p);
                    }
                }
            }
        } else {
            lemma_apply_current_props(s, rest, now);
            assert(a == crate::incremental::ev_apply_current(s, rest, now).0);
            assert forall|p: Seq<char>|
                !crate::incremental::current_paths(c).contains(p) implies ((
            #[trigger] crate::database::ev_find(a, p)) >= 0 <==> crate::database::ev_find(s, p)
                >= 0) && (crate::database::ev_find(s, p) >= 0 ==> a[crate::database::ev_find(
                a,
                p,
            )] == s[crate::database::ev_find(s, p)]) by {
                assert(!crate::incremental::current_paths(rest).contains(p)) by {
                    if crate::incremental::current_paths(rest).contains(p) {
                        let t = choose|t: int|
                            0 <= t < rest.len() && crate::incremental::current_paths(rest)[t]
                                == p;
                        assert(crate::incremental::current_paths(c)[t + 1] == p);
                    }
                }
            }
        }
    }
}

/// Phase one leaves each current file's path holding the essence its
/// extraction carries, an unchanged file's stored record standing in.
proof fn lemma_apply_current_present(
    s: Seq<EntryView>,
    c: Seq<(Seq<char>, FileMeta)>,
    now: i64,
    k: int,
)
    requires
        ev_distinct(s),
        cur_distinct(c),
        0 <= k < c.len(),
        forall|t: int|
            0 <= t < c.len() ==> {
                let i = crate::database::ev_find(s, (#[trigger] c[t]).0);
                (i >= 0 && !crate::incremental::needs_refresh(s[i], c[t].1)) ==> essence(s[i])
                    == essence(ev_extract(c[t].0, c[t].1, now))
            },
    ensures
        ({
            let a = crate::incremental::ev_apply_current(s, c, now).0;
            let f = crate::database::ev_find(a, c[k].0);
            f >= 0 && essence(a[f]) == essence(ev_extract(c[k].0, c[k].1, now))
        }),
    decreases c.len(),
{
    let a = crate::incremental::ev_apply_current(s, c, now).0;
    let (p0, m0) = c[0];
    let i0 = crate::database::ev_find(s, p0);
    crate::database::lemma_ev_find(s, p0);
    let rest = c.drop_first();
    assert(forall|t: int| 0 <= t < rest.len() ==> #[trigger] rest[t] == c[t + 1]);
    let touched = i0 == -1 || crate::incremental::needs_refresh(s[i0], m0);
    let e0 = ev_extract(p0, m0, now);
    let s1: Seq<EntryView> = if touched {
        ev_upsert(s, e0)
    } else {
        s
    };
    if touched {
        lemma_upsert_distinct(s, e0);
    }
    assert(a == crate::incremental::ev_apply_current(s1, rest, now).0);
    if k == 0 {
        // the head's record is settled now and no later step touches it
        if touched {
            lemma_upsert_present(s, e0);
        } else {
            assert(essence(s[i0]) == essence(e0));
        }
        let f1 = crate::database::ev_find(s1, p0);
        crate::database::lemma_ev_find(s1, p0);
        assert(f1 >= 0 && essence(s1[f1]) == essence(e0));
        assert(!crate::incremental::current_paths(rest).contains(p0)) by {
            if crate::incremental::current_paths(rest).contains(p0) {
                let t = choose|t: int|
                    0 <= t < rest.len() && crate::incremental::current_paths(rest)[t] == p0;
                assert(c[t + 1].0 == p0);
                assert(c[0].0 == c[t + 1].0);
            }
        }
        lemma_apply_current_props(s1, rest, now);
    } else {
        // transfer the unchanged-file hypothesis across the head's step
        assert forall|t: int| 0 <= t < rest.len() implies {
            let i = crate::database::ev_find(s1, (#[trigger] rest[t]).0);
            (i >= 0 && !crate::incremental::needs_refresh(s1[i], rest[t].1)) ==> essence(
                s1[i],
            ) == essence(ev_extract(rest[t].0, rest[t].1, now))
        } by {
            let p = rest[t].0;
            assert(p != p0) by {
                assert(c[0].0 == p0 && c[t + 1].0 == p);
            }
            if touched {
                lemma_upsert_other(s, e0, p);
            }
            crate::database::lemma_ev_find(s1, p);
            crate::database::lemma_ev_find(s, p);
        }
        assert(cur_distinct(rest));
        lemma_apply_current_present(s1, rest, now, k - 1);
        assert(rest[k - 1] == c[k]);
    }
}

/// Two store positions holding one path coincide when paths are distinct.
proof fn lemma_distinct_find(s: Seq<EntryView>, i: int)
    requires
        ev_distinct(s),
        0 <= i < s.len(),
    ensures
        crate::database::ev_find(s, s[i].path) == i,
{
    crate::database::lemma_ev_find(s, s[i].path);
    let f = crate::database::ev_find(s, s[i].path);
    if f < i {
        assert(s[f].path == s[i].path);
    } else if f > i {
        assert(s[f].path != s[i].path || f == i);
        assert(s[i].path != s[f].path);
    }
}

/// Incremental correctness: an index built from one snapshot and then
/// updated against the next holds the same (path, size, modification
/// time) set as an index built from the next snapshot alone. Both the
/// stored records and the current files must lie under the root with
/// pairwise distinct paths (a walked candidate set's are), and a current
/// file whose time has not advanced past its stored record must carry the
/// stored size and time — a real mutation always advances the time.
pub proof fn lemma_incremental_correct(
    s0: Seq<EntryView>,
    c: Seq<(Seq<char>, FileMeta)>,
    root: Seq<char>,
    now: i64,
)
    requires
        ev_distinct(s0),
        cur_distinct(c),
        forall|i: int|
            0 <= i < s0.len() ==> crate::text::starts_with_seq((#[trigger] s0[i]).path, root),
        forall|k: int|
            0 <= k < c.len() ==> crate::text::starts_with_seq((#[trigger] c[k]).0, root),
        forall|t: int|
            0 <= t < c.len() ==> {
                let i = crate::database::ev_find(s0, (#[trigger] c[t]).0);
                (i >= 0 && !crate::incremental::needs_refresh(s0[i], c[t].1)) ==> essence(
                    s0[i],
                ) == essence(ev_extract(c[t].0, c[t].1, now))
            },
    ensures
        essence_set(
            crate::incremental::ev_drop_stale(
                crate::incremental::ev_apply_current(s0, c, now).0,
                crate::incremental::current_paths(c),
                root,
            ),
        ) == essence_set(ev_upsert_all(Seq::empty(), extracted_views(c, now))),
{
    let a = crate::incremental::ev_apply_current(s0, c, now).0;
    let cpaths = crate::incremental::current_paths(c);
    let keep = |v: EntryView| crate::incremental::keeps(v, cpaths, root);
    let left = a.filter(keep);
    let fresh = ev_upsert_all(Seq::<EntryView>::empty(), extracted_views(c, now));
    let b = extracted_views(c, now);
    lemma_apply_current_props(s0, c, now);
    assert(distinct_paths(b)) by {
        assert(forall|k: int| 0 <= k < b.len() ==> (#[trigger] b[k]).path == c[k].0);
    }
    assert forall|x: (Seq<char>, u64, Option<i64>)|
        essence_set(left).contains(x) <==> essence_set(fresh).contains(x) by {
        if essence_set(left).contains(x) {
            let i = choose|i: int| 0 <= i < left.len() && essence_seq(left)[i] == x;
            assert(essence(left[i]) == x);
            crate::incremental::lemma_filter_elem_from(a, keep, i);
            let src = choose|src: int| 0 <= src < a.len() && a[src] == left[i];
            a.lemma_filter_pred(keep, i);
            assert(keep(left[i]));
            assert(crate::text::starts_with_seq(a[src].path, root)) by {
                if cpaths.contains(a[src].path) {
                    let t = choose|t: int| 0 <= t < cpaths.len() && cpaths[t] == a[src].path;
                    assert(c[t].0 == a[src].path);
                } else {
                    let j = choose|j: int|
                        0 <= j < s0.len() && (#[trigger] s0[j]).path == a[src].path;
                }
            }
            assert(cpaths.contains(a[src].path));
            let t = choose|t: int| 0 <= t < cpaths.len() && cpaths[t] == a[src].path;
            assert(c[t].0 == a[src].path);
            lemma_apply_current_present(s0, c, now, t);
            lemma_distinct_find(a, src);
            assert(essence(a[src]) == essence(ev_extract(c[t].0, c[t].1, now)));
            lemma_batch_present(Seq::<EntryView>::empty(), b, t);
            let fb = crate::database::ev_find(fresh, b[t].path);
            assert(b[t] == ev_extract(c[t].0, c[t].1, now));
            assert(essence(fresh[fb]) == x);
            crate::database::lemma_ev_find(fresh, b[t].path);
            assert(essence_seq(fresh)[fb] == x);
            assert(essence_seq(fresh).contains(x));
        }
        if essence_set(fresh).contains(x) {
            let i = choose|i: int| 0 <= i < fresh.len() && essence_seq(fresh)[i] == x;
            assert(essence(fresh[i]) == x);
            // the fresh record at i sits at some current file's path
            lemma_fresh_from_batch(b, i);
            let t = choose|t: int| 0 <= t < b.len() && (#[trigger] b[t]).path == fresh[i].path;
            lemma_batch_present(Seq::<EntryView>::empty(), b, t);
            lemma_fresh_distinct(b);
            lemma_distinct_find(fresh, i);
            assert(essence(fresh[i]) == essence(b[t]));
            assert(b[t].path == c[t].0 && essence(b[t]) == essence(
                ev_extract(c[t].0, c[t].1, now),
            ));
            lemma_apply_current_present(s0, c, now, t);
            let fa = crate::database::ev_find(a, c[t].0);
            crate::database::lemma_ev_find(a, c[t].0);
            assert(essence(a[fa]) == x);
            assert(keep(a[fa])) by {
                assert(cpaths[t] == c[t].0);
            }
            a.lemma_filter_contains(keep, fa);
            let j = choose|j: int| 0 <= j < left.len() && left[j] == a[fa];
            assert(essence_seq(left)[j] == x);
            assert(essence_seq(left).contains(x));
        }
    }
    assert(essence_set(left) =~= essence_set(fresh));
}

/// Every record of a from-scratch index sits at some batch record's path.
proof fn lemma_fresh_from_batch(b: Seq<EntryView>, i: int)
    requires
        0 <= i < ev_upsert_all(Seq::<EntryView>::empty(), b).len(),
    ensures
        exists|t: int|
            0 <= t < b.len() && (#[trigger] b[t]).path == ev_upsert_all(
                Seq::<EntryView>::empty(),
                b,
            )[i].path,
{
    lemma_upsert_all_domain(Seq::<EntryView>::empty(), b, i);
}

/// Batch insertion adds only batch paths to the store's.
pub proof fn lemma_upsert_all_domain(s: Seq<EntryView>, b: Seq<EntryView>, i: int)
    requires
        0 <= i < ev_upsert_all(s, b).len(),
    ensures
        (exists|j: int|
            0 <= j < s.len() && (#[trigger] s[j]).path == ev_upsert_all(s, b)[i].path) || (
        exists|t: int| 0 <= t < b.len() && (#[trigger] b[t]).path == ev_upsert_all(s, b)[i].path),
    decreases b.len(),
{
    if b.len() == 0 {
        assert(s[i].path == ev_upsert_all(s, b)[i].path);
    } else {
        let s1 = ev_upsert(s, b[0]);
        lemma_upsert_all_domain(s1, b.drop_first(), i);
        let u = ev_upsert_all(s, b);
        if exists|j: int| 0 <= j < s1.len() && (#[trigger] s1[j]).path == u[i].path {
            let j = choose|j: int| 0 <= j < s1.len() && (#[trigger] s1[j]).path == u[i].path;
            lemma_upsert_domain(s, b[0], j);
            if s1[j].path == b[0].path {
                assert(b[0].path == u[i].path);
            }
        } else {
            let t = choose|t: int|
                0 <= t < b.drop_first().len() && (#[trigger] b.drop_first()[t]).path == u[
                    i
                ].path;
            assert(b[t + 1].path == u[i].path);
        }
    }
}

/// A from-scratch index over a distinct batch keeps its paths distinct.
proof fn lemma_fresh_distinct(b: Seq<EntryView>)
    requires
        distinct_paths(b),
    ensures
        ev_distinct(ev_upsert_all(Seq::<EntryView>::empty(), b)),
{
    lemma_upsert_all_distinct(Seq::<EntryView>::empty(), b);
}

proof fn lemma_upsert_all_distinct(s: Seq<EntryView>, b: Seq<EntryView>)
    requires
        ev_distinct(s),
    ensures
        ev_distinct(ev_upsert_all(s, b)),
    decreases b.len(),
{
    if b.len() > 0 {
        lemma_upsert_distinct(s, b[0]);
        lemma_upsert_all_distinct(ev_upsert(s, b[0]), b.drop_first());
    }
}

/// Do the walked candidates name each path once?
pub open spec fn distinct_walk(w: Seq<(Seq<char>, FileMeta)>) -> bool {
    forall|i: int, j: int| 0 <= i < j < w.len() ==> (#[trigger] w[i]).0 != (#[trigger] w[j]).0
}

/// Indexing the same walked candidates twice leaves the stored record
/// essences exactly where one pass put them, whenever the walk names
/// each path once. This is the idempotence law at the engine's level:
/// `index_directory` pins the store to exactly the upserted batch this
/// lemma speaks of.
pub proof fn lemma_index_directory_idempotent(
    s: Seq<EntryView>,
    w: Seq<(Seq<char>, FileMeta)>,
    now1: i64,
    now2: i64,
)
    requires
        distinct_walk(w),
    ensures
        essence_seq(
            ev_upsert_all(ev_upsert_all(s, extracted_views(w, now1)), extracted_views(w, now2)),
        ) == essence_seq(ev_upsert_all(s, extracted_views(w, now1))),
{
    let b1 = extracted_views(w, now1);
    let b2 = extracted_views(w, now2);
    assert forall|k: int|
        0 <= k < b1.len() implies (#[trigger] b2[k]).path == b1[k].path && essence(b2[k])
        == essence(b1[k]) by {
        assert(b1[k] == ev_extract(w[k].0, w[k].1, now1));
        assert(b2[k] == ev_extract(w[k].0, w[k].1, now2));
    }
    assert(distinct_paths(b1)) by {
        assert forall|i: int, j: int|
            0 <= i < j < b1.len() implies (#[trigger] b1[i]).path != (#[trigger] b1[j]).path by {
            assert(b1[i] == ev_extract(w[i].0, w[i].1, now1));
            assert(b1[j] == ev_extract(w[j].0, w[j].1, now1));
            assert(w[i].0 != w[j].0);
        }
    }
    lemma_index_idempotent(s, b1, b2);
}

/// After a full index pass no stored record carries an excluded path,
/// provided none did before: the walker never yields an excluded path,
/// and an upsert batch contributes only its own paths. This closes the
/// exclusion-soundness law at the store: `index_directory` pins the
/// store to exactly the upsert this lemma speaks of.
pub proof fn lemma_index_exclusion_sound(
    s: Seq<EntryView>,
    dirs: Seq<crate::walker::FsDir>,
    root: Seq<char>,
    rules: Seq<ExclusionRule>,
    cfg: WalkConfig,
    now: i64,
)
    requires
        forall|i: int| 0 <= i < s.len() ==> !excluded_by(rules, (#[trigger] s[i]).path),
    ensures
        ({
            let u = ev_upsert_all(s, extracted_views(walk_spec(dirs, root, rules, cfg), now));
            forall|i: int| 0 <= i < u.len() ==> !excluded_by(rules, (#[trigger] u[i]).path)
        }),
{
    let w = walk_spec(dirs, root, rules, cfg);
    let b = extracted_views(w, now);
    crate::walker::lemma_walk_exclusion_sound(dirs, root, rules, cfg);
    let u = ev_upsert_all(s, b);
    assert forall|i: int| 0 <= i < u.len() implies !excluded_by(rules, (#[trigger] u[i]).path) by {
        lemma_upsert_all_domain(s, b, i);
        if exists|j: int| 0 <= j < s.len() && (#[trigger] s[j]).path == u[i].path {
            let j = choose|j: int| 0 <= j < s.len() && (#[trigger] s[j]).path == u[i].path;
            assert(!excluded_by(rules, s[j].path));
        } else {
            let t = choose|t: int| 0 <= t < b.len() && (#[trigger] b[t]).path == u[i].path;
            assert(b[t] == ev_extract(w[t].0, w[t].1, now));
            assert(!excluded_by(rules, w[t].0));
        }
    }
}

} // verus!
