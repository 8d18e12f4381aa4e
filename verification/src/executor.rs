//! The search executor: candidate selection from the store by scope, the
//! filter pipeline, pattern matching, and ranking. The fuzzy mode takes
//! its own path through the scorer.
use vstd::prelude::*;

use crate::config::SearchConfig;
use crate::database::{ext_matches, filter_limit, name_matches, Database};
use crate::date::date_accepts;
use crate::error::SearchError;
use crate::extension::{entry_ext_view, extension_accepts};
use crate::fuzzy::{skim_score, FuzzyMatcher};
use crate::matcher::{create_matcher, mode_match_spec, mode_ok, Matcher};
use crate::query::{Query, QuerySpec};
use crate::ranker::{rank_sort, score_milli_spec, ResultRanker};
use crate::size::size_accepts;
use crate::types::{FileEntry, MatchMode, SearchResult, SearchScope};

verus! {

/// Does an entry pass the query's extension, size and date filters?
pub open spec fn passes_filters(q: QuerySpec, e: FileEntry, now: i64) -> bool {
    &&& extension_accepts(q.extensions, entry_ext_view(&e))
    &&& (match q.size_filter {
        Some(f) => size_accepts(f, e.size),
        None => true,
    })
    &&& (match q.date_filter {
        Some(f) => date_accepts(f, e.modified_at, now),
        None => true,
    })
}

/// Does the matcher hit the part of the entry the scope points at?
/// Content candidates were already matched by the store.
pub open spec fn scope_matches(q: QuerySpec, e: FileEntry) -> bool {
    match q.scope {
        SearchScope::Name => mode_match_spec(q.match_mode, q.pattern, e.name@),
        SearchScope::Path => mode_match_spec(q.match_mode, q.pattern, e.path@),
        SearchScope::Content => true,
        SearchScope::All => mode_match_spec(q.match_mode, q.pattern, e.name@),
    }
}

/// Twice the result budget, saturating.
pub open spec fn double_cap(max: usize) -> int {
    if max > usize::MAX / 2 {
        usize::MAX as int
    } else {
        2 * max
    }
}

/// Does the coarse name prefilter apply in this mode? Substring modes
/// can be prefiltered by name containment; the whole-string engines
/// cannot, so they page over the store instead.
pub open spec fn name_prefilter_applies(m: MatchMode) -> bool {
    match m {
        MatchMode::Exact => true,
        MatchMode::CaseInsensitive => true,
        MatchMode::Fuzzy => true,
        MatchMode::Regex => false,
        MatchMode::Glob => false,
    }
}

/// A page of the whole store, twice the budget deep.
pub open spec fn page_spec(db: Seq<FileEntry>, max: usize) -> Seq<FileEntry> {
    db.take(
        if double_cap(max) <= db.len() {
            double_cap(max)
        } else {
            db.len() as int
        },
    )
}

/// The store's coarse candidate set for the non-content scopes.
pub open spec fn candidates_spec(db: Seq<FileEntry>, q: QuerySpec, max: usize) -> Seq<
    FileEntry,
> {
    match q.scope {
        SearchScope::Name => {
            if q.extensions.len() == 1 {
                filter_limit(db, ext_matches(q.extensions[0]), double_cap(max))
            } else if name_prefilter_applies(q.match_mode) {
                filter_limit(db, name_matches(q.pattern), double_cap(max))
            } else {
                page_spec(db, max)
            }
        },
        SearchScope::Path => {
            if name_prefilter_applies(q.match_mode) {
                filter_limit(db, name_matches(q.pattern), double_cap(max))
            } else {
                page_spec(db, max)
            }
        },
        SearchScope::All => page_spec(db, max),
        SearchScope::Content => Seq::empty(),
    }
}

/// The matched set: coarse candidates put through the filters and the
/// matcher.
pub open spec fn matched_spec(db: Seq<FileEntry>, q: QuerySpec, max: usize, now: i64) -> Seq<
    FileEntry,
> {
    candidates_spec(db, q, max).filter(
        |e: FileEntry| passes_filters(q, e, now) && scope_matches(q, e),
    )
}

/// The result budget a query settles on.
pub open spec fn budget(q: QuerySpec, config_max: usize) -> usize {
    match q.max_results {
        Some(m) => m,
        None => config_max,
    }
}

/// The slice of the store the fuzzy path scores: its first 10000 records.
pub open spec fn fuzzy_pool(db: Seq<FileEntry>) -> Seq<FileEntry> {
    if db.len() <= 10000 {
        db
    } else {
        db.take(10000)
    }
}

/// Does the fuzzy path keep this entry: it passes the query's filters and
/// the fuzzy engine scores its name at or above the threshold.
pub open spec fn fuzzy_keeps(q: QuerySpec, now: i64, threshold: i64, e: FileEntry) -> bool {
    &&& passes_filters(q, e, now)
    &&& (match skim_score(e.name@, q.pattern) {
        Some(s) => s >= threshold,
        None => false,
    })
}

/// The fuzzy matched set: the pool put through `fuzzy_keeps`.
pub open spec fn fuzzy_matched(db: Seq<FileEntry>, q: QuerySpec, now: i64, threshold: i64) -> Seq<
    FileEntry,
> {
    fuzzy_pool(db).filter(|e: FileEntry| fuzzy_keeps(q, now, threshold, e))
}

/// A raw fuzzy score scaled to thousandths: ten times the raw value,
/// clamped to the unsigned range.
pub open spec fn scaled_milli(s: i64) -> u64 {
    if s < 0 {
        0u64
    } else if 10 * s <= u64::MAX {
        (10 * s) as u64
    } else {
        u64::MAX
    }
}

/// What an `Ok` answer of the non-fuzzy, non-content pipeline holds: the
/// matched set scored, rank-sorted and cut to the budget. The witness
/// sequence ties each returned record to the matched set.
pub open spec fn standard_post(
    db: Seq<FileEntry>,
    config: SearchConfig,
    q: QuerySpec,
    now: i64,
    out: Seq<SearchResult>,
) -> bool {
    exists|base: Seq<SearchResult>|
        #![trigger base.len()]
        {
            let m = matched_spec(db, q, config.max_search_results, now);
            let sorted = rank_sort(
                base.map_values(
                    |x: SearchResult| (SearchResult {
                        score_milli: score_milli_spec(
                            x.file.name@,
                            x.file.path@,
                            x.file.modified_at,
                            q.pattern,
                            now,
                        ),
                        ..x
                    }),
                ),
            );
            &&& base.len() == m.len()
            &&& (forall|k: int|
                0 <= k < base.len() ==> (#[trigger] base[k]).file == m[k] && base[k].score_milli
                    == 0 && base[k].snippet is None)
            &&& out == sorted.take(
                if budget(q, config.max_search_results) <= sorted.len() {
                    budget(q, config.max_search_results) as int
                } else {
                    sorted.len() as int
                },
            )
        }
}

/// What the fuzzy path answers: every kept record carries the scaled
/// engine score, the run is the score-sorted matched set cut to the
/// budget.
pub open spec fn fuzzy_post(
    db: Seq<FileEntry>,
    config: SearchConfig,
    q: QuerySpec,
    now: i64,
    out: Seq<SearchResult>,
) -> bool {
    exists|base: Seq<SearchResult>|
        #![trigger base.len()]
        {
            let m = fuzzy_matched(db, q, now, config.fuzzy_threshold);
            let sorted = score_sort(base);
            &&& base.len() == m.len()
            &&& (forall|k: int|
                0 <= k < base.len() ==> (#[trigger] base[k]).file == m[k] && base[k].score_milli
                    == scaled_milli(skim_score(m[k].name@, q.pattern)->Some_0) && base[
                    k
                ].snippet is None)
            &&& out == sorted.take(
                if budget(q, config.max_search_results) <= sorted.len() {
                    budget(q, config.max_search_results) as int
                } else {
                    sorted.len() as int
                },
            )
        }
}

/// The records the store hands back for a run of ids: the first record
/// carrying each id, in order; an id nothing carries contributes
/// nothing.
pub open spec fn hydrated(db: Seq<FileEntry>, ids: Seq<i64>) -> Seq<FileEntry>
    decreases ids.len(),
{
    if ids.len() == 0 {
        Seq::empty()
    } else if crate::database::id_find(db, ids[0]) >= 0 {
        seq![db[crate::database::id_find(db, ids[0])]] + hydrated(db, ids.drop_first())
    } else {
        hydrated(db, ids.drop_first())
    }
}

/// What an `Ok` answer for the content scope holds: with content search
/// off, nothing comes back; with it on, exactly the records hydrated
/// from the store's full-text hits, put through the filters, rank-sorted
/// and cut to the budget.
pub open spec fn content_post(
    db: Database,
    config: SearchConfig,
    q: QuerySpec,
    now: i64,
    out: Seq<SearchResult>,
) -> bool {
    if !config.enable_content_search {
        out.len() == 0
    } else {
        exists|base: Seq<SearchResult>|
            #![trigger base.len()]
            {
                let ids = crate::database::fts_hits_limit(
                    db.fts_view(),
                    q.pattern,
                    double_cap(config.max_search_results),
                );
                let kept = hydrated(db@, ids).filter(
                    |e: FileEntry| passes_filters(q, e, now),
                );
                let sorted = rank_sort(
                    base.map_values(
                        |x: SearchResult| (SearchResult {
                            score_milli: score_milli_spec(
                                x.file.name@,
                                x.file.path@,
                                x.file.modified_at,
                                q.pattern,
                                now,
                            ),
                            ..x
                        }),
                    ),
                );
                &&& base.len() == kept.len()
                &&& (forall|k: int|
                    0 <= k < base.len() ==> (#[trigger] base[k]).file == kept[k] && base[
                        k
                    ].score_milli == 0 && base[k].snippet is None)
                &&& out == sorted.take(
                    if budget(q, config.max_search_results) <= sorted.len() {
                        budget(q, config.max_search_results) as int
                    } else {
                        sorted.len() as int
                    },
                )
            }
    }
}

/// When the executor succeeds: the workable fuzzy mode, or a pattern its
/// mode's engine accepts.
pub open spec fn execute_ok(config: SearchConfig, q: QuerySpec) -> bool {
    (q.match_mode == MatchMode::Fuzzy && config.enable_fuzzy_search) || mode_ok(
        q.match_mode,
        q.pattern,
    )
}

/// What every `Ok` answer of the executor holds, by path.
pub open spec fn execute_post(
    db: Database,
    config: SearchConfig,
    q: QuerySpec,
    now: i64,
    out: Seq<SearchResult>,
) -> bool {
    if q.match_mode == MatchMode::Fuzzy && config.enable_fuzzy_search {
        fuzzy_post(db@, config, q, now, out)
    } else if q.scope == SearchScope::Content {
        content_post(db, config, q, now, out)
    } else {
        standard_post(db@, config, q, now, out)
    }
}

pub struct SearchExecutor;

impl SearchExecutor {
    /// The whole pipeline: `Ok` exactly when the query is workable, and
    /// then the path's full answer — the matched set scored, sorted and
    /// cut to the budget, as `execute_post` states it path by path.
    #[verifier::rlimit(100)]
    pub fn execute(
        db: &Database,
        config: &SearchConfig,
        query: &Query,
        now: i64,
    ) -> (r: Result<Vec<SearchResult>, SearchError>)
        ensures
            r is Ok <==> execute_ok(*config, query@),
            r is Ok ==> execute_post(*db, *config, query@, now, r->Ok_0@),
            r is Err ==> r->Err_0 is Parse,
    {
        if config.enable_fuzzy_search && matches!(query.match_mode, MatchMode::Fuzzy) {
            return Ok(Self::execute_fuzzy(db, config, query, now));
        }
        let max = config.max_search_results;
        let cap: usize = if max > usize::MAX / 2 {
            usize::MAX
        } else {
            2 * max
        };
        let prefilter = match query.match_mode {
            MatchMode::Exact => true,
            MatchMode::CaseInsensitive => true,
            MatchMode::Fuzzy => true,
            MatchMode::Regex => false,
            MatchMode::Glob => false,
        };
        let candidates: Vec<FileEntry> = match query.scope {
            SearchScope::Name => {
                if query.extensions.len() == 1 {
                    db.search_by_extension(query.extensions[0].as_str(), cap)
                } else if prefilter {
                    db.search_by_name(query.pattern.as_str(), cap)
                } else {
                    let r = db.get_all_files(cap, 0);
                    proof {
                        assert(r@ =~= candidates_spec(db@, query@, max));
                    }
                    r
                }
            },
            SearchScope::Path => {
                if prefilter {
                    db.search_by_name(query.pattern.as_str(), cap)
                } else {
                    let r = db.get_all_files(cap, 0);
                    proof {
                        assert(r@ =~= candidates_spec(db@, query@, max));
                    }
                    r
                }
            },
            SearchScope::All => {
                let r = db.get_all_files(cap, 0);
                proof {
                    assert(r@ =~= candidates_spec(db@, query@, max));
                }
                r
            },
            SearchScope::Content => {
                let ghost hids = crate::database::fts_hits_limit(
                    db.fts_view(),
                    query@.pattern,
                    double_cap(max),
                );
                let mut rows: Vec<FileEntry> = Vec::new();
                if config.enable_content_search {
                    let ids = db.search_content(query.pattern.as_str(), cap);
                    proof {
                        assert(cap as int == double_cap(max));
                        assert(ids@ == hids);
                        assert(ids@.skip(0) =~= ids@);
                        assert(rows@ + hydrated(db@, ids@.skip(0)) =~= hydrated(db@, ids@));
                    }
                    let mut t: usize = 0;
                    while t < ids.len()
                        invariant
                            t <= ids@.len(),
                            ids@ == hids,
                            hydrated(db@, ids@) == rows@ + hydrated(db@, ids@.skip(t as int)),
                        decreases ids@.len() - t,
                    {
                        proof {
                            assert(ids@.skip(t as int)[0] == ids@[t as int]);
                            assert(ids@.skip(t as int).drop_first() =~= ids@.skip(t + 1));
                        }
                        let ghost rows0 = rows@;
                        match db.find_by_id(ids[t]) {
                            Some(e) => {
                                rows.push(e);
                                proof {
                                    assert(hydrated(db@, ids@.skip(t as int)) == seq![
                                        db@[crate::database::id_find(db@, ids@[t as int])],
                                    ] + hydrated(db@, ids@.skip(t + 1)));
                                    assert(rows0 + hydrated(db@, ids@.skip(t as int)) =~= rows@
                                        + hydrated(db@, ids@.skip(t + 1)));
                                }
                            },
                            None => {
                                proof {
                                    assert(hydrated(db@, ids@.skip(t as int)) == hydrated(
                                        db@,
                                        ids@.skip(t + 1),
                                    ));
                                }
                            },
                        }
                        t = t + 1;
                    }
                    proof {
                        assert(ids@.skip(ids@.len() as int) =~= Seq::<i64>::empty());
                        assert(hydrated(db@, Seq::<i64>::empty()) =~= Seq::<FileEntry>::empty());
                        assert(rows@ + Seq::<FileEntry>::empty() =~= rows@);
                        assert(rows@ == hydrated(db@, hids));
                    }
                }
                let matcher = match create_matcher(query.pattern.as_str(), query.match_mode) {
                    Ok(m) => m,
                    Err(e) => {
                        return Err(e);
                    },
                };
                let ghost cpred = |e: FileEntry| passes_filters(query@, e, now);
                let ranker = ResultRanker::new(config.fuzzy_threshold);
                let mut results: Vec<SearchResult> = Vec::new();
                let mut t: usize = 0;
                proof {
                    reveal_with_fuel(Seq::filter, 2);
                    assert(rows@.take(0).filter(cpred) =~= Seq::<FileEntry>::empty());
                }
                while t < rows.len()
                    invariant
                        t <= rows@.len(),
                        cpred == (|e: FileEntry| passes_filters(query@, e, now)),
                        results@.len() == rows@.take(t as int).filter(cpred).len(),
                        forall|k: int|
                            0 <= k < results@.len() ==> (#[trigger] results@[k]).file
                                == rows@.take(t as int).filter(cpred)[k] && results@[
                                k
                            ].score_milli == 0 && results@[k].snippet is None,
                    decreases rows@.len() - t,
                {
                    proof {
                        reveal_with_fuel(Seq::filter, 2);
                        assert(rows@.take(t + 1).drop_last() =~= rows@.take(t as int));
                        assert(rows@.take(t + 1).last() == rows@[t as int]);
                    }
                    if Self::entry_passes(&rows[t], query, now) {
                        let ghost r0 = results@;
                        results.push(
                            SearchResult {
                                file: rows[t].duplicate(),
                                score_milli: 0,
                                snippet: None,
                                matches: Vec::new(),
                            },
                        );
                        proof {
                            assert(cpred(rows@[t as int]));
                            assert(rows@.take(t + 1).filter(cpred) =~= rows@.take(
                                t as int,
                            ).filter(cpred).push(rows@[t as int]));
                            assert(forall|k: int| 0 <= k < r0.len() ==> results@[k] == r0[k]);
                        }
                    } else {
                        proof {
                            assert(!cpred(rows@[t as int]));
                            assert(rows@.take(t + 1).filter(cpred) =~= rows@.take(
                                t as int,
                            ).filter(cpred));
                        }
                    }
                    t = t + 1;
                }
                proof {
                    assert(rows@.take(rows@.len() as int) =~= rows@);
                }
                let ghost cbase = results@;
                let ranked = ranker.rank(results, query.pattern.as_str(), now);
                let answer = Self::truncate(ranked, Self::budget_exec(query, max));
                proof {
                    let kept = rows@.filter(cpred);
                    let sorted = rank_sort(
                        cbase.map_values(
                            |x: SearchResult| (SearchResult {
                                score_milli: score_milli_spec(
                                    x.file.name@,
                                    x.file.path@,
                                    x.file.modified_at,
                                    query@.pattern,
                                    now,
                                ),
                                ..x
                            }),
                        ),
                    );
                    assert(answer@ == sorted.take(
                        if budget(query@, config.max_search_results) <= sorted.len() {
                            budget(query@, config.max_search_results) as int
                        } else {
                            sorted.len() as int
                        },
                    ));
                    if config.enable_content_search {
                        assert(rows@ == hydrated(db@, hids));
                        assert(kept == hydrated(
                            db@,
                            crate::database::fts_hits_limit(
                                db.fts_view(),
                                query@.pattern,
                                double_cap(config.max_search_results),
                            ),
                        ).filter(cpred));
                        assert(cbase.len() == kept.len());
                        assert(content_post(*db, *config, query@, now, answer@));
                    } else {
                        assert(rows@ =~= Seq::<FileEntry>::empty());
                        assert(kept =~= Seq::<FileEntry>::empty());
                        assert(cbase.len() == 0);
                        assert(sorted =~= Seq::<SearchResult>::empty()) by {
                            assert(cbase.map_values(
                                |x: SearchResult| (SearchResult {
                                    score_milli: score_milli_spec(
                                        x.file.name@,
                                        x.file.path@,
                                        x.file.modified_at,
                                        query@.pattern,
                                        now,
                                    ),
                                    ..x
                                }),
                            ).len() == 0);
                        }
                        assert(answer@.len() == 0);
                    }
                }
                return Ok(answer);
            },
        };
        proof {
            if query@.scope is Name {
                if query@.extensions.len() == 1 {
                    assert(query.extensions@[0]@ == query@.extensions[0]);
                } else {
                    assert(candidates@ == candidates_spec(db@, query@, max));
                }
            }
        }
        let matcher = match create_matcher(query.pattern.as_str(), query.match_mode) {
            Ok(m) => m,
            Err(e) => {
                return Err(e);
            },
        };
        let ghost mpred = |e: FileEntry|
            passes_filters(query@, e, now) && scope_matches(query@, e);
        let mut results: Vec<SearchResult> = Vec::new();
        let mut i: usize = 0;
        proof {
            reveal_with_fuel(Seq::filter, 2);
            assert(candidates@.take(0).filter(mpred) =~= Seq::<FileEntry>::empty());
        }
        while i < candidates.len()
            invariant
                i <= candidates@.len(),
                mpred == (|e: FileEntry|
                    passes_filters(query@, e, now) && scope_matches(query@, e)),
                forall|t: Seq<char>|
                    (#[trigger] matcher.match_spec(t)) == mode_match_spec(
                        query@.match_mode,
                        query@.pattern,
                        t,
                    ),
                results@.len() == candidates@.take(i as int).filter(mpred).len(),
                forall|k: int|
                    0 <= k < results@.len() ==> (#[trigger] results@[k]).file
                        == candidates@.take(i as int).filter(mpred)[k] && results@[
                        k
                    ].score_milli == 0 && results@[k].snippet is None,
            decreases candidates.len() - i,
        {
            proof {
                reveal_with_fuel(Seq::filter, 2);
                assert(candidates@.take(i + 1).drop_last() =~= candidates@.take(i as int));
                assert(candidates@.take(i + 1).last() == candidates@[i as int]);
            }
            let e = &candidates[i];
            if Self::entry_passes(e, query, now) {
                let hit = match query.scope {
                    SearchScope::Name => matcher.is_match(e.name.as_str()),
                    SearchScope::Path => matcher.is_match(e.path.as_str()),
                    SearchScope::Content => true,
                    SearchScope::All => matcher.is_match(e.name.as_str()),
                };
                if hit {
                    let ghost r0 = results@;
                    results.push(
                        SearchResult {
                            file: e.duplicate(),
                            score_milli: 0,
                            snippet: None,
                            matches: Vec::new(),
                        },
                    );
                    proof {
                        assert(mpred(candidates@[i as int]));
                        assert(candidates@.take(i + 1).filter(mpred) =~= candidates@.take(
                            i as int,
                        ).filter(mpred).push(candidates@[i as int]));
                        assert(forall|k: int| 0 <= k < r0.len() ==> results@[k] == r0[k]);
                    }
                } else {
                    proof {
                        assert(!mpred(candidates@[i as int]));
                        assert(candidates@.take(i + 1).filter(mpred) =~= candidates@.take(
                            i as int,
                        ).filter(mpred));
                    }
                }
            } else {
                proof {
                    assert(!mpred(candidates@[i as int]));
                    assert(candidates@.take(i + 1).filter(mpred) =~= candidates@.take(
                        i as int,
                    ).filter(mpred));
                }
            }
            i = i + 1;
        }
        proof {
            assert(candidates@.take(candidates@.len() as int) =~= candidates@);
        }
        let ghost base = results@;
        let ranker = ResultRanker::new(config.fuzzy_threshold);
        let ranked = ranker.rank(results, query.pattern.as_str(), now);
        let out = Self::truncate(ranked, Self::budget_exec(query, max));
        proof {
            assert(matched_spec(db@, query@, max, now) == candidates@.filter(mpred));
            let m = matched_spec(db@, query@, config.max_search_results, now);
            let sorted = rank_sort(
                base.map_values(
                    |x: SearchResult| (SearchResult {
                        score_milli: score_milli_spec(
                            x.file.name@,
                            x.file.path@,
                            x.file.modified_at,
                            query@.pattern,
                            now,
                        ),
                        ..x
                    }),
                ),
            );
            assert(base.len() == m.len());
            assert(out@ == sorted.take(
                if budget(query@, config.max_search_results) <= sorted.len() {
                    budget(query@, config.max_search_results) as int
                } else {
                    sorted.len() as int
                },
            ));
            assert(standard_post(db@, *config, query@, now, out@));
        }
        Ok(out)
    }

    /// Does the entry pass the query's extension, size and date filters?
    fn entry_passes(e: &FileEntry, query: &Query, now: i64) -> (r: bool)
        ensures
            r == passes_filters(query@, *e, now),
    {
        if !crate::extension::apply_extension_filter(e, &query.extensions) {
            return false;
        }
        match &query.size_filter {
            Some(f) => {
                if !crate::size::apply_size_filter(e, f) {
                    return false;
                }
            },
            None => {
            },
        }
        match &query.date_filter {
            Some(f) => {
                if !crate::date::apply_date_filter(e, f, now) {
                    return false;
                }
            },
            None => {
            },
        }
        true
    }

    fn budget_exec(query: &Query, config_max: usize) -> (r: usize)
        ensures
            r == budget(query@, config_max),
    {
        match query.max_results {
            Some(m) => m,
            None => config_max,
        }
    }

    fn truncate(v: Vec<SearchResult>, n: usize) -> (r: Vec<SearchResult>)
        ensures
            r@ == v@.take(
                if n <= v@.len() {
                    n as int
                } else {
                    v@.len() as int
                },
            ),
    {
        let mut v = v;
        let ghost orig = v@;
        while v.len() > n
            invariant
                v@ == orig.take(
                    if v@.len() >= n {
                        v@.len() as int
                    } else {
                        orig.len() as int
                    },
                ),
                v@.len() <= orig.len(),
            decreases v.len(),
        {
            v.pop();
            proof {
                assert(v@ =~= orig.take(v@.len() as int));
            }
        }
        proof {
            if n <= orig.len() {
                assert(v@ =~= orig.take(n as int));
            } else {
                assert(v@ =~= orig.take(orig.len() as int));
            }
        }
        v
    }

    /// The fuzzy path: up to 10000 records pulled, filtered, scored by
    /// the fuzzy engine against the threshold — every survivor kept —
    /// ordered by descending score and cut to the budget; scores land in
    /// thousandths (ten times the engine's raw value, capped).
    pub fn execute_fuzzy(
        db: &Database,
        config: &SearchConfig,
        query: &Query,
        now: i64,
    ) -> (r: Vec<SearchResult>)
        ensures
            fuzzy_post(db@, *config, query@, now, r@),
            forall|k1: int, k2: int|
                0 <= k1 < k2 < r@.len() ==> (#[trigger] r@[k1]).score_milli >= (
                #[trigger] r@[k2]).score_milli,
            r@.len() <= budget(query@, config.max_search_results),
    {
        let scorer = FuzzyMatcher::new(config.fuzzy_threshold);
        let pool = db.get_all_files(10000, 0);
        let ghost fpred = |e: FileEntry| fuzzy_keeps(query@, now, config.fuzzy_threshold, e);
        proof {
            assert(pool@ =~= fuzzy_pool(db@));
            reveal_with_fuel(Seq::filter, 2);
            assert(pool@.take(0).filter(fpred) =~= Seq::<FileEntry>::empty());
        }
        let mut kept: Vec<SearchResult> = Vec::new();
        let mut i: usize = 0;
        while i < pool.len()
            invariant
                i <= pool@.len(),
                scorer.threshold == config.fuzzy_threshold,
                fpred == (|e: FileEntry| fuzzy_keeps(query@, now, config.fuzzy_threshold, e)),
                kept@.len() == pool@.take(i as int).filter(fpred).len(),
                forall|k: int|
                    0 <= k < kept@.len() ==> {
                        let m = pool@.take(i as int).filter(fpred);
                        (#[trigger] kept@[k]).file == m[k] && kept@[k].score_milli
                            == scaled_milli(skim_score(m[k].name@, query@.pattern)->Some_0)
                            && kept@[k].snippet is None
                    },
            decreases pool.len() - i,
        {
            proof {
                reveal_with_fuel(Seq::filter, 2);
                assert(pool@.take(i + 1).drop_last() =~= pool@.take(i as int));
                assert(pool@.take(i + 1).last() == pool@[i as int]);
            }
            let e = &pool[i];
            if Self::entry_passes(e, query, now) {
                match scorer.fuzzy_match_with_threshold(e.name.as_str(), query.pattern.as_str())
                {
                    Some(s) => {
                        let milli: u64 = if s < 0 {
                            0
                        } else if (s as u64) <= u64::MAX / 10 {
                            (s as u64) * 10
                        } else {
                            u64::MAX
                        };
                        proof {
                            assert(s >= config.fuzzy_threshold);
                            if s >= 0 {
                                if (s as u64) <= u64::MAX / 10 {
                                    assert(10 * s <= u64::MAX);
                                } else {
                                    assert(10 * s > u64::MAX) by (nonlinear_arith)
                                        requires
                                            s > u64::MAX as int / 10,
                                    ;
                                }
                            }
                            assert(milli == scaled_milli(s));
                        }
                        let ghost k0 = kept@;
                        kept.push(
                            SearchResult {
                                file: e.duplicate(),
                                score_milli: milli,
                                snippet: None,
                                matches: Vec::new(),
                            },
                        );
                        proof {
                            assert(fpred(pool@[i as int]));
                            assert(pool@.take(i + 1).filter(fpred) =~= pool@.take(
                                i as int,
                            ).filter(fpred).push(pool@[i as int]));
                            assert(forall|k: int| 0 <= k < k0.len() ==> kept@[k] == k0[k]);
                        }
                    },
                    None => {
                        proof {
                            assert(!fpred(pool@[i as int]));
                            assert(pool@.take(i + 1).filter(fpred) =~= pool@.take(
                                i as int,
                            ).filter(fpred));
                        }
                    },
                }
            } else {
                proof {
                    assert(!fpred(pool@[i as int]));
                    assert(pool@.take(i + 1).filter(fpred) =~= pool@.take(i as int).filter(
                        fpred,
                    ));
                }
            }
            i = i + 1;
        }
        proof {
            assert(pool@.take(pool@.len() as int) =~= pool@);
        }
        let ghost base = kept@;
        let sorted = sort_by_score(kept);
        let answer = Self::truncate(sorted, Self::budget_exec(query, config.max_search_results));
        proof {
            let m = fuzzy_matched(db@, query@, now, config.fuzzy_threshold);
            let srt = score_sort(base);
            assert(base.len() == m.len());
            assert(answer@ == srt.take(
                if budget(query@, config.max_search_results) <= srt.len() {
                    budget(query@, config.max_search_results) as int
                } else {
                    srt.len() as int
                },
            ));
            assert(fuzzy_post(db@, *config, query@, now, answer@));
            assert forall|k1: int, k2: int|
                0 <= k1 < k2 < answer@.len() implies (#[trigger] answer@[k1]).score_milli >= (
            #[trigger] answer@[k2]).score_milli by {
                assert(answer@[k1] == sorted@[k1]);
                assert(answer@[k2] == sorted@[k2]);
            }
        }
        answer
    }

}

/// Insertion of one result into a descending-score run.
pub open spec fn score_insert(s: Seq<SearchResult>, x: SearchResult) -> Seq<SearchResult>
    decreases s.len(),
{
    if s.len() == 0 {
        seq![x]
    } else if s.last().score_milli >= x.score_milli {
        s.push(x)
    } else {
        score_insert(s.drop_last(), x).push(s.last())
    }
}

/// Insertion sort by descending score.
pub open spec fn score_sort(s: Seq<SearchResult>) -> Seq<SearchResult>
    decreases s.len(),
{
    if s.len() == 0 {
        Seq::empty()
    } else {
        score_insert(score_sort(s.drop_last()), s.last())
    }
}

fn score_insert_exec(s: Vec<SearchResult>, x: SearchResult) -> (r: Vec<SearchResult>)
    ensures
        r@ == score_insert(s@, x),
    decreases s@.len(),
{
    let mut s = s;
    if s.len() == 0 {
        s.push(x);
        proof {
            assert(s@ =~= seq![x]);
        }
        s
    } else {
        if s[s.len() - 1].score_milli >= x.score_milli {
            s.push(x);
            s
        } else {
            let ghost s0 = s@;
            let popped = s.pop().unwrap();
            proof {
                assert(s@ =~= s0.drop_last());
                assert(popped == s0.last());
            }
            let mut r = score_insert_exec(s, x);
            r.push(popped);
            r
        }
    }
}

/// The sorted run keeps exactly the incoming elements, in descending
/// score order.
proof fn lemma_score_insert(s: Seq<SearchResult>, x: SearchResult)
    requires
        forall|k1: int, k2: int|
            0 <= k1 < k2 < s.len() ==> (#[trigger] s[k1]).score_milli >= (
            #[trigger] s[k2]).score_milli,
    ensures
        score_insert(s, x).len() == s.len() + 1,
        forall|k1: int, k2: int|
            0 <= k1 < k2 < score_insert(s, x).len() ==> (#[trigger] score_insert(s, x)[
                k1
            ]).score_milli >= (#[trigger] score_insert(s, x)[k2]).score_milli,
        forall|k: int|
            0 <= k < score_insert(s, x).len() ==> (#[trigger] score_insert(s, x)[k]) == x
                || s.contains(score_insert(s, x)[k]),
    decreases s.len(),
{
    if s.len() > 0 && !(s.last().score_milli >= x.score_milli) {
        assert(forall|k1: int, k2: int|
            0 <= k1 < k2 < s.drop_last().len() ==> (#[trigger] s.drop_last()[k1]).score_milli
                >= (#[trigger] s.drop_last()[k2]).score_milli);
        lemma_score_insert(s.drop_last(), x);
        let inner = score_insert(s.drop_last(), x);
        let whole = score_insert(s, x);
        assert(whole == inner.push(s.last()));
        assert forall|k1: int, k2: int|
            0 <= k1 < k2 < whole.len() implies (#[trigger] whole[k1]).score_milli >= (
        #[trigger] whole[k2]).score_milli by {
            if k2 < inner.len() {
                assert(inner[k1].score_milli >= inner[k2].score_milli);
            } else {
                assert(whole[k2] == s.last());
                if k1 < inner.len() {
                    assert(whole[k1] == inner[k1]);
                    if inner[k1] == x {
                        assert(whole[k1].score_milli >= whole[k2].score_milli);
                    } else {
                        assert(s.contains(inner[k1]));
                        let w = choose|w: int| 0 <= w < s.len() && s[w] == inner[k1];
                        if w < s.len() - 1 {
                            assert(s[w].score_milli >= s.last().score_milli);
                        }
                    }
                }
            }
        }
        assert forall|k: int| 0 <= k < whole.len() implies (#[trigger] whole[k]) == x
            || s.contains(whole[k]) by {
            if k < inner.len() {
                assert(whole[k] == inner[k]);
                if inner[k] != x {
                    assert(s.drop_last().contains(inner[k]));
                    let w = choose|w: int|
                        0 <= w < s.drop_last().len() && s.drop_last()[w] == inner[k];
                    assert(s[w] == inner[k]);
                }
            } else {
                assert(whole[k] == s.last());
                assert(s[s.len() - 1] == s.last());
            }
        }
    } else {
        if s.len() > 0 {
            assert(score_insert(s, x) == s.push(x));
            assert(forall|k: int| 0 <= k < s.len() ==> s[k] == score_insert(s, x)[k]);
        }
    }
}

/// Sorting by descending score: exactly the insertion sort of the input,
/// whose run descends and keeps every incoming element.
fn sort_by_score(v: Vec<SearchResult>) -> (r: Vec<SearchResult>)
    ensures
        r@ == score_sort(v@),
        forall|k1: int, k2: int|
            0 <= k1 < k2 < r@.len() ==> (#[trigger] r@[k1]).score_milli >= (
            #[trigger] r@[k2]).score_milli,
        forall|k: int| 0 <= k < r@.len() ==> v@.contains(#[trigger] r@[k]),
        r@.len() == v@.len(),
{
    let ghost orig = v@;
    let mut rest = v;
    let mut r: Vec<SearchResult> = Vec::new();
    proof {
        assert(orig.skip(0) =~= orig);
    }
    let ghost mut processed: int = 0;
    proof {
        assert(orig.take(0) =~= Seq::<SearchResult>::empty());
    }
    while rest.len() > 0
        invariant
            0 <= processed <= orig.len(),
            rest@ == orig.skip(processed),
            r@.len() == processed,
            r@ == score_sort(orig.take(processed)),
            forall|k1: int, k2: int|
                0 <= k1 < k2 < r@.len() ==> (#[trigger] r@[k1]).score_milli >= (
                #[trigger] r@[k2]).score_milli,
            forall|k: int| 0 <= k < r@.len() ==> orig.contains(#[trigger] r@[k]),
        decreases rest.len(),
    {
        proof {
            assert(rest@[0] == orig[processed]);
        }
        let x = rest.remove(0);
        let ghost r0 = r@;
        proof {
            lemma_score_insert(r0, x);
        }
        r = score_insert_exec(r, x);
        proof {
            assert(rest@ =~= orig.skip(processed + 1));
            assert(orig.contains(x)) by {
                assert(orig[processed] == x);
            }
            assert(orig.take(processed + 1).drop_last() =~= orig.take(processed));
            assert(orig.take(processed + 1).last() == orig[processed]);
            assert(r@ == score_sort(orig.take(processed + 1)));
            assert forall|k: int| 0 <= k < r@.len() implies orig.contains(
                #[trigger] r@[k],
            ) by {
                assert(r@[k] == x || r0.contains(r@[k]));
                if r@[k] != x {
                    let w = choose|w: int| 0 <= w < r0.len() && r0[w] == r@[k];
                    assert(orig.contains(r0[w]));
                }
            }
            processed = processed + 1;
        }
    }
    proof {
        assert(orig.take(orig.len() as int) =~= orig);
    }
    r
}

} // verus!
