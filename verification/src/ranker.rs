//! Ranking: a multi-factor score over name match quality, path depth and
//! recency, and a stable ordering of results by that score. Scores are in
//! thousandths; the weights are 0.5 name, 0.2 depth, 0.3 recency.
use vstd::prelude::*;

use crate::fuzzy::{norm_milli, similarity_milli, similarity_milli_spec, skim_score, FuzzyMatcher};
use crate::path_utils::path_depth_spec;
use crate::text::{chars_of, contains_seq, eq_vec, lex_le, lex_le_vec, lower, lower_vec,
    starts_with_seq};
use crate::types::{FileEntry, SearchResult};

verus! {

/// How well a name matches a query, in thousandths: 1000 for equality up
/// to case, 900 for a prefix, 450 for containment, else seven tenths of
/// the normalised fuzzy score if it is positive, else half the
/// Levenshtein similarity.
pub open spec fn name_match_milli_spec(name: Seq<char>, query: Seq<char>) -> u64 {
    if lower(name) == lower(query) {
        1000
    } else if starts_with_seq(lower(name), lower(query)) {
        900
    } else if contains_seq(lower(name), lower(query)) {
        450
    } else {
        let fz = match skim_score(name, query) {
            Some(s) => norm_milli(s, query.len()),
            None => 0u64,
        };
        if fz > 0 {
            (7 * fz / 10) as u64
        } else {
            (similarity_milli_spec(name, query) / 2) as u64
        }
    }
}

/// The deeper a path, the smaller this factor: from 1000 at the root down
/// to 500 at twenty components and beyond.
pub open spec fn depth_factor_milli_spec(path: Seq<char>) -> u64 {
    let d = path_depth_spec(path);
    let n = if d * 50 > 1000 {
        1000int
    } else {
        d * 50
    };
    (1000 - n / 2) as u64
}

/// Recency of the modification time against `now`: fresher files score
/// higher, files without a known time sit in the middle.
pub open spec fn recency_milli_spec(modified: Option<i64>, now: i64) -> u64 {
    match modified {
        Some(m) => {
            let age = now - m;
            if age < 86400 {
                1000
            } else if age < 7 * 86400 {
                900
            } else if age < 30 * 86400 {
                700
            } else if age < 90 * 86400 {
                500
            } else if age < 365 * 86400 {
                300
            } else {
                100
            }
        },
        None => 500,
    }
}

/// The combined score: half the name match, a fifth the depth factor,
/// three tenths the recency.
pub open spec fn score_milli_spec(
    name: Seq<char>,
    path: Seq<char>,
    modified: Option<i64>,
    query: Seq<char>,
    now: i64,
) -> u64 {
    ((500 * name_match_milli_spec(name, query) + 200 * depth_factor_milli_spec(path) + 300
        * recency_milli_spec(modified, now)) / 1000) as u64
}

/// Every name-match score stays within the scale.
pub proof fn lemma_name_match_le(name: Seq<char>, query: Seq<char>)
    ensures
        name_match_milli_spec(name, query) <= 1000,
{
    match skim_score(name, query) {
        Some(s) => {
            crate::fuzzy::lemma_norm_milli_le(s, query.len());
        },
        None => {
        },
    }
    crate::fuzzy::lemma_similarity_le(name, query);
}

/// Every combined score stays within the scale.
pub proof fn lemma_score_le(
    name: Seq<char>,
    path: Seq<char>,
    modified: Option<i64>,
    query: Seq<char>,
    now: i64,
)
    ensures
        score_milli_spec(name, path, modified, query, now) <= 1000,
{
    lemma_name_match_le(name, query);
}

/// Scores candidates and orders them; the fuzzy scorer inside carries the
/// engine's threshold.
pub struct ResultRanker {
    pub fuzzy: FuzzyMatcher,
}

impl ResultRanker {
    /// `fuzzy_threshold` in hundredths (70 stands for 0.70).
    pub fn new(fuzzy_threshold: i64) -> (r: ResultRanker)
        ensures
            r.fuzzy.threshold == fuzzy_threshold,
    {
        ResultRanker { fuzzy: FuzzyMatcher::new(fuzzy_threshold) }
    }

    pub fn name_match_milli(&self, name: &str, query: &str) -> (r: u64)
        ensures
            r == name_match_milli_spec(name@, query@),
    {
        let nl = lower_vec(&chars_of(name));
        let ql = lower_vec(&chars_of(query));
        if eq_vec(&nl, &ql) {
            return 1000;
        }
        if crate::text::starts_with_vec(&nl, &ql) {
            return 900;
        }
        if crate::text::contains_vec(&nl, &ql) {
            return 450;
        }
        let fz = self.fuzzy.score_milli(name, query);
        proof {
            match skim_score(name@, query@) {
                Some(s) => {
                    crate::fuzzy::lemma_norm_milli_le(s, query@.len());
                },
                None => {
                },
            }
        }
        if fz > 0 {
            7 * fz / 10
        } else {
            similarity_milli(name, query) / 2
        }
    }

    pub fn depth_factor_milli(&self, path: &str) -> (r: u64)
        ensures
            r == depth_factor_milli_spec(path@),
    {
        let d = crate::path_utils::get_path_depth(path);
        let scaled: u64 = if d > 20 {
            1000
        } else {
            (d as u64) * 50
        };
        1000 - scaled / 2
    }

    pub fn recency_milli(&self, modified: &Option<i64>, now: i64) -> (r: u64)
        ensures
            r == recency_milli_spec(*modified, now),
    {
        match modified {
            Some(m) => {
                let age: i128 = (now as i128) - (*m as i128);
                if age < 86400 {
                    1000
                } else if age < 7 * 86400 {
                    900
                } else if age < 30 * 86400 {
                    700
                } else if age < 90 * 86400 {
                    500
                } else if age < 365 * 86400 {
                    300
                } else {
                    100
                }
            },
            None => 500,
        }
    }

    /// The score of one entry against a query, at instant `now`.
    pub fn calculate_score_milli(&self, file: &FileEntry, query: &str, now: i64) -> (r: u64)
        ensures
            r == score_milli_spec(file.name@, file.path@, file.modified_at, query@, now),
    {
        let nm = self.name_match_milli(file.name.as_str(), query);
        let df = self.depth_factor_milli(file.path.as_str());
        let rc = self.recency_milli(&file.modified_at, now);
        proof {
            lemma_name_match_le(file.name@, query@);
            assert(500 * nm + 200 * df + 300 * rc <= 1_000_000);
        }
        (500 * nm + 200 * df + 300 * rc) / 1000
    }
}

/// Ranker monotonicity: against one query, on files that differ only in
/// name, a name equal to the query up to ASCII case scores at least as
/// high as a name that merely starts with it, and that in turn at least
/// as high as a name that merely contains it somewhere later.
pub proof fn lemma_ranker_monotonicity(
    exact_name: Seq<char>,
    prefix_name: Seq<char>,
    substring_name: Seq<char>,
    query: Seq<char>,
    path: Seq<char>,
    modified: Option<i64>,
    now: i64,
)
    requires
        lower(exact_name) == lower(query),
        starts_with_seq(lower(prefix_name), lower(query)),
        contains_seq(lower(substring_name), lower(query)),
        !starts_with_seq(lower(substring_name), lower(query)),
    ensures
        score_milli_spec(exact_name, path, modified, query, now) >= score_milli_spec(
            prefix_name,
            path,
            modified,
            query,
            now,
        ),
        score_milli_spec(prefix_name, path, modified, query, now) >= score_milli_spec(
            substring_name,
            path,
            modified,
            query,
            now,
        ),
{
    assert(name_match_milli_spec(exact_name, query) == 1000);
    assert(name_match_milli_spec(prefix_name, query) == 1000 || name_match_milli_spec(
        prefix_name,
        query,
    ) == 900);
    assert(lower(substring_name) != lower(query));
    assert(name_match_milli_spec(substring_name, query) == 450);
    let df = depth_factor_milli_spec(path);
    let rc = recency_milli_spec(modified, now);
    let e = 500 * name_match_milli_spec(exact_name, query) + 200 * df + 300 * rc;
    let p = 500 * name_match_milli_spec(prefix_name, query) + 200 * df + 300 * rc;
    let s = 500 * name_match_milli_spec(substring_name, query) + 200 * df + 300 * rc;
    assert(e / 1000 >= p / 1000) by (nonlinear_arith)
        requires
            e >= p >= 0,
    ;
    assert(p / 1000 >= s / 1000) by (nonlinear_arith)
        requires
            p >= s >= 0,
    ;
}

/// `a` ranks at or before `b`: a higher score, or an equal score and a
/// name at or before in lexicographic order.
pub open spec fn rank_le(a: SearchResult, b: SearchResult) -> bool {
    a.score_milli > b.score_milli || (a.score_milli == b.score_milli && lex_le(
        a.file.name@,
        b.file.name@,
    ))
}

/// `x` inserted into the (rank-sorted) sequence.
pub open spec fn rank_insert(s: Seq<SearchResult>, x: SearchResult) -> Seq<SearchResult>
    decreases s.len(),
{
    if s.len() == 0 {
        seq![x]
    } else if rank_le(s.last(), x) {
        s.push(x)
    } else {
        rank_insert(s.drop_last(), x).push(s.last())
    }
}

/// Insertion sort by rank order.
pub open spec fn rank_sort(s: Seq<SearchResult>) -> Seq<SearchResult>
    decreases s.len(),
{
    if s.len() == 0 {
        Seq::empty()
    } else {
        rank_insert(rank_sort(s.drop_last()), s.last())
    }
}

fn rank_le_exec(a: &SearchResult, b: &SearchResult) -> (r: bool)
    ensures
        r == rank_le(*a, *b),
{
    if a.score_milli > b.score_milli {
        true
    } else if a.score_milli == b.score_milli {
        let an = chars_of(a.file.name.as_str());
        let bn = chars_of(b.file.name.as_str());
        lex_le_vec(&an, &bn)
    } else {
        false
    }
}

fn rank_insert_exec(s: Vec<SearchResult>, x: SearchResult) -> (r: Vec<SearchResult>)
    ensures
        r@ == rank_insert(s@, x),
    decreases s@.len(),
{
    let mut s = s;
    if s.len() == 0 {
        s.push(x);
        proof {
            assert(s@ =~= seq![x]);
        }
        s
    } else {
        let le = rank_le_exec(&s[s.len() - 1], &x);
        if le {
            s.push(x);
            s
        } else {
            let ghost s0 = s@;
            let popped = s.pop().unwrap();
            proof {
                assert(s@ =~= s0.drop_last());
                assert(popped == s0.last());
            }
            let mut r = rank_insert_exec(s, x);
            r.push(popped);
            r
        }
    }
}

impl ResultRanker {
    /// Candidates re-scored against `query` at `now`, then ordered by
    /// descending score, ties broken by ascending name.
    pub fn rank(&self, results: Vec<SearchResult>, query: &str, now: i64) -> (r: Vec<
        SearchResult,
    >)
        ensures
            r@ == rank_sort(
                results@.map_values(
                    |x: SearchResult| (SearchResult {
                        score_milli: score_milli_spec(
                            x.file.name@,
                            x.file.path@,
                            x.file.modified_at,
                            query@,
                            now,
                        ),
                        ..x
                    }),
                ),
            ),
    {
        let ghost orig = results@;
        let ghost scored_spec = results@.map_values(
            |x: SearchResult| (SearchResult {
                score_milli: score_milli_spec(
                    x.file.name@,
                    x.file.path@,
                    x.file.modified_at,
                    query@,
                    now,
                ),
                ..x
            }),
        );
        let mut rest = results;
        let mut scored: Vec<SearchResult> = Vec::new();
        proof {
            assert(scored_spec.take(0) =~= Seq::<SearchResult>::empty());
            assert(orig.skip(0) =~= orig);
        }
        let ghost mut k: int = 0;
        while rest.len() > 0
            invariant
                0 <= k <= orig.len(),
                rest@ == orig.skip(k),
                scored_spec == orig.map_values(
                    |x: SearchResult| (SearchResult {
                        score_milli: score_milli_spec(
                            x.file.name@,
                            x.file.path@,
                            x.file.modified_at,
                            query@,
                            now,
                        ),
                        ..x
                    }),
                ),
                scored@ == scored_spec.take(k),
            decreases rest.len(),
    {
            proof {
                assert(rest@[0] == orig[k]);
                assert(scored_spec.take(k + 1) =~= scored_spec.take(k).push(scored_spec[k]));
            }
            let x = rest.remove(0);
            let score = self.calculate_score_milli(&x.file, query, now);
            let rebuilt = SearchResult { score_milli: score, ..x };
            scored.push(rebuilt);
            proof {
                assert(rest@ =~= orig.skip(k + 1));
                k = k + 1;
            }
        }
        proof {
            assert(scored_spec.take(orig.len() as int) =~= scored_spec);
        }
        rank_sort_exec(scored)
    }
}

fn rank_sort_exec(v: Vec<SearchResult>) -> (r: Vec<SearchResult>)
    ensures
        r@ == rank_sort(v@),
{
    let ghost orig = v@;
    let mut rest = v;
    let mut r: Vec<SearchResult> = Vec::new();
    proof {
        assert(orig.take(0) =~= Seq::<SearchResult>::empty());
        assert(orig.skip(0) =~= orig);
    }
    let ghost mut k: int = 0;
    while rest.len() > 0
        invariant
            0 <= k <= orig.len(),
            rest@ == orig.skip(k),
            r@ == rank_sort(orig.take(k)),
        decreases rest.len(),
    {
        proof {
            assert(rest@[0] == orig[k]);
            assert(orig.take(k + 1).drop_last() =~= orig.take(k));
            assert(orig.take(k + 1).last() == orig[k]);
        }
        let x = rest.remove(0);
        r = rank_insert_exec(r, x);
        proof {
            assert(rest@ =~= orig.skip(k + 1));
            k = k + 1;
        }
    }
    proof {
        assert(orig.take(orig.len() as int) =~= orig);
    }
    r
}

/// A score raised by a fifth, saturating.
pub open spec fn boost_scaled(s: u64) -> u64 {
    if (s as int) * 12 / 10 <= u64::MAX {
        ((s as int) * 12 / 10) as u64
    } else {
        u64::MAX
    }
}

/// Does the record's extension match one of the preferred ones, up to
/// ASCII case?
pub open spec fn ext_is_preferred(x: SearchResult, prefs: Seq<Seq<char>>) -> bool {
    match x.file.extension {
        Some(e) => exists|i: int| 0 <= i < prefs.len() && lower(e@) == lower(#[trigger] prefs[i]),
        None => false,
    }
}

/// One result after the preferred-extension boost.
pub open spec fn ext_boosted(x: SearchResult, prefs: Seq<Seq<char>>) -> SearchResult {
    if ext_is_preferred(x, prefs) {
        SearchResult { score_milli: boost_scaled(x.score_milli), ..x }
    } else {
        x
    }
}

/// The largest file size among the results.
pub open spec fn max_size_of(s: Seq<SearchResult>) -> u64
    decreases s.len(),
{
    if s.len() == 0 {
        0
    } else {
        let m = max_size_of(s.drop_last());
        if s.last().file.size > m {
            s.last().file.size
        } else {
            m
        }
    }
}

/// One result after the size boost: the score times one plus a tenth of
/// the size score, where the size score runs from nothing to the whole
/// toward the preferred end of the size range.
pub open spec fn size_boosted(x: SearchResult, max: u64, prefer_smaller: bool) -> SearchResult {
    let ratio: int = if max == 0 {
        0
    } else if 1000 * x.file.size / (max as int) > 1000 {
        1000
    } else {
        1000 * x.file.size / (max as int)
    };
    let sscore: int = if prefer_smaller {
        1000 - ratio
    } else {
        ratio
    };
    let scaled: int = (x.score_milli as int) * (1000 + sscore / 10) / 1000;
    SearchResult {
        score_milli: (if scaled <= u64::MAX {
            scaled as u64
        } else {
            u64::MAX
        }),
        ..x
    }
}

fn boost_scaled_exec(s: u64) -> (r: u64)
    ensures
        r == boost_scaled(s),
{
    let wide: u128 = (s as u128) * 12 / 10;
    if wide > u64::MAX as u128 {
        u64::MAX
    } else {
        wide as u64
    }
}

impl ResultRanker {
    /// Raises every result whose extension is among the preferred ones
    /// by a fifth, then restores the rank order.
    pub fn boost_by_extension(&self, results: Vec<SearchResult>, preferred: &Vec<String>) -> (r:
        Vec<SearchResult>)
        ensures
            r@ == rank_sort(
                results@.map_values(
                    |x: SearchResult| ext_boosted(x, preferred@.map_values(|s: String| s@)),
                ),
            ),
    {
        let ghost prefs = preferred@.map_values(|s: String| s@);
        let ghost bmap = |x: SearchResult| ext_boosted(x, prefs);
        let ghost orig = results@;
        let mut rest = results;
        let mut boosted: Vec<SearchResult> = Vec::new();
        let ghost mut k: int = 0;
        proof {
            assert(orig.skip(0) =~= orig);
        }
        while rest.len() > 0
            invariant
                0 <= k <= orig.len(),
                rest@ == orig.skip(k),
                prefs == preferred@.map_values(|s: String| s@),
                boosted@.len() == k,
                forall|t: int| 0 <= t < k ==> #[trigger] boosted@[t] == ext_boosted(orig[t], prefs),
            decreases rest.len(),
        {
            proof {
                assert(rest@[0] == orig[k]);
            }
            let x = rest.remove(0);
            let hit = match &x.file.extension {
                Some(e) => Self::ext_in_prefs(e.as_str(), preferred),
                None => false,
            };
            proof {
                assert(forall|i: int|
                    0 <= i < preferred@.len() ==> (#[trigger] preferred@[i])@ == prefs[i]);
                assert(hit == ext_is_preferred(orig[k], prefs));
            }
            if hit {
                let ns = boost_scaled_exec(x.score_milli);
                boosted.push(SearchResult { score_milli: ns, ..x });
            } else {
                boosted.push(x);
            }
            proof {
                assert(rest@ =~= orig.skip(k + 1));
                assert(boosted@.last() == ext_boosted(orig[k], prefs));
                k = k + 1;
            }
        }
        proof {
            assert(boosted@ =~= orig.map_values(bmap));
        }
        rank_sort_exec(boosted)
    }

    /// Is the extension, case folded, among the preferred ones?
    fn ext_in_prefs(e: &str, preferred: &Vec<String>) -> (r: bool)
        ensures
            r == exists|i: int|
                0 <= i < preferred@.len() && lower(e@) == lower((#[trigger] preferred@[i])@),
    {
        let el = lower_vec(&chars_of(e));
        let mut j: usize = 0;
        while j < preferred.len()
            invariant
                j <= preferred@.len(),
                el@ == lower(e@),
                forall|i: int| 0 <= i < j ==> lower(e@) != lower((#[trigger] preferred@[i])@),
            decreases preferred.len() - j,
        {
            let pl = lower_vec(&chars_of(preferred[j].as_str()));
            if eq_vec(&el, &pl) {
                return true;
            }
            j = j + 1;
        }
        false
    }

    /// Scales every score by how far the file sits toward the preferred
    /// end of the size range, up to a tenth more, then restores the rank
    /// order; an empty run stays empty.
    #[verifier::rlimit(100)]
    pub fn boost_by_size(&self, results: Vec<SearchResult>, prefer_smaller: bool) -> (r: Vec<
        SearchResult,
    >)
        ensures
            r@ == (if results@.len() == 0 {
                results@
            } else {
                rank_sort(
                    results@.map_values(
                        |x: SearchResult| size_boosted(x, max_size_of(results@), prefer_smaller),
                    ),
                )
            }),
    {
        if results.len() == 0 {
            return results;
        }
        let mut max: u64 = 0;
        let mut i: usize = 0;
        proof {
            assert(results@.take(0) =~= Seq::<SearchResult>::empty());
        }
        while i < results.len()
            invariant
                i <= results@.len(),
                max == max_size_of(results@.take(i as int)),
            decreases results.len() - i,
        {
            proof {
                assert(results@.take(i + 1).drop_last() =~= results@.take(i as int));
                assert(results@.take(i + 1).last() == results@[i as int]);
            }
            if results[i].file.size > max {
                max = results[i].file.size;
            }
            i = i + 1;
        }
        proof {
            assert(results@.take(results@.len() as int) =~= results@);
        }
        let ghost m = max_size_of(results@);
        let ghost bmap = |x: SearchResult| size_boosted(x, m, prefer_smaller);
        let ghost orig = results@;
        let mut rest = results;
        let mut boosted: Vec<SearchResult> = Vec::new();
        let ghost mut k: int = 0;
        proof {
            assert(orig.skip(0) =~= orig);
        }
        while rest.len() > 0
            invariant
                0 <= k <= orig.len(),
                rest@ == orig.skip(k),
                max == m,
                boosted@.len() == k,
                forall|t: int|
                    0 <= t < k ==> #[trigger] boosted@[t] == size_boosted(
                        orig[t],
                        m,
                        prefer_smaller,
                    ),
            decreases rest.len(),
        {
            proof {
                assert(rest@[0] == orig[k]);
            }
            let x = rest.remove(0);
            let ratio: u64 = if max == 0 {
                0
            } else {
                let wide: u128 = (x.file.size as u128) * 1000 / (max as u128);
                if wide > 1000 {
                    1000
                } else {
                    wide as u64
                }
            };
            proof {
                if m != 0 {
                    assert((x.file.size as int) * 1000 == 1000 * (x.file.size as int))
                        by (nonlinear_arith);
                }
            }
            let sscore: u64 = if prefer_smaller {
                1000 - ratio
            } else {
                ratio
            };
            proof {
                assert(sscore <= 1000);
                assert((x.score_milli as int) * (1000 + (sscore as int) / 10) <= (
                u64::MAX as int) * 1100) by (nonlinear_arith)
                    requires
                        x.score_milli <= u64::MAX,
                        0 <= sscore <= 1000,
                ;
            }
            let wide: u128 = (x.score_milli as u128) * ((1000 + sscore / 10) as u128) / 1000;
            let new_score: u64 = if wide > u64::MAX as u128 {
                u64::MAX
            } else {
                wide as u64
            };
            proof {
                assert(new_score == size_boosted(orig[k], m, prefer_smaller).score_milli);
            }
            boosted.push(SearchResult { score_milli: new_score, ..x });
            proof {
                assert(rest@ =~= orig.skip(k + 1));
                assert(boosted@.last() == size_boosted(orig[k], m, prefer_smaller));
                k = k + 1;
            }
        }
        proof {
            assert(boosted@ =~= orig.map_values(bmap));
        }
        rank_sort_exec(boosted)
    }
}

} // verus!
