//! Fuzzy scoring: the skim character-subsequence scorer (an outside engine,
//! its score given a name here), a verified Levenshtein distance, and the
//! derived similarity measures the ranker uses. All derived scores are
//! integers in thousandths.
use vstd::prelude::*;

use fuzzy_matcher::FuzzyMatcher as SkimFuzzyMatcher;

use crate::text::{chars_of, contains_seq, lower, lower_vec, starts_with_seq, starts_with_vec};

verus! {

// ---------------------------------------------------------------------------
// The skim scorer, behind a name
// ---------------------------------------------------------------------------

/// The score that the skim matcher (default configuration) gives `pattern`
/// against `choice`; `None` when it finds no match.
pub uninterp spec fn skim_score(choice: Seq<char>, pattern: Seq<char>) -> Option<i64>;

/// Relies on `fuzzy_matcher::skim::SkimMatcherV2::fuzzy_match` with the
/// default configuration: the score depends on the two strings alone.
#[verifier::external_body]
fn skim_score_raw(choice: &str, pattern: &str) -> (r: Option<i64>)
    ensures
        r == skim_score(choice@, pattern@),
{
    fuzzy_matcher::skim::SkimMatcherV2::default().fuzzy_match(choice, pattern)
}

/// The fuzzy scorer: skim scores gated by a minimum threshold
/// (in hundredths, as the raw scores are roughly centi-scaled).
pub struct FuzzyMatcher {
    pub threshold: i64,
}

/// `min(1000, 1000 * score / (16 * |pattern|))`, clamped at zero; the
/// normalised thousandths-score of a raw skim score.
pub open spec fn norm_milli(score: i64, pattern_len: nat) -> u64 {
    if score <= 0 {
        0
    } else if pattern_len == 0 {
        1000
    } else if 1000 * score / (16 * pattern_len as int) >= 1000 {
        1000
    } else {
        (1000 * score / (16 * pattern_len as int)) as u64
    }
}

pub proof fn lemma_norm_milli_le(score: i64, pattern_len: nat)
    ensures
        norm_milli(score, pattern_len) <= 1000,
{
    if score > 0 && pattern_len > 0 {
        if 1000 * score / (16 * pattern_len as int) < 1000 {
            assert(1000 * score / (16 * pattern_len as int) >= 0) by (nonlinear_arith)
                requires
                    score > 0,
                    pattern_len > 0,
            ;
        }
    }
}

pub proof fn lemma_similarity_le(a: Seq<char>, b: Seq<char>)
    ensures
        similarity_milli_spec(a, b) <= 1000,
{
    let ml = if a.len() >= b.len() {
        a.len() as int
    } else {
        b.len() as int
    };
    if ml > 0 {
        lemma_lev_bounds(a, b);
        lemma_lev_le_max(a, b);
        assert(0 <= 1000 * lev(a, b) / ml <= 1000) by (nonlinear_arith)
            requires
                0 < ml,
                0 <= lev(a, b) <= ml,
        ;
    }
}

impl FuzzyMatcher {
    /// `threshold` is in hundredths: 70 stands for 0.70.
    pub fn new(threshold: i64) -> (r: FuzzyMatcher)
        ensures
            r.threshold == threshold,
    {
        FuzzyMatcher { threshold }
    }

    pub fn fuzzy_match(&self, choice: &str, pattern: &str) -> (r: Option<i64>)
        ensures
            r == skim_score(choice@, pattern@),
    {
        skim_score_raw(choice, pattern)
    }

    /// The skim score, kept only when it reaches the threshold.
    pub fn fuzzy_match_with_threshold(&self, choice: &str, pattern: &str) -> (r: Option<i64>)
        ensures
            r == (match skim_score(choice@, pattern@) {
                Some(s) => if s >= self.threshold {
                    Some(s)
                } else {
                    None
                },
                None => None,
            }),
    {
        match skim_score_raw(choice, pattern) {
            Some(s) => if s >= self.threshold {
                Some(s)
            } else {
                None
            },
            None => None,
        }
    }

    /// The skim score normalised to thousandths of `16 * |pattern|`,
    /// capped at 1000; zero when skim finds no match.
    pub fn score_milli(&self, choice: &str, pattern: &str) -> (r: u64)
        ensures
            r == (match skim_score(choice@, pattern@) {
                Some(s) => norm_milli(s, pattern@.len()),
                None => 0u64,
            }),
    {
        let pv = chars_of(pattern);
        match skim_score_raw(choice, pattern) {
            Some(s) => {
                if s <= 0 {
                    0
                } else if pv.len() == 0 {
                    1000
                } else {
                    let q: i128 = 1000i128 * (s as i128) / (16i128 * (pv.len() as i128));
                    proof {
                        assert(1000 * (s as int) / (16 * pv@.len() as int) >= 0)
                            by (nonlinear_arith)
                            requires
                                s > 0,
                                pv@.len() > 0,
                        ;
                    }
                    if q >= 1000 {
                        1000
                    } else {
                        q as u64
                    }
                }
            },
            None => 0,
        }
    }
}

impl Default for FuzzyMatcher {
    /// The default gate of 0.50, in hundredths.
    fn default() -> (r: FuzzyMatcher)
        ensures
            r.threshold == 50,
    {
        FuzzyMatcher { threshold: 50 }
    }
}

// ---------------------------------------------------------------------------
// Levenshtein distance (verified)
// ---------------------------------------------------------------------------

pub open spec fn min3(a: int, b: int, c: int) -> int {
    if a <= b && a <= c {
        a
    } else if b <= c {
        b
    } else {
        c
    }
}

/// Edit distance between two character sequences: unit-cost insertions,
/// deletions and substitutions.
pub open spec fn lev(a: Seq<char>, b: Seq<char>) -> int
    decreases a.len(), b.len(),
{
    if a.len() == 0 {
        b.len() as int
    } else if b.len() == 0 {
        a.len() as int
    } else {
        let c: int = if a.last() == b.last() {
            0
        } else {
            1
        };
        min3(lev(a.drop_last(), b) + 1, lev(a, b.drop_last()) + 1, lev(
            a.drop_last(),
            b.drop_last(),
        ) + c)
    }
}

pub proof fn lemma_lev_bounds(a: Seq<char>, b: Seq<char>)
    ensures
        0 <= lev(a, b) <= a.len() + b.len(),
    decreases a.len(), b.len(),
{
    if a.len() > 0 && b.len() > 0 {
        lemma_lev_bounds(a.drop_last(), b);
        lemma_lev_bounds(a, b.drop_last());
        lemma_lev_bounds(a.drop_last(), b.drop_last());
    }
}

pub fn levenshtein_distance(s1: &str, s2: &str) -> (r: usize)
    ensures
        r == lev(s1@, s2@),
{
    let a = chars_of(s1);
    let b = chars_of(s2);
    let n1 = a.len();
    let n2 = b.len();
    if n1 == 0 {
        return n2;
    }
    if n2 == 0 {
        return n1;
    }
    let mut prev: Vec<u128> = Vec::new();
    let mut j: usize = 0;
    while j < n2
        invariant
            j <= n2,
            n2 == b@.len(),
            prev@.len() == j,
            forall|k: int| 0 <= k < j ==> prev@[k] == lev(a@.take(0), b@.take(k)),
        decreases n2 - j,
    {
        proof {
            assert(a@.take(0) =~= Seq::<char>::empty());
            assert(b@.take(j as int).len() == j);
        }
        prev.push(j as u128);
        j = j + 1;
    }
    proof {
        assert(a@.take(0) =~= Seq::<char>::empty());
        assert(b@.take(n2 as int).len() == n2);
    }
    prev.push(n2 as u128);
    let mut i: usize = 0;
    while i < n1
        invariant
            i <= n1,
            n1 == a@.len(),
            n2 == b@.len(),
            n1 > 0,
            n2 > 0,
            prev@.len() == n2 + 1,
            forall|k: int| 0 <= k <= n2 ==> prev@[k] == lev(a@.take(i as int), b@.take(k)),
        decreases n1 - i,
    {
        let mut cur: Vec<u128> = Vec::new();
        proof {
            assert(b@.take(0) =~= Seq::<char>::empty());
            assert(a@.take(i + 1).len() == i + 1);
        }
        cur.push((i + 1) as u128);
        let mut j2: usize = 0;
        while j2 < n2
            invariant
                j2 <= n2,
                i < n1,
                n1 == a@.len(),
                n2 == b@.len(),
                prev@.len() == n2 + 1,
                forall|k: int| 0 <= k <= n2 ==> prev@[k] == lev(a@.take(i as int), b@.take(k)),
                cur@.len() == j2 + 1,
                forall|k: int| 0 <= k <= j2 ==> cur@[k] == lev(a@.take(i + 1), b@.take(k)),
            decreases n2 - j2,
        {
            let cost: u128 = if a[i] == b[j2] {
                0
            } else {
                1
            };
            proof {
                lemma_lev_bounds(a@.take(i as int), b@.take(j2 + 1));
                lemma_lev_bounds(a@.take(i + 1), b@.take(j2 as int));
                lemma_lev_bounds(a@.take(i as int), b@.take(j2 as int));
                assert(a@.take(i + 1).drop_last() =~= a@.take(i as int));
                assert(b@.take(j2 + 1).drop_last() =~= b@.take(j2 as int));
                assert(a@.take(i + 1).last() == a@[i as int]);
                assert(b@.take(j2 + 1).last() == b@[j2 as int]);
            }
            let del: u128 = prev[j2 + 1] + 1;
            let ins: u128 = cur[j2] + 1;
            let sub: u128 = prev[j2] + cost;
            let m: u128 = if del <= ins && del <= sub {
                del
            } else if ins <= sub {
                ins
            } else {
                sub
            };
            cur.push(m);
            j2 = j2 + 1;
        }
        prev = cur;
        i = i + 1;
    }
    proof {
        assert(a@.take(n1 as int) =~= a@);
        assert(b@.take(n2 as int) =~= b@);
        lemma_lev_le_max(a@, b@);
    }
    (prev[n2] as usize)
}

// ---------------------------------------------------------------------------
// Derived similarity measures
// ---------------------------------------------------------------------------

/// Similarity in thousandths: `1000 - 1000 * distance / max_len`, or 1000
/// when both are empty.
pub open spec fn similarity_milli_spec(a: Seq<char>, b: Seq<char>) -> u64 {
    let ml = if a.len() >= b.len() {
        a.len() as int
    } else {
        b.len() as int
    };
    if ml == 0 {
        1000
    } else {
        (1000 - 1000 * lev(a, b) / ml) as u64
    }
}

pub fn similarity_milli(s1: &str, s2: &str) -> (r: u64)
    ensures
        r == similarity_milli_spec(s1@, s2@),
{
    let d = levenshtein_distance(s1, s2);
    let l1 = chars_of(s1).len();
    let l2 = chars_of(s2).len();
    let ml: usize = if l1 >= l2 {
        l1
    } else {
        l2
    };
    if ml == 0 {
        1000
    } else {
        proof {
            lemma_lev_bounds(s1@, s2@);
            lemma_lev_le_max(s1@, s2@);
            assert(1000 * (d as int) / (ml as int) <= 1000) by (nonlinear_arith)
                requires
                    0 < ml,
                    0 <= d <= ml,
            ;
            assert(1000 * (d as int) / (ml as int) >= 0) by (nonlinear_arith)
                requires
                    0 < ml,
                    0 <= d,
            ;
        }
        let scaled: u64 = ((1000u128 * (d as u128) / (ml as u128)) as u64);
        1000 - scaled
    }
}

/// The distance never exceeds the longer length.
pub proof fn lemma_lev_le_max(a: Seq<char>, b: Seq<char>)
    ensures
        lev(a, b) <= (if a.len() >= b.len() {
            a.len() as int
        } else {
            b.len() as int
        }),
    decreases a.len(), b.len(),
{
    if a.len() > 0 && b.len() > 0 {
        lemma_lev_le_max(a.drop_last(), b);
        lemma_lev_le_max(a, b.drop_last());
        lemma_lev_le_max(a.drop_last(), b.drop_last());
    }
}

/// Prefix/containment score in thousandths: 1000 for a (case-folded)
/// prefix, 500 for containment anywhere, else 0.
pub open spec fn starts_with_milli_spec(text: Seq<char>, pattern: Seq<char>) -> u64 {
    if starts_with_seq(lower(text), lower(pattern)) {
        1000
    } else if contains_seq(lower(text), lower(pattern)) {
        500
    } else {
        0
    }
}

pub fn starts_with_milli(text: &str, pattern: &str) -> (r: u64)
    ensures
        r == starts_with_milli_spec(text@, pattern@),
{
    let tl = lower_vec(&chars_of(text));
    let pl = lower_vec(&chars_of(pattern));
    if starts_with_vec(&tl, &pl) {
        1000
    } else if crate::text::contains_vec(&tl, &pl) {
        500
    } else {
        0
    }
}

} // verus!
