//! Pattern matchers: plain substring (case-sensitive or not), regular
//! expression, shell glob, and boolean combinations of them. The regex and
//! glob engines are outside crates; their verdicts are given names here and
//! everything around those names is verified.
use vstd::prelude::*;

use crate::error::SearchError;
use crate::text::{chars_of, contains_seq, contains_vec, find_all, lower, lower_vec, matches_at};
use crate::types::MatchMode;

verus! {

// ---------------------------------------------------------------------------
// The regex engine, behind names
// ---------------------------------------------------------------------------

/// Whether `regex::Regex::new` accepts the pattern.
pub uninterp spec fn regex_ok(pattern: Seq<char>) -> bool;

/// Whether the compiled pattern matches anywhere in the text.
pub uninterp spec fn regex_matches(pattern: Seq<char>, text: Seq<char>) -> bool;

/// The `(start, end)` byte spans that the regex engine reports for the
/// successive non-overlapping matches, in order.
pub uninterp spec fn regex_spans(pattern: Seq<char>, text: Seq<char>) -> Seq<(usize, usize)>;

/// Relies on `regex::Regex::new`: compilation of a pattern fails or succeeds
/// deterministically, independent of anything but the pattern.
#[verifier::external_body]
pub(crate) fn regex_compile_check(pattern: &str) -> (r: bool)
    ensures
        r == regex_ok(pattern@),
{
    regex::Regex::new(pattern).is_ok()
}

/// Relies on `regex::Regex::new` and `regex::Regex::is_match`: whether the
/// pattern matches anywhere in the haystack.
#[verifier::external_body]
pub(crate) fn regex_match_raw(pattern: &str, text: &str) -> (r: Option<bool>)
    ensures
        (r is Some) == regex_ok(pattern@),
        r is Some ==> r->Some_0 == regex_matches(pattern@, text@),
{
    match regex::Regex::new(pattern) {
        Ok(re) => Some(re.is_match(text)),
        Err(_) => None,
    }
}

/// Relies on `regex::Regex::find_iter`: the successive non-overlapping
/// matches; each span's offsets lie within the haystack, start before end.
#[verifier::external_body]
fn regex_spans_raw(pattern: &str, text: &str) -> (r: Option<Vec<(usize, usize)>>)
    ensures
        (r is Some) == regex_ok(pattern@),
        r is Some ==> {
            &&& r->Some_0@ == regex_spans(pattern@, text@)
            &&& forall|k: int|
                0 <= k < r->Some_0@.len() ==> (#[trigger] r->Some_0@[k]).0 <= r->Some_0@[k].1
        },
{
    match regex::Regex::new(pattern) {
        Ok(re) => Some(re.find_iter(text).map(|m| (m.start(), m.end())).collect()),
        Err(_) => None,
    }
}

// ---------------------------------------------------------------------------
// The glob engine, behind names
// ---------------------------------------------------------------------------

/// Whether `globset::Glob::new` accepts the pattern.
pub uninterp spec fn glob_ok(pattern: Seq<char>) -> bool;

/// Whether the glob pattern matches the whole path. The engine folds
/// backslashes into separators only on Windows builds, so on texts that
/// hold backslashes this verdict is fixed per build target, not across
/// operating systems; paths of the running machine are matched alike.
pub uninterp spec fn glob_matches(pattern: Seq<char>, text: Seq<char>) -> bool;

/// Relies on `globset::Glob::new`: compilation fails or succeeds
/// deterministically per pattern.
#[verifier::external_body]
pub(crate) fn glob_compile_check(pattern: &str) -> (r: bool)
    ensures
        r == glob_ok(pattern@),
{
    globset::Glob::new(pattern).is_ok()
}

/// Relies on `globset::Glob::new`, `Glob::compile_matcher` and
/// `GlobMatcher::is_match`: whether the glob matches the whole path.
#[verifier::external_body]
pub(crate) fn glob_match_raw(pattern: &str, text: &str) -> (r: Option<bool>)
    ensures
        (r is Some) == glob_ok(pattern@),
        r is Some ==> r->Some_0 == glob_matches(pattern@, text@),
{
    match globset::Glob::new(pattern) {
        Ok(g) => Some(g.compile_matcher().is_match(text)),
        Err(_) => None,
    }
}

// ---------------------------------------------------------------------------
// The matcher trait
// ---------------------------------------------------------------------------

/// A predicate over texts together with the spans it can point at.
pub trait Matcher: Sized {
    /// What this matcher accepts.
    spec fn match_spec(&self, text: Seq<char>) -> bool;

    /// The spans this matcher reports on a text.
    spec fn spans_spec(&self, text: Seq<char>) -> Seq<(usize, usize)>;

    fn is_match(&self, text: &str) -> (r: bool)
        ensures
            r == self.match_spec(text@),
    ;

    fn find_matches(&self, text: &str) -> (r: Vec<(usize, usize)>)
        ensures
            r@ == self.spans_spec(text@),
    ;
}

// ---------------------------------------------------------------------------
// Substring matcher
// ---------------------------------------------------------------------------

/// Substring containment, optionally ASCII-case-insensitive. Spans are
/// character offsets; an empty pattern matches everywhere and reports no
/// spans.
pub struct ExactMatcher {
    pub pattern: String,
    pub case_sensitive: bool,
}

/// All (position, length) pairs where `needle` occurs in `hay`.
pub open spec fn occurrence_spans(hay: Seq<char>, needle: Seq<char>) -> Seq<(usize, usize)> {
    Seq::new(
        occurrence_count(hay, needle, hay.len() as int),
        |k: int| (occurrence_at(hay, needle, k), needle.len() as usize),
    )
}

/// How many positions below `end` carry an occurrence.
pub open spec fn occurrence_count(hay: Seq<char>, needle: Seq<char>, end: int) -> nat
    decreases end,
{
    if end <= 0 {
        0
    } else {
        occurrence_count(hay, needle, end - 1) + (if matches_at(hay, needle, end - 1) {
            1nat
        } else {
            0nat
        })
    }
}

/// The position of the `k`-th occurrence (0-based, in increasing order).
pub open spec fn occurrence_at(hay: Seq<char>, needle: Seq<char>, k: int) -> usize {
    choose|i: usize|
        matches_at(hay, needle, i as int) && occurrence_count(hay, needle, i as int) == k
}

impl ExactMatcher {
    pub fn new(pattern: String, case_sensitive: bool) -> (r: ExactMatcher)
        ensures
            r.pattern_view() == pattern@,
            r.is_case_sensitive() == case_sensitive,
    {
        ExactMatcher { pattern, case_sensitive }
    }

    pub open spec fn pattern_view(&self) -> Seq<char> {
        self.pattern@
    }

    pub open spec fn is_case_sensitive(&self) -> bool {
        self.case_sensitive
    }

    /// The effective needle and haystack: lowered unless case-sensitive.
    pub open spec fn effective(&self, text: Seq<char>) -> (Seq<char>, Seq<char>) {
        if self.case_sensitive {
            (text, self.pattern@)
        } else {
            (lower(text), lower(self.pattern@))
        }
    }
}

impl Matcher for ExactMatcher {
    open spec fn match_spec(&self, text: Seq<char>) -> bool {
        contains_seq(self.effective(text).0, self.effective(text).1)
    }

    open spec fn spans_spec(&self, text: Seq<char>) -> Seq<(usize, usize)> {
        if self.pattern@.len() == 0 {
            Seq::empty()
        } else {
            occurrence_spans(self.effective(text).0, self.effective(text).1)
        }
    }

    fn is_match(&self, text: &str) -> (r: bool)
        ensures
            r == self.match_spec(text@),
    {
        let tv = chars_of(text);
        let pv = chars_of(self.pattern.as_str());
        if self.case_sensitive {
            contains_vec(&tv, &pv)
        } else {
            let tl = lower_vec(&tv);
            let pl = lower_vec(&pv);
            contains_vec(&tl, &pl)
        }
    }

    fn find_matches(&self, text: &str) -> (r: Vec<(usize, usize)>)
        ensures
            r@ == self.spans_spec(text@),
    {
        let tv = chars_of(text);
        let pv = chars_of(self.pattern.as_str());
        let r = if self.case_sensitive {
            find_all(&tv, &pv)
        } else {
            let tl = lower_vec(&tv);
            let pl = lower_vec(&pv);
            find_all(&tl, &pl)
        };
        proof {
            let hay = self.effective(text@).0;
            let needle = self.effective(text@).1;
            if needle.len() > 0 {
                lemma_find_all_is_occurrences(hay, needle, r@);
            }
        }
        r
    }
}

// ---------------------------------------------------------------------------
// Regex matcher
// ---------------------------------------------------------------------------

/// Regular-expression matching; matches when the engine accepts the pattern
/// and finds it anywhere in the text. Spans are as the engine reports them
/// (byte offsets).
pub struct RegexMatcher {
    pub pattern: String,
}

impl RegexMatcher {
    /// Fails exactly when the engine rejects the pattern.
    pub fn new(pattern: &str) -> (r: Result<RegexMatcher, SearchError>)
        ensures
            r is Ok <==> regex_ok(pattern@),
            r is Ok ==> r->Ok_0.pattern@ == pattern@,
            r is Err ==> r->Err_0 is Parse,
    {
        if regex_compile_check(pattern) {
            Ok(RegexMatcher { pattern: pattern.to_owned() })
        } else {
            Err(SearchError::Parse(String::from_str("invalid regular expression")))
        }
    }

    /// The same, with the engine's case-insensitivity flag prepended.
    pub fn new_case_insensitive(pattern: &str) -> (r: Result<RegexMatcher, SearchError>)
        ensures
            r is Ok <==> regex_ok("(?i)"@ + pattern@),
            r is Ok ==> r->Ok_0.pattern@ == "(?i)"@ + pattern@,
            r is Err ==> r->Err_0 is Parse,
    {
        let mut p = String::from_str("(?i)");
        p.append(pattern);
        RegexMatcher::new(p.as_str())
    }
}

impl Matcher for RegexMatcher {
    open spec fn match_spec(&self, text: Seq<char>) -> bool {
        regex_ok(self.pattern@) && regex_matches(self.pattern@, text)
    }

    open spec fn spans_spec(&self, text: Seq<char>) -> Seq<(usize, usize)> {
        if regex_ok(self.pattern@) {
            regex_spans(self.pattern@, text).map_values(
                |s: (usize, usize)| (s.0, (s.1 - s.0) as usize),
            )
        } else {
            Seq::empty()
        }
    }

    fn is_match(&self, text: &str) -> (r: bool)
        ensures
            r == self.match_spec(text@),
    {
        match regex_match_raw(self.pattern.as_str(), text) {
            Some(b) => b,
            None => false,
        }
    }

    fn find_matches(&self, text: &str) -> (r: Vec<(usize, usize)>)
        ensures
            r@ == self.spans_spec(text@),
    {
        match regex_spans_raw(self.pattern.as_str(), text) {
            Some(spans) => {
                let mut r: Vec<(usize, usize)> = Vec::new();
                let mut i: usize = 0;
                let ghost mapped = regex_spans(self.pattern@, text@).map_values(
                    |s: (usize, usize)| (s.0, (s.1 - s.0) as usize),
                );
                while i < spans.len()
                    invariant
                        i <= spans@.len(),
                        spans@ == regex_spans(self.pattern@, text@),
                        mapped == regex_spans(self.pattern@, text@).map_values(
                            |s: (usize, usize)| (s.0, (s.1 - s.0) as usize),
                        ),
                        forall|k: int|
                            0 <= k < spans@.len() ==> (#[trigger] spans@[k]).0 <= spans@[k].1,
                        r@ == mapped.take(i as int),
                    decreases spans.len() - i,
                {
                    let (a, b) = spans[i];
                    r.push((a, b - a));
                    proof {
                        assert(mapped.take(i + 1) =~= mapped.take(i as int).push(
                            mapped[i as int],
                        ));
                    }
                    i = i + 1;
                }
                proof {
                    assert(mapped.take(mapped.len() as int) =~= mapped);
                }
                r
            },
            None => Vec::new(),
        }
    }
}

// ---------------------------------------------------------------------------
// Glob matcher
// ---------------------------------------------------------------------------

/// Whole-string shell-glob matching. A match reports one span covering the
/// whole text (in characters).
pub struct GlobPatternMatcher {
    pub pattern: String,
}

impl GlobPatternMatcher {
    /// Fails exactly when the glob engine rejects the pattern.
    pub fn new(pattern: &str) -> (r: Result<GlobPatternMatcher, SearchError>)
        ensures
            r is Ok <==> glob_ok(pattern@),
            r is Ok ==> r->Ok_0.pattern@ == pattern@,
            r is Err ==> r->Err_0 is Parse,
    {
        if glob_compile_check(pattern) {
            Ok(GlobPatternMatcher { pattern: pattern.to_owned() })
        } else {
            Err(SearchError::Parse(String::from_str("invalid glob pattern")))
        }
    }
}

impl Matcher for GlobPatternMatcher {
    open spec fn match_spec(&self, text: Seq<char>) -> bool {
        glob_ok(self.pattern@) && glob_matches(self.pattern@, text)
    }

    open spec fn spans_spec(&self, text: Seq<char>) -> Seq<(usize, usize)> {
        if self.match_spec(text) {
            seq![(0usize, text.len() as usize)]
        } else {
            Seq::empty()
        }
    }

    fn is_match(&self, text: &str) -> (r: bool)
        ensures
            r == self.match_spec(text@),
    {
        match glob_match_raw(self.pattern.as_str(), text) {
            Some(b) => b,
            None => false,
        }
    }

    fn find_matches(&self, text: &str) -> (r: Vec<(usize, usize)>)
        ensures
            r@ == self.spans_spec(text@),
    {
        let mut r: Vec<(usize, usize)> = Vec::new();
        if self.is_match(text) {
            let tv = chars_of(text);
            r.push((0, tv.len()));
            proof {
                assert(r@ =~= self.spans_spec(text@));
            }
        }
        r
    }
}

// ---------------------------------------------------------------------------
// One type for any single matcher
// ---------------------------------------------------------------------------

/// A single matcher of any kind, so that collections can mix them.
pub enum AnyMatcher {
    Exact(ExactMatcher),
    Regex(RegexMatcher),
    Glob(GlobPatternMatcher),
}

impl Matcher for AnyMatcher {
    open spec fn match_spec(&self, text: Seq<char>) -> bool {
        match self {
            AnyMatcher::Exact(m) => m.match_spec(text),
            AnyMatcher::Regex(m) => m.match_spec(text),
            AnyMatcher::Glob(m) => m.match_spec(text),
        }
    }

    open spec fn spans_spec(&self, text: Seq<char>) -> Seq<(usize, usize)> {
        match self {
            AnyMatcher::Exact(m) => m.spans_spec(text),
            AnyMatcher::Regex(m) => m.spans_spec(text),
            AnyMatcher::Glob(m) => m.spans_spec(text),
        }
    }

    fn is_match(&self, text: &str) -> (r: bool)
        ensures
            r == self.match_spec(text@),
    {
        match self {
            AnyMatcher::Exact(m) => m.is_match(text),
            AnyMatcher::Regex(m) => m.is_match(text),
            AnyMatcher::Glob(m) => m.is_match(text),
        }
    }

    fn find_matches(&self, text: &str) -> (r: Vec<(usize, usize)>)
        ensures
            r@ == self.spans_spec(text@),
    {
        match self {
            AnyMatcher::Exact(m) => m.find_matches(text),
            AnyMatcher::Regex(m) => m.find_matches(text),
            AnyMatcher::Glob(m) => m.find_matches(text),
        }
    }
}

/// Whether a matcher can be built from `pattern` in `mode`: only the regex
/// and glob engines can refuse a pattern.
pub open spec fn mode_ok(mode: MatchMode, pattern: Seq<char>) -> bool {
    match mode {
        MatchMode::Regex => regex_ok(pattern),
        MatchMode::Glob => glob_ok(pattern),
        _ => true,
    }
}

/// What a `(pattern, mode)` matcher accepts: substring containment for the
/// exact modes (fuzzy falls back to case-insensitive containment here), the
/// engines' verdicts for regex and glob.
pub open spec fn mode_match_spec(mode: MatchMode, pattern: Seq<char>, text: Seq<char>) -> bool {
    match mode {
        MatchMode::Exact => contains_seq(text, pattern),
        MatchMode::CaseInsensitive => contains_seq(lower(text), lower(pattern)),
        MatchMode::Fuzzy => contains_seq(lower(text), lower(pattern)),
        MatchMode::Regex => regex_ok(pattern) && regex_matches(pattern, text),
        MatchMode::Glob => glob_ok(pattern) && glob_matches(pattern, text),
    }
}

/// The matcher a query's pattern and mode call for. Fuzzy mode matches the
/// executor's fallback: a case-insensitive substring matcher (the scored
/// fuzzy path is the ranker's).
pub fn create_matcher(pattern: &str, mode: MatchMode) -> (r: Result<AnyMatcher, SearchError>)
    ensures
        r is Ok <==> mode_ok(mode, pattern@),
        r is Ok ==> forall|t: Seq<char>|
            (#[trigger] r->Ok_0.match_spec(t)) == mode_match_spec(mode, pattern@, t),
        r is Err ==> r->Err_0 is Parse,
{
    match mode {
        MatchMode::Exact => Ok(
            AnyMatcher::Exact(ExactMatcher::new(pattern.to_owned(), true)),
        ),
        MatchMode::CaseInsensitive => Ok(
            AnyMatcher::Exact(ExactMatcher::new(pattern.to_owned(), false)),
        ),
        MatchMode::Fuzzy => Ok(AnyMatcher::Exact(ExactMatcher::new(pattern.to_owned(), false))),
        MatchMode::Regex => {
            match RegexMatcher::new(pattern) {
                Ok(m) => Ok(AnyMatcher::Regex(m)),
                Err(e) => Err(e),
            }
        },
        MatchMode::Glob => {
            match GlobPatternMatcher::new(pattern) {
                Ok(m) => Ok(AnyMatcher::Glob(m)),
                Err(e) => Err(e),
            }
        },
    }
}

// ---------------------------------------------------------------------------
// Composite matcher
// ---------------------------------------------------------------------------

pub open spec fn span_le(a: (usize, usize), b: (usize, usize)) -> bool {
    a.0 < b.0 || (a.0 == b.0 && a.1 <= b.1)
}

/// `x` inserted into the (sorted) sequence just after the last element
/// not above it.
pub open spec fn insert_span(s: Seq<(usize, usize)>, x: (usize, usize)) -> Seq<(usize, usize)>
    decreases s.len(),
{
    if s.len() == 0 {
        seq![x]
    } else if span_le(s.last(), x) {
        s.push(x)
    } else {
        insert_span(s.drop_last(), x).push(s.last())
    }
}

/// Insertion sort of spans, by position then length.
pub open spec fn sort_spans(s: Seq<(usize, usize)>) -> Seq<(usize, usize)>
    decreases s.len(),
{
    if s.len() == 0 {
        Seq::empty()
    } else {
        insert_span(sort_spans(s.drop_last()), s.last())
    }
}

/// Adjacent duplicates removed.
pub open spec fn dedup_adjacent(s: Seq<(usize, usize)>) -> Seq<(usize, usize)>
    decreases s.len(),
{
    if s.len() <= 1 {
        s
    } else if s.last() == s[s.len() - 2] {
        dedup_adjacent(s.drop_last())
    } else {
        dedup_adjacent(s.drop_last()).push(s.last())
    }
}

fn insert_span_exec(s: Vec<(usize, usize)>, x: (usize, usize)) -> (r: Vec<(usize, usize)>)
    ensures
        r@ == insert_span(s@, x),
    decreases s@.len(),
{
    let mut s = s;
    if s.len() == 0 {
        s.push(x);
        proof {
            assert(s@ =~= seq![x]);
        }
        s
    } else {
        let last = s[s.len() - 1];
        if last.0 < x.0 || (last.0 == x.0 && last.1 <= x.1) {
            s.push(x);
            s
        } else {
            let ghost s0 = s@;
            let popped = s.pop().unwrap();
            proof {
                assert(s@ =~= s0.drop_last());
                assert(popped == s0.last());
            }
            let mut r = insert_span_exec(s, x);
            r.push(popped);
            r
        }
    }
}

fn sort_spans_exec(v: Vec<(usize, usize)>) -> (r: Vec<(usize, usize)>)
    ensures
        r@ == sort_spans(v@),
{
    let mut r: Vec<(usize, usize)> = Vec::new();
    let mut i: usize = 0;
    proof {
        assert(v@.take(0) =~= Seq::<(usize, usize)>::empty());
    }
    while i < v.len()
        invariant
            i <= v@.len(),
            r@ == sort_spans(v@.take(i as int)),
        decreases v.len() - i,
    {
        proof {
            assert(v@.take(i + 1).drop_last() =~= v@.take(i as int));
            assert(v@.take(i + 1).last() == v@[i as int]);
        }
        r = insert_span_exec(r, v[i]);
        i = i + 1;
    }
    proof {
        assert(v@.take(v@.len() as int) =~= v@);
    }
    r
}

fn dedup_adjacent_exec(v: &Vec<(usize, usize)>) -> (r: Vec<(usize, usize)>)
    ensures
        r@ == dedup_adjacent(v@),
{
    let mut r: Vec<(usize, usize)> = Vec::new();
    let mut i: usize = 0;
    proof {
        assert(v@.take(0) =~= Seq::<(usize, usize)>::empty());
    }
    while i < v.len()
        invariant
            i <= v@.len(),
            r@ == dedup_adjacent(v@.take(i as int)),
        decreases v.len() - i,
    {
        proof {
            assert(v@.take(i + 1).drop_last() =~= v@.take(i as int));
            assert(v@.take(i + 1).last() == v@[i as int]);
            if i >= 1 {
                assert(v@.take(i + 1)[i - 1] == v@[i - 1]);
            }
        }
        if i == 0 || !(v[i - 1].0 == v[i].0 && v[i - 1].1 == v[i].1) {
            r.push(v[i]);
        }
        i = i + 1;
    }
    proof {
        assert(v@.take(v@.len() as int) =~= v@);
    }
    r
}

/// Conjunction or disjunction of matchers. With `require_all`, a text must
/// satisfy every member; otherwise one suffices. The spans are every
/// member's spans, sorted by position then length, adjacent duplicates
/// dropped.
pub struct CompositeMatcher {
    pub matchers: Vec<AnyMatcher>,
    pub require_all: bool,
}

/// Concatenation of every member's spans, in member order.
pub open spec fn all_spans(ms: Seq<AnyMatcher>, text: Seq<char>) -> Seq<(usize, usize)>
    decreases ms.len(),
{
    if ms.len() == 0 {
        Seq::empty()
    } else {
        all_spans(ms.drop_last(), text) + ms.last().spans_spec(text)
    }
}

impl CompositeMatcher {
    pub fn new(matchers: Vec<AnyMatcher>, require_all: bool) -> (r: CompositeMatcher)
        ensures
            r.matchers == matchers,
            r.require_all == require_all,
    {
        CompositeMatcher { matchers, require_all }
    }

    /// A composite every member of which must match.
    pub fn and(matchers: Vec<AnyMatcher>) -> (r: CompositeMatcher)
        ensures
            r.matchers == matchers,
            r.require_all == true,
    {
        CompositeMatcher::new(matchers, true)
    }

    /// A composite where one matching member suffices.
    pub fn or(matchers: Vec<AnyMatcher>) -> (r: CompositeMatcher)
        ensures
            r.matchers == matchers,
            r.require_all == false,
    {
        CompositeMatcher::new(matchers, false)
    }
}

impl Matcher for CompositeMatcher {
    open spec fn match_spec(&self, text: Seq<char>) -> bool {
        if self.require_all {
            forall|k: int|
                0 <= k < self.matchers@.len() ==> (#[trigger] self.matchers@[k]).match_spec(text)
        } else {
            exists|k: int|
                0 <= k < self.matchers@.len() && (#[trigger] self.matchers@[k]).match_spec(text)
        }
    }

    open spec fn spans_spec(&self, text: Seq<char>) -> Seq<(usize, usize)> {
        dedup_adjacent(sort_spans(all_spans(self.matchers@, text)))
    }

    fn is_match(&self, text: &str) -> (r: bool)
        ensures
            r == self.match_spec(text@),
    {
        let mut i: usize = 0;
        if self.require_all {
            while i < self.matchers.len()
                invariant
                    i <= self.matchers@.len(),
                    forall|k: int|
                        0 <= k < i ==> (#[trigger] self.matchers@[k]).match_spec(text@),
                decreases self.matchers.len() - i,
            {
                if !self.matchers[i].is_match(text) {
                    return false;
                }
                i = i + 1;
            }
            true
        } else {
            while i < self.matchers.len()
                invariant
                    i <= self.matchers@.len(),
                    forall|k: int|
                        0 <= k < i ==> !(#[trigger] self.matchers@[k]).match_spec(text@),
                decreases self.matchers.len() - i,
            {
                if self.matchers[i].is_match(text) {
                    return true;
                }
                i = i + 1;
            }
            false
        }
    }

    fn find_matches(&self, text: &str) -> (r: Vec<(usize, usize)>)
        ensures
            r@ == self.spans_spec(text@),
    {
        let mut gathered: Vec<(usize, usize)> = Vec::new();
        let mut i: usize = 0;
        proof {
            assert(all_spans(self.matchers@.take(0), text@) =~= Seq::<(usize, usize)>::empty());
            assert(gathered@ =~= all_spans(self.matchers@.take(0), text@));
        }
        while i < self.matchers.len()
            invariant
                i <= self.matchers@.len(),
                gathered@ == all_spans(self.matchers@.take(i as int), text@),
            decreases self.matchers.len() - i,
        {
            let mut spans = self.matchers[i].find_matches(text);
            let ghost g0 = gathered@;
            let ghost s0 = spans@;
            gathered.append(&mut spans);
            proof {
                assert(self.matchers@.take(i + 1).drop_last() =~= self.matchers@.take(i as int));
                assert(self.matchers@.take(i + 1).last() == self.matchers@[i as int]);
                assert(gathered@ =~= g0 + s0);
            }
            i = i + 1;
        }
        proof {
            assert(self.matchers@.take(self.matchers@.len() as int) =~= self.matchers@);
        }
        let sorted = sort_spans_exec(gathered);
        dedup_adjacent_exec(&sorted)
    }
}

/// A sorted, sound and complete list of occurrences is exactly
/// `occurrence_spans`.
proof fn lemma_find_all_is_occurrences(hay: Seq<char>, needle: Seq<char>, r: Seq<(usize, usize)>)
    requires
        needle.len() > 0,
        forall|k: int|
            0 <= k < r.len() ==> matches_at(hay, needle, (#[trigger] r[k]).0 as int) && r[k].1
                == needle.len(),
        forall|i: int|
            matches_at(hay, needle, i) ==> exists|k: int| 0 <= k < r.len() && (#[trigger] r[k]).0
                == i,
        forall|k1: int, k2: int| 0 <= k1 < k2 < r.len() ==> (#[trigger] r[k1]).0 < (
        #[trigger] r[k2]).0,
    ensures
        r == occurrence_spans(hay, needle),
{
    assert forall|k: int| 0 <= k < r.len() implies occurrence_count(
        hay,
        needle,
        r[k].0 as int,
    ) == k by {
        lemma_count_below(hay, needle, r, k);
    }
    assert(r.len() == occurrence_count(hay, needle, hay.len() as int)) by {
        lemma_total_count(hay, needle, r);
    }
    assert forall|k: int| 0 <= k < r.len() implies r[k] == occurrence_spans(hay, needle)[k] by {
        let i = r[k].0;
        assert(matches_at(hay, needle, i as int) && occurrence_count(hay, needle, i as int)
            == k);
        let w = occurrence_at(hay, needle, k);
        assert(matches_at(hay, needle, w as int) && occurrence_count(hay, needle, w as int)
            == k);
        lemma_count_injective(hay, needle, i as int, w as int);
    }
    assert(r =~= occurrence_spans(hay, needle));
}

/// Counting is strictly monotone across distinct occurrence positions.
proof fn lemma_count_mono(hay: Seq<char>, needle: Seq<char>, a: int, b: int)
    requires
        a <= b,
    ensures
        occurrence_count(hay, needle, a) <= occurrence_count(hay, needle, b),
        (a >= 0 && a < b && matches_at(hay, needle, a)) ==> occurrence_count(hay, needle, a) + 1
            <= occurrence_count(hay, needle, b),
    decreases b - a,
{
    if a < b {
        lemma_count_mono(hay, needle, a, b - 1);
    }
}

/// Two occurrence positions with the same count are equal.
proof fn lemma_count_injective(hay: Seq<char>, needle: Seq<char>, i: int, j: int)
    requires
        matches_at(hay, needle, i),
        matches_at(hay, needle, j),
        occurrence_count(hay, needle, i) == occurrence_count(hay, needle, j),
    ensures
        i == j,
{
    if i < j {
        lemma_count_mono(hay, needle, i, j);
    } else if j < i {
        lemma_count_mono(hay, needle, j, i);
    }
}

/// In a sorted, sound, complete list, the count below entry `k` is `k`.
proof fn lemma_count_below(hay: Seq<char>, needle: Seq<char>, r: Seq<(usize, usize)>, k: int)
    requires
        needle.len() > 0,
        0 <= k < r.len(),
        forall|k2: int|
            0 <= k2 < r.len() ==> matches_at(hay, needle, (#[trigger] r[k2]).0 as int),
        forall|i: int|
            matches_at(hay, needle, i) ==> exists|k2: int|
                0 <= k2 < r.len() && (#[trigger] r[k2]).0 == i,
        forall|k1: int, k2: int| 0 <= k1 < k2 < r.len() ==> (#[trigger] r[k1]).0 < (
        #[trigger] r[k2]).0,
    ensures
        occurrence_count(hay, needle, r[k].0 as int) == k,
    decreases k,
{
    if k == 0 {
        lemma_count_zero_below(hay, needle, r, r[0].0 as int, 0);
    } else {
        lemma_count_below(hay, needle, r, k - 1);
        lemma_count_between(hay, needle, r, k - 1);
    }
}

/// No occurrence lies strictly below the first listed one, so the count up
/// to it is zero.
proof fn lemma_count_zero_below(
    hay: Seq<char>,
    needle: Seq<char>,
    r: Seq<(usize, usize)>,
    end: int,
    lo: int,
)
    requires
        forall|i: int|
            matches_at(hay, needle, i) ==> exists|k2: int|
                0 <= k2 < r.len() && (#[trigger] r[k2]).0 == i,
        forall|k1: int, k2: int| 0 <= k1 < k2 < r.len() ==> (#[trigger] r[k1]).0 < (
        #[trigger] r[k2]).0,
        r.len() > 0,
        end <= r[0].0,
        lo == 0,
    ensures
        occurrence_count(hay, needle, end) == 0,
    decreases end,
{
    if end > 0 {
        if matches_at(hay, needle, end - 1) {
            let k2 = choose|k2: int| 0 <= k2 < r.len() && (#[trigger] r[k2]).0 == end - 1;
            if k2 > 0 {
                assert(r[0].0 < r[k2].0);
            }
            assert(false);
        }
        lemma_count_zero_below(hay, needle, r, end - 1, lo);
    }
}

/// Between two successive listed occurrences the count grows by exactly one.
proof fn lemma_count_between(hay: Seq<char>, needle: Seq<char>, r: Seq<(usize, usize)>, k: int)
    requires
        0 <= k < r.len() - 1,
        forall|k2: int|
            0 <= k2 < r.len() ==> matches_at(hay, needle, (#[trigger] r[k2]).0 as int),
        forall|i: int|
            matches_at(hay, needle, i) ==> exists|k2: int|
                0 <= k2 < r.len() && (#[trigger] r[k2]).0 == i,
        forall|k1: int, k2: int| 0 <= k1 < k2 < r.len() ==> (#[trigger] r[k1]).0 < (
        #[trigger] r[k2]).0,
    ensures
        occurrence_count(hay, needle, r[k + 1].0 as int) == occurrence_count(
            hay,
            needle,
            r[k].0 as int,
        ) + 1,
{
    lemma_count_gap(hay, needle, r, k, r[k + 1].0 as int);
}

/// Helper: walking from just past `r[k].0` up to the next listed
/// occurrence adds only the occurrence at `r[k].0` itself.
proof fn lemma_count_gap(
    hay: Seq<char>,
    needle: Seq<char>,
    r: Seq<(usize, usize)>,
    k: int,
    end: int,
)
    requires
        0 <= k < r.len() - 1,
        r[k].0 < end <= r[k + 1].0,
        forall|k2: int|
            0 <= k2 < r.len() ==> matches_at(hay, needle, (#[trigger] r[k2]).0 as int),
        forall|i: int|
            matches_at(hay, needle, i) ==> exists|k2: int|
                0 <= k2 < r.len() && (#[trigger] r[k2]).0 == i,
        forall|k1: int, k2: int| 0 <= k1 < k2 < r.len() ==> (#[trigger] r[k1]).0 < (
        #[trigger] r[k2]).0,
    ensures
        occurrence_count(hay, needle, end) == occurrence_count(hay, needle, r[k].0 as int) + 1,
    decreases end,
{
    if end == r[k].0 + 1 {
        assert(matches_at(hay, needle, r[k].0 as int));
    } else {
        if matches_at(hay, needle, end - 1) {
            let k2 = choose|k2: int| 0 <= k2 < r.len() && (#[trigger] r[k2]).0 == end - 1;
            if k2 <= k {
                assert(r[k2].0 <= r[k].0);
            } else if k2 >= k + 1 {
                assert(r[k + 1].0 <= r[k2].0);
            }
            assert(false);
        }
        lemma_count_gap(hay, needle, r, k, end - 1);
    }
}

/// The total count equals the list length.
proof fn lemma_total_count(hay: Seq<char>, needle: Seq<char>, r: Seq<(usize, usize)>)
    requires
        needle.len() > 0,
        forall|k: int|
            0 <= k < r.len() ==> matches_at(hay, needle, (#[trigger] r[k]).0 as int),
        forall|i: int|
            matches_at(hay, needle, i) ==> exists|k2: int|
                0 <= k2 < r.len() && (#[trigger] r[k2]).0 == i,
        forall|k1: int, k2: int| 0 <= k1 < k2 < r.len() ==> (#[trigger] r[k1]).0 < (
        #[trigger] r[k2]).0,
    ensures
        occurrence_count(hay, needle, hay.len() as int) == r.len(),
{
    if r.len() == 0 {
        lemma_count_none(hay, needle, hay.len() as int, r);
    } else {
        let k = r.len() - 1;
        lemma_count_below(hay, needle, r, k);
        assert(matches_at(hay, needle, r[k].0 as int));
        assert(r[k].0 + needle.len() <= hay.len());
        lemma_count_tail(hay, needle, r, k, hay.len() as int);
    }
}

/// With no listed occurrences there are none at all.
proof fn lemma_count_none(hay: Seq<char>, needle: Seq<char>, end: int, r: Seq<(usize, usize)>)
    requires
        r.len() == 0,
        forall|i: int|
            matches_at(hay, needle, i) ==> exists|k2: int|
                0 <= k2 < r.len() && (#[trigger] r[k2]).0 == i,
    ensures
        occurrence_count(hay, needle, end) == 0,
    decreases end,
{
    if end > 0 {
        lemma_count_none(hay, needle, end - 1, r);
    }
}

/// Above the last listed occurrence the count grows by exactly one more.
proof fn lemma_count_tail(
    hay: Seq<char>,
    needle: Seq<char>,
    r: Seq<(usize, usize)>,
    k: int,
    end: int,
)
    requires
        0 <= k == r.len() - 1,
        r[k].0 < end,
        forall|k2: int|
            0 <= k2 < r.len() ==> matches_at(hay, needle, (#[trigger] r[k2]).0 as int),
        forall|i: int|
            matches_at(hay, needle, i) ==> exists|k2: int|
                0 <= k2 < r.len() && (#[trigger] r[k2]).0 == i,
        forall|k1: int, k2: int| 0 <= k1 < k2 < r.len() ==> (#[trigger] r[k1]).0 < (
        #[trigger] r[k2]).0,
    ensures
        occurrence_count(hay, needle, end) == occurrence_count(hay, needle, r[k].0 as int) + 1,
    decreases end,
{
    if end == r[k].0 + 1 {
        assert(matches_at(hay, needle, r[k].0 as int));
    } else {
        if matches_at(hay, needle, end - 1) {
            let k2 = choose|k2: int| 0 <= k2 < r.len() && (#[trigger] r[k2]).0 == end - 1;
            assert(r[k2].0 <= r[k].0);
            assert(false);
        }
        lemma_count_tail(hay, needle, r, k, end - 1);
    }
}

} // verus!
