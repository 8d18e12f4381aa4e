//! The query language: a single line of whitespace-separated tokens, where
//! `key:value` tokens set options and every other token joins the search
//! pattern. The parser is specified as a fold over the token list; a
//! printer renders a query back into the language.
use vstd::prelude::*;

use crate::date::{rel_date_spec, DAY_SECONDS};
use crate::error::SearchError;
use crate::extension::{parse_extensions, parse_extensions_spec};
use crate::size::{parse_size, parse_size_spec};
use crate::text::{
    chars_of, contains_seq, contains_vec, find_char, find_first, first_idx_of, join_ws, lower,
    lower_str, lower_vec, split_ws, split_ws_vec, str_eq, string_of, sub_vec, views_of,
};
use crate::types::{DateFilter, MatchMode, SearchScope, SizeFilter};

verus! {

/// A structured query.
pub struct Query {
    pub pattern: String,
    pub match_mode: MatchMode,
    pub scope: SearchScope,
    pub size_filter: Option<SizeFilter>,
    pub date_filter: Option<DateFilter>,
    pub extensions: Vec<String>,
    pub max_results: Option<usize>,
}

/// The mathematical shape of a query.
#[verifier::ext_equal]
pub struct QuerySpec {
    pub pattern: Seq<char>,
    pub match_mode: MatchMode,
    pub scope: SearchScope,
    pub size_filter: Option<SizeFilter>,
    pub date_filter: Option<DateFilter>,
    pub extensions: Seq<Seq<char>>,
    pub max_results: Option<usize>,
}

impl View for Query {
    type V = QuerySpec;

    open spec fn view(&self) -> QuerySpec {
        QuerySpec {
            pattern: self.pattern@,
            match_mode: self.match_mode,
            scope: self.scope,
            size_filter: self.size_filter,
            date_filter: self.date_filter,
            extensions: self.extensions@.map_values(|s: String| s@),
            max_results: self.max_results,
        }
    }
}

impl Query {
    /// A query over `pattern` with every option at its default.
    pub fn new(pattern: String) -> (r: Query)
        ensures
            r@.pattern == pattern@,
            r@.match_mode == MatchMode::CaseInsensitive,
            r@.scope == SearchScope::Name,
            r@.size_filter is None,
            r@.date_filter is None,
            r@.extensions.len() == 0,
            r@.max_results is None,
    {
        let r = Query {
            pattern,
            match_mode: MatchMode::CaseInsensitive,
            scope: SearchScope::Name,
            size_filter: None,
            date_filter: None,
            extensions: Vec::new(),
            max_results: None,
        };
        proof {
            assert(r@.extensions =~= Seq::<Seq<char>>::empty());
        }
        r
    }

    pub fn with_match_mode(self, mode: MatchMode) -> (r: Query)
        ensures
            r@ == (QuerySpec { match_mode: mode, ..self@ }),
    {
        Query { match_mode: mode, ..self }
    }

    pub fn with_scope(self, scope: SearchScope) -> (r: Query)
        ensures
            r@ == (QuerySpec { scope, ..self@ }),
    {
        Query { scope, ..self }
    }

    pub fn with_size_filter(self, filter: SizeFilter) -> (r: Query)
        ensures
            r@ == (QuerySpec { size_filter: Some(filter), ..self@ }),
    {
        Query { size_filter: Some(filter), ..self }
    }

    pub fn with_date_filter(self, filter: DateFilter) -> (r: Query)
        ensures
            r@ == (QuerySpec { date_filter: Some(filter), ..self@ }),
    {
        Query { date_filter: Some(filter), ..self }
    }

    pub fn with_extensions(self, extensions: Vec<String>) -> (r: Query)
        ensures
            r@ == (QuerySpec {
                extensions: extensions@.map_values(|s: String| s@),
                ..self@
            }),
    {
        Query { extensions, ..self }
    }

    pub fn with_max_results(self, max: usize) -> (r: Query)
        ensures
            r@ == (QuerySpec { max_results: Some(max), ..self@ }),
    {
        Query { max_results: Some(max), ..self }
    }
}

// ---------------------------------------------------------------------------
// Option grammars
// ---------------------------------------------------------------------------

/// The size filter a `size:` value denotes: `>N`, `<N`, `N..M` or `N`,
/// each `N` in the size grammar.
pub open spec fn size_filter_of(value: Seq<char>) -> Option<SizeFilter> {
    if value.len() > 0 && value[0] == '>' {
        match parse_size_spec(value.drop_first()) {
            Some(n) => Some(SizeFilter::GreaterThan(n)),
            None => None,
        }
    } else if value.len() > 0 && value[0] == '<' {
        match parse_size_spec(value.drop_first()) {
            Some(n) => Some(SizeFilter::LessThan(n)),
            None => None,
        }
    } else if contains_seq(value, ".."@) {
        let i = range_split(value);
        let left = value.take(i);
        let right = value.skip(i + 2);
        if contains_seq(right, ".."@) {
            None
        } else {
            match (parse_size_spec(left), parse_size_spec(right)) {
                (Some(lo), Some(hi)) => Some(SizeFilter::Range(lo, hi)),
                _ => None,
            }
        }
    } else {
        match parse_size_spec(value) {
            Some(n) => Some(SizeFilter::Exact(n)),
            None => None,
        }
    }
}

/// Where the first `..` of a range value starts.
pub open spec fn range_split(value: Seq<char>) -> int {
    choose|i: int|
        crate::text::matches_at(value, ".."@, i) && forall|j: int|
            0 <= j < i ==> !crate::text::matches_at(value, ".."@, j)
}

/// The date filter a `modified:`/`date:` value denotes: `>rel`, `<rel`,
/// `rel..rel` or `rel`, each `rel` a relative date against `now`.
pub open spec fn date_filter_of(value: Seq<char>, now: i64) -> Option<DateFilter> {
    if value.len() > 0 && value[0] == '>' {
        match rel_date_spec(value.drop_first(), now) {
            Some(t) => Some(DateFilter::After(t)),
            None => None,
        }
    } else if value.len() > 0 && value[0] == '<' {
        match rel_date_spec(value.drop_first(), now) {
            Some(t) => Some(DateFilter::Before(t)),
            None => None,
        }
    } else if contains_seq(value, ".."@) {
        let i = range_split(value);
        let left = value.take(i);
        let right = value.skip(i + 2);
        if contains_seq(right, ".."@) {
            None
        } else {
            match (rel_date_spec(left, now), rel_date_spec(right, now)) {
                (Some(a), Some(b)) => Some(DateFilter::Between(a, b)),
                _ => None,
            }
        }
    } else {
        match rel_date_spec(value, now) {
            Some(t) => Some(DateFilter::On(t)),
            None => None,
        }
    }
}

/// The match mode a `mode:` value denotes.
pub open spec fn mode_of(value: Seq<char>) -> Option<MatchMode> {
    let l = lower(value);
    if l == "exact"@ || l == "case"@ || l == "casesensitive"@ {
        Some(MatchMode::Exact)
    } else if l == "insensitive"@ || l == "caseinsensitive"@ {
        Some(MatchMode::CaseInsensitive)
    } else if l == "fuzzy"@ {
        Some(MatchMode::Fuzzy)
    } else if l == "regex"@ {
        Some(MatchMode::Regex)
    } else if l == "glob"@ {
        Some(MatchMode::Glob)
    } else {
        None
    }
}

/// The scope a `scope:` value denotes.
pub open spec fn scope_of(value: Seq<char>) -> Option<SearchScope> {
    let l = lower(value);
    if l == "name"@ {
        Some(SearchScope::Name)
    } else if l == "path"@ {
        Some(SearchScope::Path)
    } else if l == "content"@ {
        Some(SearchScope::Content)
    } else if l == "all"@ {
        Some(SearchScope::All)
    } else {
        None
    }
}

// ---------------------------------------------------------------------------
// The parser, as a fold over tokens
// ---------------------------------------------------------------------------

/// The query every parse starts from: empty pattern, case-insensitive
/// name search, no filters, no limit.
pub open spec fn init_query() -> QuerySpec {
    QuerySpec {
        pattern: Seq::empty(),
        match_mode: MatchMode::CaseInsensitive,
        scope: SearchScope::Name,
        size_filter: None,
        date_filter: None,
        extensions: Seq::empty(),
        max_results: None,
    }
}

/// One token applied to the running state `(options, pattern parts)`:
/// a `key:value` token with a known key sets its option (`None` on a
/// malformed value; a malformed limit is silently dropped); every other
/// token becomes a pattern part.
pub open spec fn apply_token(
    st: (QuerySpec, Seq<Seq<char>>),
    tok: Seq<char>,
    now: i64,
) -> Option<(QuerySpec, Seq<Seq<char>>)> {
    let q = st.0;
    let parts = st.1;
    let ci = first_idx_of(tok, ':');
    if ci >= 0 {
        let key = lower(tok.take(ci));
        let value = tok.skip(ci + 1);
        if key == "ext"@ || key == "extension"@ {
            Some(((QuerySpec { extensions: parse_extensions_spec(value), ..q }), parts))
        } else if key == "size"@ {
            match size_filter_of(value) {
                Some(f) => Some(((QuerySpec { size_filter: Some(f), ..q }), parts)),
                None => None,
            }
        } else if key == "modified"@ || key == "date"@ {
            match date_filter_of(value, now) {
                Some(f) => Some(((QuerySpec { date_filter: Some(f), ..q }), parts)),
                None => None,
            }
        } else if key == "mode"@ {
            match mode_of(value) {
                Some(m) => Some(((QuerySpec { match_mode: m, ..q }), parts)),
                None => None,
            }
        } else if key == "scope"@ {
            match scope_of(value) {
                Some(sc) => Some(((QuerySpec { scope: sc, ..q }), parts)),
                None => None,
            }
        } else if key == "limit"@ || key == "max"@ {
            if value.len() > 0 && crate::text::all_digits(value) && crate::text::dec_val(value)
                <= usize::MAX {
                Some(
                    ((QuerySpec {
                        max_results: Some(crate::text::dec_val(value) as usize),
                        ..q
                    }), parts),
                )
            } else {
                Some((q, parts))
            }
        } else {
            Some((q, parts.push(tok)))
        }
    } else {
        Some((q, parts.push(tok)))
    }
}

/// The tokens folded left to right.
pub open spec fn fold_tokens(
    toks: Seq<Seq<char>>,
    st: (QuerySpec, Seq<Seq<char>>),
    now: i64,
) -> Option<(QuerySpec, Seq<Seq<char>>)>
    decreases toks.len(),
{
    if toks.len() == 0 {
        Some(st)
    } else {
        match apply_token(st, toks[0], now) {
            Some(st2) => fold_tokens(toks.drop_first(), st2, now),
            None => None,
        }
    }
}

/// The query an input line denotes at instant `now`: its tokens folded,
/// the pattern joined from the pattern parts, which must not be empty.
pub open spec fn parse_spec(input: Seq<char>, now: i64) -> Option<QuerySpec> {
    match fold_tokens(split_ws(input), (init_query(), Seq::empty()), now) {
        Some(st) => {
            if st.1.len() == 0 {
                None
            } else {
                Some(QuerySpec { pattern: join_ws(st.1), ..st.0 })
            }
        },
        None => None,
    }
}

/// Folding distributes over splitting the token list.
pub proof fn lemma_fold_split(
    toks: Seq<Seq<char>>,
    st: (QuerySpec, Seq<Seq<char>>),
    now: i64,
    i: int,
)
    requires
        0 <= i <= toks.len(),
    ensures
        fold_tokens(toks, st, now) == (match fold_tokens(toks.take(i), st, now) {
            Some(m) => fold_tokens(toks.skip(i), m, now),
            None => None,
        }),
    decreases i,
{
    if i == 0 {
        assert(toks.take(0) =~= Seq::<Seq<char>>::empty());
        assert(toks.skip(0) =~= toks);
    } else {
        assert(toks.take(i)[0] == toks[0]);
        match apply_token(st, toks[0], now) {
            Some(st2) => {
                lemma_fold_split(toks.drop_first(), st2, now, i - 1);
                assert(toks.take(i).drop_first() =~= toks.drop_first().take(i - 1));
                assert(toks.skip(i) =~= toks.drop_first().skip(i - 1));
            },
            None => {
                assert(fold_tokens(toks.take(i), st, now) is None);
            },
        }
    }
}

// ---------------------------------------------------------------------------
// The printer
// ---------------------------------------------------------------------------

/// Days between `t` and `now`, for rendering a relative date; clamped at
/// zero for instants after `now`.
pub open spec fn days_back(t: i64, now: i64) -> nat {
    if now >= t {
        ((now - t) / (DAY_SECONDS as int)) as nat
    } else {
        0
    }
}

pub open spec fn print_rel(t: i64, now: i64) -> Seq<char> {
    crate::text::dec_rep(days_back(t, now)) + "d"@
}

pub open spec fn print_size_value(f: SizeFilter) -> Seq<char> {
    match f {
        SizeFilter::Exact(n) => crate::text::dec_rep(n as nat),
        SizeFilter::GreaterThan(n) => seq!['>'] + crate::text::dec_rep(n as nat),
        SizeFilter::LessThan(n) => seq!['<'] + crate::text::dec_rep(n as nat),
        SizeFilter::Range(a, b) => crate::text::dec_rep(a as nat) + ".."@ + crate::text::dec_rep(
            b as nat,
        ),
    }
}

pub open spec fn print_date_value(f: DateFilter, now: i64) -> Seq<char> {
    match f {
        DateFilter::On(t) => print_rel(t, now),
        DateFilter::After(t) => seq!['>'] + print_rel(t, now),
        DateFilter::Before(t) => seq!['<'] + print_rel(t, now),
        DateFilter::Between(a, b) => print_rel(a, now) + ".."@ + print_rel(b, now),
    }
}

pub open spec fn print_mode_value(m: MatchMode) -> Seq<char> {
    match m {
        MatchMode::Exact => "exact"@,
        MatchMode::CaseInsensitive => "insensitive"@,
        MatchMode::Fuzzy => "fuzzy"@,
        MatchMode::Regex => "regex"@,
        MatchMode::Glob => "glob"@,
    }
}

pub open spec fn print_scope_value(s: SearchScope) -> Seq<char> {
    match s {
        SearchScope::Name => "name"@,
        SearchScope::Path => "path"@,
        SearchScope::Content => "content"@,
        SearchScope::All => "all"@,
    }
}

pub open spec fn ext_part(q: QuerySpec) -> Seq<char> {
    if q.extensions.len() == 0 {
        Seq::<char>::empty()
    } else {
        " ext:"@ + crate::text::join_sep(q.extensions, ',')
    }
}

pub open spec fn size_part(q: QuerySpec) -> Seq<char> {
    match q.size_filter {
        Some(f) => " size:"@ + print_size_value(f),
        None => Seq::<char>::empty(),
    }
}

pub open spec fn date_part(q: QuerySpec, now: i64) -> Seq<char> {
    match q.date_filter {
        Some(f) => " date:"@ + print_date_value(f, now),
        None => Seq::<char>::empty(),
    }
}

pub open spec fn mode_part(q: QuerySpec) -> Seq<char> {
    " mode:"@ + print_mode_value(q.match_mode)
}

pub open spec fn scope_part(q: QuerySpec) -> Seq<char> {
    " scope:"@ + print_scope_value(q.scope)
}

pub open spec fn limit_part(q: QuerySpec) -> Seq<char> {
    match q.max_results {
        Some(n) => " limit:"@ + crate::text::dec_rep(n as nat),
        None => Seq::<char>::empty(),
    }
}

/// A query rendered back into the language: the pattern, then each set
/// option as a `key:value` token, the mode and scope always stated.
pub open spec fn print_spec(q: QuerySpec, now: i64) -> Seq<char> {
    q.pattern + ext_part(q) + size_part(q) + date_part(q, now) + mode_part(q) + scope_part(q)
        + limit_part(q)
}

fn ext_part_vec(q: &Query) -> (r: Vec<char>)
    ensures
        r@ == ext_part(q@),
{
    let mut r: Vec<char> = Vec::new();
    if q.extensions.len() == 0 {
        proof {
            assert(r@ =~= ext_part(q@));
        }
        return r;
    }
    push_str_onto(&mut r, " ext:");
    let mut evs: Vec<Vec<char>> = Vec::new();
    let mut i: usize = 0;
    proof {
        assert(views_of(evs@) =~= q@.extensions.take(0));
    }
    while i < q.extensions.len()
        invariant
            i <= q.extensions@.len(),
            views_of(evs@) == q@.extensions.take(i as int),
        decreases q.extensions.len() - i,
    {
        evs.push(chars_of(q.extensions[i].as_str()));
        proof {
            assert(views_of(evs@) =~= q@.extensions.take(i + 1));
        }
        i = i + 1;
    }
    proof {
        assert(q@.extensions.take(q@.extensions.len() as int) =~= q@.extensions);
    }
    let joined = crate::text::join_sep_vec(&evs, ',');
    push_vec_onto(&mut r, &joined);
    proof {
        assert(r@ =~= ext_part(q@));
    }
    r
}

fn size_part_vec(q: &Query) -> (r: Vec<char>)
    ensures
        r@ == size_part(q@),
{
    let mut r: Vec<char> = Vec::new();
    match &q.size_filter {
        Some(f) => {
            push_str_onto(&mut r, " size:");
            let fv = size_value_vec(f);
            push_vec_onto(&mut r, &fv);
            proof {
                assert(r@ =~= size_part(q@));
            }
        },
        None => {
            proof {
                assert(r@ =~= size_part(q@));
            }
        },
    }
    r
}

fn date_part_vec(q: &Query, now: i64) -> (r: Vec<char>)
    ensures
        r@ == date_part(q@, now),
{
    let mut r: Vec<char> = Vec::new();
    match &q.date_filter {
        Some(f) => {
            push_str_onto(&mut r, " date:");
            let fv = date_value_vec(f, now);
            push_vec_onto(&mut r, &fv);
            proof {
                assert(r@ =~= date_part(q@, now));
            }
        },
        None => {
            proof {
                assert(r@ =~= date_part(q@, now));
            }
        },
    }
    r
}

fn mode_part_vec(q: &Query) -> (r: Vec<char>)
    ensures
        r@ == mode_part(q@),
{
    let mut r: Vec<char> = Vec::new();
    push_str_onto(&mut r, " mode:");
    match q.match_mode {
        MatchMode::Exact => push_str_onto(&mut r, "exact"),
        MatchMode::CaseInsensitive => push_str_onto(&mut r, "insensitive"),
        MatchMode::Fuzzy => push_str_onto(&mut r, "fuzzy"),
        MatchMode::Regex => push_str_onto(&mut r, "regex"),
        MatchMode::Glob => push_str_onto(&mut r, "glob"),
    }
    proof {
        assert(r@ =~= mode_part(q@));
    }
    r
}

fn scope_part_vec(q: &Query) -> (r: Vec<char>)
    ensures
        r@ == scope_part(q@),
{
    let mut r: Vec<char> = Vec::new();
    push_str_onto(&mut r, " scope:");
    match q.scope {
        SearchScope::Name => push_str_onto(&mut r, "name"),
        SearchScope::Path => push_str_onto(&mut r, "path"),
        SearchScope::Content => push_str_onto(&mut r, "content"),
        SearchScope::All => push_str_onto(&mut r, "all"),
    }
    proof {
        assert(r@ =~= scope_part(q@));
    }
    r
}

fn limit_part_vec(q: &Query) -> (r: Vec<char>)
    ensures
        r@ == limit_part(q@),
{
    let mut r: Vec<char> = Vec::new();
    match q.max_results {
        Some(n) => {
            push_str_onto(&mut r, " limit:");
            let nv = crate::text::u64_to_dec(n as u64);
            push_vec_onto(&mut r, &nv);
            proof {
                assert(r@ =~= limit_part(q@));
            }
        },
        None => {
            proof {
                assert(r@ =~= limit_part(q@));
            }
        },
    }
    r
}

/// Renders a query as one line of the query language, against `now`.
pub fn print_query(q: &Query, now: i64) -> (r: String)
    ensures
        r@ == print_spec(q@, now),
{
    let mut out: Vec<char> = chars_of(q.pattern.as_str());
    let p1 = ext_part_vec(q);
    push_vec_onto(&mut out, &p1);
    let p2 = size_part_vec(q);
    push_vec_onto(&mut out, &p2);
    let p3 = date_part_vec(q, now);
    push_vec_onto(&mut out, &p3);
    let p4 = mode_part_vec(q);
    push_vec_onto(&mut out, &p4);
    let p5 = scope_part_vec(q);
    push_vec_onto(&mut out, &p5);
    let p6 = limit_part_vec(q);
    push_vec_onto(&mut out, &p6);
    string_of(&out)
}

fn push_str_onto(out: &mut Vec<char>, s: &str)
    ensures
        final(out)@ == old(out)@ + s@,
{
    let sv = chars_of(s);
    push_vec_onto(out, &sv);
}

fn push_vec_onto(out: &mut Vec<char>, s: &Vec<char>)
    ensures
        final(out)@ == old(out)@ + s@,
{
    let mut i: usize = 0;
    while i < s.len()
        invariant
            i <= s@.len(),
            out@ == old(out)@ + s@.take(i as int),
        decreases s.len() - i,
    {
        out.push(s[i]);
        proof {
            assert(old(out)@ + s@.take(i + 1) =~= (old(out)@ + s@.take(i as int)).push(
                s@[i as int],
            ));
        }
        i = i + 1;
    }
    proof {
        assert(s@.take(s@.len() as int) =~= s@);
    }
}

fn rel_vec(t: i64, now: i64) -> (r: Vec<char>)
    ensures
        r@ == print_rel(t, now),
{
    proof {
        reveal_strlit("d");
    }
    let days: u64 = if now >= t {
        let diff: i128 = (now as i128) - (t as i128);
        let d: i128 = diff / (DAY_SECONDS as i128);
        proof {
            assert(0 <= d <= diff) by (nonlinear_arith)
                requires
                    diff >= 0,
                    d == diff / 86400,
            ;
        }
        (d as u64)
    } else {
        0
    };
    let mut r = crate::text::u64_to_dec(days);
    r.push('d');
    proof {
        assert(r@ =~= crate::text::dec_rep(days_back(t, now)) + "d"@);
    }
    r
}

fn size_value_vec(f: &SizeFilter) -> (r: Vec<char>)
    ensures
        r@ == print_size_value(*f),
{
    proof {
        reveal_strlit("..");
    }
    match f {
        SizeFilter::Exact(n) => crate::text::u64_to_dec(*n),
        SizeFilter::GreaterThan(n) => {
            let mut r: Vec<char> = Vec::new();
            r.push('>');
            let nv = crate::text::u64_to_dec(*n);
            push_vec_onto(&mut r, &nv);
            proof {
                assert(r@ =~= seq!['>'] + crate::text::dec_rep(*n as nat));
            }
            r
        },
        SizeFilter::LessThan(n) => {
            let mut r: Vec<char> = Vec::new();
            r.push('<');
            let nv = crate::text::u64_to_dec(*n);
            push_vec_onto(&mut r, &nv);
            proof {
                assert(r@ =~= seq!['<'] + crate::text::dec_rep(*n as nat));
            }
            r
        },
        SizeFilter::Range(a, b) => {
            let mut r = crate::text::u64_to_dec(*a);
            push_str_onto(&mut r, "..");
            let bv = crate::text::u64_to_dec(*b);
            push_vec_onto(&mut r, &bv);
            r
        },
    }
}

fn date_value_vec(f: &DateFilter, now: i64) -> (r: Vec<char>)
    ensures
        r@ == print_date_value(*f, now),
{
    proof {
        reveal_strlit("..");
    }
    match f {
        DateFilter::On(t) => rel_vec(*t, now),
        DateFilter::After(t) => {
            let mut r: Vec<char> = Vec::new();
            r.push('>');
            let tv = rel_vec(*t, now);
            push_vec_onto(&mut r, &tv);
            proof {
                assert(r@ =~= seq!['>'] + print_rel(*t, now));
            }
            r
        },
        DateFilter::Before(t) => {
            let mut r: Vec<char> = Vec::new();
            r.push('<');
            let tv = rel_vec(*t, now);
            push_vec_onto(&mut r, &tv);
            proof {
                assert(r@ =~= seq!['<'] + print_rel(*t, now));
            }
            r
        },
        DateFilter::Between(a, b) => {
            let mut r = rel_vec(*a, now);
            push_str_onto(&mut r, "..");
            let bv = rel_vec(*b, now);
            push_vec_onto(&mut r, &bv);
            r
        },
    }
}

// ---------------------------------------------------------------------------
// What printing guarantees to parsing
// ---------------------------------------------------------------------------

/// A day-aligned instant: at or before `now`, a whole number of days back.
pub open spec fn day_aligned(t: i64, now: i64) -> bool {
    t <= now && ((now as int) - t) % (DAY_SECONDS as int) == 0
}

pub open spec fn df_aligned(f: Option<DateFilter>, now: i64) -> bool {
    match f {
        None => true,
        Some(DateFilter::After(t)) => day_aligned(t, now),
        Some(DateFilter::Before(t)) => day_aligned(t, now),
        Some(DateFilter::On(t)) => day_aligned(t, now),
        Some(DateFilter::Between(a, b)) => day_aligned(a, now) && day_aligned(b, now),
    }
}

/// The state facts printing relies on: extensions are plain and dates
/// are day-aligned.
pub open spec fn state_plain(q: QuerySpec, now: i64) -> bool {
    &&& forall|k: int|
        0 <= k < q.extensions.len() ==> crate::extension::ext_plain(#[trigger] q.extensions[k])
    &&& df_aligned(q.date_filter, now)
}

/// A token the parser hands to the pattern: either no colon, or an
/// unrecognised key.
pub open spec fn pattern_token(tok: Seq<char>) -> bool {
    first_idx_of(tok, ':') >= 0 ==> {
        let key = lower(tok.take(first_idx_of(tok, ':')));
        &&& key != "ext"@
        &&& key != "extension"@
        &&& key != "size"@
        &&& key != "modified"@
        &&& key != "date"@
        &&& key != "mode"@
        &&& key != "scope"@
        &&& key != "limit"@
        &&& key != "max"@
    }
}

/// A pattern token is pushed whatever the state.
proof fn lemma_apply_pattern(st: (QuerySpec, Seq<Seq<char>>), tok: Seq<char>, now: i64)
    requires
        pattern_token(tok),
    ensures
        apply_token(st, tok, now) == Some((st.0, st.1.push(tok))),
{
}

/// A run of pattern tokens folds into the parts, state untouched.
proof fn lemma_fold_patterns(toks: Seq<Seq<char>>, st: (QuerySpec, Seq<Seq<char>>), now: i64)
    requires
        forall|k: int| 0 <= k < toks.len() ==> pattern_token(#[trigger] toks[k]),
    ensures
        fold_tokens(toks, st, now) == Some((st.0, st.1 + toks)),
    decreases toks.len(),
{
    if toks.len() == 0 {
        assert(st.1 + toks =~= st.1);
        assert(fold_tokens(toks, st, now) == Some(st));
        assert((st.0, st.1 + toks) == st);
    } else {
        lemma_apply_pattern(st, toks[0], now);
        assert(forall|k: int|
            0 <= k < toks.len() - 1 ==> #[trigger] toks.drop_first()[k] == toks[k + 1]);
        lemma_fold_patterns(toks.drop_first(), (st.0, st.1.push(toks[0])), now);
        assert(st.1.push(toks[0]) + toks.drop_first() =~= st.1 + toks);
    }
}

/// A day-aligned date option: what the date grammar itself denotes.
proof fn lemma_date_filter_aligned(value: Seq<char>, now: i64)
    requires
        date_filter_of(value, now) is Some,
    ensures
        df_aligned(Some(date_filter_of(value, now)->Some_0), now),
{
    if value.len() > 0 && value[0] == '>' {
        lemma_rel_aligned_instant(value.drop_first(), now);
    } else if value.len() > 0 && value[0] == '<' {
        lemma_rel_aligned_instant(value.drop_first(), now);
    } else if crate::text::contains_seq(value, ".."@) {
        let i = range_split(value);
        lemma_rel_aligned_instant(value.take(i), now);
        lemma_rel_aligned_instant(value.skip(i + 2), now);
    } else {
        lemma_rel_aligned_instant(value, now);
    }
}

proof fn lemma_rel_aligned_instant(s: Seq<char>, now: i64)
    ensures
        rel_date_spec(s, now) is Some ==> day_aligned(rel_date_spec(s, now)->Some_0, now),
{
    if rel_date_spec(s, now) is Some {
        crate::date::lemma_rel_age_aligned(s);
        let age = crate::date::rel_age_spec(s)->Some_0;
        let t = rel_date_spec(s, now)->Some_0;
        assert(t == now - age);
        assert((now as int) - t == age);
    }
}

/// The parsed state stays plain across the whole fold when the tokens
/// are whitespace-free.
proof fn lemma_fold_plain(toks: Seq<Seq<char>>, st: (QuerySpec, Seq<Seq<char>>), now: i64)
    requires
        crate::text::all_good_tokens(toks),
        state_plain(st.0, now),
        forall|k: int|
            0 <= k < st.1.len() ==> pattern_token(#[trigger] st.1[k]) && crate::text::good_token(
                st.1[k],
            ),
        fold_tokens(toks, st, now) is Some,
    ensures
        state_plain(fold_tokens(toks, st, now)->Some_0.0, now),
        forall|k: int|
            0 <= k < fold_tokens(toks, st, now)->Some_0.1.len() ==> pattern_token(
                #[trigger] fold_tokens(toks, st, now)->Some_0.1[k],
            ) && crate::text::good_token(fold_tokens(toks, st, now)->Some_0.1[k]),
    decreases toks.len(),
{
    if toks.len() > 0 {
        let tok = toks[0];
        assert(crate::text::good_token(tok));
        let st2 = apply_token(st, tok, now)->Some_0;
        assert(apply_token(st, tok, now) == Some(st2));
        lemma_apply_plain(st, tok, now);
        assert(forall|k: int|
            0 <= k < toks.len() - 1 ==> #[trigger] toks.drop_first()[k] == toks[k + 1]);
        lemma_fold_plain(toks.drop_first(), st2, now);
    }
}

/// One applied token keeps the state plain and the parts pattern-shaped.
proof fn lemma_apply_plain(st: (QuerySpec, Seq<Seq<char>>), tok: Seq<char>, now: i64)
    requires
        crate::text::good_token(tok),
        state_plain(st.0, now),
        forall|k: int|
            0 <= k < st.1.len() ==> pattern_token(#[trigger] st.1[k]) && crate::text::good_token(
                st.1[k],
            ),
        apply_token(st, tok, now) is Some,
    ensures
        ({
            let st2 = apply_token(st, tok, now)->Some_0;
            &&& state_plain(st2.0, now)
            &&& forall|k: int|
                0 <= k < st2.1.len() ==> pattern_token(#[trigger] st2.1[k])
                    && crate::text::good_token(st2.1[k])
        }),
{
    let st2 = apply_token(st, tok, now)->Some_0;
    let ci = first_idx_of(tok, ':');
    if ci >= 0 {
        crate::text::lemma_first_idx(tok, ':');
        let key = lower(tok.take(ci));
        let value = tok.skip(ci + 1);
        if key == "ext"@ || key == "extension"@ {
            assert(crate::text::space_free(value)) by {
                assert(forall|j: int|
                    0 <= j < value.len() ==> #[trigger] value[j] == tok[ci + 1 + j]);
            }
            crate::extension::lemma_parsed_exts_plain(value);
        } else if key == "size"@ {
        } else if key == "modified"@ || key == "date"@ {
            lemma_date_filter_aligned(value, now);
        } else if key == "mode"@ {
        } else if key == "scope"@ {
        } else if key == "limit"@ || key == "max"@ {
        } else {
            lemma_parts_push(st.1, tok);
        }
    } else {
        assert(pattern_token(tok));
        lemma_parts_push(st.1, tok);
    }
}

proof fn lemma_parts_push(parts: Seq<Seq<char>>, tok: Seq<char>)
    requires
        pattern_token(tok),
        crate::text::good_token(tok),
        forall|k: int|
            0 <= k < parts.len() ==> pattern_token(#[trigger] parts[k])
                && crate::text::good_token(parts[k]),
    ensures
        forall|k: int|
            0 <= k < parts.push(tok).len() ==> pattern_token(#[trigger] parts.push(tok)[k])
                && crate::text::good_token(parts.push(tok)[k]),
{
    assert forall|k: int|
        0 <= k < parts.push(tok).len() implies pattern_token(#[trigger] parts.push(tok)[k])
        && crate::text::good_token(parts.push(tok)[k]) by {
        if k < parts.len() {
            assert(parts.push(tok)[k] == parts[k]);
        } else {
            assert(parts.push(tok)[k] == tok);
        }
    }
}

/// Lowercasing fixes anything without uppercase letters.
proof fn lemma_lower_id(s: Seq<char>)
    requires
        forall|j: int| 0 <= j < s.len() ==> !crate::text::is_ascii_upper(#[trigger] s[j]),
    ensures
        lower(s) == s,
{
    assert forall|j: int| 0 <= j < s.len() implies #[trigger] lower(s)[j] == s[j] by {
        assert(lower(s)[j] == crate::text::lower_char(s[j]));
    }
    assert(lower(s) =~= s);
}

/// A dot-free sequence holds no `..`.
proof fn lemma_no_dots(v: Seq<char>)
    requires
        forall|j: int| 0 <= j < v.len() ==> (#[trigger] v[j]) != '.',
    ensures
        !contains_seq(v, ".."@),
{
    proof_dots_reveal();
    if contains_seq(v, ".."@) {
        let i = choose|i: int| crate::text::matches_at(v, ".."@, i);
        assert(v.subrange(i, i + 2)[0] == v[i]);
    }
}

proof fn proof_dots_reveal()
    ensures
        ".."@.len() == 2,
        ".."@[0] == '.',
        ".."@[1] == '.',
{
    reveal_strlit("..");
}

/// In `a ++ ".." ++ b` with a dot-free head, the first `..` sits right
/// after the head, and the sides come back out.
proof fn lemma_range_parts(a: Seq<char>, b: Seq<char>)
    requires
        forall|j: int| 0 <= j < a.len() ==> (#[trigger] a[j]) != '.',
    ensures
        ({
            let v = a + ".."@ + b;
            &&& contains_seq(v, ".."@)
            &&& range_split(v) == a.len()
            &&& v.take(a.len() as int) == a
            &&& v.skip(a.len() as int + 2) == b
        }),
{
    proof_dots_reveal();
    let v = a + ".."@ + b;
    assert(crate::text::matches_at(v, ".."@, a.len() as int)) by {
        assert(v.subrange(a.len() as int, a.len() as int + 2) =~= ".."@);
    }
    assert forall|j: int| 0 <= j < a.len() implies !crate::text::matches_at(v, ".."@, j) by {
        if crate::text::matches_at(v, ".."@, j) {
            assert(v.subrange(j, j + 2)[0] == v[j]);
            assert(v[j] == a[j]);
        }
    }
    let w = range_split(v);
    assert(crate::text::matches_at(v, ".."@, w) && (forall|j: int|
        0 <= j < w ==> !crate::text::matches_at(v, ".."@, j))) by {
        assert(crate::text::matches_at(v, ".."@, a.len() as int) && (forall|j: int|
            0 <= j < a.len() ==> !crate::text::matches_at(v, ".."@, j)));
    }
    if w < a.len() {
        assert(!crate::text::matches_at(v, ".."@, w));
    } else if w > a.len() {
        assert(!crate::text::matches_at(v, ".."@, a.len() as int));
    }
    assert(v.take(a.len() as int) =~= a);
    assert(v.skip(a.len() as int + 2) =~= b);
}

/// A printed size value reads back as exactly its filter.
pub proof fn lemma_size_value_round_trip(f: SizeFilter)
    ensures
        size_filter_of(print_size_value(f)) == Some(f),
{
    proof_dots_reveal();
    match f {
        SizeFilter::Exact(n) => {
            let v = crate::text::dec_rep(n as nat);
            crate::text::lemma_dec_rep_round_trip(n as nat);
            crate::text::lemma_digits_plain(v);
            assert(crate::text::is_digit_char(v[0]));
            lemma_no_dots(v);
            crate::size::lemma_parse_size_digits(n);
        },
        SizeFilter::GreaterThan(n) => {
            let d = crate::text::dec_rep(n as nat);
            let v = seq!['>'] + d;
            assert(v[0] == '>');
            assert(v.drop_first() =~= d);
            crate::size::lemma_parse_size_digits(n);
        },
        SizeFilter::LessThan(n) => {
            let d = crate::text::dec_rep(n as nat);
            let v = seq!['<'] + d;
            assert(v[0] == '<');
            assert(v.drop_first() =~= d);
            crate::size::lemma_parse_size_digits(n);
        },
        SizeFilter::Range(lo, hi) => {
            let da = crate::text::dec_rep(lo as nat);
            let db = crate::text::dec_rep(hi as nat);
            crate::text::lemma_dec_rep_round_trip(lo as nat);
            crate::text::lemma_dec_rep_round_trip(hi as nat);
            crate::text::lemma_digits_plain(da);
            crate::text::lemma_digits_plain(db);
            assert(forall|j: int| 0 <= j < da.len() ==> (#[trigger] da[j]) != '.');
            assert(forall|j: int| 0 <= j < db.len() ==> (#[trigger] db[j]) != '.');
            lemma_range_parts(da, db);
            let v = da + ".."@ + db;
            assert(print_size_value(f) == v);
            assert(v[0] == da[0]);
            assert(crate::text::is_digit_char(v[0]));
            lemma_no_dots(db);
            crate::size::lemma_parse_size_digits(lo);
            crate::size::lemma_parse_size_digits(hi);
        },
    }
}

/// A day-aligned instant prints as a relative day count that reads back
/// as exactly that instant, in digit-and-`d` characters.
proof fn lemma_print_rel_round(t: i64, now: i64)
    requires
        day_aligned(t, now),
    ensures
        rel_date_spec(print_rel(t, now), now) == Some(t),
        print_rel(t, now).len() > 0,
        crate::text::is_digit_char(print_rel(t, now)[0]),
        forall|j: int| 0 <= j < print_rel(t, now).len() ==> (#[trigger] print_rel(t, now)[j])
            != '.' && print_rel(t, now)[j] != '>' && print_rel(t, now)[j] != '<',
{
    let diff = (now as int) - t;
    let days_int = diff / (DAY_SECONDS as int);
    vstd::arithmetic::div_mod::lemma_fundamental_div_mod(diff, DAY_SECONDS as int);
    assert(diff == (DAY_SECONDS as int) * days_int);
    assert(days_int >= 0) by (nonlinear_arith)
        requires
            diff >= 0,
            diff == (DAY_SECONDS as int) * days_int,
    ;
    assert(days_int <= diff) by (nonlinear_arith)
        requires
            diff == (DAY_SECONDS as int) * days_int,
            days_int >= 0,
    ;
    assert(days_back(t, now) == days_int as nat);
    assert(days_int <= u64::MAX);
    let days: u64 = days_int as u64;
    crate::date::lemma_rel_date_days(days, now);
    assert((now as int) - (days as int) * (DAY_SECONDS as int) == t) by (nonlinear_arith)
        requires
            diff == (DAY_SECONDS as int) * days_int,
            days == days_int,
            diff == (now as int) - t,
    ;
    let d = crate::text::dec_rep(days as nat);
    crate::text::lemma_dec_rep_round_trip(days as nat);
    crate::text::lemma_digits_plain(d);
    let v = print_rel(t, now);
    assert(v == d + "d"@);
    reveal_strlit("d");
    assert(v[0] == d[0]);
    assert forall|j: int| 0 <= j < v.len() implies (#[trigger] v[j]) != '.' && v[j] != '>'
        && v[j] != '<' by {
        if j < d.len() {
            assert(v[j] == d[j]);
            assert(crate::text::is_digit_char(d[j]));
        } else {
            assert(v[j] == 'd');
        }
    }
}

/// A printed date value reads back as exactly its filter when its
/// instants are day-aligned — as every parsed filter's are.
pub proof fn lemma_date_value_round_trip(f: DateFilter, now: i64)
    requires
        df_aligned(Some(f), now),
    ensures
        date_filter_of(print_date_value(f, now), now) == Some(f),
{
    proof_dots_reveal();
    match f {
        DateFilter::On(t) => {
            lemma_print_rel_round(t, now);
            let v = print_rel(t, now);
            lemma_no_dots(v);
        },
        DateFilter::After(t) => {
            lemma_print_rel_round(t, now);
            let r = print_rel(t, now);
            let v = seq!['>'] + r;
            assert(v[0] == '>');
            assert(v.drop_first() =~= r);
        },
        DateFilter::Before(t) => {
            lemma_print_rel_round(t, now);
            let r = print_rel(t, now);
            let v = seq!['<'] + r;
            assert(v[0] == '<');
            assert(v.drop_first() =~= r);
        },
        DateFilter::Between(a, b) => {
            lemma_print_rel_round(a, now);
            lemma_print_rel_round(b, now);
            let ra = print_rel(a, now);
            let rb = print_rel(b, now);
            lemma_range_parts(ra, rb);
            let v = ra + ".."@ + rb;
            assert(print_date_value(f, now) == v);
            assert(v[0] == ra[0]);
            assert(crate::text::is_digit_char(v[0]));
            lemma_no_dots(rb);
        },
    }
}

/// A printed mode reads back as exactly itself.
pub proof fn lemma_mode_round_trip(m: MatchMode)
    ensures
        mode_of(print_mode_value(m)) == Some(m),
{
    proof_mode_reveals();
    let v = print_mode_value(m);
    lemma_lower_id(v);
    match m {
        MatchMode::Exact => {
            assert(lower(v) == "exact"@);
        },
        MatchMode::CaseInsensitive => {
            assert(lower(v) == "insensitive"@);
        },
        MatchMode::Fuzzy => {
            assert(lower(v) == "fuzzy"@);
        },
        MatchMode::Regex => {
            assert(lower(v) == "regex"@);
        },
        MatchMode::Glob => {
            assert(lower(v) == "glob"@);
        },
    }
}

proof fn proof_mode_reveals()
    ensures
        forall|j: int|
            0 <= j < "exact"@.len() ==> !crate::text::is_ascii_upper(#[trigger] "exact"@[j]),
        forall|j: int|
            0 <= j < "insensitive"@.len() ==> !crate::text::is_ascii_upper(
                #[trigger] "insensitive"@[j],
            ),
        forall|j: int|
            0 <= j < "fuzzy"@.len() ==> !crate::text::is_ascii_upper(#[trigger] "fuzzy"@[j]),
        forall|j: int|
            0 <= j < "regex"@.len() ==> !crate::text::is_ascii_upper(#[trigger] "regex"@[j]),
        forall|j: int|
            0 <= j < "glob"@.len() ==> !crate::text::is_ascii_upper(#[trigger] "glob"@[j]),
        "exact"@.len() == 5,
        "case"@.len() == 4,
        "casesensitive"@.len() == 13,
        "insensitive"@.len() == 11,
        "caseinsensitive"@.len() == 15,
        "fuzzy"@.len() == 5,
        "regex"@.len() == 5,
        "glob"@.len() == 4,
        "exact"@[0] == 'e' && "fuzzy"@[0] == 'f' && "regex"@[0] == 'r' && "glob"@[0] == 'g'
            && "case"@[0] == 'c' && "insensitive"@[0] == 'i',
{
    reveal_strlit("exact");
    reveal_strlit("case");
    reveal_strlit("casesensitive");
    reveal_strlit("insensitive");
    reveal_strlit("caseinsensitive");
    reveal_strlit("fuzzy");
    reveal_strlit("regex");
    reveal_strlit("glob");
}

/// A printed scope reads back as exactly itself.
pub proof fn lemma_scope_round_trip(s: SearchScope)
    ensures
        scope_of(print_scope_value(s)) == Some(s),
{
    proof_scope_reveals();
    let v = print_scope_value(s);
    lemma_lower_id(v);
    match s {
        SearchScope::Name => {
            assert(lower(v) == "name"@);
        },
        SearchScope::Path => {
            assert(lower(v) == "path"@);
        },
        SearchScope::Content => {
            assert(lower(v) == "content"@);
        },
        SearchScope::All => {
            assert(lower(v) == "all"@);
        },
    }
}

proof fn proof_scope_reveals()
    ensures
        forall|j: int|
            0 <= j < "name"@.len() ==> !crate::text::is_ascii_upper(#[trigger] "name"@[j]),
        forall|j: int|
            0 <= j < "path"@.len() ==> !crate::text::is_ascii_upper(#[trigger] "path"@[j]),
        forall|j: int|
            0 <= j < "content"@.len() ==> !crate::text::is_ascii_upper(#[trigger] "content"@[j]),
        forall|j: int|
            0 <= j < "all"@.len() ==> !crate::text::is_ascii_upper(#[trigger] "all"@[j]),
        "name"@.len() == 4 && "path"@.len() == 4 && "content"@.len() == 7 && "all"@.len() == 3,
        "name"@[0] == 'n' && "path"@[0] == 'p' && "content"@[0] == 'c' && "all"@[0] == 'a',
{
    reveal_strlit("name");
    reveal_strlit("path");
    reveal_strlit("content");
    reveal_strlit("all");
}

// ---------------------------------------------------------------------------
// The printed line, seen as tokens
// ---------------------------------------------------------------------------

pub open spec fn ext_tok(q: QuerySpec) -> Seq<char> {
    "ext:"@ + crate::text::join_sep(q.extensions, ',')
}

pub open spec fn size_tok(f: SizeFilter) -> Seq<char> {
    "size:"@ + print_size_value(f)
}

pub open spec fn date_tok(f: DateFilter, now: i64) -> Seq<char> {
    "date:"@ + print_date_value(f, now)
}

pub open spec fn mode_tok(m: MatchMode) -> Seq<char> {
    "mode:"@ + print_mode_value(m)
}

pub open spec fn scope_tok(s: SearchScope) -> Seq<char> {
    "scope:"@ + print_scope_value(s)
}

pub open spec fn limit_tok(n: usize) -> Seq<char> {
    "limit:"@ + crate::text::dec_rep(n as nat)
}

pub open spec fn l_ext(q: QuerySpec) -> Seq<Seq<char>> {
    if q.extensions.len() > 0 {
        seq![ext_tok(q)]
    } else {
        Seq::<Seq<char>>::empty()
    }
}

pub open spec fn l_size(q: QuerySpec) -> Seq<Seq<char>> {
    match q.size_filter {
        Some(f) => seq![size_tok(f)],
        None => Seq::<Seq<char>>::empty(),
    }
}

pub open spec fn l_date(q: QuerySpec, now: i64) -> Seq<Seq<char>> {
    match q.date_filter {
        Some(f) => seq![date_tok(f, now)],
        None => Seq::<Seq<char>>::empty(),
    }
}

pub open spec fn l_limit(q: QuerySpec) -> Seq<Seq<char>> {
    match q.max_results {
        Some(n) => seq![limit_tok(n)],
        None => Seq::<Seq<char>>::empty(),
    }
}

/// The option tokens a query prints, in print order.
pub open spec fn opt_tokens(q: QuerySpec, now: i64) -> Seq<Seq<char>> {
    l_ext(q) + l_size(q) + l_date(q, now) + seq![mode_tok(q.match_mode)] + seq![
        scope_tok(q.scope),
    ] + l_limit(q)
}

/// What a run of further tokens adds to a printed line: a space before
/// each.
pub open spec fn glue(opts: Seq<Seq<char>>) -> Seq<char>
    decreases opts.len(),
{
    if opts.len() == 0 {
        Seq::empty()
    } else {
        seq![' '] + opts[0] + glue(opts.drop_first())
    }
}

proof fn lemma_glue_concat(a: Seq<Seq<char>>, b: Seq<Seq<char>>)
    ensures
        glue(a + b) == glue(a) + glue(b),
    decreases a.len(),
{
    if a.len() == 0 {
        assert(a + b =~= b);
        assert(glue(a) + glue(b) =~= glue(b));
    } else {
        assert((a + b)[0] == a[0]);
        assert((a + b).drop_first() =~= a.drop_first() + b);
        lemma_glue_concat(a.drop_first(), b);
        assert(seq![' '] + a[0] + (glue(a.drop_first()) + glue(b)) =~= (seq![' '] + a[0]
            + glue(a.drop_first())) + glue(b));
    }
}

proof fn lemma_glue_single(t: Seq<char>)
    ensures
        glue(seq![t]) == seq![' '] + t,
{
    assert(seq![t][0] == t);
    assert(seq![t].drop_first() =~= Seq::<Seq<char>>::empty());
    assert(glue(Seq::<Seq<char>>::empty()) == Seq::<char>::empty());
    assert(seq![' '] + t + Seq::<char>::empty() =~= seq![' '] + t);
}

/// Appending tokens to a nonempty line glues each behind a space.
proof fn lemma_join_extend(parts: Seq<Seq<char>>, opts: Seq<Seq<char>>)
    requires
        parts.len() > 0,
    ensures
        join_ws(parts + opts) == join_ws(parts) + glue(opts),
    decreases opts.len(),
{
    if opts.len() == 0 {
        assert(parts + opts =~= parts);
        assert(join_ws(parts) + glue(opts) =~= join_ws(parts));
    } else {
        let parts2 = parts.push(opts[0]);
        crate::text::lemma_join_snoc(parts, opts[0]);
        assert(parts + opts =~= parts2 + opts.drop_first());
        lemma_join_extend(parts2, opts.drop_first());
        assert((join_ws(parts) + seq![' '] + opts[0]) + glue(opts.drop_first()) =~= join_ws(
            parts,
        ) + (seq![' '] + opts[0] + glue(opts.drop_first())));
    }
}

proof fn proof_part_reveals()
    ensures
        " ext:"@ == seq![' '] + "ext:"@,
        " size:"@ == seq![' '] + "size:"@,
        " date:"@ == seq![' '] + "date:"@,
        " mode:"@ == seq![' '] + "mode:"@,
        " scope:"@ == seq![' '] + "scope:"@,
        " limit:"@ == seq![' '] + "limit:"@,
        "ext:"@ == "ext"@ + seq![':'],
        "size:"@ == "size"@ + seq![':'],
        "date:"@ == "date"@ + seq![':'],
        "mode:"@ == "mode"@ + seq![':'],
        "scope:"@ == "scope"@ + seq![':'],
        "limit:"@ == "limit"@ + seq![':'],
{
    reveal_strlit(" ext:");
    reveal_strlit(" size:");
    reveal_strlit(" date:");
    reveal_strlit(" mode:");
    reveal_strlit(" scope:");
    reveal_strlit(" limit:");
    reveal_strlit("ext:");
    reveal_strlit("size:");
    reveal_strlit("date:");
    reveal_strlit("mode:");
    reveal_strlit("scope:");
    reveal_strlit("limit:");
    reveal_strlit("ext");
    reveal_strlit("size");
    reveal_strlit("date");
    reveal_strlit("mode");
    reveal_strlit("scope");
    reveal_strlit("limit");
    assert(" ext:"@ =~= seq![' '] + "ext:"@);
    assert(" size:"@ =~= seq![' '] + "size:"@);
    assert(" date:"@ =~= seq![' '] + "date:"@);
    assert(" mode:"@ =~= seq![' '] + "mode:"@);
    assert(" scope:"@ =~= seq![' '] + "scope:"@);
    assert(" limit:"@ =~= seq![' '] + "limit:"@);
    assert("ext:"@ =~= "ext"@ + seq![':']);
    assert("size:"@ =~= "size"@ + seq![':']);
    assert("date:"@ =~= "date"@ + seq![':']);
    assert("mode:"@ =~= "mode"@ + seq![':']);
    assert("scope:"@ =~= "scope"@ + seq![':']);
    assert("limit:"@ =~= "limit"@ + seq![':']);
}

proof fn proof_key_reveals()
    ensures
        "ext"@.len() == 3 && "ext"@[0] == 'e',
        "extension"@.len() == 9,
        "size"@.len() == 4 && "size"@[0] == 's',
        "modified"@.len() == 8,
        "date"@.len() == 4 && "date"@[0] == 'd',
        "mode"@.len() == 4 && "mode"@[0] == 'm',
        "scope"@.len() == 5 && "scope"@[0] == 's',
        "limit"@.len() == 5 && "limit"@[0] == 'l',
        "max"@.len() == 3 && "max"@[0] == 'm',
        forall|j: int| 0 <= j < "ext"@.len() ==> (#[trigger] "ext"@[j]) != ':'
            && !crate::text::is_ascii_upper("ext"@[j]) && !crate::text::is_space("ext"@[j]),
        forall|j: int| 0 <= j < "size"@.len() ==> (#[trigger] "size"@[j]) != ':'
            && !crate::text::is_ascii_upper("size"@[j]) && !crate::text::is_space("size"@[j]),
        forall|j: int| 0 <= j < "date"@.len() ==> (#[trigger] "date"@[j]) != ':'
            && !crate::text::is_ascii_upper("date"@[j]) && !crate::text::is_space("date"@[j]),
        forall|j: int| 0 <= j < "mode"@.len() ==> (#[trigger] "mode"@[j]) != ':'
            && !crate::text::is_ascii_upper("mode"@[j]) && !crate::text::is_space("mode"@[j]),
        forall|j: int| 0 <= j < "scope"@.len() ==> (#[trigger] "scope"@[j]) != ':'
            && !crate::text::is_ascii_upper("scope"@[j]) && !crate::text::is_space(
            "scope"@[j],
        ),
        forall|j: int| 0 <= j < "limit"@.len() ==> (#[trigger] "limit"@[j]) != ':'
            && !crate::text::is_ascii_upper("limit"@[j]) && !crate::text::is_space(
            "limit"@[j],
        ),
{
    reveal_strlit("ext");
    reveal_strlit("extension");
    reveal_strlit("size");
    reveal_strlit("modified");
    reveal_strlit("date");
    reveal_strlit("mode");
    reveal_strlit("scope");
    reveal_strlit("limit");
    reveal_strlit("max");
}

/// Each printed option part is its token list glued.
proof fn lemma_part_glues(q: QuerySpec, now: i64)
    ensures
        ext_part(q) == glue(l_ext(q)),
        size_part(q) == glue(l_size(q)),
        date_part(q, now) == glue(l_date(q, now)),
        mode_part(q) == glue(seq![mode_tok(q.match_mode)]),
        scope_part(q) == glue(seq![scope_tok(q.scope)]),
        limit_part(q) == glue(l_limit(q)),
{
    proof_part_reveals();
    if q.extensions.len() > 0 {
        lemma_glue_single(ext_tok(q));
        assert(ext_part(q) =~= glue(l_ext(q)));
    } else {
        assert(ext_part(q) =~= glue(l_ext(q)));
    }
    match q.size_filter {
        Some(f) => {
            lemma_glue_single(size_tok(f));
            assert(size_part(q) =~= glue(l_size(q)));
        },
        None => {
            assert(size_part(q) =~= glue(l_size(q)));
        },
    }
    match q.date_filter {
        Some(f) => {
            lemma_glue_single(date_tok(f, now));
            assert(date_part(q, now) =~= glue(l_date(q, now)));
        },
        None => {
            assert(date_part(q, now) =~= glue(l_date(q, now)));
        },
    }
    lemma_glue_single(mode_tok(q.match_mode));
    assert(mode_part(q) =~= glue(seq![mode_tok(q.match_mode)]));
    lemma_glue_single(scope_tok(q.scope));
    assert(scope_part(q) =~= glue(seq![scope_tok(q.scope)]));
    match q.max_results {
        Some(n) => {
            lemma_glue_single(limit_tok(n));
            assert(limit_part(q) =~= glue(l_limit(q)));
        },
        None => {
            assert(limit_part(q) =~= glue(l_limit(q)));
        },
    }
}

/// Gluing distributes over the six option lists.
proof fn lemma_glue_opts(q: QuerySpec, now: i64)
    ensures
        glue(opt_tokens(q, now)) == glue(l_ext(q)) + glue(l_size(q)) + glue(l_date(q, now))
            + glue(seq![mode_tok(q.match_mode)]) + glue(seq![scope_tok(q.scope)]) + glue(
            l_limit(q),
        ),
{
    let a = l_ext(q);
    let b = l_size(q);
    let c = l_date(q, now);
    let d: Seq<Seq<char>> = seq![mode_tok(q.match_mode)];
    let e: Seq<Seq<char>> = seq![scope_tok(q.scope)];
    let f = l_limit(q);
    lemma_glue_concat(a + b + c + d + e, f);
    lemma_glue_concat(a + b + c + d, e);
    lemma_glue_concat(a + b + c, d);
    lemma_glue_concat(a + b, c);
    lemma_glue_concat(a, b);
}

/// The printed line is the pattern with the option tokens glued on.
proof fn lemma_print_as_tokens(q: QuerySpec, now: i64)
    ensures
        print_spec(q, now) == q.pattern + glue(opt_tokens(q, now)),
{
    lemma_part_glues(q, now);
    lemma_glue_opts(q, now);
    assert(print_spec(q, now) =~= q.pattern + glue(opt_tokens(q, now)));
}

/// Concatenation keeps whitespace-freedom.
proof fn lemma_concat_space_free(a: Seq<char>, b: Seq<char>)
    requires
        crate::text::space_free(a),
        crate::text::space_free(b),
    ensures
        crate::text::space_free(a + b),
{
    assert forall|j: int|
        0 <= j < (a + b).len() implies !crate::text::is_space(#[trigger] (a + b)[j]) by {
        if j < a.len() {
            assert((a + b)[j] == a[j]);
        } else {
            assert((a + b)[j] == b[j - a.len()]);
        }
    }
}

/// Joining whitespace-free pieces with a comma stays whitespace-free.
proof fn lemma_join_sep_space_free(pieces: Seq<Seq<char>>)
    requires
        forall|k: int|
            0 <= k < pieces.len() ==> crate::text::space_free(#[trigger] pieces[k]),
    ensures
        crate::text::space_free(crate::text::join_sep(pieces, ',')),
    decreases pieces.len(),
{
    if pieces.len() == 1 {
        assert(crate::text::join_sep(pieces, ',') == pieces[0]);
    } else if pieces.len() > 1 {
        assert(forall|k: int|
            0 <= k < pieces.len() - 1 ==> #[trigger] pieces.drop_first()[k] == pieces[k + 1]);
        lemma_join_sep_space_free(pieces.drop_first());
        assert(crate::text::space_free(seq![','])) by {
            assert(seq![','][0] == ',');
        }
        lemma_concat_space_free(pieces[0], seq![',']);
        lemma_concat_space_free(pieces[0] + seq![','], crate::text::join_sep(
            pieces.drop_first(),
            ',',
        ));
        assert(pieces[0] + seq![','] + crate::text::join_sep(pieces.drop_first(), ',')
            =~= (pieces[0] + seq![',']) + crate::text::join_sep(pieces.drop_first(), ','));
    }
}

/// A printed size value holds no whitespace.
proof fn lemma_size_value_plain(f: SizeFilter)
    ensures
        crate::text::space_free(print_size_value(f)),
{
    proof_dots_reveal();
    match f {
        SizeFilter::Exact(n) => {
            crate::text::lemma_dec_rep_round_trip(n as nat);
            crate::text::lemma_digits_plain(crate::text::dec_rep(n as nat));
        },
        SizeFilter::GreaterThan(n) => {
            crate::text::lemma_dec_rep_round_trip(n as nat);
            crate::text::lemma_digits_plain(crate::text::dec_rep(n as nat));
            assert(crate::text::space_free(seq!['>'])) by {
                assert(seq!['>'][0] == '>');
            }
            lemma_concat_space_free(seq!['>'], crate::text::dec_rep(n as nat));
        },
        SizeFilter::LessThan(n) => {
            crate::text::lemma_dec_rep_round_trip(n as nat);
            crate::text::lemma_digits_plain(crate::text::dec_rep(n as nat));
            assert(crate::text::space_free(seq!['<'])) by {
                assert(seq!['<'][0] == '<');
            }
            lemma_concat_space_free(seq!['<'], crate::text::dec_rep(n as nat));
        },
        SizeFilter::Range(lo, hi) => {
            crate::text::lemma_dec_rep_round_trip(lo as nat);
            crate::text::lemma_digits_plain(crate::text::dec_rep(lo as nat));
            crate::text::lemma_dec_rep_round_trip(hi as nat);
            crate::text::lemma_digits_plain(crate::text::dec_rep(hi as nat));
            assert(crate::text::space_free(".."@)) by {
                assert(forall|j: int|
                    0 <= j < ".."@.len() ==> (#[trigger] ".."@[j]) == '.');
            }
            lemma_concat_space_free(crate::text::dec_rep(lo as nat), ".."@);
            lemma_concat_space_free(
                crate::text::dec_rep(lo as nat) + ".."@,
                crate::text::dec_rep(hi as nat),
            );
        },
    }
}

/// A printed relative date holds no whitespace.
proof fn lemma_rel_value_plain(t: i64, now: i64)
    ensures
        crate::text::space_free(print_rel(t, now)),
{
    reveal_strlit("d");
    let d = crate::text::dec_rep(days_back(t, now));
    crate::text::lemma_dec_rep_round_trip(days_back(t, now));
    crate::text::lemma_digits_plain(d);
    assert(crate::text::space_free("d"@)) by {
        assert("d"@[0] == 'd');
    }
    lemma_concat_space_free(d, "d"@);
}

/// A printed date value holds no whitespace.
proof fn lemma_date_value_plain(f: DateFilter, now: i64)
    ensures
        crate::text::space_free(print_date_value(f, now)),
{
    proof_dots_reveal();
    match f {
        DateFilter::On(t) => {
            lemma_rel_value_plain(t, now);
        },
        DateFilter::After(t) => {
            lemma_rel_value_plain(t, now);
            assert(crate::text::space_free(seq!['>'])) by {
                assert(seq!['>'][0] == '>');
            }
            lemma_concat_space_free(seq!['>'], print_rel(t, now));
        },
        DateFilter::Before(t) => {
            lemma_rel_value_plain(t, now);
            assert(crate::text::space_free(seq!['<'])) by {
                assert(seq!['<'][0] == '<');
            }
            lemma_concat_space_free(seq!['<'], print_rel(t, now));
        },
        DateFilter::Between(a, b) => {
            lemma_rel_value_plain(a, now);
            lemma_rel_value_plain(b, now);
            assert(crate::text::space_free(".."@)) by {
                assert(forall|j: int|
                    0 <= j < ".."@.len() ==> (#[trigger] ".."@[j]) == '.');
            }
            lemma_concat_space_free(print_rel(a, now), ".."@);
            lemma_concat_space_free(print_rel(a, now) + ".."@, print_rel(b, now));
        },
    }
}

proof fn proof_value_lit_reveals()
    ensures
        crate::text::space_free("ext:"@),
        crate::text::space_free("size:"@),
        crate::text::space_free("date:"@),
        crate::text::space_free("mode:"@),
        crate::text::space_free("scope:"@),
        crate::text::space_free("limit:"@),
        crate::text::space_free("exact"@),
        crate::text::space_free("insensitive"@),
        crate::text::space_free("fuzzy"@),
        crate::text::space_free("regex"@),
        crate::text::space_free("glob"@),
        crate::text::space_free("name"@),
        crate::text::space_free("path"@),
        crate::text::space_free("content"@),
        crate::text::space_free("all"@),
        "ext:"@.len() == 4 && "size:"@.len() == 5 && "date:"@.len() == 5 && "mode:"@.len() == 5
            && "scope:"@.len() == 6 && "limit:"@.len() == 6,
{
    reveal_strlit("ext:");
    reveal_strlit("size:");
    reveal_strlit("date:");
    reveal_strlit("mode:");
    reveal_strlit("scope:");
    reveal_strlit("limit:");
    reveal_strlit("exact");
    reveal_strlit("insensitive");
    reveal_strlit("fuzzy");
    reveal_strlit("regex");
    reveal_strlit("glob");
    reveal_strlit("name");
    reveal_strlit("path");
    reveal_strlit("content");
    reveal_strlit("all");
}

/// Every printed option token is nonempty and whitespace-free.
proof fn lemma_opt_tokens_good(q: QuerySpec, now: i64)
    requires
        forall|k: int|
            0 <= k < q.extensions.len() ==> crate::extension::ext_plain(
                #[trigger] q.extensions[k],
            ),
    ensures
        crate::text::all_good_tokens(opt_tokens(q, now)),
{
    proof_value_lit_reveals();
    let opts = opt_tokens(q, now);
    assert forall|k: int|
        0 <= k < opts.len() implies crate::text::good_token(#[trigger] opts[k]) by {
        lemma_one_opt_good(q, now, k);
    }
}

proof fn lemma_one_opt_good(q: QuerySpec, now: i64, k: int)
    requires
        forall|t: int|
            0 <= t < q.extensions.len() ==> crate::extension::ext_plain(
                #[trigger] q.extensions[t],
            ),
        0 <= k < opt_tokens(q, now).len(),
    ensures
        crate::text::good_token(opt_tokens(q, now)[k]),
{
    proof_value_lit_reveals();
    let tok = opt_tokens(q, now)[k];
    assert(tok == ext_tok(q) || tok == mode_tok(q.match_mode) || tok == scope_tok(q.scope) || (
    q.size_filter is Some && tok == size_tok(q.size_filter->Some_0)) || (q.date_filter is Some
        && tok == date_tok(q.date_filter->Some_0, now)) || (q.max_results is Some && tok
        == limit_tok(q.max_results->Some_0))) by {
        let a = l_ext(q);
        let b = l_size(q);
        let c = l_date(q, now);
        let d: Seq<Seq<char>> = seq![mode_tok(q.match_mode)];
        let e: Seq<Seq<char>> = seq![scope_tok(q.scope)];
        let f = l_limit(q);
        assert(opt_tokens(q, now) =~= a + (b + (c + (d + (e + f)))));
    }
    if tok == ext_tok(q) && q.extensions.len() > 0 {
        assert forall|t: int|
            0 <= t < q.extensions.len() implies crate::text::space_free(
            #[trigger] q.extensions[t],
        ) by {
            assert(crate::extension::ext_plain(q.extensions[t]));
        }
        lemma_join_sep_space_free(q.extensions);
        lemma_concat_space_free("ext:"@, crate::text::join_sep(q.extensions, ','));
    }
    if q.size_filter is Some && tok == size_tok(q.size_filter->Some_0) {
        lemma_size_value_plain(q.size_filter->Some_0);
        lemma_concat_space_free("size:"@, print_size_value(q.size_filter->Some_0));
    }
    if q.date_filter is Some && tok == date_tok(q.date_filter->Some_0, now) {
        lemma_date_value_plain(q.date_filter->Some_0, now);
        lemma_concat_space_free("date:"@, print_date_value(q.date_filter->Some_0, now));
    }
    if tok == mode_tok(q.match_mode) {
        lemma_concat_space_free("mode:"@, print_mode_value(q.match_mode));
    }
    if tok == scope_tok(q.scope) {
        lemma_concat_space_free("scope:"@, print_scope_value(q.scope));
    }
    if q.max_results is Some && tok == limit_tok(q.max_results->Some_0) {
        crate::text::lemma_dec_rep_round_trip(q.max_results->Some_0 as nat);
        crate::text::lemma_digits_plain(crate::text::dec_rep(q.max_results->Some_0 as nat));
        lemma_concat_space_free(
            "limit:"@,
            crate::text::dec_rep(q.max_results->Some_0 as nat),
        );
    }
}

/// A `key:value` token splits back into its key and value.
proof fn lemma_key_value(key: Seq<char>, value: Seq<char>)
    requires
        forall|j: int| 0 <= j < key.len() ==> (#[trigger] key[j]) != ':',
    ensures
        ({
            let tok = key + seq![':'] + value;
            &&& first_idx_of(tok, ':') == key.len()
            &&& tok.take(key.len() as int) == key
            &&& tok.skip(key.len() as int + 1) == value
        }),
{
    crate::text::lemma_first_idx_concat(key, value, ':');
    let tok = key + seq![':'] + value;
    assert(tok.take(key.len() as int) =~= key);
    assert(tok.skip(key.len() as int + 1) =~= value);
}

/// Applying a printed extension token sets exactly the extensions.
proof fn lemma_apply_ext(st: (QuerySpec, Seq<Seq<char>>), q: QuerySpec, now: i64)
    requires
        q.extensions.len() > 0,
        forall|k: int|
            0 <= k < q.extensions.len() ==> crate::extension::ext_plain(
                #[trigger] q.extensions[k],
            ),
    ensures
        apply_token(st, ext_tok(q), now) == Some(
            ((QuerySpec { extensions: q.extensions, ..st.0 }), st.1),
        ),
{
    proof_part_reveals();
    proof_key_reveals();
    let joined = crate::text::join_sep(q.extensions, ',');
    let tok = ext_tok(q);
    assert(tok =~= "ext"@ + seq![':'] + joined);
    lemma_key_value("ext"@, joined);
    assert(first_idx_of(tok, ':') == 3);
    lemma_lower_id("ext"@);
    assert(lower(tok.take(3)) == "ext"@);
    assert(tok.skip(4) == joined);
    crate::extension::lemma_ext_round_trip(q.extensions);
    assert(apply_token(st, tok, now)->Some_0.0 =~= (QuerySpec {
        extensions: q.extensions,
        ..st.0
    }));
}

/// Applying a printed size token sets exactly the size filter.
proof fn lemma_apply_size(st: (QuerySpec, Seq<Seq<char>>), f: SizeFilter, now: i64)
    ensures
        apply_token(st, size_tok(f), now) == Some(
            ((QuerySpec { size_filter: Some(f), ..st.0 }), st.1),
        ),
{
    proof_part_reveals();
    proof_key_reveals();
    let v = print_size_value(f);
    let tok = size_tok(f);
    assert(tok =~= "size"@ + seq![':'] + v);
    lemma_key_value("size"@, v);
    assert(first_idx_of(tok, ':') == 4);
    lemma_lower_id("size"@);
    assert(lower(tok.take(4)) == "size"@);
    assert("size"@ != "ext"@ && "size"@ != "extension"@);
    assert(tok.skip(5) == v);
    lemma_size_value_round_trip(f);
    assert(apply_token(st, tok, now)->Some_0.0 =~= (QuerySpec {
        size_filter: Some(f),
        ..st.0
    }));
}

/// Applying a printed date token sets exactly the date filter.
proof fn lemma_apply_date(st: (QuerySpec, Seq<Seq<char>>), f: DateFilter, now: i64)
    requires
        df_aligned(Some(f), now),
    ensures
        apply_token(st, date_tok(f, now), now) == Some(
            ((QuerySpec { date_filter: Some(f), ..st.0 }), st.1),
        ),
{
    proof_part_reveals();
    proof_key_reveals();
    let v = print_date_value(f, now);
    let tok = date_tok(f, now);
    assert(tok =~= "date"@ + seq![':'] + v);
    lemma_key_value("date"@, v);
    assert(first_idx_of(tok, ':') == 4);
    lemma_lower_id("date"@);
    assert(lower(tok.take(4)) == "date"@);
    assert("date"@ != "ext"@ && "date"@ != "extension"@ && "date"@ != "size"@);
    assert(tok.skip(5) == v);
    lemma_date_value_round_trip(f, now);
    assert(apply_token(st, tok, now)->Some_0.0 =~= (QuerySpec {
        date_filter: Some(f),
        ..st.0
    }));
}

/// Applying a printed mode token sets exactly the mode.
proof fn lemma_apply_mode(st: (QuerySpec, Seq<Seq<char>>), m: MatchMode, now: i64)
    ensures
        apply_token(st, mode_tok(m), now) == Some(
            ((QuerySpec { match_mode: m, ..st.0 }), st.1),
        ),
{
    proof_part_reveals();
    proof_key_reveals();
    let v = print_mode_value(m);
    let tok = mode_tok(m);
    assert(tok =~= "mode"@ + seq![':'] + v);
    lemma_key_value("mode"@, v);
    assert(first_idx_of(tok, ':') == 4);
    lemma_lower_id("mode"@);
    assert(lower(tok.take(4)) == "mode"@);
    assert("mode"@ != "ext"@ && "mode"@ != "extension"@ && "mode"@ != "size"@ && "mode"@
        != "modified"@ && "mode"@ != "date"@);
    assert(tok.skip(5) == v);
    lemma_mode_round_trip(m);
    assert(apply_token(st, tok, now)->Some_0.0 =~= (QuerySpec { match_mode: m, ..st.0 }));
}

/// Applying a printed scope token sets exactly the scope.
proof fn lemma_apply_scope(st: (QuerySpec, Seq<Seq<char>>), sc: SearchScope, now: i64)
    ensures
        apply_token(st, scope_tok(sc), now) == Some(((QuerySpec { scope: sc, ..st.0 }), st.1)),
{
    proof_part_reveals();
    proof_key_reveals();
    let v = print_scope_value(sc);
    let tok = scope_tok(sc);
    assert(tok =~= "scope"@ + seq![':'] + v);
    lemma_key_value("scope"@, v);
    assert(first_idx_of(tok, ':') == 5);
    lemma_lower_id("scope"@);
    assert(lower(tok.take(5)) == "scope"@);
    assert("scope"@ != "ext"@ && "scope"@ != "extension"@ && "scope"@ != "size"@ && "scope"@
        != "modified"@ && "scope"@ != "date"@ && "scope"@ != "mode"@);
    assert(tok.skip(6) == v);
    lemma_scope_round_trip(sc);
    assert(apply_token(st, tok, now)->Some_0.0 =~= (QuerySpec { scope: sc, ..st.0 }));
}

/// Applying a printed limit token sets exactly the result budget.
proof fn lemma_apply_limit(st: (QuerySpec, Seq<Seq<char>>), n: usize, now: i64)
    ensures
        apply_token(st, limit_tok(n), now) == Some(
            ((QuerySpec { max_results: Some(n), ..st.0 }), st.1),
        ),
{
    proof_part_reveals();
    proof_key_reveals();
    let v = crate::text::dec_rep(n as nat);
    let tok = limit_tok(n);
    assert(tok =~= "limit"@ + seq![':'] + v);
    lemma_key_value("limit"@, v);
    assert(first_idx_of(tok, ':') == 5);
    lemma_lower_id("limit"@);
    assert(lower(tok.take(5)) == "limit"@);
    assert("limit"@ != "ext"@ && "limit"@ != "extension"@ && "limit"@ != "size"@ && "limit"@
        != "modified"@ && "limit"@ != "date"@ && "limit"@ != "mode"@ && "limit"@ != "scope"@);
    assert(tok.skip(6) == v);
    crate::text::lemma_dec_rep_round_trip(n as nat);
    assert(crate::text::dec_val(v) == n);
    assert(apply_token(st, tok, now)->Some_0.0 =~= (QuerySpec {
        max_results: Some(n),
        ..st.0
    }));
}

/// One successful token folds as its application.
proof fn lemma_fold_single(tok: Seq<char>, st: (QuerySpec, Seq<Seq<char>>), now: i64)
    requires
        apply_token(st, tok, now) is Some,
    ensures
        fold_tokens(seq![tok], st, now) == apply_token(st, tok, now),
{
    assert(seq![tok][0] == tok);
    assert(seq![tok].drop_first() =~= Seq::<Seq<char>>::empty());
    let st2 = apply_token(st, tok, now)->Some_0;
    assert(fold_tokens(Seq::<Seq<char>>::empty(), st2, now) == Some(st2));
}

/// Folding splits over concatenation.
proof fn lemma_fold_concat(
    a: Seq<Seq<char>>,
    b: Seq<Seq<char>>,
    st: (QuerySpec, Seq<Seq<char>>),
    now: i64,
)
    ensures
        fold_tokens(a + b, st, now) == (match fold_tokens(a, st, now) {
            Some(m) => fold_tokens(b, m, now),
            None => None,
        }),
{
    lemma_fold_split(a + b, st, now, a.len() as int);
    assert((a + b).take(a.len() as int) =~= a);
    assert((a + b).skip(a.len() as int) =~= b);
}

/// The printed option tokens, folded over a fresh state, write back
/// exactly the query's options.
#[verifier::rlimit(100)]
proof fn lemma_fold_opts(q: QuerySpec, now: i64, parts: Seq<Seq<char>>)
    requires
        forall|k: int|
            0 <= k < q.extensions.len() ==> crate::extension::ext_plain(
                #[trigger] q.extensions[k],
            ),
        df_aligned(q.date_filter, now),
    ensures
        fold_tokens(opt_tokens(q, now), (init_query(), parts), now) == Some(
            ((QuerySpec { pattern: Seq::empty(), ..q }), parts),
        ),
{
    let st0 = (init_query(), parts);
    let a = l_ext(q);
    let b = l_size(q);
    let c = l_date(q, now);
    let d: Seq<Seq<char>> = seq![mode_tok(q.match_mode)];
    let e: Seq<Seq<char>> = seq![scope_tok(q.scope)];
    let f = l_limit(q);
    let s1 = ((QuerySpec { extensions: q.extensions, ..st0.0 }), parts);
    let s2 = ((QuerySpec { size_filter: q.size_filter, ..s1.0 }), parts);
    let s3 = ((QuerySpec { date_filter: q.date_filter, ..s2.0 }), parts);
    let s4 = ((QuerySpec { match_mode: q.match_mode, ..s3.0 }), parts);
    let s5 = ((QuerySpec { scope: q.scope, ..s4.0 }), parts);
    let s6 = ((QuerySpec { max_results: q.max_results, ..s5.0 }), parts);
    assert(fold_tokens(a, st0, now) == Some(s1)) by {
        if q.extensions.len() > 0 {
            lemma_apply_ext(st0, q, now);
            lemma_fold_single(ext_tok(q), st0, now);
        } else {
            assert(st0.0.extensions =~= q.extensions);
            assert(st0.0 =~= s1.0);
        }
    }
    assert(fold_tokens(b, s1, now) == Some(s2)) by {
        match q.size_filter {
            Some(sf) => {
                lemma_apply_size(s1, sf, now);
                lemma_fold_single(size_tok(sf), s1, now);
            },
            None => {
                assert(s1.0 =~= s2.0);
            },
        }
    }
    assert(fold_tokens(c, s2, now) == Some(s3)) by {
        match q.date_filter {
            Some(df) => {
                lemma_apply_date(s2, df, now);
                lemma_fold_single(date_tok(df, now), s2, now);
            },
            None => {
                assert(s2.0 =~= s3.0);
            },
        }
    }
    assert(fold_tokens(d, s3, now) == Some(s4)) by {
        lemma_apply_mode(s3, q.match_mode, now);
        lemma_fold_single(mode_tok(q.match_mode), s3, now);
    }
    assert(fold_tokens(e, s4, now) == Some(s5)) by {
        lemma_apply_scope(s4, q.scope, now);
        lemma_fold_single(scope_tok(q.scope), s4, now);
    }
    assert(fold_tokens(f, s5, now) == Some(s6)) by {
        match q.max_results {
            Some(n) => {
                lemma_apply_limit(s5, n, now);
                lemma_fold_single(limit_tok(n), s5, now);
            },
            None => {
                assert(s5.0 =~= s6.0);
            },
        }
    }
    lemma_fold_concat(a, b + c + d + e + f, st0, now);
    lemma_fold_concat(b, c + d + e + f, s1, now);
    lemma_fold_concat(c, d + e + f, s2, now);
    lemma_fold_concat(d, e + f, s3, now);
    lemma_fold_concat(e, f, s4, now);
    assert(opt_tokens(q, now) =~= a + (b + c + d + e + f));
    assert(b + c + d + e + f =~= b + (c + d + e + f));
    assert(c + d + e + f =~= c + (d + e + f));
    assert(d + e + f =~= d + (e + f));
    assert(s6.0 =~= (QuerySpec { pattern: Seq::empty(), ..q }));
}

/// Round trip: printing a parsed query and parsing the print gives the
/// query back — the pattern, the mode and scope, the filters, the
/// extensions and the budget all survive, against the same instant.
pub proof fn lemma_parse_print_round_trip(input: Seq<char>, now: i64)
    requires
        parse_spec(input, now) is Some,
    ensures
        parse_spec(print_spec(parse_spec(input, now)->Some_0, now), now) == parse_spec(
            input,
            now,
        ),
{
    let st0 = (init_query(), Seq::<Seq<char>>::empty());
    let toks = split_ws(input);
    let folded = fold_tokens(toks, st0, now)->Some_0;
    let parts = folded.1;
    let q = parse_spec(input, now)->Some_0;
    assert(q == QuerySpec { pattern: join_ws(parts), ..folded.0 });
    crate::text::lemma_split_tokens_good(input, Seq::<char>::empty());
    assert(state_plain(st0.0, now)) by {
        assert(init_query().extensions.len() == 0);
    }
    lemma_fold_plain(toks, st0, now);
    assert(state_plain(folded.0, now));
    assert(forall|k: int|
        0 <= k < q.extensions.len() ==> crate::extension::ext_plain(
            #[trigger] q.extensions[k],
        ));
    assert(df_aligned(q.date_filter, now));
    let opts = opt_tokens(q, now);
    lemma_print_as_tokens(q, now);
    lemma_join_extend(parts, opts);
    assert(print_spec(q, now) == join_ws(parts + opts));
    lemma_opt_tokens_good(q, now);
    assert(crate::text::all_good_tokens(parts + opts)) by {
        assert forall|k: int|
            0 <= k < (parts + opts).len() implies crate::text::good_token(
            #[trigger] (parts + opts)[k],
        ) by {
            if k < parts.len() {
                assert((parts + opts)[k] == parts[k]);
            } else {
                assert((parts + opts)[k] == opts[k - parts.len()]);
            }
        }
    }
    crate::text::lemma_split_join(parts + opts);
    assert(split_ws(print_spec(q, now)) == parts + opts);
    lemma_fold_concat(parts, opts, st0, now);
    lemma_fold_patterns(parts, st0, now);
    assert(st0.1 + parts =~= parts);
    assert(fold_tokens(parts, st0, now) == Some((init_query(), parts)));
    lemma_fold_opts(q, now, parts);
    assert(fold_tokens(parts + opts, st0, now) == Some(
        ((QuerySpec { pattern: Seq::empty(), ..q }), parts),
    ));
    assert(parse_spec(print_spec(q, now), now) == Some(
        QuerySpec { pattern: join_ws(parts), ..(QuerySpec { pattern: Seq::empty(), ..q }) },
    ));
    assert(QuerySpec { pattern: join_ws(parts), ..(QuerySpec { pattern: Seq::empty(), ..q }) }
        =~= q);
}

pub struct QueryParser;

impl QueryParser {
    /// Parses one query line against instant `now`; fails exactly on a
    /// malformed option value or an empty final pattern.
    #[verifier::rlimit(100)]
    pub fn parse(input: &str, now: i64) -> (r: Result<Query, SearchError>)
        ensures
            match r {
                Ok(q) => parse_spec(input@, now) == Some(q@),
                Err(e) => parse_spec(input@, now) is None && e is InvalidQuery,
            },
    {
        proof {
            reveal_strlit("ext");
            reveal_strlit("extension");
            reveal_strlit("size");
            reveal_strlit("modified");
            reveal_strlit("date");
            reveal_strlit("mode");
            reveal_strlit("scope");
            reveal_strlit("limit");
            reveal_strlit("max");
        }
        let v = chars_of(input);
        let toks = split_ws_vec(&v);
        let ghost tseq = split_ws(input@);
        let ghost st0 = (init_query(), Seq::<Seq<char>>::empty());
        let mut q = Query::new(String::new());
        let mut parts: Vec<Vec<char>> = Vec::new();
        proof {
            assert(tseq.take(0) =~= Seq::<Seq<char>>::empty());
            assert(views_of(parts@) =~= Seq::<Seq<char>>::empty());
            assert(q@ =~= init_query());
        }
        let mut i: usize = 0;
        while i < toks.len()
            invariant
                i <= toks@.len(),
                views_of(toks@) == tseq,
                tseq == split_ws(input@),
                st0 == (init_query(), Seq::<Seq<char>>::empty()),
                q.pattern@ == Seq::<char>::empty(),
                fold_tokens(tseq.take(i as int), st0, now) == Some((q@, views_of(parts@))),
            decreases toks.len() - i,
        {
            let ghost cur = (q@, views_of(parts@));
            proof {
                lemma_fold_split(tseq.take(i + 1), st0, now, i as int);
                assert(tseq.take(i + 1).take(i as int) =~= tseq.take(i as int));
                assert(tseq.take(i + 1).skip(i as int) =~= seq![tseq[i as int]]);
                assert(seq![tseq[i as int]][0] == tseq[i as int]);
                assert(seq![tseq[i as int]].drop_first() =~= Seq::<Seq<char>>::empty());
                assert(tseq[i as int] == toks@[i as int]@);
            }
            let tok: &Vec<char> = &toks[i];
            let copy = sub_vec(tok, 0, tok.len());
            proof {
                assert(copy@ =~= tok@);
            }
            match find_char(tok, ':') {
                Some(ci) => {
                    proof {
                        crate::text::lemma_first_idx(tok@, ':');
                    }
                    let keyv = sub_vec(tok, 0, ci);
                    let keyl = lower_vec(&keyv);
                    let key = string_of(&keyl);
                    let valv = sub_vec(tok, ci + 1, tok.len());
                    let value = string_of(&valv);
                    proof {
                        assert(keyv@ =~= tok@.take(ci as int));
                        assert(valv@ =~= tok@.skip(ci + 1));
                    }
                    let ks = key.as_str();
                    let vs = value.as_str();
                    if str_eq(ks, "ext") || str_eq(ks, "extension") {
                        q.extensions = parse_extensions(vs);
                        proof {
                            assert(q@ =~= (QuerySpec {
                                extensions: parse_extensions_spec(tok@.skip(ci + 1)),
                                ..cur.0
                            }));
                        }
                    } else if str_eq(ks, "size") {
                        match QueryParser::parse_size_filter(vs) {
                            Ok(f) => {
                                q.size_filter = f;
                                proof {
                                    assert(q@ =~= (QuerySpec { size_filter: f, ..cur.0 }));
                                }
                            },
                            Err(e) => {
                                proof {
                                    lemma_fold_split(tseq, st0, now, i + 1);
                                }
                                return Err(e);
                            },
                        }
                    } else if str_eq(ks, "modified") || str_eq(ks, "date") {
                        match QueryParser::parse_date_filter(vs, now) {
                            Ok(f) => {
                                q.date_filter = f;
                                proof {
                                    assert(q@ =~= (QuerySpec { date_filter: f, ..cur.0 }));
                                }
                            },
                            Err(e) => {
                                proof {
                                    lemma_fold_split(tseq, st0, now, i + 1);
                                }
                                return Err(e);
                            },
                        }
                    } else if str_eq(ks, "mode") {
                        match QueryParser::parse_match_mode(vs) {
                            Ok(m) => {
                                q.match_mode = m;
                                proof {
                                    assert(q@ =~= (QuerySpec { match_mode: m, ..cur.0 }));
                                }
                            },
                            Err(e) => {
                                proof {
                                    lemma_fold_split(tseq, st0, now, i + 1);
                                }
                                return Err(e);
                            },
                        }
                    } else if str_eq(ks, "scope") {
                        match QueryParser::parse_scope(vs) {
                            Ok(sc) => {
                                q.scope = sc;
                                proof {
                                    assert(q@ =~= (QuerySpec { scope: sc, ..cur.0 }));
                                }
                            },
                            Err(e) => {
                                proof {
                                    lemma_fold_split(tseq, st0, now, i + 1);
                                }
                                return Err(e);
                            },
                        }
                    } else if str_eq(ks, "limit") || str_eq(ks, "max") {
                        match crate::text::parse_u64_digits(&valv) {
                            Some(n) => {
                                if n <= (usize::MAX as u64) {
                                    q.max_results = Some(n as usize);
                                    proof {
                                        assert(q@ =~= (QuerySpec {
                                            max_results: Some(n as usize),
                                            ..cur.0
                                        }));
                                    }
                                }
                            },
                            None => {
                            },
                        }
                    } else {
                        parts.push(copy);
                        proof {
                            assert(views_of(parts@) =~= cur.1.push(tseq[i as int]));
                        }
                    }
                },
                None => {
                    parts.push(copy);
                    proof {
                        assert(views_of(parts@) =~= cur.1.push(tseq[i as int]));
                    }
                },
            }
            proof {
                assert(fold_tokens(tseq.take(i as int), st0, now) == Some(cur));
                assert(apply_token(cur, tseq[i as int], now) == Some(
                    (q@, views_of(parts@)),
                ));
                assert(fold_tokens(
                    Seq::<Seq<char>>::empty(),
                    (q@, views_of(parts@)),
                    now,
                ) == Some((q@, views_of(parts@))));
                assert(fold_tokens(seq![tseq[i as int]].drop_first(), (q@, views_of(parts@)), now)
                    == Some((q@, views_of(parts@))));
                assert(fold_tokens(seq![tseq[i as int]], cur, now) == Some(
                    (q@, views_of(parts@)),
                ));
                assert(fold_tokens(tseq.take(i + 1), st0, now) == Some(
                    (q@, views_of(parts@)),
                ));
            }
            i = i + 1;
        }
        proof {
            assert(tseq.take(tseq.len() as int) =~= tseq);
        }
        if parts.len() == 0 {
            return Err(
                SearchError::InvalidQuery(String::from_str("query pattern cannot be empty")),
            );
        }
        let joined = crate::text::join_ws_vec(&parts);
        q.pattern = string_of(&joined);
        Ok(q)
    }

    /// Parses a `size:` value; rejected values are invalid queries.
    pub fn parse_size_filter(value: &str) -> (r: Result<Option<SizeFilter>, SearchError>)
        ensures
            match r {
                Ok(f) => f is Some && size_filter_of(value@) == f,
                Err(e) => size_filter_of(value@) is None && e is InvalidQuery,
            },
    {
        proof {
            reveal_strlit("..");
        }
        let v = chars_of(value);
        let dots = chars_of("..");
        let out: Option<SizeFilter> = if v.len() > 0 && v[0] == '>' {
            let rest = sub_vec(&v, 1, v.len());
            proof {
                assert(rest@ =~= v@.drop_first());
            }
            match parse_size(string_of(&rest).as_str()) {
                Some(n) => Some(SizeFilter::GreaterThan(n)),
                None => None,
            }
        } else if v.len() > 0 && v[0] == '<' {
            let rest = sub_vec(&v, 1, v.len());
            proof {
                assert(rest@ =~= v@.drop_first());
            }
            match parse_size(string_of(&rest).as_str()) {
                Some(n) => Some(SizeFilter::LessThan(n)),
                None => None,
            }
        } else {
            match find_first(&v, &dots) {
                Some(i) => {
                    proof {
                        assert(range_split(v@) == i) by {
                            assert(crate::text::matches_at(v@, ".."@, i as int));
                            let w = range_split(v@);
                            if w != i {
                                assert(crate::text::matches_at(v@, ".."@, w));
                            }
                        }
                    }
                    let left = sub_vec(&v, 0, i);
                    let right = sub_vec(&v, i + 2, v.len());
                    proof {
                        assert(left@ =~= v@.take(i as int));
                        assert(right@ =~= v@.skip(i + 2));
                    }
                    if contains_vec(&right, &dots) {
                        None
                    } else {
                        match (
                            parse_size(string_of(&left).as_str()),
                            parse_size(string_of(&right).as_str()),
                        ) {
                            (Some(lo), Some(hi)) => Some(SizeFilter::Range(lo, hi)),
                            _ => None,
                        }
                    }
                },
                None => {
                    match parse_size(value) {
                        Some(n) => Some(SizeFilter::Exact(n)),
                        None => None,
                    }
                },
            }
        };
        match out {
            Some(f) => Ok(Some(f)),
            None => Err(
                SearchError::InvalidQuery(String::from_str("invalid size filter")),
            ),
        }
    }

    /// Parses a `modified:`/`date:` value against `now`.
    pub fn parse_date_filter(value: &str, now: i64) -> (r: Result<
        Option<DateFilter>,
        SearchError,
    >)
        ensures
            match r {
                Ok(f) => f is Some && date_filter_of(value@, now) == f,
                Err(e) => date_filter_of(value@, now) is None && e is InvalidQuery,
            },
    {
        proof {
            reveal_strlit("..");
        }
        let v = chars_of(value);
        let dots = chars_of("..");
        let out: Option<DateFilter> = if v.len() > 0 && v[0] == '>' {
            let rest = sub_vec(&v, 1, v.len());
            proof {
                assert(rest@ =~= v@.drop_first());
            }
            match crate::date::parse_relative_date(string_of(&rest).as_str(), now) {
                Some(t) => Some(DateFilter::After(t)),
                None => None,
            }
        } else if v.len() > 0 && v[0] == '<' {
            let rest = sub_vec(&v, 1, v.len());
            proof {
                assert(rest@ =~= v@.drop_first());
            }
            match crate::date::parse_relative_date(string_of(&rest).as_str(), now) {
                Some(t) => Some(DateFilter::Before(t)),
                None => None,
            }
        } else {
            match find_first(&v, &dots) {
                Some(i) => {
                    proof {
                        assert(range_split(v@) == i) by {
                            assert(crate::text::matches_at(v@, ".."@, i as int));
                            let w = range_split(v@);
                            if w != i {
                                assert(crate::text::matches_at(v@, ".."@, w));
                            }
                        }
                    }
                    let left = sub_vec(&v, 0, i);
                    let right = sub_vec(&v, i + 2, v.len());
                    proof {
                        assert(left@ =~= v@.take(i as int));
                        assert(right@ =~= v@.skip(i + 2));
                    }
                    if contains_vec(&right, &dots) {
                        None
                    } else {
                        match (
                            crate::date::parse_relative_date(string_of(&left).as_str(), now),
                            crate::date::parse_relative_date(string_of(&right).as_str(), now),
                        ) {
                            (Some(a), Some(b)) => Some(DateFilter::Between(a, b)),
                            _ => None,
                        }
                    }
                },
                None => {
                    match crate::date::parse_relative_date(value, now) {
                        Some(t) => Some(DateFilter::On(t)),
                        None => None,
                    }
                },
            }
        };
        match out {
            Some(f) => Ok(Some(f)),
            None => Err(
                SearchError::InvalidQuery(String::from_str("invalid date filter")),
            ),
        }
    }

    /// Parses a `mode:` value.
    pub fn parse_match_mode(value: &str) -> (r: Result<MatchMode, SearchError>)
        ensures
            match r {
                Ok(m) => mode_of(value@) == Some(m),
                Err(e) => mode_of(value@) is None && e is InvalidQuery,
            },
    {
        proof {
            reveal_strlit("exact");
            reveal_strlit("case");
            reveal_strlit("casesensitive");
            reveal_strlit("insensitive");
            reveal_strlit("caseinsensitive");
            reveal_strlit("fuzzy");
            reveal_strlit("regex");
            reveal_strlit("glob");
        }
        let l = lower_str(value);
        let s = l.as_str();
        if str_eq(s, "exact") || str_eq(s, "case") || str_eq(s, "casesensitive") {
            Ok(MatchMode::Exact)
        } else if str_eq(s, "insensitive") || str_eq(s, "caseinsensitive") {
            Ok(MatchMode::CaseInsensitive)
        } else if str_eq(s, "fuzzy") {
            Ok(MatchMode::Fuzzy)
        } else if str_eq(s, "regex") {
            Ok(MatchMode::Regex)
        } else if str_eq(s, "glob") {
            Ok(MatchMode::Glob)
        } else {
            Err(SearchError::InvalidQuery(String::from_str("invalid match mode")))
        }
    }

    /// Parses a `scope:` value.
    pub fn parse_scope(value: &str) -> (r: Result<SearchScope, SearchError>)
        ensures
            match r {
                Ok(m) => scope_of(value@) == Some(m),
                Err(e) => scope_of(value@) is None && e is InvalidQuery,
            },
    {
        proof {
            reveal_strlit("name");
            reveal_strlit("path");
            reveal_strlit("content");
            reveal_strlit("all");
        }
        let l = lower_str(value);
        let s = l.as_str();
        if str_eq(s, "name") {
            Ok(SearchScope::Name)
        } else if str_eq(s, "path") {
            Ok(SearchScope::Path)
        } else if str_eq(s, "content") {
            Ok(SearchScope::Content)
        } else if str_eq(s, "all") {
            Ok(SearchScope::All)
        } else {
            Err(SearchError::InvalidQuery(String::from_str("invalid search scope")))
        }
    }
}

} // verus!
