//! Character-sequence utilities shared by the parser, the matchers and the
//! path helpers: ASCII case folding, substring search, whitespace splitting
//! and decimal parsing, all specified over `Seq<char>` (the view of `String`).
use vstd::prelude::*;

verus! {

// ---------------------------------------------------------------------------
// Conversions between `String` and `Vec<char>`
// ---------------------------------------------------------------------------

/// Relies on `str::chars` (std): the characters of a string, in order; the
/// result's view is exactly the string's view.
#[verifier::external_body]
pub fn chars_of(s: &str) -> (r: Vec<char>)
    ensures
        r@ == s@,
{
    s.chars().collect()
}

/// Relies on `FromIterator<char> for String` (std): collecting characters
/// yields the string with exactly those characters.
#[verifier::external_body]
pub fn string_of(v: &Vec<char>) -> (r: String)
    ensures
        r@ == v@,
{
    v.iter().collect()
}

// ---------------------------------------------------------------------------
// ASCII case folding
// ---------------------------------------------------------------------------

pub open spec fn is_ascii_upper(c: char) -> bool {
    'A' <= c && c <= 'Z'
}

/// ASCII lowercase of one character; other characters are unchanged.
pub open spec fn lower_char(c: char) -> char {
    if is_ascii_upper(c) {
        ((c as u8) + 32) as char
    } else {
        c
    }
}

/// ASCII lowercase of a character sequence.
pub open spec fn lower(s: Seq<char>) -> Seq<char> {
    s.map_values(|c: char| lower_char(c))
}

pub fn to_lower_char(c: char) -> (r: char)
    ensures
        r == lower_char(c),
{
    if 'A' <= c && c <= 'Z' {
        ((c as u8) + 32) as char
    } else {
        c
    }
}

pub fn lower_vec(v: &Vec<char>) -> (r: Vec<char>)
    ensures
        r@ == lower(v@),
{
    let mut r: Vec<char> = Vec::new();
    let mut i: usize = 0;
    while i < v.len()
        invariant
            i <= v.len(),
            r@ == lower(v@.take(i as int)),
        decreases v.len() - i,
    {
        r.push(to_lower_char(v[i]));
        proof {
            assert(v@.take(i + 1).drop_last() =~= v@.take(i as int));
            assert(lower(v@.take(i + 1)) =~= lower(v@.take(i as int)).push(lower_char(v@[i as int])));
        }
        i = i + 1;
    }
    proof {
        assert(v@.take(v@.len() as int) =~= v@);
    }
    r
}

// ---------------------------------------------------------------------------
// Sequence comparison and substring search
// ---------------------------------------------------------------------------

pub fn eq_vec(a: &Vec<char>, b: &Vec<char>) -> (r: bool)
    ensures
        r == (a@ == b@),
{
    if a.len() != b.len() {
        proof {
            assert(a@ != b@);
        }
        return false;
    }
    let mut i: usize = 0;
    while i < a.len()
        invariant
            i <= a.len(),
            a@.len() == b@.len(),
            forall|j: int| 0 <= j < i ==> a@[j] == b@[j],
        decreases a.len() - i,
    {
        if a[i] != b[i] {
            return false;
        }
        i = i + 1;
    }
    proof {
        assert(a@ =~= b@);
    }
    true
}

/// True when `needle` occurs in `hay` starting at position `i`.
pub open spec fn matches_at(hay: Seq<char>, needle: Seq<char>, i: int) -> bool {
    0 <= i && i + needle.len() <= hay.len() && hay.subrange(i, i + needle.len() as int) == needle
}

/// Plain substring containment.
pub open spec fn contains_seq(hay: Seq<char>, needle: Seq<char>) -> bool {
    exists|i: int| matches_at(hay, needle, i)
}

pub open spec fn starts_with_seq(s: Seq<char>, prefix: Seq<char>) -> bool {
    prefix.len() <= s.len() && s.subrange(0, prefix.len() as int) == prefix
}

pub open spec fn ends_with_seq(s: Seq<char>, suffix: Seq<char>) -> bool {
    suffix.len() <= s.len() && s.subrange(s.len() - suffix.len(), s.len() as int) == suffix
}

/// Does `needle` occur in `hay` at position `i`?
pub fn eq_at(hay: &Vec<char>, needle: &Vec<char>, i: usize) -> (r: bool)
    requires
        i + needle@.len() <= hay@.len(),
    ensures
        r == matches_at(hay@, needle@, i as int),
{
    let mut j: usize = 0;
    while j < needle.len()
        invariant
            j <= needle.len(),
            i + needle@.len() <= hay@.len(),
            forall|k: int| 0 <= k < j ==> hay@[i + k] == needle@[k],
        decreases needle.len() - j,
    {
        let hl: usize = hay.len();
        assert(i + j < hl);
        if hay[i + j] != needle[j] {
            proof {
                assert(hay@.subrange(i as int, i + needle@.len()) != needle@) by {
                    assert(hay@.subrange(i as int, i + needle@.len())[j as int] != needle@[j as int]);
                }
            }
            return false;
        }
        j = j + 1;
    }
    proof {
        assert(hay@.subrange(i as int, i + needle@.len()) =~= needle@);
    }
    true
}

/// The position of the first occurrence of `needle` in `hay`, if any.
pub fn find_first(hay: &Vec<char>, needle: &Vec<char>) -> (r: Option<usize>)
    ensures
        match r {
            Some(i) => matches_at(hay@, needle@, i as int) && forall|j: int|
                0 <= j < i ==> !matches_at(hay@, needle@, j),
            None => !contains_seq(hay@, needle@),
        },
{
    if needle.len() > hay.len() {
        proof {
            assert(forall|i: int| !matches_at(hay@, needle@, i));
        }
        return None;
    }
    if needle.len() == 0 {
        proof {
            assert(hay@.subrange(0, 0) =~= needle@);
        }
        return Some(0);
    }
    let last: usize = hay.len() - needle.len();
    let mut i: usize = 0;
    while i <= last
        invariant
            i <= last + 1,
            last == hay@.len() - needle@.len(),
            forall|j: int| 0 <= j < i ==> !matches_at(hay@, needle@, j),
        decreases last - i + 1,
    {
        if eq_at(hay, needle, i) {
            return Some(i);
        }
        i = i + 1;
    }
    proof {
        assert(forall|j: int| j > last ==> !matches_at(hay@, needle@, j));
    }
    None
}

pub fn contains_vec(hay: &Vec<char>, needle: &Vec<char>) -> (r: bool)
    ensures
        r == contains_seq(hay@, needle@),
{
    match find_first(hay, needle) {
        Some(_) => true,
        None => false,
    }
}

/// Every position where `needle` occurs in `hay` (overlapping occurrences
/// included), in increasing order, each with the needle's length. An empty
/// needle yields no spans.
pub fn find_all(hay: &Vec<char>, needle: &Vec<char>) -> (r: Vec<(usize, usize)>)
    ensures
        needle@.len() == 0 ==> r@.len() == 0,
        forall|k: int|
            0 <= k < r@.len() ==> matches_at(hay@, needle@, (#[trigger] r@[k]).0 as int)
                && r@[k].1 == needle@.len(),
        needle@.len() > 0 ==> forall|i: int|
            matches_at(hay@, needle@, i) ==> exists|k: int|
                0 <= k < r@.len() && (#[trigger] r@[k]).0 == i,
        forall|k1: int, k2: int|
            0 <= k1 < k2 < r@.len() ==> (#[trigger] r@[k1]).0 < (#[trigger] r@[k2]).0,
{
    let mut r: Vec<(usize, usize)> = Vec::new();
    if needle.len() == 0 || needle.len() > hay.len() {
        proof {
            if needle@.len() > hay@.len() {
                assert(forall|i: int| !matches_at(hay@, needle@, i));
            }
        }
        return r;
    }
    let last: usize = hay.len() - needle.len();
    let mut i: usize = 0;
    while i <= last
        invariant
            i <= last + 1,
            last == hay@.len() - needle@.len(),
            needle@.len() > 0,
            forall|k: int|
                0 <= k < r@.len() ==> matches_at(hay@, needle@, (#[trigger] r@[k]).0 as int)
                    && r@[k].1 == needle@.len() && r@[k].0 < i,
            forall|j: int|
                0 <= j < i && matches_at(hay@, needle@, j) ==> exists|k: int|
                    0 <= k < r@.len() && (#[trigger] r@[k]).0 == j,
            forall|k1: int, k2: int|
                0 <= k1 < k2 < r@.len() ==> (#[trigger] r@[k1]).0 < (#[trigger] r@[k2]).0,
        decreases last - i + 1,
    {
        if eq_at(hay, needle, i) {
            let ghost r0 = r@;
            r.push((i, needle.len()));
            proof {
                assert(forall|j: int|
                    0 <= j < i + 1 && matches_at(hay@, needle@, j) ==> exists|k: int|
                        0 <= k < r@.len() && (#[trigger] r@[k]).0 == j) by {
                    assert(forall|j: int|
                        0 <= j < i && matches_at(hay@, needle@, j) ==> exists|k: int|
                            0 <= k < r0.len() && (#[trigger] r0[k]).0 == j);
                    assert(r@[r@.len() - 1].0 == i);
                    assert(forall|k: int| 0 <= k < r0.len() ==> r@[k] == r0[k]);
                }
            }
        }
        i = i + 1;
    }
    proof {
        assert(forall|j: int| j > last ==> !matches_at(hay@, needle@, j));
    }
    r
}

pub fn starts_with_vec(s: &Vec<char>, prefix: &Vec<char>) -> (r: bool)
    ensures
        r == starts_with_seq(s@, prefix@),
{
    if prefix.len() > s.len() {
        return false;
    }
    eq_at(s, prefix, 0)
}

pub fn ends_with_vec(s: &Vec<char>, suffix: &Vec<char>) -> (r: bool)
    ensures
        r == ends_with_seq(s@, suffix@),
{
    if suffix.len() > s.len() {
        return false;
    }
    eq_at(s, suffix, s.len() - suffix.len())
}

/// Copy of `v[from..to]`.
pub fn sub_vec(v: &Vec<char>, from: usize, to: usize) -> (r: Vec<char>)
    requires
        from <= to <= v@.len(),
    ensures
        r@ == v@.subrange(from as int, to as int),
{
    let mut r: Vec<char> = Vec::new();
    let mut i: usize = from;
    while i < to
        invariant
            from <= i <= to <= v@.len(),
            r@ == v@.subrange(from as int, i as int),
        decreases to - i,
    {
        r.push(v[i]);
        proof {
            assert(v@.subrange(from as int, i + 1) =~= v@.subrange(from as int, i as int).push(
                v@[i as int],
            ));
        }
        i = i + 1;
    }
    r
}

// ---------------------------------------------------------------------------
// Whitespace splitting and joining
// ---------------------------------------------------------------------------

pub open spec fn is_space(c: char) -> bool {
    c == ' ' || c == '\t' || c == '\n' || c == '\r'
}

/// Tokens of `s + cur viewed as a partial token already read`: the
/// whitespace-separated words, `cur` continuing into the first one.
pub open spec fn split_ws_acc(s: Seq<char>, cur: Seq<char>) -> Seq<Seq<char>>
    decreases s.len(),
{
    if s.len() == 0 {
        if cur.len() == 0 {
            Seq::empty()
        } else {
            seq![cur]
        }
    } else if is_space(s[0]) {
        if cur.len() == 0 {
            split_ws_acc(s.drop_first(), Seq::empty())
        } else {
            seq![cur] + split_ws_acc(s.drop_first(), Seq::empty())
        }
    } else {
        split_ws_acc(s.drop_first(), cur.push(s[0]))
    }
}

/// The whitespace-separated tokens of `s`, each nonempty, in order.
pub open spec fn split_ws(s: Seq<char>) -> Seq<Seq<char>> {
    split_ws_acc(s, Seq::empty())
}

pub open spec fn views_of(toks: Seq<Vec<char>>) -> Seq<Seq<char>> {
    toks.map_values(|t: Vec<char>| t@)
}

pub fn split_ws_vec(v: &Vec<char>) -> (r: Vec<Vec<char>>)
    ensures
        views_of(r@) == split_ws(v@),
{
    let mut out: Vec<Vec<char>> = Vec::new();
    let mut cur: Vec<char> = Vec::new();
    let mut i: usize = 0;
    proof {
        assert(v@.skip(0) =~= v@);
        assert(views_of(out@) + split_ws_acc(v@, Seq::empty()) =~= split_ws_acc(
            v@,
            Seq::empty(),
        ));
    }
    while i < v.len()
        invariant
            i <= v.len(),
            split_ws(v@) == views_of(out@) + split_ws_acc(v@.skip(i as int), cur@),
        decreases v.len() - i,
    {
        let c = v[i];
        proof {
            assert(v@.skip(i as int)[0] == v@[i as int]);
            assert(v@.skip(i as int).drop_first() =~= v@.skip(i + 1));
        }
        if c == ' ' || c == '\t' || c == '\n' || c == '\r' {
            if cur.len() > 0 {
                let ghost out0 = out@;
                let ghost cur0 = cur@;
                out.push(cur);
                cur = Vec::new();
                proof {
                    assert(views_of(out@) =~= views_of(out0) + seq![cur0]);
                    assert(views_of(out0) + (seq![cur0] + split_ws_acc(
                        v@.skip(i + 1),
                        Seq::empty(),
                    )) =~= (views_of(out0) + seq![cur0]) + split_ws_acc(
                        v@.skip(i + 1),
                        Seq::empty(),
                    ));
                }
            } else {
                proof {
                    assert(cur@ =~= Seq::<char>::empty());
                }
            }
        } else {
            cur.push(c);
        }
        i = i + 1;
    }
    proof {
        assert(v@.skip(v@.len() as int) =~= Seq::<char>::empty());
    }
    if cur.len() > 0 {
        let ghost out0 = out@;
        let ghost cur0 = cur@;
        out.push(cur);
        proof {
            assert(views_of(out@) =~= views_of(out0) + seq![cur0]);
        }
    }
    proof {
        assert(views_of(out@) + Seq::<Seq<char>>::empty() =~= views_of(out@));
    }
    out
}

/// Tokens joined by single copies of a separator.
pub open spec fn join_sep(toks: Seq<Seq<char>>, sep: char) -> Seq<char>
    decreases toks.len(),
{
    if toks.len() == 0 {
        Seq::empty()
    } else if toks.len() == 1 {
        toks[0]
    } else {
        toks[0] + seq![sep] + join_sep(toks.drop_first(), sep)
    }
}

/// Tokens joined by single spaces.
pub open spec fn join_ws(toks: Seq<Seq<char>>) -> Seq<char> {
    join_sep(toks, ' ')
}

/// What remains to be appended once the first `i` tokens are written:
/// a separator (when some token was already written) and the rest.
pub open spec fn join_rest(toks: Seq<Seq<char>>, sep: char, i: int) -> Seq<char> {
    if i <= 0 {
        join_sep(toks, sep)
    } else if i < toks.len() {
        seq![sep] + join_sep(toks.skip(i), sep)
    } else {
        Seq::empty()
    }
}

proof fn lemma_join_step(toks: Seq<Seq<char>>, sep: char, i: int)
    requires
        0 <= i < toks.len(),
    ensures
        join_rest(toks, sep, i) == (if i == 0 {
            Seq::empty()
        } else {
            seq![sep]
        }) + toks[i] + join_rest(toks, sep, i + 1),
{
    assert(toks.skip(i) =~= seq![toks[i]] + toks.skip(i + 1));
    if i + 1 < toks.len() {
        assert(toks.skip(i).len() > 1);
        assert(toks.skip(i)[0] == toks[i]);
        assert(toks.skip(i).drop_first() =~= toks.skip(i + 1));
        if i == 0 {
            assert(join_rest(toks, sep, 0) =~= toks[0] + seq![sep] + join_sep(
                toks.skip(1),
                sep,
            ));
            assert(join_rest(toks, sep, 0) =~= Seq::empty() + toks[0] + join_rest(
                toks,
                sep,
                1,
            ));
        } else {
            assert(join_rest(toks, sep, i) =~= seq![sep] + (toks[i] + seq![sep] + join_sep(
                toks.skip(i + 1),
                sep,
            )));
            assert(join_rest(toks, sep, i) =~= seq![sep] + toks[i] + join_rest(
                toks,
                sep,
                i + 1,
            ));
        }
    } else {
        assert(toks.skip(i).len() == 1);
        assert(join_sep(toks.skip(i), sep) == toks.skip(i)[0]);
        assert(toks.skip(i)[0] == toks[i]);
        if i == 0 {
            assert(join_rest(toks, sep, 0) =~= Seq::empty() + toks[0] + join_rest(
                toks,
                sep,
                1,
            ));
        } else {
            assert(join_rest(toks, sep, i) =~= seq![sep] + toks[i] + join_rest(
                toks,
                sep,
                i + 1,
            ));
        }
    }
}

pub fn join_sep_vec(toks: &Vec<Vec<char>>, sep: char) -> (r: Vec<char>)
    ensures
        r@ == join_sep(views_of(toks@), sep),
{
    let mut r: Vec<char> = Vec::new();
    let mut i: usize = 0;
    while i < toks.len()
        invariant
            i <= toks@.len(),
            join_sep(views_of(toks@), sep) == r@ + join_rest(views_of(toks@), sep, i as int),
        decreases toks.len() - i,
    {
        proof {
            lemma_join_step(views_of(toks@), sep, i as int);
            assert(views_of(toks@)[i as int] == toks@[i as int]@);
        }
        if i > 0 {
            r.push(sep);
        }
        let t: &Vec<char> = &toks[i];
        let ghost mid: Seq<char> = r@;
        let mut j: usize = 0;
        while j < t.len()
            invariant
                j <= t@.len(),
                t@ == toks@[i as int]@,
                i < toks@.len(),
                r@ == mid + t@.take(j as int),
            decreases t.len() - j,
        {
            r.push(t[j]);
            proof {
                assert(t@.take(j + 1) =~= t@.take(j as int).push(t@[j as int]));
            }
            j = j + 1;
        }
        proof {
            assert(t@.take(t@.len() as int) =~= t@);
        }
        i = i + 1;
    }
    proof {
        assert(join_sep(views_of(toks@), sep) =~= r@ + join_rest(
            views_of(toks@),
            sep,
            toks@.len() as int,
        ));
    }
    r
}

pub fn join_ws_vec(toks: &Vec<Vec<char>>) -> (r: Vec<char>)
    ensures
        r@ == join_ws(views_of(toks@)),
{
    join_sep_vec(toks, ' ')
}

// ---------------------------------------------------------------------------
// First occurrence of a character
// ---------------------------------------------------------------------------

/// Index of the first occurrence of `c` in `s`, or -1.
pub open spec fn first_idx_of(s: Seq<char>, c: char) -> int
    decreases s.len(),
{
    if s.len() == 0 {
        -1
    } else if s[0] == c {
        0
    } else if first_idx_of(s.drop_first(), c) == -1 {
        -1
    } else {
        1 + first_idx_of(s.drop_first(), c)
    }
}

pub proof fn lemma_first_idx(s: Seq<char>, c: char)
    ensures
        -1 <= first_idx_of(s, c) < s.len(),
        first_idx_of(s, c) >= 0 ==> s[first_idx_of(s, c)] == c,
        forall|k: int| 0 <= k < first_idx_of(s, c) ==> s[k] != c,
        first_idx_of(s, c) == -1 ==> forall|k: int| 0 <= k < s.len() ==> s[k] != c,
    decreases s.len(),
{
    if s.len() > 0 && s[0] != c {
        lemma_first_idx(s.drop_first(), c);
        assert(forall|k: int| 1 <= k < s.len() ==> s[k] == s.drop_first()[k - 1]);
    }
}

pub fn find_char(v: &Vec<char>, c: char) -> (r: Option<usize>)
    ensures
        match r {
            Some(i) => first_idx_of(v@, c) == i,
            None => first_idx_of(v@, c) == -1,
        },
{
    let mut i: usize = 0;
    while i < v.len()
        invariant
            i <= v@.len(),
            forall|k: int| 0 <= k < i ==> v@[k] != c,
        decreases v.len() - i,
    {
        if v[i] == c {
            proof {
                lemma_first_idx(v@, c);
                if first_idx_of(v@, c) < i {
                    assert(v@[first_idx_of(v@, c)] != c);
                }
                if first_idx_of(v@, c) > i || first_idx_of(v@, c) == -1 {
                    assert(v@[i as int] != c);
                }
            }
            return Some(i);
        }
        i = i + 1;
    }
    proof {
        lemma_first_idx(v@, c);
        if first_idx_of(v@, c) >= 0 {
            assert(v@[first_idx_of(v@, c)] != c);
        }
    }
    None
}

// ---------------------------------------------------------------------------
// Lexicographic order
// ---------------------------------------------------------------------------

/// `a` at or before `b` in lexicographic order of scalar values.
pub open spec fn lex_le(a: Seq<char>, b: Seq<char>) -> bool
    decreases a.len(),
{
    if a.len() == 0 {
        true
    } else if b.len() == 0 {
        false
    } else if a[0] != b[0] {
        a[0] < b[0]
    } else {
        lex_le(a.drop_first(), b.drop_first())
    }
}

pub fn lex_le_vec(a: &Vec<char>, b: &Vec<char>) -> (r: bool)
    ensures
        r == lex_le(a@, b@),
{
    let mut i: usize = 0;
    proof {
        assert(a@.skip(0) =~= a@);
        assert(b@.skip(0) =~= b@);
    }
    while i < a.len() && i < b.len()
        invariant
            i <= a@.len(),
            i <= b@.len(),
            lex_le(a@, b@) == lex_le(a@.skip(i as int), b@.skip(i as int)),
        decreases a.len() - i,
    {
        proof {
            assert(a@.skip(i as int)[0] == a@[i as int]);
            assert(b@.skip(i as int)[0] == b@[i as int]);
            assert(a@.skip(i as int).drop_first() =~= a@.skip(i + 1));
            assert(b@.skip(i as int).drop_first() =~= b@.skip(i + 1));
        }
        if a[i] < b[i] {
            return true;
        }
        if a[i] > b[i] {
            return false;
        }
        i = i + 1;
    }
    proof {
        if i >= a@.len() {
            assert(a@.skip(i as int).len() == 0);
        } else {
            assert(b@.skip(i as int).len() == 0);
            assert(a@.skip(i as int).len() > 0);
        }
    }
    a.len() <= b.len()
}

// ---------------------------------------------------------------------------
// Splitting on a separator character (empty pieces kept)
// ---------------------------------------------------------------------------

/// Pieces of `s` separated by `sep`, `cur` continuing into the first one.
/// Unlike whitespace splitting, empty pieces are kept.
pub open spec fn split_char_acc(s: Seq<char>, sep: char, cur: Seq<char>) -> Seq<Seq<char>>
    decreases s.len(),
{
    if s.len() == 0 {
        seq![cur]
    } else if s[0] == sep {
        seq![cur] + split_char_acc(s.drop_first(), sep, Seq::empty())
    } else {
        split_char_acc(s.drop_first(), sep, cur.push(s[0]))
    }
}

pub open spec fn split_char(s: Seq<char>, sep: char) -> Seq<Seq<char>> {
    split_char_acc(s, sep, Seq::empty())
}

pub fn split_char_vec(v: &Vec<char>, sep: char) -> (r: Vec<Vec<char>>)
    ensures
        views_of(r@) == split_char(v@, sep),
{
    let mut out: Vec<Vec<char>> = Vec::new();
    let mut cur: Vec<char> = Vec::new();
    let mut i: usize = 0;
    proof {
        assert(v@.skip(0) =~= v@);
        assert(views_of(out@) + split_char_acc(v@, sep, Seq::empty()) =~= split_char_acc(
            v@,
            sep,
            Seq::empty(),
        ));
    }
    while i < v.len()
        invariant
            i <= v.len(),
            split_char(v@, sep) == views_of(out@) + split_char_acc(v@.skip(i as int), sep, cur@),
        decreases v.len() - i,
    {
        let c = v[i];
        proof {
            assert(v@.skip(i as int)[0] == v@[i as int]);
            assert(v@.skip(i as int).drop_first() =~= v@.skip(i + 1));
        }
        if c == sep {
            let ghost out0 = out@;
            let ghost cur0 = cur@;
            out.push(cur);
            cur = Vec::new();
            proof {
                assert(views_of(out@) =~= views_of(out0) + seq![cur0]);
                assert(views_of(out0) + (seq![cur0] + split_char_acc(
                    v@.skip(i + 1),
                    sep,
                    Seq::empty(),
                )) =~= (views_of(out0) + seq![cur0]) + split_char_acc(
                    v@.skip(i + 1),
                    sep,
                    Seq::empty(),
                ));
            }
        } else {
            cur.push(c);
        }
        i = i + 1;
    }
    proof {
        assert(v@.skip(v@.len() as int) =~= Seq::<char>::empty());
    }
    let ghost out0 = out@;
    let ghost cur0 = cur@;
    out.push(cur);
    proof {
        assert(views_of(out@) =~= views_of(out0) + seq![cur0]);
    }
    out
}

// ---------------------------------------------------------------------------
// Splitting undoes joining
// ---------------------------------------------------------------------------

/// No whitespace anywhere in the token.
pub open spec fn space_free(t: Seq<char>) -> bool {
    forall|j: int| 0 <= j < t.len() ==> !is_space(#[trigger] t[j])
}

/// A good token: nonempty and whitespace-free.
pub open spec fn good_token(t: Seq<char>) -> bool {
    t.len() > 0 && space_free(t)
}

pub open spec fn all_good_tokens(toks: Seq<Seq<char>>) -> bool {
    forall|k: int| 0 <= k < toks.len() ==> good_token(#[trigger] toks[k])
}

/// Scanning a whitespace-free chunk just extends the current token.
proof fn lemma_split_acc_absorb(tok: Seq<char>, s: Seq<char>, cur: Seq<char>)
    requires
        space_free(tok),
    ensures
        split_ws_acc(tok + s, cur) == split_ws_acc(s, cur + tok),
    decreases tok.len(),
{
    if tok.len() == 0 {
        assert(tok + s =~= s);
        assert(cur + tok =~= cur);
    } else {
        assert((tok + s)[0] == tok[0]);
        assert(!is_space(tok[0]));
        assert((tok + s).drop_first() =~= tok.drop_first() + s);
        assert(space_free(tok.drop_first())) by {
            assert(forall|j: int|
                0 <= j < tok.len() - 1 ==> #[trigger] tok.drop_first()[j] == tok[j + 1]);
        }
        lemma_split_acc_absorb(tok.drop_first(), s, cur.push(tok[0]));
        assert(cur.push(tok[0]) + tok.drop_first() =~= cur + tok);
    }
}

/// Splitting on whitespace undoes joining by spaces, token for token.
pub proof fn lemma_split_join(toks: Seq<Seq<char>>)
    requires
        all_good_tokens(toks),
    ensures
        split_ws(join_ws(toks)) == toks,
    decreases toks.len(),
{
    if toks.len() == 0 {
        assert(split_ws_acc(Seq::<char>::empty(), Seq::<char>::empty())
            =~= Seq::<Seq<char>>::empty());
        assert(split_ws(join_ws(toks)) =~= toks);
    } else if toks.len() == 1 {
        assert(join_ws(toks) == toks[0]);
        lemma_split_acc_absorb(toks[0], Seq::<char>::empty(), Seq::<char>::empty());
        assert(toks[0] + Seq::<char>::empty() =~= toks[0]);
        assert(Seq::<char>::empty() + toks[0] =~= toks[0]);
        assert(split_ws_acc(Seq::<char>::empty(), toks[0]) == seq![toks[0]]);
        assert(split_ws(join_ws(toks)) =~= toks);
    } else {
        let rest = toks.drop_first();
        assert(join_ws(toks) == toks[0] + seq![' '] + join_ws(rest));
        assert(toks[0] + seq![' '] + join_ws(rest) =~= toks[0] + (seq![' '] + join_ws(rest)));
        lemma_split_acc_absorb(toks[0], seq![' '] + join_ws(rest), Seq::<char>::empty());
        assert(Seq::<char>::empty() + toks[0] =~= toks[0]);
        let after = split_ws_acc(seq![' '] + join_ws(rest), toks[0]);
        assert((seq![' '] + join_ws(rest))[0] == ' ');
        assert((seq![' '] + join_ws(rest)).drop_first() =~= join_ws(rest));
        assert(toks[0].len() > 0);
        assert(after == seq![toks[0]] + split_ws_acc(join_ws(rest), Seq::<char>::empty()));
        assert(all_good_tokens(rest)) by {
            assert(forall|k: int| 0 <= k < rest.len() ==> #[trigger] rest[k] == toks[k + 1]);
        }
        lemma_split_join(rest);
        assert(seq![toks[0]] + rest =~= toks);
    }
}

/// Every token the splitter yields is nonempty and whitespace-free.
pub proof fn lemma_split_tokens_good(s: Seq<char>, cur: Seq<char>)
    requires
        space_free(cur),
    ensures
        all_good_tokens(split_ws_acc(s, cur)),
    decreases s.len(),
{
    if s.len() == 0 {
        if cur.len() > 0 {
            assert(split_ws_acc(s, cur) == seq![cur]);
        }
    } else if is_space(s[0]) {
        lemma_split_tokens_good(s.drop_first(), Seq::<char>::empty());
        if cur.len() > 0 {
            let whole = split_ws_acc(s, cur);
            let tail = split_ws_acc(s.drop_first(), Seq::<char>::empty());
            assert(whole == seq![cur] + tail);
            assert(forall|k: int| 1 <= k < whole.len() ==> whole[k] == tail[k - 1]);
        } else {
            assert(cur =~= Seq::<char>::empty());
        }
    } else {
        assert(space_free(cur.push(s[0]))) by {
            assert(forall|j: int| 0 <= j < cur.len() ==> cur.push(s[0])[j] == cur[j]);
            assert(cur.push(s[0])[cur.len() as int] == s[0]);
        }
        lemma_split_tokens_good(s.drop_first(), cur.push(s[0]));
    }
}

/// Joining one more token appends a space and the token.
pub proof fn lemma_join_snoc(toks: Seq<Seq<char>>, t: Seq<char>)
    requires
        toks.len() > 0,
    ensures
        join_sep(toks.push(t), ' ') == join_sep(toks, ' ') + seq![' '] + t,
    decreases toks.len(),
{
    if toks.len() == 1 {
        assert(toks.push(t).drop_first() =~= seq![t]);
        assert(toks.push(t)[0] == toks[0]);
        assert(join_sep(seq![t], ' ') == t);
        assert(join_sep(toks, ' ') == toks[0]);
    } else {
        assert(toks.push(t)[0] == toks[0]);
        assert(toks.push(t).drop_first() =~= toks.drop_first().push(t));
        lemma_join_snoc(toks.drop_first(), t);
        assert(toks[0] + seq![' '] + (join_sep(toks.drop_first(), ' ') + seq![' '] + t) =~= (
        toks[0] + seq![' '] + join_sep(toks.drop_first(), ' ')) + seq![' '] + t);
    }
}

/// Scanning a separator-free piece just extends the current piece.
proof fn lemma_split_char_absorb(piece: Seq<char>, s: Seq<char>, sep: char, cur: Seq<char>)
    requires
        forall|j: int| 0 <= j < piece.len() ==> #[trigger] piece[j] != sep,
    ensures
        split_char_acc(piece + s, sep, cur) == split_char_acc(s, sep, cur + piece),
    decreases piece.len(),
{
    if piece.len() == 0 {
        assert(piece + s =~= s);
        assert(cur + piece =~= cur);
    } else {
        assert((piece + s)[0] == piece[0]);
        assert((piece + s).drop_first() =~= piece.drop_first() + s);
        assert(forall|j: int|
            0 <= j < piece.len() - 1 ==> #[trigger] piece.drop_first()[j] == piece[j + 1]);
        lemma_split_char_absorb(piece.drop_first(), s, sep, cur.push(piece[0]));
        assert(cur.push(piece[0]) + piece.drop_first() =~= cur + piece);
    }
}

/// Splitting on a separator undoes joining by it, piece for piece, as
/// long as no piece holds the separator and there is at least one piece.
pub proof fn lemma_split_char_join(pieces: Seq<Seq<char>>, sep: char)
    requires
        pieces.len() > 0,
        forall|k: int, j: int|
            0 <= k < pieces.len() && 0 <= j < pieces[k].len() ==> (#[trigger] pieces[k][j])
                != sep,
    ensures
        split_char(join_sep(pieces, sep), sep) == pieces,
    decreases pieces.len(),
{
    if pieces.len() == 1 {
        assert(join_sep(pieces, sep) == pieces[0]);
        lemma_split_char_absorb(pieces[0], Seq::<char>::empty(), sep, Seq::<char>::empty());
        assert(pieces[0] + Seq::<char>::empty() =~= pieces[0]);
        assert(Seq::<char>::empty() + pieces[0] =~= pieces[0]);
        assert(split_char_acc(Seq::<char>::empty(), sep, pieces[0]) == seq![pieces[0]]);
        assert(split_char(join_sep(pieces, sep), sep) =~= pieces);
    } else {
        let rest = pieces.drop_first();
        assert(join_sep(pieces, sep) == pieces[0] + seq![sep] + join_sep(rest, sep));
        assert(pieces[0] + seq![sep] + join_sep(rest, sep) =~= pieces[0] + (seq![sep]
            + join_sep(rest, sep)));
        lemma_split_char_absorb(
            pieces[0],
            seq![sep] + join_sep(rest, sep),
            sep,
            Seq::<char>::empty(),
        );
        assert(Seq::<char>::empty() + pieces[0] =~= pieces[0]);
        assert((seq![sep] + join_sep(rest, sep))[0] == sep);
        assert((seq![sep] + join_sep(rest, sep)).drop_first() =~= join_sep(rest, sep));
        assert(forall|k: int, j: int|
            0 <= k < rest.len() && 0 <= j < rest[k].len() ==> (#[trigger] rest[k][j]) != sep)
            by {
            assert(forall|k: int| 0 <= k < rest.len() ==> #[trigger] rest[k] == pieces[k + 1]);
        }
        lemma_split_char_join(rest, sep);
        assert(seq![pieces[0]] + rest =~= pieces);
    }
}

/// The first occurrence of `ch` in `a + [ch] + b` sits right after `a`
/// when `a` is free of it.
pub proof fn lemma_first_idx_concat(a: Seq<char>, b: Seq<char>, ch: char)
    requires
        forall|j: int| 0 <= j < a.len() ==> #[trigger] a[j] != ch,
    ensures
        first_idx_of(a + seq![ch] + b, ch) == a.len(),
    decreases a.len(),
{
    let s = a + seq![ch] + b;
    if a.len() == 0 {
        assert(s[0] == ch);
    } else {
        assert(s[0] == a[0]);
        assert(s.drop_first() =~= a.drop_first() + seq![ch] + b);
        assert(forall|j: int|
            0 <= j < a.len() - 1 ==> #[trigger] a.drop_first()[j] == a[j + 1]);
        lemma_first_idx_concat(a.drop_first(), b, ch);
    }
}

/// Trimming a whitespace-free sequence changes nothing.
pub proof fn lemma_trim_id(s: Seq<char>)
    requires
        space_free(s),
    ensures
        trim_spec(s) == s,
{
    if s.len() > 0 {
        assert(!is_space(s[0]));
        assert(trim_start_spec(s) == s);
        assert(!is_space(s.last()));
        assert(trim_end_spec(s) == s);
    } else {
        assert(trim_start_spec(s) == s);
        assert(trim_end_spec(s) == s);
    }
}

/// Lowercasing never makes an ASCII-lowercase-fixed sequence move: the
/// fold is idempotent.
pub proof fn lemma_lower_idempotent(s: Seq<char>)
    ensures
        lower(lower(s)) == lower(s),
{
    assert forall|j: int| 0 <= j < s.len() implies lower_char(lower(s)[j]) == lower(s)[j] by {
        assert(lower(s)[j] == lower_char(s[j]));
    }
    assert(lower(lower(s)) =~= lower(s));
}

/// Every filtered element comes from somewhere in the source.
pub proof fn lemma_filter_origin<A>(s: Seq<A>, pred: spec_fn(A) -> bool, j: int)
    requires
        0 <= j < s.filter(pred).len(),
    ensures
        exists|src: int| 0 <= src < s.len() && s[src] == s.filter(pred)[j],
    decreases s.len(),
{
    reveal_with_fuel(Seq::filter, 2);
    if s.len() > 0 {
        if pred(s.last()) && j == s.filter(pred).len() - 1 {
            assert(s[s.len() - 1] == s.filter(pred)[j]);
        } else {
            assert(s.filter(pred) == s.drop_last().filter(pred).push(s.last()) || s.filter(
                pred,
            ) == s.drop_last().filter(pred));
            lemma_filter_origin(s.drop_last(), pred, j);
            let src = choose|src: int|
                0 <= src < s.drop_last().len() && s.drop_last()[src] == s.drop_last().filter(
                    pred,
                )[j];
            assert(s[src] == s.filter(pred)[j]);
        }
    }
}

/// Filtering with an everywhere-true predicate keeps the sequence.
pub proof fn lemma_filter_all<A>(s: Seq<A>, pred: spec_fn(A) -> bool)
    requires
        forall|k: int| 0 <= k < s.len() ==> pred(#[trigger] s[k]),
    ensures
        s.filter(pred) == s,
    decreases s.len(),
{
    reveal_with_fuel(Seq::filter, 2);
    if s.len() > 0 {
        assert(forall|k: int| 0 <= k < s.len() - 1 ==> s.drop_last()[k] == s[k]);
        lemma_filter_all(s.drop_last(), pred);
        assert(pred(s.last()));
        assert(s.drop_last().push(s.last()) =~= s);
    }
}

/// Digit strings carry no whitespace and no letters: trimming and
/// lowercasing leave them alone, and they end in a digit.
pub proof fn lemma_digits_plain(d: Seq<char>)
    requires
        all_digits(d),
    ensures
        space_free(d),
        lower(d) == d,
        trim_spec(d) == d,
        forall|j: int| 0 <= j < d.len() ==> '0' <= #[trigger] d[j] <= '9',
{
    assert(forall|j: int| 0 <= j < d.len() ==> '0' <= #[trigger] d[j] <= '9');
    assert forall|j: int| 0 <= j < d.len() implies !is_space(#[trigger] d[j]) by {
        assert(is_digit_char(d[j]));
    }
    assert forall|j: int| 0 <= j < d.len() implies lower_char(#[trigger] d[j]) == d[j] by {
        assert(is_digit_char(d[j]));
    }
    assert(lower(d) =~= d);
    lemma_trim_id(d);
}

/// Trimming keeps any per-character property.
pub proof fn lemma_trim_preserves(s: Seq<char>, pred: spec_fn(char) -> bool)
    requires
        forall|j: int| 0 <= j < s.len() ==> pred(#[trigger] s[j]),
    ensures
        forall|j: int|
            0 <= j < trim_spec(s).len() ==> pred(#[trigger] trim_spec(s)[j]),
{
    lemma_trim_start_preserves(s, pred);
    lemma_trim_end_preserves(trim_start_spec(s), pred);
}

proof fn lemma_trim_start_preserves(s: Seq<char>, pred: spec_fn(char) -> bool)
    requires
        forall|j: int| 0 <= j < s.len() ==> pred(#[trigger] s[j]),
    ensures
        forall|j: int|
            0 <= j < trim_start_spec(s).len() ==> pred(#[trigger] trim_start_spec(s)[j]),
    decreases s.len(),
{
    if s.len() > 0 && is_space(s[0]) {
        assert(forall|j: int|
            0 <= j < s.len() - 1 ==> #[trigger] s.drop_first()[j] == s[j + 1]);
        lemma_trim_start_preserves(s.drop_first(), pred);
        assert forall|j: int|
            0 <= j < trim_start_spec(s).len() implies pred(
            #[trigger] trim_start_spec(s)[j],
        ) by {
            assert(trim_start_spec(s) == trim_start_spec(s.drop_first()));
            assert(pred(trim_start_spec(s.drop_first())[j]));
        }
    } else {
        assert(trim_start_spec(s) == s);
    }
}

proof fn lemma_trim_end_preserves(s: Seq<char>, pred: spec_fn(char) -> bool)
    requires
        forall|j: int| 0 <= j < s.len() ==> pred(#[trigger] s[j]),
    ensures
        forall|j: int|
            0 <= j < trim_end_spec(s).len() ==> pred(#[trigger] trim_end_spec(s)[j]),
    decreases s.len(),
{
    if s.len() > 0 && is_space(s.last()) {
        assert(forall|j: int| 0 <= j < s.len() - 1 ==> #[trigger] s.drop_last()[j] == s[j]);
        lemma_trim_end_preserves(s.drop_last(), pred);
        assert forall|j: int|
            0 <= j < trim_end_spec(s).len() implies pred(#[trigger] trim_end_spec(s)[j]) by {
            assert(trim_end_spec(s) == trim_end_spec(s.drop_last()));
            assert(pred(trim_end_spec(s.drop_last())[j]));
        }
    } else {
        assert(trim_end_spec(s) == s);
    }
}

/// Every piece the separator split yields is separator-free and keeps any
/// per-character property of the input.
pub proof fn lemma_split_char_pieces(
    s: Seq<char>,
    sep: char,
    cur: Seq<char>,
    pred: spec_fn(char) -> bool,
)
    requires
        forall|j: int| 0 <= j < cur.len() ==> #[trigger] cur[j] != sep && pred(cur[j]),
        forall|j: int| 0 <= j < s.len() ==> pred(#[trigger] s[j]),
    ensures
        forall|k: int, j: int|
            0 <= k < split_char_acc(s, sep, cur).len() && 0 <= j < split_char_acc(s, sep, cur)[
                k
            ].len() ==> (#[trigger] split_char_acc(s, sep, cur)[k][j]) != sep && pred(
                split_char_acc(s, sep, cur)[k][j],
            ),
    decreases s.len(),
{
    let whole = split_char_acc(s, sep, cur);
    if s.len() == 0 {
        assert(whole == seq![cur]);
        assert forall|k: int, j: int|
            0 <= k < whole.len() && 0 <= j < whole[k].len() implies (#[trigger] whole[k][j])
            != sep && pred(whole[k][j]) by {
            assert(whole[k] == cur);
        }
    } else {
        assert(forall|j: int| 0 <= j < s.len() - 1 ==> #[trigger] s.drop_first()[j] == s[j + 1]);
        if s[0] == sep {
            lemma_split_char_pieces(s.drop_first(), sep, Seq::<char>::empty(), pred);
            let tail = split_char_acc(s.drop_first(), sep, Seq::<char>::empty());
            assert(whole == seq![cur] + tail);
            assert forall|k: int, j: int|
                0 <= k < whole.len() && 0 <= j < whole[k].len() implies (
            #[trigger] whole[k][j]) != sep && pred(whole[k][j]) by {
                if k == 0 {
                    assert(whole[k] == cur);
                } else {
                    assert(whole[k] == tail[k - 1]);
                    assert(tail[k - 1][j] != sep && pred(tail[k - 1][j]));
                }
            }
        } else {
            assert(forall|j: int|
                0 <= j < cur.len() + 1 ==> #[trigger] cur.push(s[0])[j] != sep && pred(
                    cur.push(s[0])[j],
                )) by {
                assert(forall|j: int| 0 <= j < cur.len() ==> cur.push(s[0])[j] == cur[j]);
                assert(cur.push(s[0])[cur.len() as int] == s[0]);
            }
            lemma_split_char_pieces(s.drop_first(), sep, cur.push(s[0]), pred);
            let tail = split_char_acc(s.drop_first(), sep, cur.push(s[0]));
            assert(whole == tail);
            assert forall|k: int, j: int|
                0 <= k < whole.len() && 0 <= j < whole[k].len() implies (
            #[trigger] whole[k][j]) != sep && pred(whole[k][j]) by {
                assert(tail[k][j] != sep && pred(tail[k][j]));
            }
        }
    }
}

/// Lowercasing produces no uppercase letter and keeps a character
/// property that holds of every non-uppercase character it can produce.
pub proof fn lemma_lower_not_upper(s: Seq<char>)
    ensures
        forall|j: int| 0 <= j < lower(s).len() ==> !is_ascii_upper(#[trigger] lower(s)[j]),
{
    assert forall|j: int|
        0 <= j < lower(s).len() implies !is_ascii_upper(#[trigger] lower(s)[j]) by {
        assert(lower(s)[j] == lower_char(s[j]));
    }
}

// ---------------------------------------------------------------------------
// Trimming whitespace
// ---------------------------------------------------------------------------

pub open spec fn trim_start_spec(s: Seq<char>) -> Seq<char>
    decreases s.len(),
{
    if s.len() == 0 {
        s
    } else if is_space(s[0]) {
        trim_start_spec(s.drop_first())
    } else {
        s
    }
}

pub open spec fn trim_end_spec(s: Seq<char>) -> Seq<char>
    decreases s.len(),
{
    if s.len() == 0 {
        s
    } else if is_space(s.last()) {
        trim_end_spec(s.drop_last())
    } else {
        s
    }
}

/// Whitespace trimmed from both ends.
pub open spec fn trim_spec(s: Seq<char>) -> Seq<char> {
    trim_end_spec(trim_start_spec(s))
}

pub fn is_space_char(c: char) -> (r: bool)
    ensures
        r == is_space(c),
{
    c == ' ' || c == '\t' || c == '\n' || c == '\r'
}

pub fn trim_vec(v: &Vec<char>) -> (r: Vec<char>)
    ensures
        r@ == trim_spec(v@),
{
    let mut a: usize = 0;
    proof {
        assert(v@.skip(0) =~= v@);
    }
    while a < v.len() && is_space_char(v[a])
        invariant
            a <= v.len(),
            trim_start_spec(v@) == trim_start_spec(v@.skip(a as int)),
            forall|j: int| 0 <= j < a ==> is_space(v@[j]),
        decreases v.len() - a,
    {
        proof {
            assert(v@.skip(a as int)[0] == v@[a as int]);
            assert(v@.skip(a as int).drop_first() =~= v@.skip(a + 1));
        }
        a = a + 1;
    }
    proof {
        if a < v.len() {
            assert(trim_start_spec(v@.skip(a as int)) == v@.skip(a as int));
        } else {
            assert(v@.skip(a as int) =~= Seq::<char>::empty());
        }
    }
    let mut b: usize = v.len();
    while b > a && is_space_char(v[b - 1])
        invariant
            a <= b <= v.len(),
            trim_start_spec(v@) == v@.skip(a as int) || (a == b && trim_start_spec(v@).len()
                == 0),
            trim_end_spec(v@.subrange(a as int, v@.len() as int)) == trim_end_spec(
                v@.subrange(a as int, b as int),
            ),
        decreases b,
    {
        proof {
            assert(v@.subrange(a as int, b as int).last() == v@[b - 1]);
            assert(v@.subrange(a as int, b as int).drop_last() =~= v@.subrange(a as int, b - 1));
        }
        b = b - 1;
    }
    proof {
        if b > a {
            assert(!is_space(v@.subrange(a as int, b as int).last()));
            assert(trim_end_spec(v@.subrange(a as int, b as int)) == v@.subrange(
                a as int,
                b as int,
            ));
        } else {
            assert(v@.subrange(a as int, b as int) =~= Seq::<char>::empty());
        }
        if a < v.len() {
            assert(v@.skip(a as int) =~= v@.subrange(a as int, v@.len() as int));
        } else {
            assert(trim_start_spec(v@).len() == 0);
            assert(trim_start_spec(v@) =~= Seq::<char>::empty());
            assert(v@.subrange(a as int, v@.len() as int) =~= Seq::<char>::empty());
        }
    }
    sub_vec(v, a, b)
}

// ---------------------------------------------------------------------------
// String helpers
// ---------------------------------------------------------------------------

pub fn str_eq(a: &str, b: &str) -> (r: bool)
    ensures
        r == (a@ == b@),
{
    let av = chars_of(a);
    let bv = chars_of(b);
    eq_vec(&av, &bv)
}

pub fn lower_str(s: &str) -> (r: String)
    ensures
        r@ == lower(s@),
{
    let v = chars_of(s);
    let l = lower_vec(&v);
    string_of(&l)
}

// ---------------------------------------------------------------------------
// Decimal numbers
// ---------------------------------------------------------------------------

pub open spec fn is_digit_char(c: char) -> bool {
    '0' <= c && c <= '9'
}

pub open spec fn digit_of(c: char) -> int {
    c as int - '0' as int
}

pub open spec fn all_digits(s: Seq<char>) -> bool {
    forall|i: int| 0 <= i < s.len() ==> is_digit_char(#[trigger] s[i])
}

/// The numeric value of a digit string, most significant first.
pub open spec fn dec_val(s: Seq<char>) -> int
    decreases s.len(),
{
    if s.len() == 0 {
        0
    } else {
        dec_val(s.drop_last()) * 10 + digit_of(s.last())
    }
}

pub proof fn lemma_dec_val_nonneg(s: Seq<char>)
    requires
        all_digits(s),
    ensures
        dec_val(s) >= 0,
    decreases s.len(),
{
    if s.len() > 0 {
        assert(all_digits(s.drop_last()));
        lemma_dec_val_nonneg(s.drop_last());
        assert(dec_val(s.drop_last()) * 10 >= 0) by (nonlinear_arith)
            requires
                dec_val(s.drop_last()) >= 0,
        ;
    }
}

/// Parse a nonempty all-digit token as a `u64`; `None` on any other input
/// or on overflow.
pub fn parse_u64_digits(v: &Vec<char>) -> (r: Option<u64>)
    ensures
        match r {
            Some(n) => v@.len() > 0 && all_digits(v@) && n == dec_val(v@),
            None => v@.len() == 0 || !all_digits(v@) || dec_val(v@) > u64::MAX,
        },
{
    if v.len() == 0 {
        return None;
    }
    let mut acc: u64 = 0;
    let mut i: usize = 0;
    proof {
        assert(v@.take(0) =~= Seq::<char>::empty());
    }
    while i < v.len()
        invariant
            i <= v@.len(),
            v@.len() > 0,
            all_digits(v@.take(i as int)),
            acc == dec_val(v@.take(i as int)),
        decreases v.len() - i,
    {
        let c = v[i];
        if c < '0' || c > '9' {
            assert(!is_digit_char(v@[i as int]));
            return None;
        }
        let d: u64 = (c as u32 - '0' as u32) as u64;
        proof {
            assert(v@.take(i + 1).drop_last() =~= v@.take(i as int));
            assert(v@.take(i + 1).last() == v@[i as int]);
        }
        if acc > (u64::MAX - d) / 10 {
            proof {
                assert(acc * 10 + d > u64::MAX) by (nonlinear_arith)
                    requires
                        acc > (u64::MAX - d) / 10,
                        d <= 9,
                ;
                assert(dec_val(v@.take(i + 1)) == acc * 10 + d);
                if all_digits(v@) {
                    lemma_dec_val_tail_grows(v@, i + 1);
                    assert(dec_val(v@) > u64::MAX);
                }
            }
            return None;
        }
        proof {
            assert(acc * 10 + d <= u64::MAX) by (nonlinear_arith)
                requires
                    acc <= (u64::MAX - d) / 10,
                    d <= 9,
            ;
        }
        acc = acc * 10 + d;
        i = i + 1;
    }
    proof {
        assert(v@.take(v@.len() as int) =~= v@);
    }
    Some(acc)
}

/// A digit-string prefix never exceeds the value of the whole string.
pub proof fn lemma_dec_val_tail_grows(s: Seq<char>, i: int)
    requires
        0 <= i <= s.len(),
        all_digits(s),
    ensures
        dec_val(s) >= dec_val(s.take(i)),
    decreases s.len() - i,
{
    if i < s.len() {
        lemma_dec_val_tail_grows(s, i + 1);
        assert(s.take(i + 1).drop_last() =~= s.take(i));
        assert(all_digits(s.take(i)));
        lemma_dec_val_nonneg(s.take(i));
        assert(dec_val(s.take(i + 1)) >= dec_val(s.take(i))) by (nonlinear_arith)
            requires
                dec_val(s.take(i + 1)) == dec_val(s.take(i)) * 10 + digit_of(s.take(i + 1).last()),
                digit_of(s.take(i + 1).last()) >= 0,
                dec_val(s.take(i)) >= 0,
        ;
    } else {
        assert(s.take(i) =~= s);
    }
}

pub open spec fn digit_char(d: int) -> char {
    (('0' as u8) + d as u8) as char
}

/// Decimal digits of `n`, most significant first; empty for zero.
pub open spec fn dec_rep_pos(n: nat) -> Seq<char>
    decreases n,
{
    if n == 0 {
        Seq::empty()
    } else {
        dec_rep_pos(n / 10) + seq![digit_char((n % 10) as int)]
    }
}

/// Canonical decimal representation of `n` (so zero is "0").
pub open spec fn dec_rep(n: nat) -> Seq<char> {
    if n == 0 {
        seq!['0']
    } else {
        dec_rep_pos(n)
    }
}

pub proof fn lemma_dec_rep_pos_digits(n: nat)
    ensures
        all_digits(dec_rep_pos(n)),
        dec_val(dec_rep_pos(n)) == n,
        n > 0 ==> dec_rep_pos(n).len() > 0,
    decreases n,
{
    if n > 0 {
        lemma_dec_rep_pos_digits(n / 10);
        let s = dec_rep_pos(n);
        assert(s.drop_last() =~= dec_rep_pos(n / 10));
        assert(s.last() == digit_char((n % 10) as int));
        assert(0 <= n % 10 < 10);
        assert(is_digit_char(digit_char((n % 10) as int)));
        assert(digit_of(digit_char((n % 10) as int)) == n % 10);
        assert(dec_val(s) == (n / 10) * 10 + n % 10);
        assert((n / 10) * 10 + n % 10 == n) by (nonlinear_arith);
    }
}

/// The decimal printer and the digit parser invert each other.
pub proof fn lemma_dec_rep_round_trip(n: nat)
    ensures
        all_digits(dec_rep(n)),
        dec_rep(n).len() > 0,
        dec_val(dec_rep(n)) == n,
{
    if n == 0 {
        assert(dec_rep(0).drop_last() =~= Seq::<char>::empty());
        assert(dec_val(Seq::<char>::empty()) == 0);
        assert(dec_val(dec_rep(0)) == 0);
        assert(is_digit_char('0'));
    } else {
        lemma_dec_rep_pos_digits(n);
    }
}

pub fn u64_to_dec(n: u64) -> (r: Vec<char>)
    ensures
        r@ == dec_rep(n as nat),
{
    if n == 0 {
        let mut r: Vec<char> = Vec::new();
        r.push('0');
        proof {
            assert(r@ =~= dec_rep(0));
        }
        return r;
    }
    let mut rev: Vec<char> = Vec::new();
    let mut m: u64 = n;
    while m > 0
        invariant
            dec_rep_pos(n as nat) == dec_rep_pos(m as nat) + rev@.reverse(),
        decreases m,
    {
        let d: u64 = m % 10;
        let c: char = (('0' as u8) + (d as u8)) as char;
        proof {
            assert(c == digit_char(d as int));
            assert(dec_rep_pos(m as nat) == dec_rep_pos((m / 10) as nat) + seq![c]);
            assert(dec_rep_pos((m / 10) as nat) + (seq![c] + rev@.reverse()) =~= (dec_rep_pos(
                (m / 10) as nat,
            ) + seq![c]) + rev@.reverse());
            assert(rev@.push(c).reverse() =~= seq![c] + rev@.reverse());
        }
        rev.push(c);
        m = m / 10;
    }
    let mut r: Vec<char> = Vec::new();
    let mut i: usize = rev.len();
    while i > 0
        invariant
            i <= rev@.len(),
            r@ == rev@.reverse().take(rev@.len() - i),
        decreases i,
    {
        i = i - 1;
        r.push(rev[i]);
        proof {
            assert(rev@.reverse().take(rev@.len() - i) =~= rev@.reverse().take(
                rev@.len() - i - 1,
            ).push(rev@.reverse()[rev@.len() - i - 1]));
            assert(rev@.reverse()[rev@.len() - i - 1] == rev@[i as int]);
        }
    }
    proof {
        assert(rev@.reverse().take(rev@.len() as int) =~= rev@.reverse());
        assert(dec_rep_pos(0) + rev@.reverse() =~= rev@.reverse());
    }
    r
}

} // verus!
