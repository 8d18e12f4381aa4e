//! Lexical path helpers over plain strings: base name, stem, extension,
//! depth, joining, hidden-name detection, and a lexical normal form. Paths
//! are `/`-separated; no filesystem is consulted.
use vstd::prelude::*;

use crate::text::{chars_of, eq_vec, split_char, split_char_vec, string_of, sub_vec, views_of};

verus! {

/// Trailing separators dropped (the root alone keeps one lexically: an
/// all-separator path becomes empty here).
pub open spec fn strip_trailing_slashes(s: Seq<char>) -> Seq<char>
    decreases s.len(),
{
    if s.len() > 0 && s.last() == '/' {
        strip_trailing_slashes(s.drop_last())
    } else {
        s
    }
}

/// Index of the last separator, or -1.
pub open spec fn last_slash(s: Seq<char>) -> int
    decreases s.len(),
{
    if s.len() == 0 {
        -1
    } else if s.last() == '/' {
        s.len() - 1
    } else {
        last_slash(s.drop_last())
    }
}

pub proof fn lemma_last_slash(s: Seq<char>)
    ensures
        -1 <= last_slash(s) < s.len(),
        last_slash(s) >= 0 ==> s[last_slash(s)] == '/',
        forall|k: int| last_slash(s) < k < s.len() ==> s[k] != '/',
    decreases s.len(),
{
    if s.len() > 0 && s.last() != '/' {
        lemma_last_slash(s.drop_last());
        assert(forall|k: int| 0 <= k < s.len() - 1 ==> s[k] == s.drop_last()[k]);
    }
}

/// The final path component: what follows the last separator, trailing
/// separators ignored. The root and the empty path have none.
pub open spec fn base_name_spec(s: Seq<char>) -> Seq<char> {
    let t = strip_trailing_slashes(s);
    t.skip(last_slash(t) + 1)
}

fn strip_trailing_exec(v: &Vec<char>) -> (r: Vec<char>)
    ensures
        r@ == strip_trailing_slashes(v@),
{
    let mut b: usize = v.len();
    proof {
        assert(v@.take(v@.len() as int) =~= v@);
    }
    while b > 0 && v[b - 1] == '/'
        invariant
            b <= v@.len(),
            strip_trailing_slashes(v@) == strip_trailing_slashes(v@.take(b as int)),
        decreases b,
    {
        proof {
            assert(v@.take(b as int).last() == v@[b - 1]);
            assert(v@.take(b as int).drop_last() =~= v@.take(b - 1));
        }
        b = b - 1;
    }
    proof {
        if b > 0 {
            assert(v@.take(b as int).last() == v@[b - 1]);
            assert(strip_trailing_slashes(v@.take(b as int)) == v@.take(b as int));
        } else {
            assert(v@.take(0) =~= Seq::<char>::empty());
        }
    }
    sub_vec(v, 0, b)
}

fn base_name_vec(v: &Vec<char>) -> (r: Vec<char>)
    ensures
        r@ == base_name_spec(v@),
{
    let t = strip_trailing_exec(v);
    let mut i: usize = t.len();
    while i > 0 && t[i - 1] != '/'
        invariant
            i <= t@.len(),
            forall|k: int| i <= k < t@.len() ==> t@[k] != '/',
        decreases i,
    {
        i = i - 1;
    }
    proof {
        lemma_last_slash(t@);
        if i > 0 {
            assert(t@[i - 1] == '/');
            assert(last_slash(t@) == i - 1) by {
                if last_slash(t@) < i - 1 {
                    assert(t@[i - 1] != '/');
                } else if last_slash(t@) > i - 1 {
                    assert(t@[last_slash(t@)] != '/');
                }
            }
        } else {
            assert(last_slash(t@) == -1) by {
                if last_slash(t@) >= 0 {
                    assert(t@[last_slash(t@)] != '/');
                }
            }
        }
        assert(t@.skip(i as int) =~= t@.skip(last_slash(t@) + 1));
    }
    sub_vec(&t, i, t.len())
}

/// The final component of a path, or the empty string for the root.
pub fn get_file_name(path: &str) -> (r: String)
    ensures
        r@ == base_name_spec(path@),
{
    let v = chars_of(path);
    let b = base_name_vec(&v);
    string_of(&b)
}

/// Index of the last dot that separates an extension in a file name:
/// the name must neither start at that dot nor be dotless.
pub open spec fn ext_dot(name: Seq<char>) -> int
    decreases name.len(),
{
    if name.len() == 0 {
        -1
    } else if name.last() == '.' {
        name.len() - 1
    } else {
        ext_dot(name.drop_last())
    }
}

proof fn lemma_ext_dot(name: Seq<char>)
    ensures
        -1 <= ext_dot(name) < name.len(),
        ext_dot(name) >= 0 ==> name[ext_dot(name)] == '.',
        forall|k: int| ext_dot(name) < k < name.len() ==> name[k] != '.',
    decreases name.len(),
{
    if name.len() > 0 && name.last() != '.' {
        lemma_ext_dot(name.drop_last());
        assert(forall|k: int| 0 <= k < name.len() - 1 ==> name[k] == name.drop_last()[k]);
    }
}

/// The extension of a file name: what follows the last dot, unless the
/// only dot leads the name (a bare hidden file has no extension).
pub open spec fn extension_of_name(name: Seq<char>) -> Option<Seq<char>> {
    let d = ext_dot(name);
    if d > 0 {
        Some(name.skip(d + 1))
    } else {
        None
    }
}

/// The stem of a file name: what an extension leaves behind.
pub open spec fn stem_of_name(name: Seq<char>) -> Seq<char> {
    let d = ext_dot(name);
    if d > 0 {
        name.take(d)
    } else {
        name
    }
}

fn ext_dot_exec(name: &Vec<char>) -> (r: Option<usize>)
    ensures
        match r {
            Some(i) => ext_dot(name@) == i,
            None => ext_dot(name@) == -1,
        },
{
    let mut i: usize = name.len();
    while i > 0 && name[i - 1] != '.'
        invariant
            i <= name@.len(),
            forall|k: int| i <= k < name@.len() ==> name@[k] != '.',
        decreases i,
    {
        i = i - 1;
    }
    proof {
        lemma_ext_dot(name@);
        if i > 0 {
            assert(ext_dot(name@) == i - 1) by {
                if ext_dot(name@) < i - 1 {
                    assert(name@[i - 1] != '.');
                } else if ext_dot(name@) > i - 1 {
                    assert(name@[ext_dot(name@)] != '.');
                }
            }
        } else {
            assert(ext_dot(name@) == -1) by {
                if ext_dot(name@) >= 0 {
                    assert(name@[ext_dot(name@)] != '.');
                }
            }
        }
    }
    if i > 0 {
        Some(i - 1)
    } else {
        None
    }
}

/// The extension of a path's final component, if any; case is kept.
pub fn get_extension(path: &str) -> (r: Option<String>)
    ensures
        match r {
            Some(e) => extension_of_name(base_name_spec(path@)) == Some(e@),
            None => extension_of_name(base_name_spec(path@)) is None,
        },
{
    let v = chars_of(path);
    let name = base_name_vec(&v);
    proof {
        lemma_ext_dot(name@);
    }
    match ext_dot_exec(&name) {
        Some(d) => {
            if d > 0 {
                let nl: usize = name.len();
                assert(d < nl);
                let e = sub_vec(&name, d + 1, nl);
                proof {
                    assert(e@ =~= name@.skip(d + 1));
                }
                Some(string_of(&e))
            } else {
                None
            }
        },
        None => None,
    }
}

/// A path's final component without its extension.
pub fn get_file_stem(path: &str) -> (r: String)
    ensures
        r@ == stem_of_name(base_name_spec(path@)),
{
    let v = chars_of(path);
    let name = base_name_vec(&v);
    proof {
        lemma_ext_dot(name@);
    }
    match ext_dot_exec(&name) {
        Some(d) => {
            if d > 0 {
                let s = sub_vec(&name, 0, d);
                proof {
                    assert(s@ =~= name@.take(d as int));
                }
                string_of(&s)
            } else {
                string_of(&name)
            }
        },
        None => string_of(&name),
    }
}

/// The parent of a path: everything before its final component, or none
/// for the root and for single-component relative paths.
pub open spec fn parent_of(s: Seq<char>) -> Option<Seq<char>> {
    let t = strip_trailing_slashes(s);
    let d = last_slash(t);
    if t.len() == 0 {
        None
    } else if d == -1 {
        None
    } else if d == 0 {
        Some(seq!['/'])
    } else {
        Some(strip_trailing_slashes(t.take(d)))
    }
}

/// The parent directory of a path, if it has one.
pub fn get_parent(path: &str) -> (r: Option<String>)
    ensures
        match r {
            Some(p) => parent_of(path@) == Some(p@),
            None => parent_of(path@) is None,
        },
{
    let v = chars_of(path);
    let t = strip_trailing_exec(&v);
    if t.len() == 0 {
        return None;
    }
    let mut i: usize = t.len();
    while i > 0 && t[i - 1] != '/'
        invariant
            i <= t@.len(),
            forall|k: int| i <= k < t@.len() ==> t@[k] != '/',
        decreases i,
    {
        i = i - 1;
    }
    proof {
        lemma_last_slash(t@);
        if i > 0 {
            assert(t@[i - 1] == '/');
            assert(last_slash(t@) == i - 1) by {
                if last_slash(t@) < i - 1 {
                    assert(t@[i - 1] != '/');
                } else if last_slash(t@) > i - 1 {
                    assert(t@[last_slash(t@)] != '/');
                }
            }
        } else {
            assert(last_slash(t@) == -1) by {
                if last_slash(t@) >= 0 {
                    assert(t@[last_slash(t@)] != '/');
                }
            }
        }
    }
    if i == 0 {
        None
    } else if i == 1 {
        let mut root: Vec<char> = Vec::new();
        root.push('/');
        proof {
            assert(root@ =~= seq!['/']);
        }
        Some(string_of(&root))
    } else {
        let head = sub_vec(&t, 0, i - 1);
        proof {
            assert(head@ =~= t@.take(i - 1));
        }
        let stripped = strip_trailing_exec(&head);
        Some(string_of(&stripped))
    }
}

/// The number of components of a path: one for a leading separator, one
/// for each nonempty `.`-free segment.
pub open spec fn path_depth_spec(s: Seq<char>) -> int {
    (if s.len() > 0 && s[0] == '/' {
        1int
    } else {
        0int
    }) + split_char(s, '/').filter(|p: Seq<char>| p.len() > 0 && p != "."@).len()
}

/// How deep a path is: its component count.
pub fn get_path_depth(path: &str) -> (r: usize)
    ensures
        r == path_depth_spec(path@),
{
    proof {
        reveal_strlit(".");
    }
    let v = chars_of(path);
    let pieces = split_char_vec(&v, '/');
    let ghost keep = |p: Seq<char>| p.len() > 0 && p != "."@;
    let mut count: usize = 0;
    let mut i: usize = 0;
    let dot = chars_of(".");
    proof {
        assert(views_of(pieces@).take(0) =~= Seq::<Seq<char>>::empty());
    }
    proof {
        if v@.len() > 0 && v@[0] == '/' {
            assert(v@.drop_first() =~= v@.skip(1));
            assert(views_of(pieces@)[0] =~= Seq::<char>::empty());
        }
    }
    while i < pieces.len()
        invariant
            i <= pieces@.len(),
            keep == (|p: Seq<char>| p.len() > 0 && p != "."@),
            dot@ == "."@,
            count == views_of(pieces@).take(i as int).filter(keep).len(),
            count <= i,
            (v@.len() > 0 && v@[0] == '/' && i > 0) ==> count < i,
            (v@.len() > 0 && v@[0] == '/') ==> views_of(pieces@)[0].len() == 0,
        decreases pieces.len() - i,
    {
        proof {
            reveal_with_fuel(Seq::filter, 2);
            assert(views_of(pieces@).take(i + 1).drop_last() =~= views_of(pieces@).take(
                i as int,
            ));
            assert(views_of(pieces@).take(i + 1).last() == pieces@[i as int]@);
        }
        if pieces[i].len() > 0 && !eq_vec(&pieces[i], &dot) {
            count = count + 1;
        }
        i = i + 1;
    }
    proof {
        assert(views_of(pieces@).take(pieces@.len() as int) =~= views_of(pieces@));
    }
    if v.len() > 0 && v[0] == '/' {
        count + 1
    } else {
        count
    }
}

/// Is the final component a hidden name: starting with a dot, but not the
/// current- or parent-directory names?
pub open spec fn hidden_name(name: Seq<char>) -> bool {
    name.len() > 0 && name[0] == '.' && name != "."@ && name != ".."@
}

pub open spec fn is_hidden_spec(path: Seq<char>) -> bool {
    hidden_name(base_name_spec(path))
}

pub fn is_hidden(path: &str) -> (r: bool)
    ensures
        r == is_hidden_spec(path@),
{
    proof {
        reveal_strlit(".");
        reveal_strlit("..");
    }
    let v = chars_of(path);
    let name = base_name_vec(&v);
    if name.len() == 0 {
        return false;
    }
    if name[0] != '.' {
        return false;
    }
    let dot = chars_of(".");
    let dotdot = chars_of("..");
    if eq_vec(&name, &dot) || eq_vec(&name, &dotdot) {
        return false;
    }
    true
}

/// Is this name itself hidden?
pub fn hidden_name_exec(name: &Vec<char>) -> (r: bool)
    ensures
        r == hidden_name(name@),
{
    proof {
        reveal_strlit(".");
        reveal_strlit("..");
    }
    if name.len() == 0 {
        return false;
    }
    if name[0] != '.' {
        return false;
    }
    let dot = chars_of(".");
    let dotdot = chars_of("..");
    !(eq_vec(name, &dot) || eq_vec(name, &dotdot))
}

/// One component appended to a base path.
pub fn join_one_exec(base: &Vec<char>, comp: &Vec<char>) -> (r: Vec<char>)
    ensures
        r@ == join_one(base@, comp@),
{
    if comp.len() > 0 && comp[0] == '/' {
        let r = sub_vec(comp, 0, comp.len());
        proof {
            assert(r@ =~= comp@);
        }
        return r;
    }
    if base.len() == 0 {
        let r = sub_vec(comp, 0, comp.len());
        proof {
            assert(r@ =~= comp@);
        }
        return r;
    }
    let mut r = sub_vec(base, 0, base.len());
    proof {
        assert(r@ =~= base@);
    }
    if r[r.len() - 1] != '/' {
        r.push('/');
    }
    let ghost mid = r@;
    let mut k: usize = 0;
    while k < comp.len()
        invariant
            k <= comp@.len(),
            r@ == mid + comp@.take(k as int),
        decreases comp.len() - k,
    {
        r.push(comp[k]);
        proof {
            assert(mid + comp@.take(k + 1) =~= (mid + comp@.take(k as int)).push(
                comp@[k as int],
            ));
        }
        k = k + 1;
    }
    proof {
        assert(comp@.take(comp@.len() as int) =~= comp@);
        assert(r@ =~= join_one(base@, comp@));
    }
    r
}

/// `base` extended by one component: an absolute component replaces the
/// base, anything else is appended behind a separator (none doubled).
pub open spec fn join_one(base: Seq<char>, comp: Seq<char>) -> Seq<char> {
    if comp.len() > 0 && comp[0] == '/' {
        comp
    } else if base.len() == 0 {
        comp
    } else if base.last() == '/' {
        base + comp
    } else {
        base + seq!['/'] + comp
    }
}

pub fn join_paths(base: &str, comps: &Vec<String>) -> (r: String)
    ensures
        r@ == comps@.map_values(|c: String| c@).fold_left(base@, |acc: Seq<char>, c: Seq<char>|
            join_one(acc, c)),
{
    let mut acc = chars_of(base);
    let mut i: usize = 0;
    let ghost f = |acc: Seq<char>, c: Seq<char>| join_one(acc, c);
    let ghost cs = comps@.map_values(|c: String| c@);
    while i < comps.len()
        invariant
            i <= comps@.len(),
            cs == comps@.map_values(|c: String| c@),
            f == (|acc: Seq<char>, c: Seq<char>| join_one(acc, c)),
            acc@ == cs.take(i as int).fold_left(base@, f),
        decreases comps.len() - i,
    {
        proof {
            assert(cs.take(i + 1).drop_last() =~= cs.take(i as int));
            assert(cs.take(i + 1).last() == cs[i as int]);
        }
        let cv = chars_of(comps[i].as_str());
        if cv.len() > 0 && cv[0] == '/' {
            acc = cv;
        } else if acc.len() == 0 {
            acc = cv;
        } else {
            let ghost acc0 = acc@;
            if acc[acc.len() - 1] != '/' {
                acc.push('/');
            }
            let mut k: usize = 0;
            while k < cv.len()
                invariant
                    k <= cv@.len(),
                    acc@ == (if acc0.last() == '/' {
                        acc0
                    } else {
                        acc0 + seq!['/']
                    }) + cv@.take(k as int),
                decreases cv.len() - k,
            {
                acc.push(cv[k]);
                proof {
                    assert(cv@.take(k + 1) =~= cv@.take(k as int).push(cv@[k as int]));
                }
                k = k + 1;
            }
            proof {
                assert(cv@.take(cv@.len() as int) =~= cv@);
                if acc0.last() == '/' {
                    assert(acc@ =~= join_one(acc0, cv@));
                } else {
                    assert(acc@ =~= join_one(acc0, cv@));
                }
            }
        }
        i = i + 1;
    }
    proof {
        assert(cs.take(cs.len() as int) =~= cs);
    }
    string_of(&acc)
}

/// The lexical normal form of a path: segments split on separators;
/// empty and `.` segments dropped; a `..` removes the previous segment
/// when one exists, except at the root, where it vanishes, and at the
/// front of a relative path, where it stays.
pub open spec fn normal_segments(segs: Seq<Seq<char>>, absolute: bool) -> Seq<Seq<char>>
    decreases segs.len(),
{
    if segs.len() == 0 {
        Seq::empty()
    } else {
        let head = normal_segments(segs.drop_last(), absolute);
        let s = segs.last();
        if s.len() == 0 || s == "."@ {
            head
        } else if s == ".."@ {
            if head.len() > 0 && head.last() != ".."@ {
                head.drop_last()
            } else if absolute {
                head
            } else {
                head.push(s)
            }
        } else {
            head.push(s)
        }
    }
}

/// Segments joined by separators, with a leading one when absolute.
pub open spec fn assemble(segs: Seq<Seq<char>>, absolute: bool) -> Seq<char> {
    let joined = crate::text::join_sep(segs, '/');
    if absolute {
        seq!['/'] + joined
    } else {
        joined
    }
}

pub open spec fn normalize_spec(path: Seq<char>) -> Seq<char> {
    let absolute = path.len() > 0 && path[0] == '/';
    assemble(normal_segments(split_char(path, '/'), absolute), absolute)
}

/// The lexical normal form of a path; no symbolic links are resolved.
pub fn normalize_path(path: &str) -> (r: String)
    ensures
        r@ == normalize_spec(path@),
{
    proof {
        reveal_strlit(".");
        reveal_strlit("..");
    }
    let v = chars_of(path);
    let absolute = v.len() > 0 && v[0] == '/';
    let pieces = split_char_vec(&v, '/');
    let dot = chars_of(".");
    let dotdot = chars_of("..");
    let mut kept: Vec<Vec<char>> = Vec::new();
    let mut i: usize = 0;
    let ghost segs = views_of(pieces@);
    proof {
        assert(segs.take(0) =~= Seq::<Seq<char>>::empty());
        assert(views_of(kept@) =~= normal_segments(segs.take(0), absolute));
    }
    while i < pieces.len()
        invariant
            i <= pieces@.len(),
            segs == views_of(pieces@),
            dot@ == "."@,
            dotdot@ == ".."@,
            views_of(kept@) == normal_segments(segs.take(i as int), absolute),
        decreases pieces.len() - i,
    {
        proof {
            assert(segs.take(i + 1).drop_last() =~= segs.take(i as int));
            assert(segs.take(i + 1).last() == segs[i as int]);
        }
        let p = &pieces[i];
        if p.len() == 0 || eq_vec(p, &dot) {
            // dropped
        } else if eq_vec(p, &dotdot) {
            if kept.len() > 0 && !eq_vec(&kept[kept.len() - 1], &dotdot) {
                let ghost k0 = kept@;
                kept.pop();
                proof {
                    assert(views_of(kept@) =~= views_of(k0).drop_last());
                    assert(views_of(k0).last() == k0.last()@);
                }
            } else if absolute {
                // at the root: vanishes
            } else {
                let ghost k0 = kept@;
                kept.push(sub_vec(p, 0, p.len()));
                proof {
                    assert(kept@.last()@ =~= segs[i as int]);
                    assert(views_of(kept@) =~= views_of(k0).push(segs[i as int]));
                }
            }
        } else {
            let ghost k0 = kept@;
            kept.push(sub_vec(p, 0, p.len()));
            proof {
                assert(kept@.last()@ =~= segs[i as int]);
                assert(views_of(kept@) =~= views_of(k0).push(segs[i as int]));
            }
        }
        i = i + 1;
    }
    proof {
        assert(segs.take(segs.len() as int) =~= segs);
    }
    let joined = crate::text::join_sep_vec(&kept, '/');
    let mut out: Vec<char> = Vec::new();
    if absolute {
        out.push('/');
    }
    let mut k: usize = 0;
    let ghost out0 = out@;
    while k < joined.len()
        invariant
            k <= joined@.len(),
            out@ == out0 + joined@.take(k as int),
        decreases joined.len() - k,
    {
        out.push(joined[k]);
        proof {
            assert(joined@.take(k + 1) =~= joined@.take(k as int).push(joined@[k as int]));
        }
        k = k + 1;
    }
    proof {
        assert(joined@.take(joined@.len() as int) =~= joined@);
        assert(out@ =~= normalize_spec(path@));
    }
    string_of(&out)
}

/// Do two paths denote the same location lexically?
pub fn is_same_file(path1: &str, path2: &str) -> (r: bool)
    ensures
        r == (normalize_spec(path1@) == normalize_spec(path2@)),
{
    let n1 = normalize_path(path1);
    let n2 = normalize_path(path2);
    let v1 = chars_of(n1.as_str());
    let v2 = chars_of(n2.as_str());
    eq_vec(&v1, &v2)
}

} // verus!
