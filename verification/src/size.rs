//! File-size predicates, the size grammar (`100`, `1kb`, `3M`, ...) with
//! binary multipliers, and human-readable size formatting.
use vstd::prelude::*;

use crate::text::{
    all_digits, chars_of, dec_rep, dec_val, ends_with_seq, ends_with_vec, lower, lower_vec,
    string_of, sub_vec, trim_spec, trim_vec, u64_to_dec,
};
use crate::types::{FileEntry, SizeFilter};

verus! {

/// Does a file of `size` bytes pass the filter?
pub open spec fn size_accepts(filter: SizeFilter, size: u64) -> bool {
    match filter {
        SizeFilter::Exact(n) => size == n,
        SizeFilter::Range(lo, hi) => lo <= size && size <= hi,
        SizeFilter::GreaterThan(n) => size > n,
        SizeFilter::LessThan(n) => size < n,
    }
}

pub fn apply_size_filter(entry: &FileEntry, filter: &SizeFilter) -> (r: bool)
    ensures
        r == size_accepts(*filter, entry.size),
{
    match filter {
        SizeFilter::Exact(n) => entry.size == *n,
        SizeFilter::Range(lo, hi) => *lo <= entry.size && entry.size <= *hi,
        SizeFilter::GreaterThan(n) => entry.size > *n,
        SizeFilter::LessThan(n) => entry.size < *n,
    }
}

pub const KIB: u64 = 1024;

pub const MIB: u64 = 1048576;

pub const GIB: u64 = 1073741824;

pub const TIB: u64 = 1099511627776;

/// The number part and binary multiplier of a lowercased size token:
/// a trailing unit (`kb`/`k`, `mb`/`m`, `gb`/`g`, `tb`/`t`, `b`) is split
/// off; the rest is trimmed again.
pub open spec fn size_parts(l: Seq<char>) -> (Seq<char>, u64) {
    if ends_with_seq(l, "kb"@) {
        (trim_spec(l.take(l.len() - 2)), KIB)
    } else if ends_with_seq(l, "k"@) {
        (trim_spec(l.take(l.len() - 1)), KIB)
    } else if ends_with_seq(l, "mb"@) {
        (trim_spec(l.take(l.len() - 2)), MIB)
    } else if ends_with_seq(l, "m"@) {
        (trim_spec(l.take(l.len() - 1)), MIB)
    } else if ends_with_seq(l, "gb"@) {
        (trim_spec(l.take(l.len() - 2)), GIB)
    } else if ends_with_seq(l, "g"@) {
        (trim_spec(l.take(l.len() - 1)), GIB)
    } else if ends_with_seq(l, "tb"@) {
        (trim_spec(l.take(l.len() - 2)), TIB)
    } else if ends_with_seq(l, "t"@) {
        (trim_spec(l.take(l.len() - 1)), TIB)
    } else if ends_with_seq(l, "b"@) {
        (trim_spec(l.take(l.len() - 1)), 1)
    } else {
        (trim_spec(l), 1)
    }
}

/// The byte count a size token denotes: its digits times its unit, or
/// nothing when the digits are missing, malformed, or the product does
/// not fit in 64 bits.
pub open spec fn parse_size_spec(s: Seq<char>) -> Option<u64> {
    let l = lower(trim_spec(s));
    let num = size_parts(l).0;
    let mult = size_parts(l).1;
    if num.len() > 0 && all_digits(num) && dec_val(num) <= u64::MAX && dec_val(num) * mult
        <= u64::MAX {
        Some((dec_val(num) * mult) as u64)
    } else {
        None
    }
}

fn strip_suffix(l: &Vec<char>, n: usize) -> (r: Vec<char>)
    requires
        n <= l@.len(),
    ensures
        r@ == trim_spec(l@.take(l@.len() - n)),
{
    let kept = sub_vec(l, 0, l.len() - n);
    proof {
        assert(kept@ =~= l@.take(l@.len() - n));
    }
    trim_vec(&kept)
}

pub fn parse_size(input: &str) -> (r: Option<u64>)
    ensures
        r == parse_size_spec(input@),
{
    proof {
        reveal_strlit("kb");
        reveal_strlit("k");
        reveal_strlit("mb");
        reveal_strlit("m");
        reveal_strlit("gb");
        reveal_strlit("g");
        reveal_strlit("tb");
        reveal_strlit("t");
        reveal_strlit("b");
    }
    let v = chars_of(input);
    let t = trim_vec(&v);
    let l = lower_vec(&t);
    let suffix_kb = chars_of("kb");
    let suffix_k = chars_of("k");
    let suffix_mb = chars_of("mb");
    let suffix_m = chars_of("m");
    let suffix_gb = chars_of("gb");
    let suffix_g = chars_of("g");
    let suffix_tb = chars_of("tb");
    let suffix_t = chars_of("t");
    let suffix_b = chars_of("b");
    let mut mult: u64 = 1;
    let num: Vec<char> = if ends_with_vec(&l, &suffix_kb) {
        mult = KIB;
        strip_suffix(&l, 2)
    } else if ends_with_vec(&l, &suffix_k) {
        mult = KIB;
        strip_suffix(&l, 1)
    } else if ends_with_vec(&l, &suffix_mb) {
        mult = MIB;
        strip_suffix(&l, 2)
    } else if ends_with_vec(&l, &suffix_m) {
        mult = MIB;
        strip_suffix(&l, 1)
    } else if ends_with_vec(&l, &suffix_gb) {
        mult = GIB;
        strip_suffix(&l, 2)
    } else if ends_with_vec(&l, &suffix_g) {
        mult = GIB;
        strip_suffix(&l, 1)
    } else if ends_with_vec(&l, &suffix_tb) {
        mult = TIB;
        strip_suffix(&l, 2)
    } else if ends_with_vec(&l, &suffix_t) {
        mult = TIB;
        strip_suffix(&l, 1)
    } else if ends_with_vec(&l, &suffix_b) {
        mult = 1;
        strip_suffix(&l, 1)
    } else {
        trim_vec(&l)
    };
    proof {
        assert(trim_spec(l@) =~= l@) by {
            crate::size::lemma_trim_of_trimmed_lower(v@);
        }
        assert(num@ == size_parts(l@).0 && mult == size_parts(l@).1);
    }
    match crate::text::parse_u64_digits(&num) {
        Some(n) => {
            if mult == 1 {
                Some(n)
            } else if n <= u64::MAX / mult {
                proof {
                    assert(n * mult <= u64::MAX) by (nonlinear_arith)
                        requires
                            mult >= 1,
                            n <= u64::MAX / mult,
                    ;
                }
                Some(n * mult)
            } else {
                proof {
                    assert(n * mult > u64::MAX) by (nonlinear_arith)
                        requires
                            mult >= 1,
                            n > u64::MAX / mult,
                    ;
                }
                None
            }
        },
        None => None,
    }
}

/// A bare digit string reads back as exactly its value: no unit suffix
/// can fire on a string ending in a digit.
pub proof fn lemma_parse_size_digits(n: u64)
    ensures
        parse_size_spec(crate::text::dec_rep(n as nat)) == Some(n),
{
    proof_suffix_reveals();
    let d = crate::text::dec_rep(n as nat);
    crate::text::lemma_dec_rep_round_trip(n as nat);
    crate::text::lemma_digits_plain(d);
    let l = lower(trim_spec(d));
    assert(l == d);
    lemma_digits_no_unit(d);
    assert(size_parts(l) == (trim_spec(l), 1u64));
    assert(trim_spec(l) == d);
    assert(dec_val(d) * 1 == dec_val(d));
}

/// No unit suffix matches a string of digits.
pub proof fn lemma_digits_no_unit(d: Seq<char>)
    requires
        all_digits(d),
        d.len() > 0,
    ensures
        !ends_with_seq(d, "kb"@),
        !ends_with_seq(d, "k"@),
        !ends_with_seq(d, "mb"@),
        !ends_with_seq(d, "m"@),
        !ends_with_seq(d, "gb"@),
        !ends_with_seq(d, "g"@),
        !ends_with_seq(d, "tb"@),
        !ends_with_seq(d, "t"@),
        !ends_with_seq(d, "b"@),
{
    proof_suffix_reveals();
    assert(crate::text::is_digit_char(d.last()));
    if ends_with_seq(d, "kb"@) {
        assert(d.subrange(d.len() - 2, d.len() as int)[1] == d.last());
    }
    if ends_with_seq(d, "k"@) {
        assert(d.subrange(d.len() - 1, d.len() as int)[0] == d.last());
    }
    if ends_with_seq(d, "mb"@) {
        assert(d.subrange(d.len() - 2, d.len() as int)[1] == d.last());
    }
    if ends_with_seq(d, "m"@) {
        assert(d.subrange(d.len() - 1, d.len() as int)[0] == d.last());
    }
    if ends_with_seq(d, "gb"@) {
        assert(d.subrange(d.len() - 2, d.len() as int)[1] == d.last());
    }
    if ends_with_seq(d, "g"@) {
        assert(d.subrange(d.len() - 1, d.len() as int)[0] == d.last());
    }
    if ends_with_seq(d, "tb"@) {
        assert(d.subrange(d.len() - 2, d.len() as int)[1] == d.last());
    }
    if ends_with_seq(d, "t"@) {
        assert(d.subrange(d.len() - 1, d.len() as int)[0] == d.last());
    }
    if ends_with_seq(d, "b"@) {
        assert(d.subrange(d.len() - 1, d.len() as int)[0] == d.last());
    }
}

proof fn proof_suffix_reveals()
    ensures
        "kb"@.len() == 2 && "kb"@[1] == 'b',
        "k"@.len() == 1 && "k"@[0] == 'k',
        "mb"@.len() == 2 && "mb"@[1] == 'b',
        "m"@.len() == 1 && "m"@[0] == 'm',
        "gb"@.len() == 2 && "gb"@[1] == 'b',
        "g"@.len() == 1 && "g"@[0] == 'g',
        "tb"@.len() == 2 && "tb"@[1] == 'b',
        "t"@.len() == 1 && "t"@[0] == 't',
        "b"@.len() == 1 && "b"@[0] == 'b',
{
    reveal_strlit("kb");
    reveal_strlit("k");
    reveal_strlit("mb");
    reveal_strlit("m");
    reveal_strlit("gb");
    reveal_strlit("g");
    reveal_strlit("tb");
    reveal_strlit("t");
    reveal_strlit("b");
}

/// Trimming then lowercasing leaves nothing more to trim: lowercase maps
/// no character to whitespace.
pub proof fn lemma_trim_of_trimmed_lower(s: Seq<char>)
    ensures
        trim_spec(lower(trim_spec(s))) == lower(trim_spec(s)),
{
    let t = trim_spec(s);
    let l = lower(t);
    lemma_trim_ends(s);
    if l.len() > 0 {
        assert(!crate::text::is_space(t[0]) && !crate::text::is_space(t.last()));
        assert(l[0] == crate::text::lower_char(t[0]));
        assert(l.last() == crate::text::lower_char(t.last()));
        assert(!crate::text::is_space(l[0]) && !crate::text::is_space(l.last()));
        assert(crate::text::trim_start_spec(l) == l);
        assert(crate::text::trim_end_spec(l) == l);
    } else {
        assert(l =~= Seq::<char>::empty());
    }
}

/// A trimmed string has no whitespace at either end.
pub proof fn lemma_trim_ends(s: Seq<char>)
    ensures
        trim_spec(s).len() > 0 ==> !crate::text::is_space(trim_spec(s)[0]),
        trim_spec(s).len() > 0 ==> !crate::text::is_space(trim_spec(s).last()),
    decreases s.len(),
{
    lemma_trim_start_ends(s);
    let ts = crate::text::trim_start_spec(s);
    lemma_trim_end_keeps_first(ts);
}

proof fn lemma_trim_start_ends(s: Seq<char>)
    ensures
        crate::text::trim_start_spec(s).len() > 0 ==> !crate::text::is_space(
            crate::text::trim_start_spec(s)[0],
        ),
    decreases s.len(),
{
    if s.len() > 0 && crate::text::is_space(s[0]) {
        lemma_trim_start_ends(s.drop_first());
    }
}

proof fn lemma_trim_end_keeps_first(s: Seq<char>)
    ensures
        crate::text::trim_end_spec(s).len() > 0 ==> !crate::text::is_space(
            crate::text::trim_end_spec(s).last(),
        ),
        (crate::text::trim_end_spec(s).len() > 0 && s.len() > 0 && !crate::text::is_space(s[0]))
            ==> !crate::text::is_space(crate::text::trim_end_spec(s)[0]),
    decreases s.len(),
{
    if s.len() > 0 && crate::text::is_space(s.last()) {
        lemma_trim_end_keeps_first(s.drop_last());
        if crate::text::trim_end_spec(s).len() > 0 && s.len() > 0 && !crate::text::is_space(
            s[0],
        ) {
            assert(s.drop_last()[0] == s[0]);
        }
    }
}

/// `format_size`: the size scaled to the largest unit it reaches, with two
/// (truncated) decimal places, or plain bytes below 1 KiB.
pub open spec fn format_size_spec(size: u64) -> Seq<char> {
    if size >= TIB {
        scaled_rep(size, TIB) + " TB"@
    } else if size >= GIB {
        scaled_rep(size, GIB) + " GB"@
    } else if size >= MIB {
        scaled_rep(size, MIB) + " MB"@
    } else if size >= KIB {
        scaled_rep(size, KIB) + " KB"@
    } else {
        dec_rep(size as nat) + " B"@
    }
}

/// `whole.frac2` of `size / unit`, the fraction truncated to two digits.
pub open spec fn scaled_rep(size: u64, unit: u64) -> Seq<char> {
    let whole = size as int / unit as int;
    let frac = (size as int % unit as int) * 100 / unit as int;
    dec_rep(whole as nat) + seq!['.'] + seq![
        crate::text::digit_char(frac / 10),
        crate::text::digit_char(frac % 10),
    ]
}

fn scaled_vec(size: u64, unit: u64) -> (r: Vec<char>)
    requires
        unit == KIB || unit == MIB || unit == GIB || unit == TIB,
    ensures
        r@ == scaled_rep(size, unit),
{
    let whole: u64 = size / unit;
    let rem: u64 = size % unit;
    proof {
        assert(rem * 100 <= u64::MAX) by (nonlinear_arith)
            requires
                rem < TIB,
        ;
        assert((rem as int) * 100 / (unit as int) < 100) by (nonlinear_arith)
            requires
                unit > 0,
                rem < unit,
        ;
    }
    let frac: u64 = rem * 100 / unit;
    let mut r = u64_to_dec(whole);
    r.push('.');
    let d1: u64 = frac / 10;
    let d2: u64 = frac % 10;
    r.push((('0' as u8) + (d1 as u8)) as char);
    r.push((('0' as u8) + (d2 as u8)) as char);
    proof {
        assert(r@ =~= scaled_rep(size, unit));
    }
    r
}

fn push_str_chars(r: &mut Vec<char>, s: &str)
    ensures
        final(r)@ == old(r)@ + s@,
{
    let sv = chars_of(s);
    let mut i: usize = 0;
    while i < sv.len()
        invariant
            i <= sv@.len(),
            r@ == old(r)@ + sv@.take(i as int),
        decreases sv.len() - i,
    {
        r.push(sv[i]);
        proof {
            assert(old(r)@ + sv@.take(i + 1) =~= (old(r)@ + sv@.take(i as int)).push(
                sv@[i as int],
            ));
        }
        i = i + 1;
    }
    proof {
        assert(sv@.take(sv@.len() as int) =~= sv@);
    }
}

pub fn format_size(size: u64) -> (r: String)
    ensures
        r@ == format_size_spec(size),
{
    let mut v: Vec<char>;
    if size >= TIB {
        v = scaled_vec(size, TIB);
        push_str_chars(&mut v, " TB");
    } else if size >= GIB {
        v = scaled_vec(size, GIB);
        push_str_chars(&mut v, " GB");
    } else if size >= MIB {
        v = scaled_vec(size, MIB);
        push_str_chars(&mut v, " MB");
    } else if size >= KIB {
        v = scaled_vec(size, KIB);
        push_str_chars(&mut v, " KB");
    } else {
        v = u64_to_dec(size);
        push_str_chars(&mut v, " B");
    }
    string_of(&v)
}

} // verus!
