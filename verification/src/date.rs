//! Date predicates over modification times and the relative-date grammar
//! (`today`, `yesterday`, `3d`, `2weeks`, ...). Times are UNIX seconds; the
//! caller supplies the current instant, so every function here is a pure
//! function of its arguments.
use vstd::prelude::*;

use crate::text::{
    all_digits, chars_of, dec_val, ends_with_seq, ends_with_vec, lower, lower_vec, str_eq, sub_vec,
    trim_spec, trim_vec,
};
use crate::types::{DateFilter, FileEntry};

verus! {

pub const DAY_SECONDS: i64 = 86400;

pub const WEEK_SECONDS: i64 = 604800;

pub const MONTH_SECONDS: i64 = 2592000;

pub const YEAR_SECONDS: i64 = 31536000;

/// First second of the UTC calendar day containing `t`.
pub open spec fn day_start(t: i64) -> int {
    t as int - (t as int) % (DAY_SECONDS as int)
}

/// Does an entry modified at `modified` (absent: taken as `now`) pass the
/// filter? `On` accepts the whole UTC day around its instant, bounds
/// included.
pub open spec fn date_accepts(filter: DateFilter, modified: Option<i64>, now: i64) -> bool {
    let m = match modified {
        Some(t) => t as int,
        None => now as int,
    };
    match filter {
        DateFilter::After(d) => m > d,
        DateFilter::Before(d) => m < d,
        DateFilter::Between(d0, d1) => d0 <= m && m <= d1,
        DateFilter::On(d) => day_start(d) <= m && m <= day_start(d) + (DAY_SECONDS as int) - 1,
    }
}

pub fn apply_date_filter(entry: &FileEntry, filter: &DateFilter, now: i64) -> (r: bool)
    ensures
        r == date_accepts(*filter, entry.modified_at, now),
{
    let m: i64 = match entry.modified_at {
        Some(t) => t,
        None => now,
    };
    match filter {
        DateFilter::After(d) => m > *d,
        DateFilter::Before(d) => m < *d,
        DateFilter::Between(d0, d1) => *d0 <= m && m <= *d1,
        DateFilter::On(d) => {
            let rem: i64 = d.checked_rem_euclid(DAY_SECONDS).unwrap();
            let start: i128 = (*d as i128) - (rem as i128);
            let end: i128 = start + ((DAY_SECONDS as i128) - 1);
            start <= (m as i128) && (m as i128) <= end
        },
    }
}

/// The age, in seconds, that a relative-date token denotes: `today` is zero,
/// `yesterday` one day, `week`/`this week` one week, `month` thirty days,
/// `year` 365 days, and `<n>` with a `d`/`days`, `w`/`weeks`, `months` or
/// `years` suffix that many of each. Anything else denotes no age.
pub open spec fn rel_age_spec(s: Seq<char>) -> Option<int> {
    let l = lower(trim_spec(s));
    if l == "today"@ {
        Some(0int)
    } else if l == "yesterday"@ {
        Some(DAY_SECONDS as int)
    } else if l == "week"@ || l == "this week"@ {
        Some(WEEK_SECONDS as int)
    } else if l == "month"@ || l == "this month"@ {
        Some(MONTH_SECONDS as int)
    } else if l == "year"@ || l == "this year"@ {
        Some(YEAR_SECONDS as int)
    } else if ends_with_seq(l, "days"@) {
        num_times(l.take(l.len() - 4), DAY_SECONDS as int)
    } else if ends_with_seq(l, "d"@) {
        num_times(l.take(l.len() - 1), DAY_SECONDS as int)
    } else if ends_with_seq(l, "weeks"@) {
        num_times(l.take(l.len() - 5), WEEK_SECONDS as int)
    } else if ends_with_seq(l, "w"@) {
        num_times(l.take(l.len() - 1), WEEK_SECONDS as int)
    } else if ends_with_seq(l, "months"@) {
        num_times(l.take(l.len() - 6), MONTH_SECONDS as int)
    } else if ends_with_seq(l, "years"@) {
        num_times(l.take(l.len() - 5), YEAR_SECONDS as int)
    } else {
        None
    }
}

/// `unit` times the digits of the trimmed token, if well formed.
pub open spec fn num_times(tok: Seq<char>, unit: int) -> Option<int> {
    let t = trim_spec(tok);
    if t.len() > 0 && all_digits(t) && dec_val(t) <= u64::MAX {
        Some(dec_val(t) * unit)
    } else {
        None
    }
}

/// The instant a relative-date token denotes, measured back from `now`;
/// `None` for malformed tokens and for ages that land outside `i64`.
pub open spec fn rel_date_spec(s: Seq<char>, now: i64) -> Option<i64> {
    match rel_age_spec(s) {
        Some(age) => {
            if i64::MIN <= now - age <= i64::MAX {
                Some((now - age) as i64)
            } else {
                None
            }
        },
        None => None,
    }
}

/// Every age the grammar can denote is a nonnegative whole number of days.
pub proof fn lemma_rel_age_aligned(s: Seq<char>)
    requires
        rel_age_spec(s) is Some,
    ensures
        rel_age_spec(s)->Some_0 >= 0,
        rel_age_spec(s)->Some_0 % (DAY_SECONDS as int) == 0,
{
    let l = crate::text::lower(crate::text::trim_spec(s));
    let a = rel_age_spec(s)->Some_0;
    if l == "today"@ || l == "yesterday"@ || l == "week"@ || l == "this week"@ || l == "month"@
        || l == "this month"@ || l == "year"@ || l == "this year"@ {
        assert(a % (DAY_SECONDS as int) == 0);
    } else if ends_with_seq(l, "days"@) {
        lemma_num_times_mult(l.take(l.len() - 4), DAY_SECONDS as int, 1);
    } else if ends_with_seq(l, "d"@) {
        lemma_num_times_mult(l.take(l.len() - 1), DAY_SECONDS as int, 1);
    } else if ends_with_seq(l, "weeks"@) {
        lemma_num_times_mult(l.take(l.len() - 5), WEEK_SECONDS as int, 7);
    } else if ends_with_seq(l, "w"@) {
        lemma_num_times_mult(l.take(l.len() - 1), WEEK_SECONDS as int, 7);
    } else if ends_with_seq(l, "months"@) {
        lemma_num_times_mult(l.take(l.len() - 6), MONTH_SECONDS as int, 30);
    } else if ends_with_seq(l, "years"@) {
        lemma_num_times_mult(l.take(l.len() - 5), YEAR_SECONDS as int, 365);
    }
}

/// `num_times` with a whole-day unit gives a nonnegative whole number of
/// days.
proof fn lemma_num_times_mult(tok: Seq<char>, unit: int, days_per: int)
    requires
        unit == days_per * (DAY_SECONDS as int),
        days_per >= 1,
    ensures
        num_times(tok, unit) is Some ==> num_times(tok, unit)->Some_0 >= 0 && num_times(
            tok,
            unit,
        )->Some_0 % (DAY_SECONDS as int) == 0,
{
    if num_times(tok, unit) is Some {
        let t = trim_spec(tok);
        let a = num_times(tok, unit)->Some_0;
        assert(a == dec_val(t) * unit);
        crate::text::lemma_dec_val_nonneg(t);
        assert(a >= 0) by (nonlinear_arith)
            requires
                a == dec_val(t) * unit,
                dec_val(t) >= 0,
                unit > 0,
        ;
        assert(a == (dec_val(t) * days_per) * (DAY_SECONDS as int)) by (nonlinear_arith)
            requires
                a == dec_val(t) * unit,
                unit == days_per * (DAY_SECONDS as int),
        ;
        vstd::arithmetic::div_mod::lemma_mod_multiples_basic(
            dec_val(t) * days_per,
            DAY_SECONDS as int,
        );
    }
}

/// A printed whole-day age reads back exactly: `<days>d` against `now`
/// denotes `now` less that many days.
pub proof fn lemma_rel_date_days(days: u64, now: i64)
    requires
        now as int - (days as int) * (DAY_SECONDS as int) >= i64::MIN,
    ensures
        rel_date_spec(crate::text::dec_rep(days as nat) + "d"@, now) == Some(
            (now as int - (days as int) * (DAY_SECONDS as int)) as i64,
        ),
{
    proof_rel_reveals();
    let d = crate::text::dec_rep(days as nat);
    crate::text::lemma_dec_rep_round_trip(days as nat);
    crate::text::lemma_digits_plain(d);
    let v = d + "d"@;
    assert(forall|j: int| 0 <= j < v.len() ==> !crate::text::is_space(#[trigger] v[j])) by {
        assert(forall|j: int| 0 <= j < d.len() ==> v[j] == d[j]);
        assert(v[d.len() as int] == 'd');
    }
    assert(crate::text::space_free(v));
    crate::text::lemma_trim_id(v);
    assert(crate::text::lower(v) =~= v) by {
        assert(forall|j: int| 0 <= j < d.len() ==> v[j] == d[j]);
        assert(v[d.len() as int] == 'd');
        assert(forall|j: int|
            0 <= j < v.len() ==> #[trigger] crate::text::lower(v)[j]
                == crate::text::lower_char(v[j]));
    }
    let l = crate::text::lower(crate::text::trim_spec(v));
    assert(l == v);
    assert(v[0] == d[0]);
    assert(crate::text::is_digit_char(v[0]));
    assert(v.last() == 'd');
    lemma_digit_head_not_named(v);
    // only the bare-d suffix fires
    assert(!ends_with_seq(v, "days"@)) by {
        if ends_with_seq(v, "days"@) {
            assert(v.subrange(v.len() - 4, v.len() as int)[2] == v[v.len() - 2]);
            assert(v[v.len() - 2] == d[d.len() - 1]);
            assert(crate::text::is_digit_char(d.last()));
        }
    }
    assert(ends_with_seq(v, "d"@)) by {
        assert(v.subrange(v.len() - 1, v.len() as int) =~= "d"@);
    }
    assert(v.take(v.len() - 1) =~= d);
    assert(num_times(d, DAY_SECONDS as int) == Some(dec_val(d) * (DAY_SECONDS as int)));
    assert(rel_age_spec(v) == Some((days as int) * (DAY_SECONDS as int)));
    assert((days as int) * (DAY_SECONDS as int) >= 0) by (nonlinear_arith)
        requires
            days >= 0,
    ;
}

/// A token that begins with a digit is none of the named relative dates.
proof fn lemma_digit_head_not_named(v: Seq<char>)
    requires
        v.len() > 0,
        crate::text::is_digit_char(v[0]),
    ensures
        v != "today"@,
        v != "yesterday"@,
        v != "week"@,
        v != "this week"@,
        v != "month"@,
        v != "this month"@,
        v != "year"@,
        v != "this year"@,
{
    proof_rel_reveals();
    assert('0' <= v[0] <= '9');
    if v == "today"@ {
        assert(v[0] == 't');
    }
    if v == "yesterday"@ {
        assert(v[0] == 'y');
    }
    if v == "week"@ {
        assert(v[0] == 'w');
    }
    if v == "this week"@ {
        assert(v[0] == 't');
    }
    if v == "month"@ {
        assert(v[0] == 'm');
    }
    if v == "this month"@ {
        assert(v[0] == 't');
    }
    if v == "year"@ {
        assert(v[0] == 'y');
    }
    if v == "this year"@ {
        assert(v[0] == 't');
    }
}

proof fn proof_rel_reveals()
    ensures
        "today"@.len() == 5 && "today"@[0] == 't',
        "yesterday"@.len() == 9 && "yesterday"@[0] == 'y',
        "week"@.len() == 4 && "week"@[0] == 'w',
        "this week"@.len() == 9 && "this week"@[0] == 't',
        "month"@.len() == 5 && "month"@[0] == 'm',
        "this month"@.len() == 10 && "this month"@[0] == 't',
        "year"@.len() == 4 && "year"@[0] == 'y',
        "this year"@.len() == 9 && "this year"@[0] == 't',
        "days"@.len() == 4 && "days"@[2] == 'y',
        "d"@.len() == 1 && "d"@[0] == 'd',
        "weeks"@.len() == 5 && "weeks"@[3] == 'k',
        "w"@.len() == 1 && "w"@[0] == 'w',
        "months"@.len() == 6 && "months"@[4] == 'h',
        "years"@.len() == 5 && "years"@[3] == 'r',
{
    reveal_strlit("today");
    reveal_strlit("yesterday");
    reveal_strlit("week");
    reveal_strlit("this week");
    reveal_strlit("month");
    reveal_strlit("this month");
    reveal_strlit("year");
    reveal_strlit("this year");
    reveal_strlit("days");
    reveal_strlit("d");
    reveal_strlit("weeks");
    reveal_strlit("w");
    reveal_strlit("months");
    reveal_strlit("years");
}

fn num_times_exec(tok: &Vec<char>, unit: i64) -> (r: Option<i128>)
    requires
        unit == DAY_SECONDS || unit == WEEK_SECONDS || unit == MONTH_SECONDS || unit
            == YEAR_SECONDS,
    ensures
        match r {
            Some(v) => num_times(tok@, unit as int) == Some(v as int) && 0 <= v <= (
            u64::MAX as int) * (YEAR_SECONDS as int),
            None => num_times(tok@, unit as int) is None,
        },
{
    let t = trim_vec(tok);
    match crate::text::parse_u64_digits(&t) {
        Some(n) => {
            proof {
                assert((n as int) * (unit as int) <= 0xffff_ffff_ffff_ffffi128 * 31536000)
                    by (nonlinear_arith)
                    requires
                        0 <= n <= u64::MAX,
                        0 < unit <= 31536000,
                ;
                assert((n as int) * (unit as int) >= 0) by (nonlinear_arith)
                    requires
                        n >= 0,
                        unit > 0,
                ;
            }
            Some((n as i128) * (unit as i128))
        },
        None => None,
    }
}

pub fn parse_relative_date(input: &str, now: i64) -> (r: Option<i64>)
    ensures
        r == rel_date_spec(input@, now),
{
    proof {
        reveal_strlit("today");
        reveal_strlit("yesterday");
        reveal_strlit("week");
        reveal_strlit("this week");
        reveal_strlit("month");
        reveal_strlit("this month");
        reveal_strlit("year");
        reveal_strlit("this year");
        reveal_strlit("days");
        reveal_strlit("d");
        reveal_strlit("weeks");
        reveal_strlit("w");
        reveal_strlit("months");
        reveal_strlit("years");
    }
    let v = chars_of(input);
    let t = trim_vec(&v);
    let lv = lower_vec(&t);
    let l = crate::text::string_of(&lv);
    let ls = l.as_str();
    let age: Option<i128> = if str_eq(ls, "today") {
        Some(0)
    } else if str_eq(ls, "yesterday") {
        Some(DAY_SECONDS as i128)
    } else if str_eq(ls, "week") || str_eq(ls, "this week") {
        Some(WEEK_SECONDS as i128)
    } else if str_eq(ls, "month") || str_eq(ls, "this month") {
        Some(MONTH_SECONDS as i128)
    } else if str_eq(ls, "year") || str_eq(ls, "this year") {
        Some(YEAR_SECONDS as i128)
    } else if ends_with_vec(&lv, &chars_of("days")) {
        num_times_exec(&sub_vec(&lv, 0, lv.len() - 4), DAY_SECONDS)
    } else if ends_with_vec(&lv, &chars_of("d")) {
        num_times_exec(&sub_vec(&lv, 0, lv.len() - 1), DAY_SECONDS)
    } else if ends_with_vec(&lv, &chars_of("weeks")) {
        num_times_exec(&sub_vec(&lv, 0, lv.len() - 5), WEEK_SECONDS)
    } else if ends_with_vec(&lv, &chars_of("w")) {
        num_times_exec(&sub_vec(&lv, 0, lv.len() - 1), WEEK_SECONDS)
    } else if ends_with_vec(&lv, &chars_of("months")) {
        num_times_exec(&sub_vec(&lv, 0, lv.len() - 6), MONTH_SECONDS)
    } else if ends_with_vec(&lv, &chars_of("years")) {
        num_times_exec(&sub_vec(&lv, 0, lv.len() - 5), YEAR_SECONDS)
    } else {
        None
    };
    proof {
        match age {
            Some(a) => {
                assert(rel_age_spec(input@) == Some(a as int));
            },
            None => {
                assert(rel_age_spec(input@) is None);
            },
        }
    }
    match age {
        Some(a) => {
            let shifted: i128 = (now as i128) - a;
            if shifted >= (i64::MIN as i128) && shifted <= (i64::MAX as i128) {
                Some(shifted as i64)
            } else {
                None
            }
        },
        None => None,
    }
}

} // verus!
