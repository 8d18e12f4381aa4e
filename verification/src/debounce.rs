//! Event debouncing: per path, an event is forwarded only when no event
//! was seen on that path within the debounce window; every event, kept or
//! dropped, restarts the window.
use vstd::prelude::*;

use crate::text::{chars_of, eq_vec};

verus! {

/// The kind of filesystem event the watcher reports.
#[derive(Debug, Clone, Copy, PartialEq, Eq, Structural)]
pub enum FileEventType {
    Created,
    Modified,
    Deleted,
    Renamed,
}

/// One debounce record: a path with its last event instant (milliseconds)
/// and kind.
pub struct DebRecord {
    pub path: String,
    pub at: u64,
    pub kind: FileEventType,
}

/// Index of the record for `path`, or -1.
pub open spec fn deb_find(s: Seq<DebRecord>, path: Seq<char>) -> int
    decreases s.len(),
{
    if s.len() == 0 {
        -1
    } else if s[0].path@ == path {
        0
    } else if deb_find(s.drop_first(), path) == -1 {
        -1
    } else {
        1 + deb_find(s.drop_first(), path)
    }
}

pub proof fn lemma_deb_find(s: Seq<DebRecord>, path: Seq<char>)
    ensures
        -1 <= deb_find(s, path) < s.len(),
        deb_find(s, path) >= 0 ==> s[deb_find(s, path)].path@ == path,
        forall|k: int| 0 <= k < deb_find(s, path) ==> s[k].path@ != path,
        deb_find(s, path) == -1 ==> forall|k: int| 0 <= k < s.len() ==> s[k].path@ != path,
    decreases s.len(),
{
    if s.len() > 0 && s[0].path@ != path {
        lemma_deb_find(s.drop_first(), path);
        assert(forall|k: int| 1 <= k < s.len() ==> s[k] == s.drop_first()[k - 1]);
    }
}

/// Is an event at `now` forwarded, given the last instant (if any) and
/// the window?
pub open spec fn deliver_spec(last: Option<u64>, now: u64, window: u64) -> bool {
    match last {
        Some(t) => now as int - t as int >= window as int,
        None => true,
    }
}

/// The debouncer: one record per path, a fixed window.
pub struct EventDebouncer {
    records: Vec<DebRecord>,
    pub debounce_ms: u64,
}

impl EventDebouncer {
    pub closed spec fn view(&self) -> Seq<DebRecord> {
        self.records@
    }

    /// The debounce window, in milliseconds.
    pub closed spec fn window(&self) -> u64 {
        self.debounce_ms
    }

    /// The last recorded instant for a path.
    pub open spec fn last_at(&self, path: Seq<char>) -> Option<u64> {
        if deb_find(self@, path) >= 0 {
            Some(self@[deb_find(self@, path)].at)
        } else {
            None
        }
    }

    pub fn new(debounce_ms: u64) -> (r: EventDebouncer)
        ensures
            r@ == Seq::<DebRecord>::empty(),
            r.window() == debounce_ms,
    {
        EventDebouncer { records: Vec::new(), debounce_ms }
    }

    fn find_record(&self, path: &str) -> (r: Option<usize>)
        ensures
            match r {
                Some(i) => deb_find(self@, path@) == i,
                None => deb_find(self@, path@) == -1,
            },
    {
        let pv = chars_of(path);
        let mut i: usize = 0;
        while i < self.records.len()
            invariant
                i <= self.records@.len(),
                pv@ == path@,
                forall|k: int| 0 <= k < i ==> (#[trigger] self.records@[k]).path@ != path@,
            decreases self.records.len() - i,
        {
            let rv = chars_of(self.records[i].path.as_str());
            if eq_vec(&rv, &pv) {
                proof {
                    lemma_deb_find(self@, path@);
                    if deb_find(self@, path@) < i {
                        assert(self@[deb_find(self@, path@)].path@ != path@);
                    }
                    if deb_find(self@, path@) > i || deb_find(self@, path@) == -1 {
                        assert(self@[i as int].path@ != path@);
                    }
                }
                return Some(i);
            }
            i = i + 1;
        }
        proof {
            lemma_deb_find(self@, path@);
            if deb_find(self@, path@) >= 0 {
                assert(self@[deb_find(self@, path@)].path@ != path@);
            }
        }
        None
    }

    /// Decide one event at instant `now_ms`: forwarded iff the path has
    /// no record or its window has elapsed; either way the record is
    /// reset to `(now_ms, kind)`.
    pub fn should_process(&mut self, path: &str, kind: FileEventType, now_ms: u64) -> (r: bool)
        ensures
            r == deliver_spec(old(self).last_at(path@), now_ms, old(self).window()),
            final(self).window() == old(self).window(),
            final(self).last_at(path@) == Some(now_ms),
            final(self)@.len() == (if old(self).last_at(path@) is Some {
                old(self)@.len() as int
            } else {
                (old(self)@.len() + 1) as int
            }),
            forall|p: Seq<char>|
                p != path@ ==> #[trigger] final(self).last_at(p) == old(self).last_at(p),
    {
        proof {
            lemma_deb_find(self@, path@);
        }
        match self.find_record(path) {
            Some(i) => {
                let last = self.records[i].at;
                let ghost s0 = self.records@;
                self.records.set(i, DebRecord { path: path.to_owned(), at: now_ms, kind });
                proof {
                    lemma_deb_stable_update(s0, self.records@, path@, i as int);
                    assert forall|p: Seq<char>| p != path@ implies #[trigger] self.last_at(p)
                        == old(self).last_at(p) by {
                        lemma_deb_same_paths(s0, self.records@, p);
                        lemma_deb_find(s0, p);
                    }
                }
                now_ms >= last && now_ms - last >= self.debounce_ms
            },
            None => {
                let ghost s0 = self.records@;
                self.records.push(DebRecord { path: path.to_owned(), at: now_ms, kind });
                proof {
                    lemma_deb_find(s0, path@);
                    lemma_deb_push(s0, self.records@.last(), path@);
                    assert forall|p: Seq<char>| p != path@ implies #[trigger] self.last_at(p)
                        == old(self).last_at(p) by {
                        lemma_deb_push_other(s0, self.records@.last(), p);
                        lemma_deb_find(s0, p);
                        assert(self.records@ == s0.push(self.records@.last()));
                    }
                }
                true
            },
        }
    }

    /// Drop every record older than `max_age_ms` at instant `now_ms`.
    pub fn cleanup_old_events(&mut self, max_age_ms: u64, now_ms: u64)
        ensures
            final(self).window() == old(self).window(),
            final(self)@ == old(self)@.filter(
                (|d: DebRecord| (now_ms as int - d.at as int) < (max_age_ms as int)),
            ),
    {
        let ghost keep = |d: DebRecord| (now_ms as int - d.at as int) < (max_age_ms as int);
        let mut fresh: Vec<DebRecord> = Vec::new();
        let mut i: usize = 0;
        proof {
            reveal_with_fuel(Seq::filter, 2);
            assert(self@.take(0).filter(keep) =~= Seq::<DebRecord>::empty());
        }
        while i < self.records.len()
            invariant
                i <= self.records@.len(),
                keep == (|d: DebRecord| (now_ms as int - d.at as int) < (max_age_ms as int)),
                fresh@ == self.records@.take(i as int).filter(keep),
            decreases self.records.len() - i,
        {
            proof {
                reveal_with_fuel(Seq::filter, 2);
                assert(self.records@.take(i + 1).drop_last() =~= self.records@.take(i as int));
                assert(self.records@.take(i + 1).last() == self.records@[i as int]);
            }
            let d = &self.records[i];
            let fresh_enough = now_ms < max_age_ms || d.at > now_ms - max_age_ms;
            if fresh_enough {
                fresh.push(
                    DebRecord { path: d.path.clone(), at: d.at, kind: d.kind },
                );
                proof {
                    assert(self.records@.take(i + 1).filter(keep) =~= self.records@.take(
                        i as int,
                    ).filter(keep).push(self.records@[i as int]));
                }
            } else {
                proof {
                    assert(!keep(self.records@[i as int]));
                    assert(self.records@.take(i + 1).filter(keep) =~= self.records@.take(
                        i as int,
                    ).filter(keep));
                }
            }
            i = i + 1;
        }
        proof {
            assert(self.records@.take(self.records@.len() as int) =~= self.records@);
        }
        self.records = fresh;
    }

    /// Forget every record.
    pub fn clear(&mut self)
        ensures
            final(self)@ == Seq::<DebRecord>::empty(),
            final(self).window() == old(self).window(),
    {
        self.records = Vec::new();
    }

    pub fn len(&self) -> (r: usize)
        ensures
            r == self@.len(),
    {
        self.records.len()
    }

    pub fn is_empty(&self) -> (r: bool)
        ensures
            r == (self@.len() == 0),
    {
        self.records.len() == 0
    }
}

proof fn lemma_deb_stable_update(s0: Seq<DebRecord>, s1: Seq<DebRecord>, path: Seq<char>, i: int)
    requires
        0 <= i < s0.len(),
        s0.len() == s1.len(),
        i == deb_find(s0, path),
        s1[i].path@ == path,
        forall|k: int| 0 <= k < s0.len() && k != i ==> s1[k] == s0[k],
    ensures
        deb_find(s1, path) == i,
    decreases i,
{
    lemma_deb_find(s0, path);
    lemma_deb_walk(s0, s1, path, i);
}

proof fn lemma_deb_walk(s0: Seq<DebRecord>, s1: Seq<DebRecord>, path: Seq<char>, i: int)
    requires
        0 <= i < s1.len(),
        s0.len() == s1.len(),
        forall|k: int| 0 <= k < i ==> (#[trigger] s0[k]).path@ != path && s1[k] == s0[k],
        s1[i].path@ == path,
    ensures
        deb_find(s1, path) == i,
    decreases i,
{
    if i > 0 {
        assert(s0[0].path@ != path);
        assert(s1[0] == s0[0]);
        assert(forall|k: int| 0 <= k < s0.len() - 1 ==> s0.drop_first()[k] == s0[k + 1]);
        assert(forall|k: int| 0 <= k < s1.len() - 1 ==> s1.drop_first()[k] == s1[k + 1]);
        lemma_deb_walk(s0.drop_first(), s1.drop_first(), path, i - 1);
    }
}

proof fn lemma_deb_push(s0: Seq<DebRecord>, rec: DebRecord, path: Seq<char>)
    requires
        deb_find(s0, path) == -1,
        rec.path@ == path,
    ensures
        deb_find(s0.push(rec), path) == s0.len(),
{
    lemma_deb_find(s0, path);
    lemma_deb_walk(s0.push(rec), s0.push(rec), path, s0.len() as int);
}

proof fn lemma_deb_same_paths(s0: Seq<DebRecord>, s1: Seq<DebRecord>, p: Seq<char>)
    requires
        s0.len() == s1.len(),
        forall|k: int| 0 <= k < s0.len() ==> (#[trigger] s1[k]).path@ == s0[k].path@ && (s1[
            k
        ].path@ == p ==> s1[k] == s0[k]),
    ensures
        deb_find(s1, p) == deb_find(s0, p),
        deb_find(s1, p) >= 0 ==> s1[deb_find(s1, p)] == s0[deb_find(s0, p)],
    decreases s0.len(),
{
    if s0.len() > 0 {
        assert(s1[0].path@ == s0[0].path@);
        if s0[0].path@ != p {
            assert(forall|k: int| 0 <= k < s0.len() - 1 ==> s0.drop_first()[k] == s0[k + 1]);
            assert(forall|k: int| 0 <= k < s1.len() - 1 ==> s1.drop_first()[k] == s1[k + 1]);
            lemma_deb_same_paths(s0.drop_first(), s1.drop_first(), p);
            lemma_deb_find(s0.drop_first(), p);
            let d0 = deb_find(s0.drop_first(), p);
            if d0 >= 0 {
                assert(deb_find(s0, p) == 1 + d0);
                assert(deb_find(s1, p) == 1 + d0);
                assert(s1[1 + d0] == s1.drop_first()[d0]);
                assert(s0[1 + d0] == s0.drop_first()[d0]);
            } else {
                assert(deb_find(s0, p) == -1);
                assert(deb_find(s1, p) == -1);
            }
        } else {
            assert(deb_find(s0, p) == 0);
            assert(deb_find(s1, p) == 0);
            assert(s1[0] == s0[0]);
        }
    }
}

proof fn lemma_deb_push_other(s0: Seq<DebRecord>, rec: DebRecord, p: Seq<char>)
    requires
        rec.path@ != p,
    ensures
        deb_find(s0.push(rec), p) == deb_find(s0, p),
    decreases s0.len(),
{
    if s0.len() == 0 {
        assert(s0.push(rec)[0] == rec);
        assert(s0.push(rec).drop_first() =~= Seq::<DebRecord>::empty());
        assert(deb_find(Seq::<DebRecord>::empty(), p) == -1);
        assert(deb_find(s0.push(rec), p) == -1);
        assert(deb_find(s0, p) == -1);
    } else {
        assert(s0.push(rec)[0] == s0[0]);
        assert(s0.push(rec).drop_first() =~= s0.drop_first().push(rec));
        lemma_deb_push_other(s0.drop_first(), rec, p);
        lemma_deb_find(s0.drop_first(), p);
        let d0 = deb_find(s0.drop_first(), p);
        if s0[0].path@ == p {
            assert(deb_find(s0, p) == 0);
            assert(deb_find(s0.push(rec), p) == 0);
        } else if d0 >= 0 {
            assert(deb_find(s0, p) == 1 + d0);
            assert(deb_find(s0.push(rec), p) == 1 + d0);
        } else {
            assert(deb_find(s0, p) == -1);
            assert(deb_find(s0.push(rec), p) == -1);
        }
    }
}

/// One debounce transition, purely: the verdict and the new last instant
/// for the path.
pub open spec fn deb_step(last: Option<u64>, now: u64, window: u64) -> (bool, Option<u64>) {
    (deliver_spec(last, now, window), Some(now))
}

/// The verdicts of a whole burst on one path, folded in order.
pub open spec fn burst_verdicts(last: Option<u64>, times: Seq<u64>, window: u64) -> Seq<bool>
    decreases times.len(),
{
    if times.len() == 0 {
        Seq::empty()
    } else {
        let (v, l2) = deb_step(last, times[0], window);
        seq![v] + burst_verdicts(l2, times.drop_first(), window)
    }
}

/// The verdict list is as long as the burst.
pub proof fn lemma_burst_len(last: Option<u64>, times: Seq<u64>, window: u64)
    ensures
        burst_verdicts(last, times, window).len() == times.len(),
    decreases times.len(),
{
    if times.len() > 0 {
        lemma_burst_len(Some(times[0]), times.drop_first(), window);
    }
}

/// Debounce law, first half: in a burst of events on one fresh path whose
/// instants all fall within one window of the first, exactly the first
/// event is forwarded.
pub proof fn lemma_debounce_burst(times: Seq<u64>, window: u64)
    requires
        times.len() > 0,
        window > 0,
        forall|k1: int, k2: int|
            0 <= k1 < k2 < times.len() ==> #[trigger] times[k1] <= #[trigger] times[k2],
        forall|k: int| 0 <= k < times.len() ==> ((#[trigger] times[k]) as int) < times[0] + window,
    ensures
        burst_verdicts(None, times, window) == Seq::new(times.len(), |k: int| k == 0),
{
    let whole = burst_verdicts(None, times, window);
    let tail = burst_verdicts(Some(times[0]), times.drop_first(), window);
    lemma_burst_len(None, times, window);
    lemma_burst_len(Some(times[0]), times.drop_first(), window);
    assert(deliver_spec(None, times[0], window));
    assert(whole == seq![true] + tail);
    assert(forall|k: int|
        0 <= k < times.drop_first().len() ==> #[trigger] times.drop_first()[k] == times[k + 1]);
    lemma_burst_suppressed(times.drop_first(), window, times[0], times[0]);
    assert forall|k: int| 0 <= k < whole.len() implies whole[k] == (k == 0) by {
        if k > 0 {
            assert(whole[k] == tail[k - 1]);
            assert(!tail[k - 1]);
        }
    }
    assert(whole =~= Seq::new(times.len(), |k: int| k == 0));
}

/// With a record inside the window, every later in-window event is
/// suppressed.
proof fn lemma_burst_suppressed(times: Seq<u64>, window: u64, last: u64, base: u64)
    requires
        forall|k1: int, k2: int|
            0 <= k1 < k2 < times.len() ==> #[trigger] times[k1] <= #[trigger] times[k2],
        forall|k: int| 0 <= k < times.len() ==> ((#[trigger] times[k]) as int) < base + window,
        base <= last,
        times.len() > 0 ==> last <= times[0],
    ensures
        forall|k: int|
            0 <= k < burst_verdicts(Some(last), times, window).len() ==> !(
            #[trigger] burst_verdicts(Some(last), times, window)[k]),
    decreases times.len(),
{
    if times.len() > 0 {
        let whole = burst_verdicts(Some(last), times, window);
        let tail = burst_verdicts(Some(times[0]), times.drop_first(), window);
        assert(times[0] as int - last < window);
        assert(!deliver_spec(Some(last), times[0], window));
        assert(whole == seq![false] + tail);
        assert(forall|k: int|
            0 <= k < times.drop_first().len() ==> #[trigger] times.drop_first()[k] == times[
                k + 1
            ]);
        lemma_burst_suppressed(times.drop_first(), window, times[0], base);
        assert forall|k: int| 0 <= k < whole.len() implies !whole[k] by {
            if k > 0 {
                assert(whole[k] == tail[k - 1]);
            }
        }
    }
}

/// Debounce law, second half: once a record stands at `t0`, an event can
/// only be forwarded at least one window after it, however many events
/// fall in between — the recorded instant never drops.
pub proof fn lemma_debounce_gap(times: Seq<u64>, window: u64, t0: u64, k: int)
    requires
        forall|k1: int, k2: int|
            0 <= k1 < k2 < times.len() ==> #[trigger] times[k1] <= #[trigger] times[k2],
        times.len() > 0 ==> t0 <= times[0],
        0 <= k < times.len(),
        burst_verdicts(Some(t0), times, window)[k],
    ensures
        times[k] as int >= t0 + window,
    decreases times.len(),
{
    let whole = burst_verdicts(Some(t0), times, window);
    let tail = burst_verdicts(Some(times[0]), times.drop_first(), window);
    lemma_burst_len(Some(t0), times, window);
    lemma_burst_len(Some(times[0]), times.drop_first(), window);
    assert(deb_step(Some(t0), times[0], window).0 == deliver_spec(Some(t0), times[0], window));
    assert(deb_step(Some(t0), times[0], window).1 == Some(times[0]));
    assert(whole == seq![deliver_spec(Some(t0), times[0], window)] + tail);
    if k == 0 {
        assert(deliver_spec(Some(t0), times[0], window));
    } else {
        assert(whole[k] == tail[k - 1]);
        assert(forall|k2: int|
            0 <= k2 < times.drop_first().len() ==> #[trigger] times.drop_first()[k2] == times[
                k2 + 1
            ]);
        lemma_debounce_gap(times.drop_first(), window, times[0], k - 1);
        assert(times.drop_first()[k - 1] == times[k]);
        assert(times[k] as int >= times[0] + window);
    }
}

} // verus!
