//! A least-recently-used cache from paths to file records: lookups and
//! inserts move a path to the back of the recency order, inserts beyond
//! capacity evict the front.
use vstd::prelude::*;

use crate::text::{chars_of, eq_vec};
use crate::types::FileEntry;

verus! {

/// One cached record.
pub struct CacheSlot {
    pub path: String,
    pub entry: FileEntry,
}

/// Index of the slot holding `path`, or -1.
pub open spec fn slot_find(s: Seq<CacheSlot>, path: Seq<char>) -> int
    decreases s.len(),
{
    if s.len() == 0 {
        -1
    } else if s[0].path@ == path {
        0
    } else if slot_find(s.drop_first(), path) == -1 {
        -1
    } else {
        1 + slot_find(s.drop_first(), path)
    }
}

pub proof fn lemma_slot_find(s: Seq<CacheSlot>, path: Seq<char>)
    ensures
        -1 <= slot_find(s, path) < s.len(),
        slot_find(s, path) >= 0 ==> s[slot_find(s, path)].path@ == path,
        forall|k: int| 0 <= k < slot_find(s, path) ==> s[k].path@ != path,
        slot_find(s, path) == -1 ==> forall|k: int| 0 <= k < s.len() ==> s[k].path@ != path,
    decreases s.len(),
{
    if s.len() > 0 && s[0].path@ != path {
        lemma_slot_find(s.drop_first(), path);
        assert(forall|k: int| 1 <= k < s.len() ==> s[k] == s.drop_first()[k - 1]);
    }
}

/// The cache: slots in recency order, least recent first.
pub struct LruCache {
    slots: Vec<CacheSlot>,
    pub capacity: usize,
}

impl LruCache {
    pub closed spec fn view(&self) -> Seq<CacheSlot> {
        self.slots@
    }

    /// The capacity the cache was built with.
    pub closed spec fn cap(&self) -> usize {
        self.capacity
    }

    pub open spec fn has(&self, path: Seq<char>) -> bool {
        slot_find(self@, path) >= 0
    }

    pub fn new(capacity: usize) -> (r: LruCache)
        ensures
            r@ == Seq::<CacheSlot>::empty(),
            r.cap() == capacity,
    {
        LruCache { slots: Vec::new(), capacity }
    }

    fn find_slot(&self, path: &str) -> (r: Option<usize>)
        ensures
            match r {
                Some(i) => slot_find(self@, path@) == i,
                None => slot_find(self@, path@) == -1,
            },
    {
        let pv = chars_of(path);
        let mut i: usize = 0;
        while i < self.slots.len()
            invariant
                i <= self.slots@.len(),
                pv@ == path@,
                forall|k: int| 0 <= k < i ==> (#[trigger] self.slots@[k]).path@ != path@,
            decreases self.slots.len() - i,
        {
            let sv = chars_of(self.slots[i].path.as_str());
            if eq_vec(&sv, &pv) {
                proof {
                    lemma_slot_find(self@, path@);
                    if slot_find(self@, path@) < i {
                        assert(self@[slot_find(self@, path@)].path@ != path@);
                    }
                    if slot_find(self@, path@) > i || slot_find(self@, path@) == -1 {
                        assert(self@[i as int].path@ != path@);
                    }
                }
                return Some(i);
            }
            i = i + 1;
        }
        proof {
            lemma_slot_find(self@, path@);
            if slot_find(self@, path@) >= 0 {
                assert(self@[slot_find(self@, path@)].path@ != path@);
            }
        }
        None
    }

    /// A hit moves the record to the most-recent end and copies it out.
    pub fn get(&mut self, path: &str) -> (r: Option<FileEntry>)
        ensures
            match r {
                Some(e) => {
                    &&& old(self).has(path@)
                    &&& e == old(self)@[slot_find(old(self)@, path@)].entry
                    &&& final(self)@ == old(self)@.remove(slot_find(old(self)@, path@)).push(
                        old(self)@[slot_find(old(self)@, path@)],
                    )
                },
                None => !old(self).has(path@) && final(self)@ == old(self)@,
            },
            final(self).cap() == old(self).cap(),
    {
        proof {
            lemma_slot_find(self@, path@);
        }
        match self.find_slot(path) {
            Some(i) => {
                let slot = self.slots.remove(i);
                let entry_copy = slot.entry.duplicate();
                self.slots.push(slot);
                Some(entry_copy)
            },
            None => None,
        }
    }

    /// An insert moves a known path's slot to the order's back with the
    /// new record; a fresh path is appended, evicting exactly the least
    /// recent slot when the cache is full — everything else survives in
    /// order.
    pub fn insert(&mut self, path: String, entry: FileEntry)
        ensures
            final(self).cap() == old(self).cap(),
            final(self)@.drop_last() == (if old(self).has(path@) {
                old(self)@.remove(slot_find(old(self)@, path@))
            } else if old(self)@.len() >= old(self).cap() && old(self)@.len() > 0 {
                old(self)@.remove(0)
            } else {
                old(self)@
            }),
            final(self)@.len() > 0,
            final(self)@.last().path@ == path@,
            final(self)@.last().entry == entry,
    {
        proof {
            lemma_slot_find(self@, path@);
        }
        match self.find_slot(path.as_str()) {
            Some(i) => {
                self.slots.remove(i);
            },
            None => {
                if self.slots.len() >= self.capacity && self.slots.len() > 0 {
                    self.slots.remove(0);
                }
            },
        }
        self.slots.push(CacheSlot { path, entry });
    }

    /// Removes a path's slot, handing the record back.
    pub fn remove(&mut self, path: &str) -> (r: Option<FileEntry>)
        ensures
            final(self).cap() == old(self).cap(),
            match r {
                Some(e) => old(self).has(path@) && e == old(self)@[slot_find(
                    old(self)@,
                    path@,
                )].entry && final(self)@ == old(self)@.remove(slot_find(old(self)@, path@)),
                None => !old(self).has(path@) && final(self)@ == old(self)@,
            },
    {
        proof {
            lemma_slot_find(self@, path@);
        }
        match self.find_slot(path) {
            Some(i) => {
                let slot = self.slots.remove(i);
                Some(slot.entry)
            },
            None => None,
        }
    }

    pub fn clear(&mut self)
        ensures
            final(self)@ == Seq::<CacheSlot>::empty(),
            final(self).cap() == old(self).cap(),
    {
        self.slots = Vec::new();
    }

    pub fn len(&self) -> (r: usize)
        ensures
            r == self@.len(),
    {
        self.slots.len()
    }

    pub fn is_empty(&self) -> (r: bool)
        ensures
            r == (self@.len() == 0),
    {
        self.slots.len() == 0
    }

    pub fn contains(&self, path: &str) -> (r: bool)
        ensures
            r == self.has(path@),
    {
        match self.find_slot(path) {
            Some(_) => true,
            None => false,
        }
    }
}

} // verus!
