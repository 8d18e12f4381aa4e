//! An approximate membership filter over path strings: a bit array probed
//! at several hashed positions. Inserted members are always reported
//! present — setting bits is monotone — while absent ones may rarely be
//! reported present too.
use vstd::prelude::*;

use crate::text::chars_of;

verus! {

/// The number of probe positions per item.
pub const BLOOM_PROBES: u64 = 7;

pub const WORD_RANGE: u64 = 0xffff_ffff_ffff_ffff;

/// The salted polynomial character fold the probes use, kept inside the
/// 64-bit range.
pub open spec fn hash_fold(item: Seq<char>, salt: u64) -> int
    decreases item.len(),
{
    if item.len() == 0 {
        salt as int
    } else {
        (hash_fold(item.drop_last(), salt) * 31 % (WORD_RANGE + 1) + (item.last() as u32)
            as int) % (WORD_RANGE + 1)
    }
}

/// One probing position.
pub open spec fn probe_spec(item: Seq<char>, salt: u64, nbits: int) -> int
    recommends
        nbits > 0,
{
    hash_fold(item, salt) % nbits
}

/// The membership filter.
pub struct FileBloomFilter {
    bits: Vec<bool>,
    pub capacity: usize,
    /// Parts per million the filter was asked to stay under.
    pub error_ppm: u64,
    count: usize,
}

impl FileBloomFilter {
    pub closed spec fn bits_view(&self) -> Seq<bool> {
        self.bits@
    }

    /// The capacity the filter was built for.
    pub closed spec fn cap(&self) -> usize {
        self.capacity
    }

    /// The error rate the filter was asked for, in parts per million.
    pub closed spec fn ppm(&self) -> u64 {
        self.error_ppm
    }

    pub closed spec fn items_spec(&self) -> int {
        self.count as int
    }

    /// Every probed bit of the item is set.
    pub open spec fn marked(&self, item: Seq<char>) -> bool {
        &&& self.bits_view().len() > 0
        &&& forall|p: u64|
            0 <= p < BLOOM_PROBES ==> self.bits_view()[probe_spec(
                item,
                p,
                self.bits_view().len() as int,
            )] == true
    }

    /// A filter sized ten bits per expected item. The error-rate request
    /// is kept for reporting; the geometry is fixed.
    pub fn new(capacity: usize, error_ppm: u64) -> (r: FileBloomFilter)
        ensures
            r.cap() == capacity,
            r.ppm() == error_ppm,
            r.items_spec() == 0,
            forall|item: Seq<char>| !r.marked(item),
    {
        let nbits: usize = if capacity > (usize::MAX - 64) / 10 {
            usize::MAX - 64
        } else if capacity == 0 {
            64
        } else {
            capacity * 10
        };
        let mut bits: Vec<bool> = Vec::new();
        let mut i: usize = 0;
        while i < nbits
            invariant
                i <= nbits,
                bits@.len() == i,
                forall|k: int| 0 <= k < i ==> bits@[k] == false,
            decreases nbits - i,
        {
            bits.push(false);
            i = i + 1;
        }
        let r = FileBloomFilter { bits, capacity, error_ppm, count: 0 };
        proof {
            assert forall|item: Seq<char>| !r.marked(item) by {
                if r.bits_view().len() > 0 {
                    let p0 = probe_spec(item, 0u64, r.bits_view().len() as int);
                    lemma_probe_in_range(item, 0u64, r.bits_view().len() as int);
                    assert(r.bits_view()[p0] == false);
                }
            }
        }
        r
    }

    fn probe(&self, item: &Vec<char>, salt: u64) -> (r: usize)
        requires
            self.bits_view().len() > 0,
        ensures
            r == probe_spec(item@, salt, self.bits_view().len() as int),
    {
        let mut acc: u64 = salt;
        let mut i: usize = 0;
        proof {
            assert(item@.take(0) =~= Seq::<char>::empty());
            assert(hash_fold(Seq::<char>::empty(), salt) == salt as int);
        }
        while i < item.len()
            invariant
                i <= item@.len(),
                acc == hash_fold(item@.take(i as int), salt),
            decreases item.len() - i,
        {
            proof {
                assert(item@.take(i + 1).drop_last() =~= item@.take(i as int));
                assert(item@.take(i + 1).last() == item@[i as int]);
            }
            let c = item[i];
            let folded: u64 = mul_wrap(acc, 31);
            let code: u64 = (c as u32) as u64;
            proof {
                assert(code as int == (item@[i as int] as u32) as int);
            }
            acc = add_wrap(folded, code);
            proof {
                assert(acc as int == (hash_fold(item@.take(i as int), salt) * 31 % (WORD_RANGE
                    + 1) + (item@[i as int] as u32) as int) % (WORD_RANGE + 1));
                assert(acc == hash_fold(item@.take(i + 1), salt));
            }
            i = i + 1;
        }
        proof {
            assert(item@.take(item@.len() as int) =~= item@);
            lemma_probe_in_range(item@, salt, self.bits_view().len() as int);
        }
        let n = self.bits.len();
        let idx: u64 = acc % (n as u64);
        proof {
            assert(idx < n);
        }
        idx as usize
    }

    /// Marks the item's probe positions; everything marked before stays
    /// marked, so the filter never forgets a member.
    pub fn insert(&mut self, item: &str)
        requires
            old(self).bits_view().len() > 0,
        ensures
            final(self).bits_view().len() == old(self).bits_view().len(),
            final(self).cap() == old(self).cap(),
            final(self).marked(item@),
            forall|other: Seq<char>| old(self).marked(other) ==> final(self).marked(other),
            final(self).items_spec() == (if old(self).items_spec() < usize::MAX {
                old(self).items_spec() + 1
            } else {
                old(self).items_spec()
            }),
    {
        let iv = chars_of(item);
        let mut p: u64 = 0;
        while p < BLOOM_PROBES
            invariant
                p <= BLOOM_PROBES,
                self.bits_view().len() == old(self).bits_view().len(),
                self.bits_view().len() > 0,
                self.cap() == old(self).cap(),
                self.ppm() == old(self).ppm(),
                self.items_spec() == old(self).items_spec(),
                iv@ == item@,
                forall|k: int|
                    0 <= k < self.bits_view().len() && old(self).bits_view()[k] == true
                        ==> #[trigger] self.bits_view()[k] == true,
                forall|q: u64|
                    0 <= q < p ==> self.bits_view()[probe_spec(
                        item@,
                        q,
                        self.bits_view().len() as int,
                    )] == true,
            decreases BLOOM_PROBES - p,
        {
            let idx = self.probe(&iv, p);
            proof {
                lemma_probe_in_range(item@, p, self.bits_view().len() as int);
            }
            self.set_bit(idx);
            p = p + 1;
        }
        proof {
            assert forall|other: Seq<char>|
                old(self).marked(other) implies self.marked(other) by {
                assert forall|q: u64| 0 <= q < BLOOM_PROBES implies self.bits_view()[probe_spec(
                    other,
                    q,
                    self.bits_view().len() as int,
                )] == true by {
                    lemma_probe_in_range(other, q, self.bits_view().len() as int);
                    assert(old(self).bits_view()[probe_spec(
                        other,
                        q,
                        old(self).bits_view().len() as int,
                    )] == true);
                }
            }
        }
        if self.count < usize::MAX {
            self.count = self.count + 1;
        }
    }

    fn set_bit(&mut self, idx: usize)
        requires
            idx < old(self).bits_view().len(),
        ensures
            final(self).bits_view() == old(self).bits_view().update(idx as int, true),
            final(self).cap() == old(self).cap(),
            final(self).ppm() == old(self).ppm(),
            final(self).items_spec() == old(self).items_spec(),
    {
        self.bits.set(idx, true);
    }

    /// Is the item possibly a member? A `false` answer is always right;
    /// a `true` one may rarely be an accident of colliding probes.
    pub fn contains(&self, item: &str) -> (r: bool)
        requires
            self.bits_view().len() > 0,
        ensures
            r == self.marked(item@),
    {
        let iv = chars_of(item);
        let mut p: u64 = 0;
        while p < BLOOM_PROBES
            invariant
                p <= BLOOM_PROBES,
                self.bits_view().len() > 0,
                iv@ == item@,
                forall|q: u64|
                    0 <= q < p ==> self.bits_view()[probe_spec(
                        item@,
                        q,
                        self.bits_view().len() as int,
                    )] == true,
            decreases BLOOM_PROBES - p,
        {
            let idx = self.probe(&iv, p);
            proof {
                lemma_probe_in_range(item@, p, self.bits_view().len() as int);
            }
            if !self.get_bit(idx) {
                return false;
            }
            p = p + 1;
        }
        true
    }

    fn get_bit(&self, idx: usize) -> (r: bool)
        requires
            idx < self.bits_view().len(),
        ensures
            r == self.bits_view()[idx as int],
    {
        self.bits[idx]
    }

    /// Every bit dropped: nothing is a member any more.
    pub fn clear(&mut self)
        ensures
            final(self).bits_view().len() == old(self).bits_view().len(),
            final(self).cap() == old(self).cap(),
            final(self).items_spec() == 0,
            forall|item: Seq<char>|
                old(self).bits_view().len() > 0 ==> !final(self).marked(item),
    {
        let n = self.bits.len();
        let mut bits: Vec<bool> = Vec::new();
        let mut i: usize = 0;
        while i < n
            invariant
                i <= n,
                bits@.len() == i,
                forall|k: int| 0 <= k < i ==> bits@[k] == false,
            decreases n - i,
        {
            bits.push(false);
            i = i + 1;
        }
        self.bits = bits;
        self.count = 0;
        proof {
            assert forall|item: Seq<char>|
                old(self).bits_view().len() > 0 implies !self.marked(item) by {
                if self.bits_view().len() > 0 {
                    let p0 = probe_spec(item, 0u64, self.bits_view().len() as int);
                    lemma_probe_in_range(item, 0u64, self.bits_view().len() as int);
                    assert(self.bits_view()[p0] == false);
                }
            }
        }
    }

    /// How many inserts the filter has seen (saturating).
    pub fn len(&self) -> (r: usize)
        ensures
            r == self.items_spec(),
    {
        self.count
    }

    pub fn is_empty(&self) -> (r: bool)
        ensures
            r == (self.items_spec() == 0),
    {
        self.count == 0
    }
}

/// Multiplication modulo the 64-bit range, through std's wrapping
/// operation as vstd specifies it.
fn mul_wrap(a: u64, b: u64) -> (r: u64)
    ensures
        r == (a * b) % (WORD_RANGE + 1),
{
    let r = a.wrapping_mul(b);
    proof {
        assert(r as int == (a * b) % (WORD_RANGE + 1)) by (nonlinear_arith)
            requires
                r as nat == (a as nat * b as nat) % 0x1_0000_0000_0000_0000nat,
        ;
    }
    r
}

/// Addition modulo the 64-bit range, through std's wrapping operation as
/// vstd specifies it.
fn add_wrap(a: u64, b: u64) -> (r: u64)
    ensures
        r == (a + b) % (WORD_RANGE + 1),
{
    let r = a.wrapping_add(b);
    proof {
        if a + b > u64::MAX {
            assert(r == a + b - (WORD_RANGE + 1));
            assert(r as int == (a + b) % (WORD_RANGE + 1)) by (nonlinear_arith)
                requires
                    r as int == a + b - (WORD_RANGE + 1),
                    0 <= (r as int) < (WORD_RANGE + 1),
            ;
        } else {
            assert(r == a + b);
            assert(r as int == (a + b) % (WORD_RANGE + 1)) by (nonlinear_arith)
                requires
                    r as int == a + b,
                    0 <= a + b <= WORD_RANGE,
            ;
        }
    }
    r
}

/// The fold stays in the 64-bit range, so probes stay inside the array.
proof fn lemma_probe_in_range(item: Seq<char>, salt: u64, nbits: int)
    requires
        nbits > 0,
    ensures
        0 <= probe_spec(item, salt, nbits) < nbits,
{
    lemma_fold_range(item, salt);
    assert(0 <= hash_fold(item, salt) % nbits < nbits) by (nonlinear_arith)
        requires
            nbits > 0,
            hash_fold(item, salt) >= 0,
    ;
}

proof fn lemma_fold_range(item: Seq<char>, salt: u64)
    ensures
        0 <= hash_fold(item, salt) <= WORD_RANGE,
    decreases item.len(),
{
    if item.len() > 0 {
        lemma_fold_range(item.drop_last(), salt);
        assert(0 <= (hash_fold(item.drop_last(), salt) * 31 % (WORD_RANGE + 1) + (item.last()
            as u32) as int) % (WORD_RANGE + 1) <= WORD_RANGE) by (nonlinear_arith)
            requires
                hash_fold(item.drop_last(), salt) >= 0,
                (item.last() as u32) as int >= 0,
        ;
    }
}

} // verus!
