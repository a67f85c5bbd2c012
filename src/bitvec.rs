//! A fixed-capacity set of page numbers, numbered from 1.
//!
//! A bitmap records which pages of a database file have some property during
//! a transaction. Usually only a few pages do, so the set is sparse; but
//! sometimes (a DROP of a large table, say) most pages do. The set adapts:
//! a small capacity is a flat bitmap; a larger one starts as an
//! open-addressed hash table of page numbers, which subdivides into child
//! sets once it fills up.
use vstd::arithmetic::div_mod::{
    lemma_fundamental_div_mod, lemma_fundamental_div_mod_converse, lemma_mod_pos_bound,
};
use vstd::prelude::*;

use crate::errors::{SQLiteErr, SQLiteResult};
use crate::oracle::{call_step, flag_set, lemma_flag_set, BitvecCall};
use crate::slots::{
    hash_put, hash_remove, hash_wf, lemma_occupied_zeros, lemma_push_contains, no_dups, probe,
    zeros, HASH_ELEMS, MXHASH,
};

verus! {

/// Largest capacity that is stored as a flat bitmap: the bits of a
/// 508-byte map, which with the capacity field fills a 512-byte object.
pub const MAX_BITMAP_CAPACITY: u32 = 508 * 8;

/// Children of the subdivided form.
pub const REC_ELEMS: usize = 63;

enum Storage {
    /// A flat bitmap: bit `k` of the array stands for member `k + 1`.
    Bitmap(Vec<u8>),
    /// An open-addressed hash table; `0` marks an empty slot and any other
    /// slot holds a member.
    Hash { count: u32, slots: Vec<u32> },
    /// Child sets of capacity `divisor`: child `b` holds members
    /// `b * divisor + 1 ..= (b + 1) * divisor`, renumbered from 1.
    Recursive { divisor: u32, subs: Vec<Option<Box<Bitvec>>> },
}

/// A set of the integers `1 ..= size`, fixed in capacity when it is made.
pub struct Bitvec {
    size: u32,
    storage: Storage,
}

spec fn bit_of(bits: Seq<u8>, k: int) -> bool {
    bits[k / 8] & (1u8 << ((k % 8) as u8)) != 0
}

spec fn ceil_div(n: int, d: int) -> int {
    (n + d - 1) / d
}

proof fn lemma_bit_set(b: u8, j: u8, j2: u8)
    by (bit_vector)
    requires
        j < 8,
        j2 < 8,
    ensures
        ((b | (1u8 << j)) & (1u8 << j2) != 0) == (j == j2 || b & (1u8 << j2) != 0),
{
}

proof fn lemma_bit_clear(b: u8, j: u8, j2: u8)
    by (bit_vector)
    requires
        j < 8,
        j2 < 8,
    ensures
        ((b & !(1u8 << j)) & (1u8 << j2) != 0) == (j != j2 && b & (1u8 << j2) != 0),
{
}

proof fn lemma_bit_zero(j: u8)
    by (bit_vector)
    requires
        j < 8,
    ensures
        0u8 & (1u8 << j) == 0,
{
}

/// Raises or lowers bit `k` of a flat bitmap.
fn bitmap_write(bits: &mut Vec<u8>, k: u32, on: bool)
    requires
        k < old(bits)@.len() * 8,
    ensures
        final(bits)@.len() == old(bits)@.len(),
        forall|m: int|
            0 <= m < old(bits)@.len() * 8 ==> #[trigger] bit_of(final(bits)@, m) == if m == k {
                on
            } else {
                bit_of(old(bits)@, m)
            },
{
    let q = (k / 8) as usize;
    let b = bits[q];
    let mask = 1u8 << ((k % 8) as u8);
    let ghost old_bits = bits@;
    if on {
        bits[q] = b | mask;
    } else {
        bits[q] = b & !mask;
    }
    proof {
        assert forall|m: int| 0 <= m < old_bits.len() * 8 implies #[trigger] bit_of(bits@, m) == if m
            == k {
            on
        } else {
            bit_of(old_bits, m)
        } by {
            if m / 8 == q {
                if on {
                    lemma_bit_set(b, (k % 8) as u8, (m % 8) as u8);
                } else {
                    lemma_bit_clear(b, (k % 8) as u8, (m % 8) as u8);
                }
            }
        }
    }
}

spec fn opt_has(c: Option<Box<Bitvec>>, j: int) -> bool {
    match c {
        Some(child) => child.has(j),
        None => false,
    }
}

/// Changing one child of a subdivided set keeps it well formed and changes
/// only the members in that child's range.
proof fn lemma_rec_update(pre: Bitvec, post: Bitvec, bin: int)
    requires
        pre.wf(),
        pre.is_recursive(),
        post.is_recursive(),
        post.size == pre.size,
        post.divisor() == pre.divisor(),
        post.subs().len() == pre.subs().len(),
        0 <= bin < REC_ELEMS,
        forall|b: int| 0 <= b < REC_ELEMS && b != bin ==> post.subs()[b] == pre.subs()[b],
        post.subs()[bin] is Some ==> post.subs()[bin]->0.size == pre.divisor()
            && post.subs()[bin]->0.well_formed(),
        post.subs()[bin] is Some ==> forall|j: int|
            1 <= j <= pre.divisor() && #[trigger] post.subs()[bin]->0.has(j) ==> bin * pre.divisor()
                + j <= pre.size,
    ensures
        post.wf(),
        forall|m: int|
            0 <= m < pre.size ==> #[trigger] post.has(m + 1) == if m / pre.divisor() == bin {
                opt_has(post.subs()[bin], m % pre.divisor() + 1)
            } else {
                pre.has(m + 1)
            },
{
    let d = pre.divisor();
    assert forall|m: int| 0 <= m < pre.size implies #[trigger] post.has(m + 1) == if m / d == bin {
        opt_has(post.subs()[bin], m % d + 1)
    } else {
        pre.has(m + 1)
    } by {
        lemma_bin(pre.size as int, d, m);
    }
}

/// A member of a subdivided set is the member of its child.
proof fn lemma_rec_has(s: Bitvec, m: int)
    requires
        s.wf(),
        s.is_recursive(),
        0 <= m < s.size,
    ensures
        s.has(m + 1) == opt_has(s.subs()[m / s.divisor()], m % s.divisor() + 1),
{
    lemma_bin(s.size as int, s.divisor(), m);
}

/// A vector of `n` copies of `zero`, or `None` when the allocator cannot
/// provide room for it.
fn try_filled<T: Copy>(n: usize, zero: T) -> (r: Option<Vec<T>>)
    ensures
        r is Some ==> r->0@ == Seq::new(n as nat, |_j: int| zero),
{
    let mut v: Vec<T> = Vec::new();
    if v.try_reserve(n).is_err() {
        return None;
    }
    let mut k: usize = 0;
    while k < n
        invariant
            k <= n,
            v@ =~= Seq::new(k as nat, |_j: int| zero),
        decreases n - k,
    {
        v.push(zero);
        k = k + 1;
    }
    Some(v)
}

/// A member's child and its number there, in the subdivided form.
proof fn lemma_bin(size: int, d: int, k: int)
    requires
        size > MAX_BITMAP_CAPACITY,
        d == ceil_div(size, REC_ELEMS as int),
        0 <= k < size,
    ensures
        0 < d < size,
        0 <= k / d < REC_ELEMS,
        0 <= k % d < d,
        k == (k / d) * d + k % d,
{
    lemma_fundamental_div_mod(size + 62, 63);
    lemma_mod_pos_bound(size + 62, 63);
    lemma_fundamental_div_mod(k, d);
    lemma_mod_pos_bound(k, d);
    assert(k / d < 63) by (nonlinear_arith)
        requires
            k == (k / d) * d + k % d,
            k % d >= 0,
            k < size,
            size <= 63 * d,
            d > 0,
    ;
}

/// Two numbers with the same quotient and remainder are equal.
proof fn lemma_bin_unique(d: int, a: int, b: int)
    requires
        d > 0,
        a / d == b / d,
        a % d == b % d,
    ensures
        a == b,
{
    lemma_fundamental_div_mod(a, d);
    lemma_fundamental_div_mod(b, d);
}

impl Bitvec {
    /// The largest member this set can hold.
    pub closed spec fn capacity(self) -> nat {
        self.size as nat
    }

    /// Whether `i` is a member.
    closed spec fn has(self, i: int) -> bool
        decreases self.size,
    {
        1 <= i <= self.size && match self.storage {
            Storage::Bitmap(bits) => bit_of(bits@, i - 1),
            Storage::Hash { slots, .. } => slots@.contains(i as u32),
            Storage::Recursive { divisor, subs } => {
                &&& divisor > 0
                &&& (i - 1) / (divisor as int) < subs@.len()
                &&& match subs@[(i - 1) / (divisor as int)] {
                    Some(child) => child.size < self.size && child.has(
                        (i - 1) % (divisor as int) + 1,
                    ),
                    None => false,
                }
            },
        }
    }

    /// Well-formedness: the representation fits the capacity, and every
    /// child is well formed with the capacity its parent gives it.
    pub closed spec fn wf(self) -> bool {
        self.well_formed()
    }

    spec fn well_formed(self) -> bool
        decreases self.size,
    {
        match self.storage {
            Storage::Bitmap(bits) => self.size <= MAX_BITMAP_CAPACITY && bits@.len() * 8
                >= self.size,
            Storage::Hash { count, slots } => {
                &&& self.size > MAX_BITMAP_CAPACITY
                &&& hash_wf(slots@, count, self.size)
                &&& count == flag_set(self@).len()
            },
            Storage::Recursive { divisor, subs } => {
                &&& self.size > MAX_BITMAP_CAPACITY
                &&& divisor == ceil_div(self.size as int, REC_ELEMS as int)
                &&& subs@.len() == REC_ELEMS
                &&& forall|b: int|
                    0 <= b < subs@.len() && #[trigger] subs@[b] is Some ==> {
                        let child = subs@[b]->0;
                        &&& child.size == divisor
                        &&& child.size < self.size
                        &&& child.well_formed()
                        &&& forall|j: int|
                            1 <= j <= divisor && #[trigger] child.has(j) ==> b * divisor + j
                                <= self.size
                    }
            },
        }
    }

    /// The set is a flat bitmap.
    pub closed spec fn is_bitmap(self) -> bool {
        self.storage is Bitmap
    }

    /// The set is a hash table.
    pub closed spec fn is_hash(self) -> bool {
        self.storage is Hash
    }

    /// The set is subdivided into child sets.
    pub closed spec fn is_recursive(self) -> bool {
        self.storage is Recursive
    }

    spec fn divisor(self) -> int {
        match self.storage {
            Storage::Recursive { divisor, .. } => divisor as int,
            _ => 0,
        }
    }

    spec fn subs(self) -> Seq<Option<Box<Bitvec>>> {
        match self.storage {
            Storage::Recursive { subs, .. } => subs@,
            _ => Seq::empty(),
        }
    }

    /// Whether storing `i` calls for storage that the set does not have
    /// yet: never in a flat bitmap; in a hash table, when `i` is new and the
    /// table is at its load limit; in the subdivided form, when the child
    /// for `i` is absent or itself needs storage for it.
    pub closed spec fn needs_storage(self, i: int) -> bool {
        self.needs(i)
    }

    spec fn needs(self, i: int) -> bool
        decreases self.size,
    {
        match self.storage {
            Storage::Bitmap(_) => false,
            Storage::Hash { count, slots } => !slots@.contains(i as u32) && count >= MXHASH,
            Storage::Recursive { divisor, subs } => {
                &&& divisor > 0
                &&& 0 <= (i - 1) / (divisor as int) < subs@.len()
                &&& match subs@[(i - 1) / (divisor as int)] {
                    Some(child) => child.size < self.size && child.needs(
                        (i - 1) % (divisor as int) + 1,
                    ),
                    None => true,
                }
            },
        }
    }

    /// Capacity of each child of the subdivided form.
    pub closed spec fn child_capacity(self) -> nat {
        match self.storage {
            Storage::Recursive { divisor, .. } => divisor as nat,
            _ => 0,
        }
    }

    /// Child `b` of the subdivided form exists.
    pub closed spec fn has_child(self, b: int) -> bool {
        self.is_recursive() && 0 <= b < self.subs().len() && self.subs()[b] is Some
    }

    /// Occupied slots of the hash form.
    pub closed spec fn hash_load(self) -> nat {
        match self.storage {
            Storage::Hash { count, .. } => count as nat,
            _ => 0,
        }
    }

    /// Makes an empty set of capacity `size`: a flat bitmap when `size` is
    /// at most `MAX_BITMAP_CAPACITY`, else an empty hash table. Returns
    /// `None` when the allocator cannot provide the storage.
    pub fn new(size: u32) -> (r: Option<Box<Bitvec>>)
        ensures
            r is Some ==> {
                &&& r->0.wf()
                &&& r->0.capacity() == size
                &&& r->0@ == Seq::new(size as nat, |_k: int| false)
                &&& (size <= MAX_BITMAP_CAPACITY ==> r->0.is_bitmap())
                &&& (size > MAX_BITMAP_CAPACITY ==> r->0.is_hash() && r->0.hash_load() == 0)
            },
    {
        if size <= MAX_BITMAP_CAPACITY {
            match try_filled(((size + 7) / 8) as usize, 0u8) {
                Some(bits) => {
                    let bv = Bitvec { size, storage: Storage::Bitmap(bits) };
                    proof {
                        assert forall|m: int| 0 <= m < size implies !bit_of(bits@, m) by {
                            lemma_bit_zero((m % 8) as u8);
                        }
                        assert(bv@ =~= Seq::new(size as nat, |_k: int| false));
                    }
                    Some(Box::new(bv))
                },
                None => None,
            }
        } else {
            match try_filled(HASH_ELEMS, 0u32) {
                Some(slots) => {
                    let bv = Bitvec { size, storage: Storage::Hash { count: 0, slots } };
                    proof {
                        assert(slots@ =~= zeros(HASH_ELEMS as nat));
                        lemma_occupied_zeros(HASH_ELEMS as nat);
                        assert forall|m: int| 0 <= m < size implies !#[trigger] bv.has(m + 1) by {
                            if slots@.contains((m + 1) as u32) {
                                let j = choose|j: int|
                                    0 <= j < slots@.len() && slots@[j] == (m + 1) as u32;
                                assert(slots@[j] == 0);
                            }
                        }
                        assert(bv@ =~= Seq::new(size as nat, |_k: int| false));
                        assert(flag_set(bv@) =~= Set::<int>::empty());
                    }
                    Some(Box::new(bv))
                },
                None => None,
            }
        }
    }

    /// Adds `i` to the set. Fails with `NoMem` only when it needs storage
    /// (see `needs_storage`) and the allocator cannot provide it. A failure
    /// adds nothing but `i`, and leaves some member of the set, or `i`
    /// itself, unstored. In the subdivided form it touches only the child
    /// that holds `i`, and changes nothing when that child could not be
    /// made. A hash table that could not be subdivided is left as it was;
    /// one that was subdivided keeps each member whose storing succeeded,
    /// unless a later store into the same child failed while subdividing
    /// part of that child in turn.
    pub fn set(&mut self, i: u32) -> (r: SQLiteResult<()>)
        requires
            old(self).wf(),
            1 <= i <= old(self)@.len(),
        ensures
            final(self).wf(),
            final(self).capacity() == old(self).capacity(),
            final(self)@.len() == old(self)@.len(),
            r is Ok ==> final(self)@ == old(self)@.update(i - 1, true),
            r is Ok ==> call_step(old(self)@, BitvecCall::SetPage(i), final(self)@, false),
            r is Err ==> r == Err::<(), SQLiteErr>(SQLiteErr::NoMem),
            r is Err ==> forall|k: int|
                0 <= k < final(self)@.len() && #[trigger] final(self)@[k] ==> old(self)@[k] || k
                    == i - 1,
            old(self)@[i - 1] ==> r is Ok && final(self)@ == old(self)@,
            !old(self).needs_storage(i as int) ==> r is Ok,
            r is Err ==> exists|k: int|
                0 <= k < old(self)@.len() && (old(self)@[k] || k == i - 1) && !final(self)@[k],
            old(self).is_bitmap() ==> r is Ok && final(self).is_bitmap(),
            old(self).is_hash() ==> final(self).is_hash() || final(self).is_recursive(),
            old(self).is_recursive() ==> final(self).is_recursive(),
            old(self).is_hash() && old(self)@[i - 1] ==> final(self).is_hash()
                && final(self).hash_load() == old(self).hash_load(),
            old(self).is_hash() && !old(self)@[i - 1] && old(self).hash_load() < MXHASH ==> r is Ok
                && final(self).is_hash() && final(self).hash_load() == old(self).hash_load() + 1,
            old(self).is_hash() && !old(self)@[i - 1] && old(self).hash_load() >= MXHASH && r is Ok
                ==> final(self).is_recursive(),
            old(self).is_hash() && r is Err && final(self).is_hash() ==> final(self)@ == old(self)@
                && final(self).hash_load() == old(self).hash_load(),
            old(self).is_recursive() ==> final(self).child_capacity() == old(self).child_capacity(),
            old(self).is_recursive() ==> forall|b: int| #[trigger]
                old(self).has_child(b) ==> final(self).has_child(b),
            old(self).is_recursive() ==> forall|k: int|
                0 <= k < old(self)@.len() && k / (old(self).child_capacity() as int) != (i - 1) / (
                old(self).child_capacity() as int) ==> #[trigger] final(self)@[k] == old(self)@[k],
            old(self).is_recursive() && !old(self).has_child(
                (i - 1) / (old(self).child_capacity() as int),
            ) && r is Err ==> final(self)@ == old(self)@ && !final(self).has_child(
                (i - 1) / (old(self).child_capacity() as int),
            ),
        decreases old(self).capacity(), 2nat,
    {
        let is_rec = match &self.storage {
            Storage::Recursive { .. } => true,
            _ => false,
        };
        if is_rec {
            return self.set_in_child(i);
        }
        let k = i - 1;
        let size = self.size;
        let ghost pre = *self;
        let mut full = false;
        match &mut self.storage {
            Storage::Bitmap(bits) => {
                bitmap_write(bits, k, true);
            },
            Storage::Hash { count, slots } => {
                let (h, found) = probe(slots, i);
                if !found {
                    if (*count as usize) < MXHASH {
                        hash_put(count, slots, h, i);
                    } else {
                        full = true;
                    }
                }
            },
            Storage::Recursive { .. } => {},
        }
        if full {
            return self.split(i);
        }
        proof {
            assert forall|m: int| 0 <= m < size implies #[trigger] self.has(m + 1) == (pre.has(
                m + 1,
            ) || m == k) by {
                if self.is_hash() {
                    assert(m + 1 != 0);
                }
            }
            assert(self@ =~= pre@.update(k as int, true));
            lemma_flag_set(pre@, k as int);
        }
        Ok(())
    }

    /// Stores `i` in the child set whose range holds it, allocating that
    /// child on first use.
    fn set_in_child(&mut self, i: u32) -> (r: SQLiteResult<()>)
        requires
            old(self).wf(),
            old(self).is_recursive(),
            1 <= i <= old(self)@.len(),
        ensures
            final(self).wf(),
            final(self).is_recursive(),
            final(self).capacity() == old(self).capacity(),
            final(self)@.len() == old(self)@.len(),
            r is Ok ==> final(self)@ == old(self)@.update(i - 1, true),
            r is Err ==> r == Err::<(), SQLiteErr>(SQLiteErr::NoMem),
            r is Err ==> forall|k: int|
                0 <= k < final(self)@.len() && #[trigger] final(self)@[k] ==> old(self)@[k] || k
                    == i - 1,
            old(self)@[i - 1] ==> r is Ok && final(self)@ == old(self)@,
            !old(self).needs(i as int) ==> r is Ok,
            r is Err ==> exists|k: int|
                0 <= k < old(self)@.len() && (old(self)@[k] || k == i - 1) && !final(self)@[k],
            final(self).divisor() == old(self).divisor(),
            final(self).subs().len() == old(self).subs().len(),
            forall|b: int|
                0 <= b < old(self).subs().len() && b != (i - 1) / old(self).divisor() ==> final(
                    self).subs()[b] == old(self).subs()[b],
            old(self).subs()[(i - 1) / old(self).divisor()] is Some ==> final(self).subs()[(i - 1)
                / old(self).divisor()] is Some,
            r is Err && old(self).subs()[(i - 1) / old(self).divisor()] is None ==> final(self)@
                == old(self)@ && final(self).subs() == old(self).subs(),
            forall|k: int|
                0 <= k < old(self)@.len() && k / old(self).divisor() != (i - 1) / old(self).divisor()
                    ==> #[trigger] final(self)@[k] == old(self)@[k],
        decreases old(self).capacity(), 0nat,
    {
        let k = i - 1;
        let size = self.size;
        let ghost pre = *self;
        let mut r: SQLiteResult<()> = Err(SQLiteErr::NoMem);
        proof {
            lemma_bin(size as int, pre.divisor(), k as int);
            lemma_rec_has(pre, k as int);
        }
        match &mut self.storage {
            Storage::Recursive { divisor, subs } => {
                let d = *divisor;
                let bin = (k / d) as usize;
                let ghost old_subs = subs@;
                if subs[bin].is_none() {
                    subs[bin] = Bitvec::new(d);
                    proof {
                        if let Some(c) = subs@[bin as int] {
                            assert forall|j: int| 1 <= j <= d implies !c.has(j) by {
                                assert(!c@[j - 1]);
                            }
                        }
                    }
                }
                let ghost mid_subs = subs@;
                match &mut subs[bin] {
                    Some(child) => {
                        assert(child.well_formed());
                        r = child.set(k % d + 1);
                    },
                    None => {},
                }
                proof {
                    assert forall|j: int| 1 <= j <= d implies {
                        &&& r is Ok ==> opt_has(subs@[bin as int], j) == (opt_has(
                            old_subs[bin as int],
                            j,
                        ) || j == k % d + 1)
                        &&& r is Err ==> (opt_has(subs@[bin as int], j) ==> opt_has(
                            old_subs[bin as int],
                            j,
                        ) || j == k % d + 1)
                    } by {
                        if let Some(c) = subs@[bin as int] {
                            assert(c@[j - 1] == c.has(j));
                            let c0 = mid_subs[bin as int]->0;
                            assert(c0@[j - 1] == c0.has(j));
                        }
                    }
                    if opt_has(old_subs[bin as int], k % d + 1) {
                        let c0 = mid_subs[bin as int]->0;
                        assert(c0@[(k % d) as int] == c0.has(k % d + 1));
                    }
                    if r is Err && old_subs[bin as int] is Some {
                        let c0 = mid_subs[bin as int]->0;
                        let c = subs@[bin as int]->0;
                        let kk = choose|kk: int|
                            0 <= kk < c0@.len() && (c0@[kk] || kk == k % d) && !c@[kk];
                        assert(mid_subs[bin as int] == old_subs[bin as int]);
                        assert(c0@[kk] == c0.has(kk + 1));
                        assert(c@[kk] == c.has(kk + 1));
                        assert(opt_has(subs@[bin as int], kk + 1) == c.has(kk + 1));
                        assert(opt_has(old_subs[bin as int], kk + 1) == c0.has(kk + 1));
                        if c0@[kk] {
                            assert(pre.subs()[bin as int] == old_subs[bin as int]);
                            assert(old_subs[bin as int]->0.has(kk + 1));
                            assert(bin * d + kk < size);
                        } else {
                            assert(kk == k % d);
                            assert(k == (k / d) * d + k % d);
                            assert(bin * d + kk < size);
                        }
                        assert(exists|kk: int|
                            0 <= kk < d && (opt_has(old_subs[bin as int], kk + 1) || kk == k % d)
                                && !#[trigger] opt_has(subs@[bin as int], kk + 1) && bin * d + kk
                                < size);
                    }
                    if let Some(c) = subs@[bin as int] {
                        assert forall|j: int| 1 <= j <= d && #[trigger] c.has(j) implies bin * d + j
                            <= size by {
                            assert(opt_has(subs@[bin as int], j));
                            if opt_has(old_subs[bin as int], j) {
                                assert(old_subs[bin as int] is Some);
                                assert(pre.subs()[bin as int] == old_subs[bin as int]);
                                assert(old_subs[bin as int]->0.has(j));
                            }
                        }
                    }
                }
            },
            _ => {},
        }
        proof {
            let d = pre.divisor();
            lemma_rec_update(pre, *self, k as int / d);
            assert forall|m: int| 0 <= m < size implies {
                &&& r is Ok ==> #[trigger] self.has(m + 1) == (pre.has(m + 1) || m == k)
                &&& r is Err ==> (self.has(m + 1) ==> pre.has(m + 1) || m == k)
            } by {
                lemma_bin(size as int, d, m);
                lemma_rec_has(pre, m);
                if m / d == (k as int) / d && m % d == (k as int) % d {
                    lemma_bin_unique(d, m, k as int);
                }
            }
            if r is Ok {
                assert(self@ =~= pre@.update(k as int, true));
            }
            assert forall|m: int|
                0 <= m < size && m / d != (k as int) / d implies #[trigger] self@[m] == pre@[m] by {
                assert(self@[m] == self.has(m + 1));
                assert(pre@[m] == pre.has(m + 1));
            }
            if r is Err && pre.subs()[(k as int) / d] is None {
                assert(self@ =~= pre@);
                assert(!pre@[k as int]);
            }
            if r is Err && pre.subs()[(k as int) / d] is Some {
                let bin = (k as int) / d;
                let kk = choose|kk: int|
                    0 <= kk < d && (opt_has(pre.subs()[bin], kk + 1) || kk == (k as int) % d)
                        && !#[trigger] opt_has(self.subs()[bin], kk + 1) && bin * d + kk < size;
                let m = bin * d + kk;
                lemma_fundamental_div_mod_converse(m, d, bin, kk);
                lemma_rec_has(pre, m);
                assert(self.has(m + 1) == opt_has(self.subs()[bin], kk + 1));
                assert(self@[m] == self.has(m + 1));
                assert(pre@[m] == pre.has(m + 1));
                if kk == (k as int) % d {
                    lemma_bin_unique(d, m, k as int);
                }
            }
        }
        r
    }

    /// Turns a full hash table into child sets, then stores `i` and every
    /// member the table held. Every store is attempted; the result is an
    /// error if any of them failed.
    fn split(&mut self, i: u32) -> (r: SQLiteResult<()>)
        requires
            old(self).wf(),
            old(self).is_hash(),
            1 <= i <= old(self)@.len(),
            !old(self)@[i - 1],
        ensures
            final(self).wf(),
            final(self).capacity() == old(self).capacity(),
            final(self)@.len() == old(self)@.len(),
            final(self).is_hash() || final(self).is_recursive(),
            r is Err ==> exists|k: int|
                0 <= k < old(self)@.len() && (old(self)@[k] || k == i - 1) && !final(self)@[k],
            r is Ok ==> final(self).is_recursive(),
            r is Ok ==> final(self)@ == old(self)@.update(i - 1, true),
            final(self).is_hash() ==> final(self)@ == old(self)@ && final(self).hash_load() == old(
                self,
            ).hash_load(),
            r is Err ==> r == Err::<(), SQLiteErr>(SQLiteErr::NoMem),
            r is Err ==> forall|k: int|
                0 <= k < final(self)@.len() && #[trigger] final(self)@[k] ==> old(self)@[k] || k
                    == i - 1,
        decreases old(self).capacity(), 1nat,
    {
        let size = self.size;
        let ghost pre = *self;
        let d: u32 = ((size as u64 + 62) / 63) as u32;
        let mut subs: Vec<Option<Box<Bitvec>>> = Vec::new();
        if subs.try_reserve(REC_ELEMS).is_err() {
            return Err(SQLiteErr::NoMem);
        }
        let mut b: usize = 0;
        while b < REC_ELEMS
            invariant
                b <= REC_ELEMS,
                subs@.len() == b,
                forall|j: int| 0 <= j < b ==> subs@[j] is None,
            decreases REC_ELEMS - b,
        {
            subs.push(None);
            b = b + 1;
        }
        let mut st = Storage::Recursive { divisor: d, subs };
        std::mem::swap(&mut self.storage, &mut st);
        let prev: Vec<u32> = match st {
            Storage::Hash { slots, .. } => slots,
            _ => Vec::new(),
        };
        proof {
            lemma_bin(size as int, d as int, 0);
            assert(self.wf());
            assert forall|m: int| 0 <= m < size implies !#[trigger] self.has(m + 1) by {
                lemma_rec_has(*self, m);
            }
            assert forall|m: int| 0 <= m < size implies #[trigger] pre.has(m + 1)
                == prev@.contains((m + 1) as u32) by {}
            assert(prev@ == pre.storage->slots@);
            assert(!prev@.contains(i));
        }
        let ghost fresh = self@;
        let mut rc = self.set_in_child(i);
        let ghost mut w: int = i - 1;
        proof {
            if rc is Err {
                let k = choose|k: int|
                    0 <= k < fresh.len() && (fresh[k] || k == i - 1) && !self@[k];
                assert(!fresh[k]);
                w = k;
            }
            assert(prev@.take(0) =~= Seq::<u32>::empty());
        }
        let mut j: usize = 0;
        while j < HASH_ELEMS
            invariant
                self.wf(),
                self.is_recursive(),
                self.capacity() == size,
                old(self).capacity() == size,
                self@.len() == size,
                pre@.len() == size,
                prev@.len() == HASH_ELEMS,
                1 <= i <= size,
                j <= HASH_ELEMS,
                forall|m: int| 0 <= m < prev@.len() ==> prev@[m] <= size,
                forall|m: int| 0 <= m < size ==> pre@[m] == prev@.contains((m + 1) as u32),
                rc is Err ==> rc == Err::<(), SQLiteErr>(SQLiteErr::NoMem),
                rc is Ok ==> forall|m: int|
                    0 <= m < size ==> #[trigger] self@[m] == (m == i - 1 || prev@.take(
                        j as int,
                    ).contains((m + 1) as u32)),
                forall|m: int| 0 <= m < size && #[trigger] self@[m] ==> m == i - 1 || pre@[m],
                no_dups(prev@),
                !prev@.contains(i),
                rc is Err ==> 0 <= w < size && !self@[w] && (w == i - 1 || prev@.take(
                    j as int,
                ).contains((w + 1) as u32)),
            decreases HASH_ELEMS - j,
        {
            let v = prev[j];
            proof {
                assert(prev@.take(j as int + 1) =~= prev@.take(j as int).push(v));
                assert forall|m: int| 0 <= m < size implies #[trigger] prev@.take(
                    j as int + 1,
                ).contains((m + 1) as u32) == (prev@.take(j as int).contains((m + 1) as u32) || (m + 1) as u32 == v) by {
                    lemma_push_contains(prev@.take(j as int), v, (m + 1) as u32);
                }
            }
            if v != 0 {
                proof {
                    assert(prev@.contains(v)) by {
                        assert(prev@[j as int] == v);
                    }
                }
                let ghost before = self@;
                let r2 = self.set_in_child(v);
                proof {
                    if rc is Err {
                        if prev@.take(j as int).contains((w + 1) as u32) {
                            let m = choose|m: int|
                                0 <= m < j && prev@.take(j as int)[m] == (w + 1) as u32;
                            assert(prev@[m] == prev@[j as int] ==> m == j);
                        }
                        assert((w + 1) as u32 != v);
                        assert(w != v - 1);
                        if r2 is Ok {
                            assert(self@[w] == before.update(v - 1, true)[w]);
                        }
                    } else if r2 is Err {
                        let k = choose|k: int|
                            0 <= k < before.len() && (before[k] || k == v - 1) && !self@[k];
                        w = k;
                    }
                }
                if rc.is_ok() {
                    rc = r2;
                }
            }
            j = j + 1;
        }
        proof {
            assert(prev@.take(HASH_ELEMS as int) =~= prev@);
            if rc is Ok {
                assert(self@ =~= pre@.update(i - 1, true));
            }
        }
        rc
    }

    /// Home slot of member `x + 1` in the hash form.
    pub(crate) fn hash(x: u32) -> (r: usize)
        ensures
            r == (x as int) % (HASH_ELEMS as int),
    {
        (x % (HASH_ELEMS as u32)) as usize
    }

    /// Tells whether `i` is a member. Any `i` outside `1 ..= size` is not.
    pub fn test(&self, i: u32) -> (r: bool)
        requires
            self.wf(),
        ensures
            r == (1 <= i <= self@.len() && self@[i - 1]),
            i == 0 || i > self.capacity() ==> !r,
            call_step(self@, BitvecCall::TestPage(i), self@, r),
        decreases self.capacity(),
    {
        if i == 0 || i > self.size {
            return false;
        }
        let k = i - 1;
        assert(self@[k as int] == self.has(i as int));
        match &self.storage {
            Storage::Bitmap(bits) => bits[(k / 8) as usize] & (1u8 << ((k % 8) as u8)) != 0,
            Storage::Hash { slots, .. } => {
                let (_, found) = probe(slots, i);
                found
            },
            Storage::Recursive { divisor, subs } => {
                let d = *divisor;
                proof {
                    lemma_bin(self.size as int, d as int, k as int);
                }
                let bin = (k / d) as usize;
                match &subs[bin] {
                    Some(child) => {
                        assert(child.well_formed());
                        let r = child.test(k % d + 1);
                        assert(child@[(k % d) as int] == child.has(k % d + 1));
                        r
                    },
                    None => false,
                }
            },
        }
    }

    /// Removes `i` from the set; does nothing if `i` is not a member or lies
    /// outside `1 ..= size`.
    pub fn clear(&mut self, i: u32)
        requires
            old(self).wf(),
        ensures
            final(self).wf(),
            final(self).capacity() == old(self).capacity(),
            final(self)@.len() == old(self)@.len(),
            final(self)@ == if 1 <= i <= old(self)@.len() {
                old(self)@.update(i - 1, false)
            } else {
                old(self)@
            },
            call_step(old(self)@, BitvecCall::ClearPage(i), final(self)@, false),
            final(self).is_bitmap() == old(self).is_bitmap(),
            final(self).is_hash() == old(self).is_hash(),
            final(self).is_recursive() == old(self).is_recursive(),
        decreases old(self).capacity(),
    {
        if i == 0 || i > self.size {
            return;
        }
        let k = i - 1;
        let ghost pre = *self;
        let size = self.size;
        match &mut self.storage {
            Storage::Bitmap(bits) => {
                bitmap_write(bits, k, false);
            },
            Storage::Hash { count, slots } => {
                hash_remove(count, slots, i, size);
            },
            Storage::Recursive { divisor, subs } => {
                let d = *divisor;
                proof {
                    lemma_bin(size as int, d as int, k as int);
                }
                let bin = (k / d) as usize;
                let ghost old_subs = subs@;
                match &mut subs[bin] {
                    Some(child) => {
                        assert(child.well_formed());
                        child.clear(k % d + 1);
                    },
                    None => {},
                }
                proof {
                    assert forall|j: int| 1 <= j <= d implies opt_has(subs@[bin as int], j) == (
                    opt_has(old_subs[bin as int], j) && j != k % d + 1) by {
                        if let Some(c) = subs@[bin as int] {
                            assert(c@[j - 1] == c.has(j));
                            assert(old_subs[bin as int]->0@[j - 1] == old_subs[bin as int]->0.has(
                                j,
                            ));
                        }
                    }
                    if let Some(c) = subs@[bin as int] {
                        assert forall|j: int| 1 <= j <= d && #[trigger] c.has(j) implies bin * d + j
                            <= size by {
                            assert(opt_has(subs@[bin as int], j));
                            assert(opt_has(old_subs[bin as int], j));
                            assert(pre.subs()[bin as int] == old_subs[bin as int]);
                        }
                    }
                }
            },
        }
        proof {
            if pre.is_recursive() {
                let d = pre.divisor();
                lemma_bin(size as int, d, k as int);
                lemma_rec_update(pre, *self, k as int / d);
                assert forall|m: int| 0 <= m < size implies #[trigger] self.has(m + 1) == (pre.has(m + 1)
                    && m != k) by {
                    lemma_bin(size as int, d, m);
                    lemma_rec_has(pre, m);
                    if m / d == (k as int) / d && m % d == (k as int) % d {
                        lemma_bin_unique(d, m, k as int);
                    }
                }
            } else if pre.is_bitmap() {
                let new_bits = self.storage->Bitmap_0@;
                let old_bits = pre.storage->Bitmap_0@;
                assert forall|m: int| 0 <= m < size implies #[trigger] self.has(m + 1) == (pre.has(m + 1)
                    && m != k) by {
                    assert(bit_of(new_bits, m) == if m == k {
                        false
                    } else {
                        bit_of(old_bits, m)
                    });
                }
            } else {
                let new_slots = self.storage->slots@;
                let old_slots = pre.storage->slots@;
                assert forall|m: int| 0 <= m < size implies #[trigger] self.has(m + 1) == (pre.has(m + 1)
                    && m != k) by {
                    let x = (m + 1) as u32;
                    assert(x != 0);
                    assert(new_slots.contains(x) == (old_slots.contains(x) && x != i));
                }
            }
            assert(self@ =~= pre@.update(k as int, false));
            lemma_flag_set(pre@, k as int);
        }
    }

    /// What holds of every well-formed set: it has one flag per member it
    /// can hold and exactly one representation; it is a flat bitmap exactly
    /// when its capacity is at most `MAX_BITMAP_CAPACITY`; and the load of a
    /// hash table is its number of members, never more than `MXHASH`.
    pub proof fn lemma_wf(self)
        requires
            self.wf(),
        ensures
            self@.len() == self.capacity(),
            self.is_bitmap() || self.is_hash() || self.is_recursive(),
            !(self.is_bitmap() && self.is_hash()),
            !(self.is_bitmap() && self.is_recursive()),
            !(self.is_hash() && self.is_recursive()),
            self.is_bitmap() <==> self.capacity() <= MAX_BITMAP_CAPACITY,
            self.is_hash() ==> self.hash_load() <= MXHASH,
            self.is_hash() ==> self.hash_load() == flag_set(self@).len(),
    {
    }

    /// A set with more than `MXHASH` members is not a hash table: a large
    /// set that gains that many members has been subdivided, since `set`
    /// keeps every member it had and never turns a hash table back into a
    /// bitmap.
    pub proof fn lemma_crowded_set_is_subdivided(self)
        requires
            self.wf(),
            flag_set(self@).len() > MXHASH,
        ensures
            !self.is_hash(),
            self.capacity() > MAX_BITMAP_CAPACITY ==> self.is_recursive(),
    {
    }

    /// Returns the capacity the set was made with.
    pub fn size(&self) -> (r: u32)
        ensures
            r == self.capacity(),
            r == self@.len(),
    {
        self.size
    }
}

impl View for Bitvec {
    type V = Seq<bool>;

    /// The set as an array of flags: entry `k` tells whether `k + 1` is a member.
    closed spec fn view(&self) -> Seq<bool> {
        Seq::new(self.size as nat, |k: int| self.has(k + 1))
    }
}

} // verus!
