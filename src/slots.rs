//! The open-addressed hash table of page numbers that a mid-sized bitmap
//! uses: a fixed array of slots, `0` for an empty slot, linear probing from
//! each member's home slot, and no deletion in place.
use vstd::prelude::*;

use crate::bitvec::Bitvec;

verus! {

/// Slots of the table.
pub const HASH_ELEMS: usize = 126;

/// Most members the table holds before its set subdivides.
pub const MXHASH: usize = 63;

/// `n` empty slots.
pub(crate) open spec fn zeros(n: nat) -> Seq<u32> {
    Seq::new(n, |_j: int| 0u32)
}

/// Home slot of a member in the hash form.
pub(crate) open spec fn home(v: u32) -> int {
    (v - 1) % (HASH_ELEMS as int)
}

/// Steps of linear probing from slot `a` to slot `b`, wrapping around.
pub(crate) open spec fn dist(a: int, b: int) -> int {
    if a <= b {
        b - a
    } else {
        b + HASH_ELEMS - a
    }
}

/// Number of occupied slots.
pub(crate) open spec fn occupied(s: Seq<u32>) -> nat
    decreases s.len(),
{
    if s.len() == 0 {
        0
    } else {
        occupied(s.drop_last()) + if s.last() != 0 {
            1nat
        } else {
            0nat
        }
    }
}

/// Every slot that linear probing passes on its way from a member's home
/// slot to the member is occupied.
pub(crate) open spec fn chains_ok(s: Seq<u32>) -> bool {
    forall|k: int, j: int|
        #![trigger s[k], s[j]]
        0 <= k < s.len() && 0 <= j < s.len() && s[k] != 0 && dist(home(s[k]), j) < dist(
            home(s[k]),
            k,
        ) ==> s[j] != 0
}

/// The table's invariant: its length, a count of the occupied slots within
/// the load limit, unbroken probe chains, no member twice, and every member
/// within the capacity `size`.
pub(crate) open spec fn hash_wf(s: Seq<u32>, count: u32, size: u32) -> bool {
    &&& s.len() == HASH_ELEMS
    &&& count == occupied(s)
    &&& count <= MXHASH
    &&& chains_ok(s)
    &&& no_dups(s)
    &&& forall|k: int| 0 <= k < s.len() ==> s[k] <= size
}

/// No member occupies two slots.
pub(crate) open spec fn no_dups(s: Seq<u32>) -> bool {
    forall|a: int, b: int|
        #![trigger s[a], s[b]]
        0 <= a < s.len() && 0 <= b < s.len() && a != b && s[a] != 0 ==> s[a] != s[b]
}

/// A table with fewer occupied slots than slots has an empty one.
pub(crate) proof fn lemma_occupied_bound(s: Seq<u32>)
    ensures
        occupied(s) <= s.len(),
        occupied(s) < s.len() ==> exists|z: int| 0 <= z < s.len() && s[z] == 0,
    decreases s.len(),
{
    if s.len() > 0 {
        let t = s.drop_last();
        lemma_occupied_bound(t);
        if occupied(s) < s.len() && s.last() != 0 {
            let z = choose|z: int| 0 <= z < t.len() && t[z] == 0;
            assert(s[z] == 0);
        }
    }
}

/// Filling an empty slot adds one occupied slot.
pub(crate) proof fn lemma_occupied_update(s: Seq<u32>, k: int, v: u32)
    requires
        0 <= k < s.len(),
        s[k] == 0,
        v != 0,
    ensures
        occupied(s.update(k, v)) == occupied(s) + 1,
    decreases s.len(),
{
    let t = s.update(k, v);
    if k == s.len() - 1 {
        assert(t.drop_last() =~= s.drop_last());
    } else {
        assert(t.drop_last() =~= s.drop_last().update(k, v));
        lemma_occupied_update(s.drop_last(), k, v);
    }
}

/// Empty slots are not occupied.
pub(crate) proof fn lemma_occupied_zeros(n: nat)
    ensures
        occupied(zeros(n)) == 0,
    decreases n,
{
    if n > 0 {
        assert(zeros(n).drop_last() =~= zeros((n - 1) as nat));
        lemma_occupied_zeros((n - 1) as nat);
    }
}

/// Occupied slots of a prefix, one slot at a time.
pub(crate) proof fn lemma_occupied_prefix(s: Seq<u32>, k: int)
    requires
        0 <= k < s.len(),
    ensures
        occupied(s.take(k + 1)) == occupied(s.take(k)) + if s[k] != 0 {
            1nat
        } else {
            0nat
        },
{
    assert(s.take(k + 1).drop_last() =~= s.take(k));
}

/// A prefix has no more occupied slots than the whole.
pub(crate) proof fn lemma_occupied_take_le(s: Seq<u32>, j: int)
    requires
        0 <= j <= s.len(),
    ensures
        occupied(s.take(j)) <= occupied(s),
    decreases s.len() - j,
{
    if j < s.len() {
        lemma_occupied_prefix(s, j);
        lemma_occupied_take_le(s, j + 1);
    } else {
        assert(s.take(j) =~= s);
    }
}

/// Seq facts about appending one element.
pub(crate) proof fn lemma_push_contains(s: Seq<u32>, v: u32, x: u32)
    ensures
        s.push(v).contains(x) <==> (s.contains(x) || x == v),
{
    if s.contains(x) {
        let m = choose|m: int| 0 <= m < s.len() && s[m] == x;
        assert(s.push(v)[m] == x);
    }
    if x == v {
        assert(s.push(v)[s.len() as int] == x);
    }
    if s.push(v).contains(x) {
        let m = choose|m: int| 0 <= m < s.push(v).len() && s.push(v)[m] == x;
        if m < s.len() {
            assert(s[m] == x);
        }
    }
}

/// Seq facts about writing `v` over an empty slot.
pub(crate) proof fn lemma_update_contains(s: Seq<u32>, h: int, v: u32, x: u32)
    requires
        0 <= h < s.len(),
        s[h] == 0,
        x != 0,
    ensures
        s.update(h, v).contains(x) <==> (s.contains(x) || x == v),
{
    let t = s.update(h, v);
    if x == v {
        assert(t[h] == v);
    }
    if s.contains(x) {
        let m = choose|m: int| 0 <= m < s.len() && s[m] == x;
        assert(t[m] == x);
    }
    if t.contains(x) {
        let m = choose|m: int| 0 <= m < t.len() && t[m] == x;
        if m != h {
            assert(s[m] == x);
        }
    }
}

/// Writes `v`, which the table does not hold, into the empty slot `h` that
/// probing found for it.
pub(crate) fn hash_put(count: &mut u32, slots: &mut Vec<u32>, h: usize, v: u32)
    requires
        old(slots)@.len() == HASH_ELEMS,
        chains_ok(old(slots)@),
        *old(count) == occupied(old(slots)@),
        *old(count) < MXHASH,
        v != 0,
        h < HASH_ELEMS,
        old(slots)@[h as int] == 0,
        forall|j: int|
            0 <= j < HASH_ELEMS && dist(home(v), j) < dist(home(v), h as int) ==> old(slots)@[j]
                != 0,
        no_dups(old(slots)@),
        !old(slots)@.contains(v),
    ensures
        no_dups(final(slots)@),
        final(slots)@ == old(slots)@.update(h as int, v),
        final(slots)@.len() == HASH_ELEMS,
        chains_ok(final(slots)@),
        *final(count) == *old(count) + 1,
        *final(count) == occupied(final(slots)@),
        forall|x: u32| x != 0 ==> (final(slots)@.contains(x) <==> (old(slots)@.contains(x) || x == v)),
{
    proof {
        lemma_occupied_update(slots@, h as int, v);
        assert forall|x: u32| x != 0 implies (slots@.update(h as int, v).contains(x) <==> (
        slots@.contains(x) || x == v)) by {
            lemma_update_contains(slots@, h as int, v, x);
        }
    }
    let ghost before = slots@;
    slots.set(h, v);
    *count = *count + 1;
    proof {
        let s = slots@;
        assert forall|k: int, j: int|
            #![trigger s[k], s[j]]
            0 <= k < s.len() && 0 <= j < s.len() && s[k] != 0 && dist(home(s[k]), j) < dist(
                home(s[k]),
                k,
            ) implies s[j] != 0 by {
            if j != h && k != h {
                assert(before[k] == s[k] && before[j] == s[j]);
            }
        }
        assert forall|a: int, b: int|
            #![trigger s[a], s[b]]
            0 <= a < s.len() && 0 <= b < s.len() && a != b && s[a] != 0 implies s[a] != s[b] by {
            if a != h && b != h {
                assert(before[a] == s[a] && before[b] == s[b]);
            } else if a == h {
                assert(before[b] == s[b]);
            } else {
                assert(before[a] == s[a]);
            }
        }
    }
}

/// Rebuilds the hash table without `i`: clearing a slot in place would cut
/// the probe chains that run through it.
pub(crate) fn hash_remove(count: &mut u32, slots: &mut Vec<u32>, i: u32, size: u32)
    requires
        hash_wf(old(slots)@, *old(count), size),
        i != 0,
    ensures
        hash_wf(final(slots)@, *final(count), size),
        forall|x: u32|
            x != 0 ==> (final(slots)@.contains(x) <==> (old(slots)@.contains(x) && x != i)),
        *final(count) == *old(count) - if old(slots)@.contains(i) {
            1int
        } else {
            0int
        },
{
    let ghost before = slots@;
    let mut prev: [u32; HASH_ELEMS] = [0u32; HASH_ELEMS];
    let mut k: usize = 0;
    while k < HASH_ELEMS
        invariant
            k <= HASH_ELEMS,
            prev@.len() == HASH_ELEMS,
            slots@.len() == HASH_ELEMS,
            before.len() == HASH_ELEMS,
            forall|m: int| 0 <= m < k ==> prev@[m] == before[m],
            forall|m: int| 0 <= m < k ==> slots@[m] == 0,
            forall|m: int| k <= m < HASH_ELEMS ==> slots@[m] == before[m],
        decreases HASH_ELEMS - k,
    {
        prev[k] = slots[k];
        slots[k] = 0;
        k = k + 1;
    }
    assert(prev@ =~= before);
    *count = 0;
    proof {
        assert(slots@ =~= zeros(HASH_ELEMS as nat));
        lemma_occupied_zeros(HASH_ELEMS as nat);
        lemma_occupied_take_le(prev@, 0);
        assert forall|x: u32| x != 0 implies !slots@.contains(x) by {
            if slots@.contains(x) {
                let m = choose|m: int| 0 <= m < slots@.len() && slots@[m] == x;
                assert(slots@[m] == 0);
            }
        }
        assert(!prev@.take(0).contains(i));
    }
    let mut j: usize = 0;
    while j < HASH_ELEMS
        invariant
            prev@.len() == HASH_ELEMS,
            occupied(prev@) <= MXHASH,
            no_dups(prev@),
            i != 0,
            slots@.len() == HASH_ELEMS,
            chains_ok(slots@),
            no_dups(slots@),
            *count == occupied(slots@),
            *count == occupied(prev@.take(j as int)) - if prev@.take(j as int).contains(i) {
                1int
            } else {
                0int
            },
            j <= HASH_ELEMS,
            forall|m: int| 0 <= m < prev@.len() ==> prev@[m] <= size,
            forall|m: int| 0 <= m < slots@.len() ==> slots@[m] <= size,
            forall|x: u32|
                x != 0 ==> (slots@.contains(x) <==> (prev@.take(j as int).contains(x) && x != i)),
        decreases HASH_ELEMS - j,
    {
        let v = prev[j];
        proof {
            lemma_occupied_prefix(prev@, j as int);
            lemma_occupied_take_le(prev@, j as int + 1);
            assert(prev@.take(j as int + 1) =~= prev@.take(j as int).push(v));
            lemma_push_contains(prev@.take(j as int), v, i);
            if v != 0 && prev@.take(j as int).contains(v) {
                let m = choose|m: int|
                    0 <= m < prev@.take(j as int).len() && prev@.take(j as int)[m] == v;
                assert(prev@[m] == v && prev@[j as int] == v);
            }
        }
        if v != 0 && v != i {
            let (h, found) = probe(slots, v);
            if !found {
                hash_put(count, slots, h, v);
            }
        }
        proof {
            assert forall|x: u32| x != 0 implies (slots@.contains(x) <==> (prev@.take(
                j as int + 1,
            ).contains(x) && x != i)) by {
                lemma_push_contains(prev@.take(j as int), v, x);
            }
        }
        j = j + 1;
    }
    assert(prev@.take(HASH_ELEMS as int) =~= prev@);
}

/// Finds `v` in the hash slots, or else the empty slot where linear probing
/// from its home slot stops.
pub(crate) fn probe(slots: &Vec<u32>, v: u32) -> (r: (usize, bool))
    requires
        slots@.len() == HASH_ELEMS,
        v != 0,
        occupied(slots@) < HASH_ELEMS,
        chains_ok(slots@),
    ensures
        r.0 < HASH_ELEMS,
        r.1 == slots@.contains(v),
        r.1 ==> slots@[r.0 as int] == v,
        !r.1 ==> slots@[r.0 as int] == 0,
        !r.1 ==> forall|j: int|
            0 <= j < HASH_ELEMS && dist(home(v), j) < dist(home(v), r.0 as int) ==> slots@[j]
                != 0,
{
    proof {
        lemma_occupied_bound(slots@);
    }
    let ghost z = choose|z: int| 0 <= z < slots@.len() && slots@[z] == 0;
    let ghost start = home(v);
    let mut h: usize = Bitvec::hash(v - 1);
    let mut steps: usize = 0;
    loop
        invariant
            slots@.len() == HASH_ELEMS,
            v != 0,
            chains_ok(slots@),
            0 <= z < HASH_ELEMS,
            slots@[z] == 0,
            start == home(v),
            0 <= start < HASH_ELEMS,
            h < HASH_ELEMS,
            steps < HASH_ELEMS,
            dist(start, h as int) == steps,
            forall|j: int|
                0 <= j < HASH_ELEMS && dist(start, j) < steps ==> slots@[j] != 0 && slots@[j] != v,
        decreases HASH_ELEMS - steps,
    {
        if slots[h] == 0 {
            assert forall|k: int| 0 <= k < slots@.len() implies slots@[k] != v by {
                if slots@[k] == v {
                    assert(slots@[k] != 0 && slots@[h as int] == 0);
                }
            }
            return (h, false);
        }
        if slots[h] == v {
            return (h, true);
        }
        h = if h + 1 == HASH_ELEMS {
            0
        } else {
            h + 1
        };
        steps = steps + 1;
        assert(dist(start, z) >= steps);
    }
}

} // verus!
