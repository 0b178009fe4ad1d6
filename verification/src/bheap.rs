//! The scheduler's priority structure: one fixed array packing two zones.
//! The prefix is a binary min-heap of `(task id, key)` pairs ordered by key
//! (smaller key = higher priority); the suffix right after it is an unordered
//! free list of the tasks that are not ready; the rest of the array is unused
//! capacity. Sift-up breaks ties without swapping, so a re-inserted entry
//! lands below entries of equal key and equal-priority tasks take turns.

use vstd::prelude::*;

use crate::{MTTaskId, MTTaskPri};

verus! {

/// Combined binary min-heap and free list over one fixed array.
///
/// Positions `0 .. n_bheap` are the heap zone, positions
/// `n_bheap .. n_bheap + n_flist` the free-list zone; every slot in a zone is
/// occupied, every slot beyond them empty, and no task id appears twice.
pub struct MTBHeapDList {
    /// Entry storage, sized once at construction.
    pub array: Vec<Option<(MTTaskId, MTTaskPri)>>,
    /// Number of entries in the heap zone (array prefix).
    pub n_bheap: usize,
    /// Number of entries in the free-list zone (right after the heap zone).
    pub n_flist: usize,
}

/// Parent position of heap position `i`.
pub open spec fn parent(i: int) -> int {
    (i - 1) / 2
}

/// Position `a` lies on the ancestor path of position `d`: it is `d` itself
/// or one of `d`'s ancestors up to the root.
pub open spec fn on_path(a: int, d: int) -> bool
    decreases
            if d >= 0 {
                d
            } else {
                0
            },
{
    if a == d {
        true
    } else if d > 0 {
        on_path(a, parent(d))
    } else {
        false
    }
}

/// A path position is between the root and its endpoint.
pub proof fn lemma_on_path_bounds(a: int, d: int)
    requires
        on_path(a, d),
        0 <= d,
    ensures
        0 <= a <= d,
    decreases d,
{
    if a != d {
        lemma_on_path_bounds(a, parent(d));
    }
}

/// The parent of a path position other than the root is on the path too.
pub proof fn lemma_on_path_parent(a: int, d: int)
    requires
        on_path(a, d),
        a > 0,
        0 <= d,
    ensures
        on_path(parent(a), d),
    decreases d,
{
    if a == d {
        assert(on_path(parent(a), parent(a)));
    } else {
        lemma_on_path_parent(a, parent(d));
    }
}

/// Two positions on one ancestor path stand in the ancestor relation
/// themselves: a path is a chain.
pub proof fn lemma_on_path_total(a: int, b: int, d: int)
    requires
        on_path(a, d),
        on_path(b, d),
        0 <= d,
    ensures
        on_path(a, b) || on_path(b, a),
    decreases d,
{
    if a != d && b != d {
        lemma_on_path_total(a, b, parent(d));
    }
}

/// Some slot of `s` in the half-open position range `[lo, hi)` holds the pair
/// `(id, key)`.
pub open spec fn zone_has(
    s: Seq<Option<(MTTaskId, MTTaskPri)>>,
    lo: int,
    hi: int,
    id: MTTaskId,
    key: MTTaskPri,
) -> bool {
    exists|i: int| lo <= i < hi && s[i] == Some((id, key))
}

/// One left rotation of a sequence: the head moves to the tail and every
/// other element moves up one place.
pub open spec fn rotl1<A>(s: Seq<A>) -> Seq<A>
    recommends
        s.len() > 0,
{
    s.subrange(1, s.len() as int).push(s[0])
}

/// `n` left rotations of a sequence.
pub open spec fn rotl<A>(s: Seq<A>, n: nat) -> Seq<A>
    decreases n,
{
    if n == 0 {
        s
    } else {
        rotl1(rotl(s, (n - 1) as nat))
    }
}

/// Where each element stands after `n` left rotations: the first `len - n`
/// slots hold the elements shifted down by `n`, the rest hold the first `n`
/// elements in order. In particular the head of `rotl(s, j)` is `s[j]`, so a
/// full cycle of rotations puts every element at the head exactly once and
/// `rotl(s, len)` is `s` again.
pub proof fn lemma_rotl_cycle<A>(s: Seq<A>, n: nat)
    requires
        n <= s.len(),
    ensures
        rotl(s, n).len() == s.len(),
        forall|j: int| 0 <= j < s.len() - n ==> rotl(s, n)[j] == s[j + n],
        forall|j: int| s.len() - n <= j < s.len() ==> rotl(s, n)[j] == s[j + n - s.len()],
    decreases n,
{
    if n > 0 {
        lemma_rotl_cycle(s, (n - 1) as nat);
        let t = rotl(s, (n - 1) as nat);
        assert(rotl(s, n) == rotl1(t));
        assert forall|j: int| 0 <= j < s.len() - n implies rotl(s, n)[j] == s[j + n] by {
            assert(rotl1(t)[j] == t[j + 1]);
        }
        assert forall|j: int|
            s.len() - n <= j < s.len() implies rotl(s, n)[j] == s[j + n - s.len()] by {
            if j == s.len() - 1 {
                assert(rotl1(t)[j] == t[0]);
            } else {
                assert(rotl1(t)[j] == t[j + 1]);
            }
        }
    }
}

/// A one-slot range holds exactly the pair stored in that slot.
pub proof fn lemma_zone_singleton(s: Seq<Option<(MTTaskId, MTTaskPri)>>, p: int, q: int)
    requires
        0 <= p < s.len(),
        q == p + 1,
    ensures
        forall|id: MTTaskId, key: MTTaskPri|
            zone_has(s, p, q, id, key) == (s[p] == Some((id, key))),
{
    assert forall|id: MTTaskId, key: MTTaskPri|
        zone_has(s, p, q, id, key) == (s[p] == Some((id, key))) by {
        if zone_has(s, p, q, id, key) {
            let i = choose|i: int| p <= i < q && s[i] == Some((id, key));
            assert(i == p);
        }
        if s[p] == Some((id, key)) {
            assert(zone_has(s, p, q, id, key));
        }
    }
}

/// Two arrays that agree on a position range hold the same pairs there.
pub proof fn lemma_zone_same(
    a: Seq<Option<(MTTaskId, MTTaskPri)>>,
    b: Seq<Option<(MTTaskId, MTTaskPri)>>,
    lo: int,
    hi: int,
)
    requires
        forall|i: int| lo <= i < hi ==> a[i] == b[i],
    ensures
        forall|id: MTTaskId, key: MTTaskPri|
            zone_has(a, lo, hi, id, key) == zone_has(b, lo, hi, id, key),
{
    assert forall|id: MTTaskId, key: MTTaskPri|
        zone_has(a, lo, hi, id, key) == zone_has(b, lo, hi, id, key) by {
        if zone_has(a, lo, hi, id, key) {
            let i = choose|i: int| lo <= i < hi && a[i] == Some((id, key));
            assert(b[i] == Some((id, key)));
            assert(zone_has(b, lo, hi, id, key));
        }
        if zone_has(b, lo, hi, id, key) {
            let i = choose|i: int| lo <= i < hi && b[i] == Some((id, key));
            assert(a[i] == Some((id, key)));
            assert(zone_has(a, lo, hi, id, key));
        }
    }
}

/// A position range holds a pair exactly when one of its two parts does.
pub proof fn lemma_zone_split(s: Seq<Option<(MTTaskId, MTTaskPri)>>, lo: int, mid: int, hi: int)
    requires
        lo <= mid <= hi,
    ensures
        forall|id: MTTaskId, key: MTTaskPri|
            zone_has(s, lo, hi, id, key) == (zone_has(s, lo, mid, id, key) || zone_has(
                s,
                mid,
                hi,
                id,
                key,
            )),
{
    assert forall|id: MTTaskId, key: MTTaskPri|
        zone_has(s, lo, hi, id, key) == (zone_has(s, lo, mid, id, key) || zone_has(
            s,
            mid,
            hi,
            id,
            key,
        )) by {
        if zone_has(s, lo, hi, id, key) {
            let i = choose|i: int| lo <= i < hi && s[i] == Some((id, key));
            if i < mid {
                assert(zone_has(s, lo, mid, id, key));
            } else {
                assert(zone_has(s, mid, hi, id, key));
            }
        }
        if zone_has(s, lo, mid, id, key) {
            let i = choose|i: int| lo <= i < mid && s[i] == Some((id, key));
            assert(zone_has(s, lo, hi, id, key));
        }
        if zone_has(s, mid, hi, id, key) {
            let i = choose|i: int| mid <= i < hi && s[i] == Some((id, key));
            assert(zone_has(s, lo, hi, id, key));
        }
    }
}

/// Swapping two slots inside a position range does not change which pairs the
/// range holds.
pub proof fn lemma_zone_swap(
    a: Seq<Option<(MTTaskId, MTTaskPri)>>,
    b: Seq<Option<(MTTaskId, MTTaskPri)>>,
    lo: int,
    hi: int,
    p0: int,
    p1: int,
)
    requires
        hi <= a.len(),
        b == a.update(p0, a[p1]).update(p1, a[p0]),
        lo <= p0 < hi,
        lo <= p1 < hi,
        0 <= lo,
    ensures
        forall|id: MTTaskId, key: MTTaskPri|
            zone_has(a, lo, hi, id, key) == zone_has(b, lo, hi, id, key),
{
    assert forall|id: MTTaskId, key: MTTaskPri|
        zone_has(a, lo, hi, id, key) == zone_has(b, lo, hi, id, key) by {
        if zone_has(a, lo, hi, id, key) {
            let i = choose|i: int| lo <= i < hi && a[i] == Some((id, key));
            if i == p0 {
                assert(b[p1] == Some((id, key)));
            } else if i == p1 {
                assert(b[p0] == Some((id, key)));
            } else {
                assert(b[i] == Some((id, key)));
            }
            assert(zone_has(b, lo, hi, id, key));
        }
        if zone_has(b, lo, hi, id, key) {
            let i = choose|i: int| lo <= i < hi && b[i] == Some((id, key));
            if i == p0 {
                assert(a[p1] == Some((id, key)));
            } else if i == p1 {
                assert(a[p0] == Some((id, key)));
            } else {
                assert(a[i] == Some((id, key)));
            }
            assert(zone_has(a, lo, hi, id, key));
        }
    }
}

impl MTBHeapDList {
    /// Number of occupied slots.
    pub open spec fn total(self) -> int {
        self.n_bheap + self.n_flist
    }

    /// Task id stored at position `i`.
    pub open spec fn id_at(self, i: int) -> MTTaskId {
        (self.array@[i]->0).0
    }

    /// Key stored at position `i`.
    pub open spec fn key_at(self, i: int) -> MTTaskPri {
        (self.array@[i]->0).1
    }

    /// The pair `(id, key)` occupies some heap-zone slot.
    pub open spec fn heap_has(self, id: MTTaskId, key: MTTaskPri) -> bool {
        zone_has(self.array@, 0, self.n_bheap as int, id, key)
    }

    /// The pair `(id, key)` occupies some free-list slot.
    pub open spec fn flist_has(self, id: MTTaskId, key: MTTaskPri) -> bool {
        zone_has(self.array@, self.n_bheap as int, self.total(), id, key)
    }

    /// The task id sits in the heap zone.
    pub open spec fn in_heap(self, id: MTTaskId) -> bool {
        exists|key: MTTaskPri| self.heap_has(id, key)
    }

    /// The task id sits in the free-list zone.
    pub open spec fn in_flist(self, id: MTTaskId) -> bool {
        exists|key: MTTaskPri| self.flist_has(id, key)
    }

    /// The task id sits somewhere in the structure.
    pub open spec fn contains_id(self, id: MTTaskId) -> bool {
        self.in_heap(id) || self.in_flist(id)
    }

    /// The pair `(id, key)` occupies some slot, in either zone.
    pub open spec fn has_pair(self, id: MTTaskId, key: MTTaskPri) -> bool {
        self.heap_has(id, key) || self.flist_has(id, key)
    }

    /// Occupancy: both zones filled with entries, nothing beyond them, and no
    /// task id stored twice.
    pub open spec fn wf_basic(self) -> bool {
        &&& self.array@.len() <= usize::MAX
        &&& self.total() <= self.array@.len()
        &&& forall|i: int| 0 <= i < self.total() ==> self.array@[i] is Some
        &&& forall|i: int| self.total() <= i < self.array@.len() ==> self.array@[i] is None
        &&& forall|i: int, j: int|
            0 <= i < j < self.total() ==> self.id_at(i) != self.id_at(j)
    }

    /// Min-heap ordering on the heap zone.
    pub open spec fn heap_ordered(self) -> bool {
        forall|i: int| 1 <= i < self.n_bheap ==> self.key_at(parent(i)) <= #[trigger] self.key_at(i)
    }

    /// Min-heap ordering except that the edge from position `xc` up to its
    /// parent need not hold.
    pub open spec fn heap_ordered_except_up(self, xc: int) -> bool {
        forall|i: int|
            1 <= i < self.n_bheap && i != xc ==> self.key_at(parent(i)) <= #[trigger] self.key_at(i)
    }

    /// Min-heap ordering except that the edges from the children of position
    /// `xc` up to `xc` need not hold.
    pub open spec fn heap_ordered_except_down(self, xc: int) -> bool {
        forall|i: int|
            1 <= i < self.n_bheap && parent(i) != xc ==> self.key_at(parent(i)) <= #[trigger] self.key_at(i)
    }

    /// The structure's invariant.
    pub open spec fn wf(self) -> bool {
        self.wf_basic() && self.heap_ordered()
    }

    /// The heap zone as a sequence, head first.
    pub open spec fn heap_seq(self) -> Seq<Option<(MTTaskId, MTTaskPri)>> {
        self.array@.subrange(0, self.n_bheap as int)
    }

    /// All heap-zone keys equal the key at the head (used to state the
    /// round-robin rotation law).
    pub open spec fn heap_keys_uniform(self) -> bool {
        forall|i: int| 0 <= i < self.n_bheap ==> #[trigger] self.key_at(i) == self.key_at(0)
    }

    /// A heap entry's key is never below the head's key: the head has the
    /// highest priority of all ready entries.
    pub proof fn lemma_head_min(self, i: int)
        requires
            self.wf(),
            0 <= i < self.n_bheap,
        ensures
            self.key_at(0) <= self.key_at(i),
        decreases i,
    {
        if i > 0 {
            assert(self.key_at(parent(i)) <= self.key_at(i));
            self.lemma_head_min(parent(i));
        }
    }

    /// The entry at an occupied position is a pair the structure holds.
    pub proof fn lemma_at_has(self, i: int)
        requires
            self.wf_basic(),
            0 <= i < self.total(),
        ensures
            self.has_pair(self.id_at(i), self.key_at(i)),
            i < self.n_bheap ==> self.heap_has(self.id_at(i), self.key_at(i)),
            self.n_bheap <= i ==> self.flist_has(self.id_at(i), self.key_at(i)),
    {
        let pr = self.array@[i]->0;
        assert(self.array@[i] == Some(pr));
        assert(pr == (pr.0, pr.1));
        if i < self.n_bheap {
            assert(zone_has(self.array@, 0, self.n_bheap as int, pr.0, pr.1));
        } else {
            assert(zone_has(self.array@, self.n_bheap as int, self.total(), pr.0, pr.1));
        }
    }

    /// With all stored ids below `n`, distinct, and one id below `n` absent,
    /// the structure holds fewer than `n` entries.
    pub proof fn lemma_capacity(self, n: int, missing: MTTaskId)
        requires
            self.wf_basic(),
            forall|i: int| 0 <= i < self.total() ==> (#[trigger] self.id_at(i)) < n,
            (missing as int) < n,
            !self.contains_id(missing),
        ensures
            self.total() < n,
    {
        broadcast use vstd::seq_lib::seq_to_set_is_finite;
        broadcast use vstd::set::axiom_set_remove_len;

        let ids = Seq::new(self.total() as nat, |i: int| self.id_at(i) as int);
        assert(ids.no_duplicates()) by {
            assert forall|i: int, j: int|
                0 <= i < ids.len() && 0 <= j < ids.len() && i != j implies ids[i] != ids[j] by {
                if i < j {
                    assert(self.id_at(i) != self.id_at(j));
                } else {
                    assert(self.id_at(j) != self.id_at(i));
                }
            }
        }
        ids.unique_seq_to_set();
        let rng = vstd::set_lib::set_int_range(0, n);
        vstd::set_lib::lemma_int_range(0, n);
        let rngm = rng.remove(missing as int);
        assert(rng.contains(missing as int));
        assert(rngm.len() == n - 1);
        assert forall|x: int| ids.to_set().contains(x) implies rngm.contains(x) by {
            assert(ids.contains(x));
            let i = choose|i: int| 0 <= i < ids.len() && ids[i] == x;
            assert(x == self.id_at(i) as int);
            assert(self.id_at(i) < n);
            if x == missing as int {
                let pr = self.array@[i]->0;
                assert(self.array@[i] == Some(pr));
                assert(pr == (pr.0, pr.1));
                assert(pr.0 == missing);
                if i < self.n_bheap {
                    assert(zone_has(self.array@, 0, self.n_bheap as int, pr.0, pr.1));
                    assert(self.heap_has(missing, pr.1));
                    assert(self.in_heap(missing));
                } else {
                    assert(zone_has(self.array@, self.n_bheap as int, self.total(), pr.0, pr.1));
                    assert(self.flist_has(missing, pr.1));
                    assert(self.in_flist(missing));
                }
            }
        }
        vstd::set_lib::lemma_len_subset(ids.to_set(), rngm);
    }

    /// Fresh structure with room for `len` entries and both zones empty.
    pub fn new(len: usize) -> (r: MTBHeapDList)
        ensures
            r.wf(),
            r.n_bheap == 0,
            r.n_flist == 0,
            r.array@.len() == len,
    {
        let mut array: Vec<Option<(MTTaskId, MTTaskPri)>> = Vec::new();
        let mut i: usize = 0;
        while i < len
            invariant
                i <= len,
                array@.len() == i,
                forall|j: int| 0 <= j < i ==> array@[j] is None,
            decreases len - i,
        {
            array.push(None);
            i = i + 1;
        }
        let n: usize = array.len();
        assert(n as int <= usize::MAX);
        MTBHeapDList { array, n_bheap: 0, n_flist: 0 }
    }

    /// Swap the entries at two positions.
    fn replace(&mut self, pos0: usize, pos1: usize)
        requires
            pos0 < old(self).array@.len(),
            pos1 < old(self).array@.len(),
        ensures
            final(self).array@ == old(self).array@.update(
                pos0 as int,
                old(self).array@[pos1 as int],
            ).update(pos1 as int, old(self).array@[pos0 as int]),
            final(self).n_bheap == old(self).n_bheap,
            final(self).n_flist == old(self).n_flist,
    {
        if pos0 != pos1 {
            let tmp0 = self.array[pos0];
            let tmp1 = self.array[pos1];
            self.array[pos0] = tmp1;
            self.array[pos1] = tmp0;
            assert(self.array@ =~= old(self).array@.update(
                pos0 as int,
                old(self).array@[pos1 as int],
            ).update(pos1 as int, old(self).array@[pos0 as int]));
        } else {
            assert(self.array@ =~= old(self).array@.update(
                pos0 as int,
                old(self).array@[pos1 as int],
            ).update(pos1 as int, old(self).array@[pos0 as int]));
        }
    }

    /// A swap of two occupied slots keeps the occupancy invariant.
    proof fn lemma_swap_wf_basic(pre: MTBHeapDList, post: MTBHeapDList, p0: int, p1: int)
        requires
            pre.wf_basic(),
            post.array@ == pre.array@.update(p0, pre.array@[p1]).update(p1, pre.array@[p0]),
            post.total() == pre.total(),
            0 <= p0 < pre.total(),
            0 <= p1 < pre.total(),
        ensures
            post.wf_basic(),
    {
        assert(post.array@.len() == pre.array@.len());
        assert forall|i: int, j: int|
            0 <= i < j < post.total() implies post.id_at(i) != post.id_at(j) by {
            let mi: int = if i == p0 {
                p1
            } else if i == p1 {
                p0
            } else {
                i
            };
            let mj: int = if j == p0 {
                p1
            } else if j == p1 {
                p0
            } else {
                j
            };
            assert(post.array@[i] == pre.array@[mi]);
            assert(post.array@[j] == pre.array@[mj]);
            assert(mi != mj);
            if mi < mj {
                assert(pre.id_at(mi) != pre.id_at(mj));
            } else {
                assert(pre.id_at(mj) != pre.id_at(mi));
            }
        }
    }

    /// Move the free-list entry at `pos` into the heap: swap it with the
    /// free-list head, absorb that slot into the heap zone, and sift up.
    #[verifier::rlimit(100)]
    pub fn flist_to_bheap(&mut self, pos: usize) -> (fp: usize)
        requires
            old(self).wf(),
            old(self).n_bheap <= pos < old(self).total(),
        ensures
            final(self).wf(),
            final(self).n_bheap == old(self).n_bheap + 1,
            final(self).n_flist == old(self).n_flist - 1,
            final(self).array@.len() == old(self).array@.len(),
            forall|id: MTTaskId, key: MTTaskPri|
                final(self).heap_has(id, key) == (old(self).heap_has(id, key) || (id == old(self).id_at(pos as int) && key == old(self).key_at(pos as int))),
            forall|id: MTTaskId, key: MTTaskPri|
                final(self).flist_has(id, key) == (old(self).flist_has(id, key) && !(id == old(self).id_at(pos as int) && key == old(self).key_at(pos as int))),
            forall|i: int|
                old(self).n_bheap < i < old(self).array@.len() && i != pos
                    ==> final(self).array@[i] == old(self).array@[i],
            pos == old(self).n_bheap && (forall|i: int|
                0 <= i <= old(self).n_bheap ==> old(self).key_at(i) == old(self).key_at(
                    pos as int,
                )) ==> final(self).array@ == old(self).array@,
            // where the promoted entry sat down: at `fp` on the ancestor path
            // of the new heap tail, displacing only entries of strictly
            // greater key — it never climbs past an equal-priority entry
            fp <= old(self).n_bheap,
            on_path(fp as int, old(self).n_bheap as int),
            final(self).array@[fp as int] == old(self).array@[pos as int],
            forall|q: int|
                #![trigger on_path(q, old(self).n_bheap as int)]
                0 <= q <= old(self).n_bheap && on_path(q, old(self).n_bheap as int) && q != fp
                    && on_path(fp as int, q) ==> final(self).array@[q] == old(self).array@[parent(
                    q,
                )] && old(self).key_at(parent(q)) > old(self).key_at(pos as int),
            forall|i: int|
                #![trigger old(self).array@[i]]
                0 <= i < old(self).n_bheap && !(on_path(i, old(self).n_bheap as int) && on_path(
                    fp as int,
                    i,
                )) ==> final(self).array@[i] == old(self).array@[i],
    {
        let ghost pre = *self;
        let npos = self.n_bheap;

        // free-list entry at pos <=> free-list head
        self.replace(pos, npos);

        // free-list head <=> heap tail
        self.n_flist = self.n_flist - 1;
        self.n_bheap = self.n_bheap + 1;

        let ghost mid = *self;
        proof {
            Self::lemma_swap_wf_basic(pre, mid, pos as int, npos as int);
            assert forall|i: int|
                1 <= i < mid.n_bheap && i != mid.n_bheap - 1 implies mid.key_at(parent(i))
                <= mid.key_at(i) by {
                assert(mid.array@[i] == pre.array@[i]);
                assert(mid.array@[parent(i)] == pre.array@[parent(i)]);
                assert(pre.key_at(parent(i)) <= pre.key_at(i));
            }
        }

        let fp = self.up_bheap();

        proof {
            // translate the sift's path facts from the intermediate state:
            // below the boundary it agrees with the original array
            assert(mid.array@[npos as int] == pre.array@[pos as int]);
            assert forall|q: int|
                0 <= q <= pre.n_bheap && on_path(q, pre.n_bheap as int) && q != fp as int
                    && on_path(fp as int, q) implies self.array@[q] == pre.array@[parent(q)]
                && pre.key_at(parent(q)) > pre.key_at(pos as int) by {
                assert(self.array@[q] == mid.array@[parent(q)]);
                assert(0 <= parent(q) < pre.n_bheap);
                assert(mid.array@[parent(q)] == pre.array@[parent(q)]);
                assert(mid.key_at(mid.n_bheap - 1) == pre.key_at(pos as int));
            }
            assert forall|i: int|
                #![trigger pre.array@[i]]
                0 <= i < pre.n_bheap && !(on_path(i, pre.n_bheap as int) && on_path(
                    fp as int,
                    i,
                )) implies self.array@[i] == pre.array@[i] by {
                assert(!(on_path(i, mid.n_bheap - 1) && on_path(fp as int, i)));
                assert(self.array@[i] == mid.array@[i]);
                assert(mid.array@[i] == pre.array@[i]);
            }
        }

        proof {
            let nb = pre.n_bheap as int;
            let pr = (pre.id_at(pos as int), pre.key_at(pos as int));

            // positions outside the old heap zone were either swapped within
            // the free list or untouched
            lemma_zone_same(mid.array@, pre.array@, 0, nb);
            lemma_zone_split(mid.array@, 0, nb, nb + 1);
            lemma_zone_swap(pre.array@, mid.array@, nb, pre.total(), pos as int, npos as int);
            lemma_zone_split(mid.array@, nb, nb + 1, pre.total());

            // the sift-up left everything at or beyond the new heap boundary
            // alone
            lemma_zone_same(self.array@, mid.array@, nb + 1, pre.total());

            assert(mid.array@[nb] == pre.array@[pos as int]);
            assert(pre.array@[pos as int] == Some(pr));

            assert forall|id: MTTaskId, key: MTTaskPri|
                self.heap_has(id, key) == (pre.heap_has(id, key) || (id == pr.0 && key
                    == pr.1)) by {
                assert(self.heap_has(id, key) == mid.heap_has(id, key));
                assert(mid.heap_has(id, key) == (zone_has(mid.array@, 0, nb, id, key) || zone_has(
                    mid.array@,
                    nb,
                    nb + 1,
                    id,
                    key,
                )));
                assert(zone_has(mid.array@, 0, nb, id, key) == pre.heap_has(id, key));
                if zone_has(mid.array@, nb, nb + 1, id, key) {
                    let i = choose|i: int| nb <= i < nb + 1 && mid.array@[i] == Some((id, key));
                    assert(i == nb);
                    assert((id, key) == pr);
                }
                if id == pr.0 && key == pr.1 {
                    assert(mid.array@[nb] == Some((id, key)));
                    assert(zone_has(mid.array@, nb, nb + 1, id, key));
                }
            }

            // an entry left in the free list is a former free-list entry
            // other than the promoted pair: ids are unique
            assert forall|id: MTTaskId, key: MTTaskPri|
                #![trigger self.flist_has(id, key)]
                self.flist_has(id, key) implies pre.flist_has(id, key) && !(id == pr.0 && key
                    == pr.1) by {
                assert(zone_has(mid.array@, nb + 1, pre.total(), id, key));
                let i = choose|i: int|
                    nb + 1 <= i < pre.total() && mid.array@[i] == Some((id, key));
                assert(zone_has(mid.array@, nb, pre.total(), id, key));
                assert(pre.flist_has(id, key));
                assert(mid.id_at(i) == id);
                assert(mid.id_at(nb) == pr.0);
                assert(mid.wf_basic());
                assert(mid.id_at(nb) != mid.id_at(i));
                assert(!(id == pr.0 && key == pr.1));
            }
            // and every former free-list entry but the promoted pair stays
            assert forall|id: MTTaskId, key: MTTaskPri|
                #![trigger pre.flist_has(id, key)]
                pre.flist_has(id, key) && !(id == pr.0 && key == pr.1) implies self.flist_has(
                    id,
                    key,
                ) by {
                assert(zone_has(mid.array@, nb, pre.total(), id, key));
                if zone_has(mid.array@, nb, nb + 1, id, key) {
                    let i = choose|i: int| nb <= i < nb + 1 && mid.array@[i] == Some((id, key));
                    assert(i == nb);
                    assert(mid.array@[nb] == Some((id, key)));
                    assert((id, key) == pr);
                }
                assert(zone_has(mid.array@, nb + 1, pre.total(), id, key));
                assert(self.flist_has(id, key));
            }
            assert forall|id: MTTaskId, key: MTTaskPri|
                #![trigger self.flist_has(id, key)]
                self.flist_has(id, key) == (pre.flist_has(id, key) && !(id == pr.0 && key
                    == pr.1)) by {
                if pre.flist_has(id, key) && !(id == pr.0 && key == pr.1) {
                    assert(self.flist_has(id, key));
                }
            }

            // promoting the free-list head among uniformly equal keys moves
            // nothing
            if pos == pre.n_bheap && (forall|i: int|
                0 <= i <= pre.n_bheap ==> pre.key_at(i) == pre.key_at(pos as int)) {
                assert(mid.array@ =~= pre.array@);
                if mid.n_bheap > 1 {
                    assert(mid.key_at(mid.n_bheap - 1) == pre.key_at(pos as int));
                    assert(0 <= parent(mid.n_bheap - 1) < pre.n_bheap);
                    assert(mid.key_at(parent(mid.n_bheap - 1)) == pre.key_at(
                        parent(mid.n_bheap - 1),
                    ));
                    assert(mid.key_at(mid.n_bheap - 1) >= mid.key_at(parent(mid.n_bheap - 1)));
                }
                assert(self.array@ == mid.array@);
            }
        }
        fp
    }

    /// Append a fresh entry at the free-list tail and promote it into the
    /// heap.
    pub fn add_bheap(&mut self, id: MTTaskId, key: MTTaskPri) -> (fp: usize)
        requires
            old(self).wf(),
            old(self).total() < old(self).array@.len(),
            !old(self).contains_id(id),
        ensures
            final(self).wf(),
            final(self).n_bheap == old(self).n_bheap + 1,
            final(self).n_flist == old(self).n_flist,
            final(self).array@.len() == old(self).array@.len(),
            forall|id2: MTTaskId, key2: MTTaskPri|
                final(self).heap_has(id2, key2) == (old(self).heap_has(id2, key2) || (id2 == id
                    && key2 == key)),
            forall|id2: MTTaskId, key2: MTTaskPri|
                final(self).flist_has(id2, key2) == old(self).flist_has(id2, key2),
            forall|i: int|
                old(self).total() < i < old(self).array@.len() ==> final(self).array@[i] == old(self).array@[i],
            // where the new entry sat down: at `fp` on the ancestor path of
            // the new heap tail, displacing only entries of strictly greater
            // key — it enters below every entry of its own priority
            fp <= old(self).n_bheap,
            on_path(fp as int, old(self).n_bheap as int),
            final(self).array@[fp as int] == Some((id, key)),
            forall|q: int|
                #![trigger on_path(q, old(self).n_bheap as int)]
                0 <= q <= old(self).n_bheap && on_path(q, old(self).n_bheap as int) && q != fp
                    && on_path(fp as int, q) ==> final(self).array@[q] == old(self).array@[parent(
                    q,
                )] && old(self).key_at(parent(q)) > key,
            forall|i: int|
                #![trigger old(self).array@[i]]
                0 <= i < old(self).n_bheap && !(on_path(i, old(self).n_bheap as int) && on_path(
                    fp as int,
                    i,
                )) ==> final(self).array@[i] == old(self).array@[i],
    {
        let ghost pre = *self;

        // add at the free-list tail
        let pos = self.n_bheap + self.n_flist;
        self.array[pos] = Some((id, key));
        self.n_flist = self.n_flist + 1;

        let ghost mid = *self;
        proof {
            assert forall|i: int, j: int|
                0 <= i < j < mid.total() implies mid.id_at(i) != mid.id_at(j) by {
                if j == pos as int {
                    assert(mid.array@[j] == Some((id, key)));
                    assert(mid.id_at(j) == id);
                    assert(mid.array@[i] == pre.array@[i]);
                    let pr = pre.array@[i]->0;
                    assert(pre.array@[i] is Some);
                    assert(pre.array@[i] == Some(pr));
                    assert(pr == (pr.0, pr.1));
                    if i < pre.n_bheap {
                        assert(zone_has(pre.array@, 0, pre.n_bheap as int, pr.0, pr.1));
                        assert(pre.heap_has(pr.0, pr.1));
                        assert(pre.in_heap(pr.0));
                    } else {
                        assert(zone_has(pre.array@, pre.n_bheap as int, pre.total(), pr.0, pr.1));
                        assert(pre.flist_has(pr.0, pr.1));
                        assert(pre.in_flist(pr.0));
                    }
                    assert(pr.0 != id);
                    assert(mid.id_at(i) == pr.0);
                } else {
                    assert(mid.array@[i] == pre.array@[i]);
                    assert(mid.array@[j] == pre.array@[j]);
                    assert(pre.id_at(i) != pre.id_at(j));
                }
            }
            assert forall|i: int|
                1 <= i < mid.n_bheap implies mid.key_at(parent(i)) <= mid.key_at(i) by {
                assert(mid.array@[i] == pre.array@[i]);
                assert(mid.array@[parent(i)] == pre.array@[parent(i)]);
                assert(pre.key_at(parent(i)) <= pre.key_at(i));
            }
            assert(mid.wf());
            lemma_zone_same(pre.array@, mid.array@, pre.n_bheap as int, pre.total());
        }

        // free-list tail => heap
        let fp = self.flist_to_bheap(pos);

        proof {
            // the promotion's path facts carry back to the original array:
            // the appended slot was beyond everything the path touches
            assert(mid.array@[pos as int] == Some((id, key)));
            assert(mid.key_at(pos as int) == key);
            assert forall|q: int|
                0 <= q <= pre.n_bheap && on_path(q, pre.n_bheap as int) && q != fp as int
                    && on_path(fp as int, q) implies self.array@[q] == pre.array@[parent(q)]
                && pre.key_at(parent(q)) > key by {
                assert(self.array@[q] == mid.array@[parent(q)]);
                assert(0 <= parent(q) < pre.n_bheap);
                assert(mid.array@[parent(q)] == pre.array@[parent(q)]);
            }
            assert forall|i: int|
                #![trigger pre.array@[i]]
                0 <= i < pre.n_bheap && !(on_path(i, pre.n_bheap as int) && on_path(
                    fp as int,
                    i,
                )) implies self.array@[i] == pre.array@[i] by {
                assert(!(on_path(i, mid.n_bheap as int) && on_path(fp as int, i)));
                assert(self.array@[i] == mid.array@[i]);
                assert(mid.array@[i] == pre.array@[i]);
            }
            lemma_zone_same(pre.array@, mid.array@, 0, pre.n_bheap as int);
            lemma_zone_split(mid.array@, mid.n_bheap as int, pre.total(), mid.total());
            assert forall|id2: MTTaskId, key2: MTTaskPri|
                self.flist_has(id2, key2) == pre.flist_has(id2, key2) by {
                assert(self.flist_has(id2, key2) == (mid.flist_has(id2, key2) && !(id2 == id
                    && key2 == key)));
                if zone_has(mid.array@, pre.total(), mid.total(), id2, key2) {
                    let i = choose|i: int|
                        pre.total() <= i < mid.total() && mid.array@[i] == Some((id2, key2));
                    assert(i == pos as int);
                    assert((id2, key2) == (id, key));
                }
                if pre.flist_has(id2, key2) {
                    assert(zone_has(mid.array@, mid.n_bheap as int, pre.total(), id2, key2));
                    if id2 == id {
                        assert(pre.in_flist(id));
                    }
                }
                if mid.flist_has(id2, key2) && !(id2 == id && key2 == key) {
                    assert(zone_has(mid.array@, mid.n_bheap as int, pre.total(), id2, key2)
                        || zone_has(mid.array@, pre.total(), mid.total(), id2, key2));
                }
            }
        }
        fp
    }

    /// One step of the sift-up's path bookkeeping: after swapping the riding
    /// entry at `posi` with its parent `pari`, the entry rides at `pari`, the
    /// displaced parent joins the strictly-greater entries shifted one step
    /// down the path, and everything off the path segment stays put.
    proof fn lemma_sift_up_step(
        k0: MTBHeapDList,
        pre: MTBHeapDList,
        post: MTBHeapDList,
        ti: int,
        posi: int,
        pari: int,
    )
        requires
            pari == parent(posi),
            0 < posi < k0.n_bheap,
            ti == k0.n_bheap - 1,
            k0.n_bheap <= k0.array@.len(),
            pre.array@.len() == k0.array@.len(),
            post.array@ == pre.array@.update(posi, pre.array@[pari]).update(
                pari,
                pre.array@[posi],
            ),
            on_path(posi, ti),
            pre.array@[posi] == k0.array@[ti],
            forall|q: int|
                #![trigger on_path(q, ti)]
                0 <= q < k0.n_bheap && on_path(q, ti) && q != posi && on_path(posi, q)
                    ==> pre.array@[q] == k0.array@[parent(q)] && k0.key_at(parent(q)) > k0.key_at(
                    ti,
                ),
            forall|i: int|
                #![trigger k0.array@[i]]
                0 <= i < k0.array@.len() && !(on_path(i, ti) && on_path(posi, i))
                    ==> pre.array@[i] == k0.array@[i],
            pre.key_at(posi) < pre.key_at(pari),
        ensures
            on_path(pari, ti),
            post.array@[pari] == k0.array@[ti],
            forall|q: int|
                #![trigger on_path(q, ti)]
                0 <= q < k0.n_bheap && on_path(q, ti) && q != pari && on_path(pari, q)
                    ==> post.array@[q] == k0.array@[parent(q)] && k0.key_at(parent(q)) > k0.key_at(
                    ti,
                ),
            forall|i: int|
                #![trigger k0.array@[i]]
                0 <= i < k0.array@.len() && !(on_path(i, ti) && on_path(pari, i))
                    ==> post.array@[i] == k0.array@[i],
    {
        lemma_on_path_parent(posi, ti);
        lemma_on_path_bounds(posi, ti);
        assert(on_path(pari, pari));
        assert(pari < posi);
        assert(on_path(pari, posi));

        // the parent slot was off the old segment, so it still held its
        // original entry, whose key the swap condition bounds
        if on_path(posi, pari) {
            lemma_on_path_bounds(posi, pari);
        }
        assert(pre.array@[pari] == k0.array@[pari]);
        assert(post.array@[pari] == k0.array@[ti]);
        assert(k0.key_at(pari) > k0.key_at(ti));

        assert forall|q: int|
            0 <= q < k0.n_bheap && on_path(q, ti) && q != pari && on_path(pari, q)
                implies post.array@[q] == k0.array@[parent(q)] && k0.key_at(parent(q)) > k0.key_at(
            ti,
        ) by {
            lemma_on_path_bounds(q, ti);
            if q == posi {
                assert(post.array@[posi] == k0.array@[pari]);
            } else {
                lemma_on_path_total(posi, q, ti);
                if on_path(q, posi) {
                    assert(on_path(q, pari));
                    lemma_on_path_bounds(q, pari);
                    lemma_on_path_bounds(pari, q);
                }
                assert(on_path(posi, q));
                assert(post.array@[q] == pre.array@[q]);
            }
        }
        assert forall|i: int|
            0 <= i < k0.array@.len() && !(on_path(i, ti) && on_path(pari, i))
                implies post.array@[i] == k0.array@[i] by {
            if on_path(i, ti) && on_path(posi, i) {
                lemma_on_path_parent(posi, i);
            }
            if i == posi {
                assert(on_path(pari, posi));
            }
            if i == pari {
                assert(on_path(pari, pari));
            }
            assert(post.array@[i] == pre.array@[i]);
            assert(pre.array@[i] == k0.array@[i]);
        }
    }

    /// Sift the heap's tail entry up to its place. Ties do not swap: the
    /// contract pins the landing position and shows every displaced entry
    /// carried a strictly greater key, so an entry never climbs above one of
    /// equal key and insertion order within a priority class is preserved.
    #[verifier::rlimit(100)]
    fn up_bheap(&mut self) -> (fp: usize)
        requires
            old(self).wf_basic(),
            old(self).n_bheap >= 1,
            old(self).heap_ordered_except_up(old(self).n_bheap - 1),
        ensures
            final(self).wf(),
            final(self).n_bheap == old(self).n_bheap,
            final(self).n_flist == old(self).n_flist,
            final(self).array@.len() == old(self).array@.len(),
            forall|i: int|
                old(self).n_bheap <= i < old(self).array@.len()
                    ==> final(self).array@[i] == old(self).array@[i],
            forall|id: MTTaskId, key: MTTaskPri|
                final(self).heap_has(id, key) == old(self).heap_has(id, key),
            (old(self).n_bheap == 1 || old(self).key_at(old(self).n_bheap - 1)
                >= old(self).key_at(parent(old(self).n_bheap - 1))) ==> final(self).array@
                == old(self).array@,
            // the exact movement: the sifted tail entry sat down at `fp`, an
            // ancestor-or-self of the tail slot
            fp < old(self).n_bheap,
            on_path(fp as int, old(self).n_bheap - 1),
            final(self).array@[fp as int] == old(self).array@[old(self).n_bheap - 1],
            // every entry it displaced moved one step down the path and had a
            // strictly greater key: entries of equal key are never passed, so
            // insertion order within a priority class is preserved
            forall|q: int|
                #![trigger on_path(q, old(self).n_bheap - 1)]
                0 <= q < old(self).n_bheap && on_path(q, old(self).n_bheap - 1) && q != fp
                    && on_path(fp as int, q) ==> final(self).array@[q] == old(self).array@[parent(
                    q,
                )] && old(self).key_at(parent(q)) > old(self).key_at(old(self).n_bheap - 1),
            // everything off that path segment is untouched
            forall|i: int|
                #![trigger old(self).array@[i]]
                0 <= i < old(self).array@.len() && !(on_path(i, old(self).n_bheap - 1) && on_path(
                    fp as int,
                    i,
                )) ==> final(self).array@[i] == old(self).array@[i],
    {
        let ghost ti = old(self).n_bheap - 1;
        let mut pos: usize = self.n_bheap - 1;

        proof {
            assert(on_path(pos as int, ti));
            assert forall|q: int|
                #![trigger on_path(q, ti)]
                0 <= q < old(self).n_bheap && on_path(q, ti) && q != pos as int && on_path(
                    pos as int,
                    q,
                ) implies self.array@[q] == old(self).array@[parent(q)] && old(self).key_at(
                parent(q),
            ) > old(self).key_at(ti) by {
                lemma_on_path_bounds(q, ti);
                lemma_on_path_bounds(ti, q);
            }
        }

        while pos > 0
            invariant
                self.wf_basic(),
                self.n_bheap == old(self).n_bheap,
                self.n_flist == old(self).n_flist,
                self.array@.len() == old(self).array@.len(),
                pos < self.n_bheap,
                self.heap_ordered_except_up(pos as int),
                pos > 0 ==> forall|c: int|
                    1 <= c < self.n_bheap && parent(c) == pos
                        ==> self.key_at(parent(pos as int)) <= #[trigger] self.key_at(c),
                forall|i: int|
                    old(self).n_bheap <= i < old(self).array@.len()
                        ==> self.array@[i] == old(self).array@[i],
                forall|id: MTTaskId, key: MTTaskPri|
                    self.heap_has(id, key) == old(self).heap_has(id, key),
                (old(self).n_bheap == 1 || old(self).key_at(old(self).n_bheap - 1) >= old(self).key_at(parent(old(self).n_bheap - 1))) ==> (pos == old(self).n_bheap - 1
                    && self.array@ == old(self).array@),
                ti == old(self).n_bheap - 1,
                on_path(pos as int, ti),
                self.array@[pos as int] == old(self).array@[ti],
                forall|q: int|
                    #![trigger on_path(q, ti)]
                    0 <= q < old(self).n_bheap && on_path(q, ti) && q != pos as int && on_path(
                        pos as int,
                        q,
                    ) ==> self.array@[q] == old(self).array@[parent(q)] && old(self).key_at(
                        parent(q),
                    ) > old(self).key_at(ti),
                forall|i: int|
                    #![trigger old(self).array@[i]]
                    0 <= i < old(self).array@.len() && !(on_path(i, ti) && on_path(
                        pos as int,
                        i,
                    )) ==> self.array@[i] == old(self).array@[i],
            ensures
                self.wf(),
                self.n_bheap == old(self).n_bheap,
                self.n_flist == old(self).n_flist,
                self.array@.len() == old(self).array@.len(),
                forall|i: int|
                    old(self).n_bheap <= i < old(self).array@.len()
                        ==> self.array@[i] == old(self).array@[i],
                forall|id: MTTaskId, key: MTTaskPri|
                    self.heap_has(id, key) == old(self).heap_has(id, key),
                (old(self).n_bheap == 1 || old(self).key_at(old(self).n_bheap - 1) >= old(self).key_at(parent(old(self).n_bheap - 1))) ==> self.array@ == old(self).array@,
                pos < old(self).n_bheap,
                on_path(pos as int, ti),
                self.array@[pos as int] == old(self).array@[ti],
                forall|q: int|
                    #![trigger on_path(q, ti)]
                    0 <= q < old(self).n_bheap && on_path(q, ti) && q != pos as int && on_path(
                        pos as int,
                        q,
                    ) ==> self.array@[q] == old(self).array@[parent(q)] && old(self).key_at(
                        parent(q),
                    ) > old(self).key_at(ti),
                forall|i: int|
                    #![trigger old(self).array@[i]]
                    0 <= i < old(self).array@.len() && !(on_path(i, ti) && on_path(
                        pos as int,
                        i,
                    )) ==> self.array@[i] == old(self).array@[i],
            decreases pos,
        {
            let par: usize = (pos - 1) / 2;

            let key_pos = self.array[pos].unwrap().1;
            let key_parent = self.array[par].unwrap().1;

            if key_pos >= key_parent {
                proof {
                    assert forall|i: int|
                        1 <= i < self.n_bheap implies self.key_at(parent(i)) <= self.key_at(
                        i,
                    ) by {
                        if i != pos as int {
                            assert(self.key_at(parent(i)) <= self.key_at(i));
                        }
                    }
                }
                break;
            }

            let ghost pre = *self;
            let ghost posi = pos as int;
            let ghost pari = par as int;
            self.replace(pos, par);
            proof {
                Self::lemma_swap_wf_basic(pre, *self, posi, pari);
                assert(self.array@[pari] == pre.array@[posi]);
                assert(self.array@[posi] == pre.array@[pari]);

                // ordering holds everywhere but at the edge out of `par`
                assert forall|i: int|
                    1 <= i < self.n_bheap && i != pari implies self.key_at(parent(i))
                    <= self.key_at(i) by {
                    if i == posi {
                        assert(parent(i) == pari);
                    } else if parent(i) == posi {
                        assert(pre.key_at(parent(posi)) <= pre.key_at(i));
                        assert(self.array@[i] == pre.array@[i]);
                    } else if parent(i) == pari {
                        assert(pre.key_at(parent(i)) <= pre.key_at(i));
                        assert(self.array@[i] == pre.array@[i]);
                    } else {
                        assert(self.array@[i] == pre.array@[i]);
                        assert(self.array@[parent(i)] == pre.array@[parent(i)]);
                        assert(pre.key_at(parent(i)) <= pre.key_at(i));
                    }
                }

                // the next bridge: children of `par` sit at or above the key
                // of `par`'s parent
                if pari > 0 {
                    assert(0 <= parent(pari) < pari);
                    assert(self.array@[parent(pari)] == pre.array@[parent(pari)]);
                    assert forall|c: int|
                        1 <= c < self.n_bheap && parent(c) == pari implies self.key_at(
                        parent(pari),
                    ) <= self.key_at(c) by {
                        assert(pre.key_at(parent(pari)) <= pre.key_at(pari));
                        if c == posi {
                            assert(self.key_at(c) == pre.key_at(pari));
                        } else {
                            assert(self.array@[c] == pre.array@[c]);
                            assert(pre.key_at(parent(c)) <= pre.key_at(c));
                        }
                    }
                }

                lemma_zone_swap(pre.array@, self.array@, 0, pre.n_bheap as int, posi, pari);

                // path bookkeeping: the moved entry now rides at `par`
                Self::lemma_sift_up_step(*old(self), pre, *self, ti, posi, pari);
            }
            pos = par;
        }
        pos
    }

    /// Move the heap's head entry out to the head of the free list: swap it
    /// with the heap tail, give that slot to the free list, and sift down.
    #[verifier::rlimit(50)]
    pub fn bheap_h_to_flist_h(&mut self)
        requires
            old(self).wf(),
            old(self).n_bheap > 0,
        ensures
            final(self).wf(),
            final(self).n_bheap == old(self).n_bheap - 1,
            final(self).n_flist == old(self).n_flist + 1,
            final(self).array@.len() == old(self).array@.len(),
            final(self).array@[old(self).n_bheap - 1] == old(self).array@[0],
            forall|id: MTTaskId, key: MTTaskPri|
                final(self).heap_has(id, key) == (old(self).heap_has(id, key) && !(id == old(self).id_at(0) && key == old(self).key_at(0))),
            forall|id: MTTaskId, key: MTTaskPri|
                final(self).flist_has(id, key) == (old(self).flist_has(id, key) || (id == old(self).id_at(0) && key == old(self).key_at(0))),
            forall|i: int|
                old(self).n_bheap <= i < old(self).array@.len() ==> final(self).array@[i] == old(self).array@[i],
            old(self).heap_keys_uniform() && old(self).n_bheap <= 3 ==> (forall|i: int|
                0 <= i < old(self).n_bheap - 1 ==> final(self).array@[i] == old(self).array@[i
                    + 1]),
            // with every key equal the next slot's entry takes the head,
            // whatever the size
            old(self).heap_keys_uniform() && old(self).n_bheap >= 2 ==> final(self).array@[0]
                == old(self).array@[1],
    {
        let ghost pre = *self;
        let ghost nb = old(self).n_bheap as int;

        // heap head <=> heap tail
        let pos1 = self.n_bheap - 1;
        self.replace(0, pos1);

        // heap tail <=> free-list head
        self.n_flist = self.n_flist + 1;
        self.n_bheap = self.n_bheap - 1;

        let ghost mid = *self;
        proof {
            Self::lemma_swap_wf_basic(pre, mid, 0, nb - 1);
            assert forall|i: int|
                1 <= i < mid.n_bheap && parent(i) != 0 implies mid.key_at(parent(i)) <= mid.key_at(
                    i,
                ) by {
                assert(mid.array@[i] == pre.array@[i]);
                assert(mid.array@[parent(i)] == pre.array@[parent(i)]);
                assert(pre.key_at(parent(i)) <= pre.key_at(i));
            }
        }

        self.down_bheap();

        proof {
            let hd = (pre.id_at(0), pre.key_at(0));
            assert(pre.array@[0] == Some(hd));
            assert(mid.array@[nb - 1] == pre.array@[0]);

            lemma_zone_swap(pre.array@, mid.array@, 0, nb, 0, nb - 1);
            lemma_zone_split(mid.array@, 0, nb - 1, nb);
            lemma_zone_same(mid.array@, pre.array@, nb, pre.total());
            lemma_zone_split(mid.array@, nb - 1, nb, pre.total());
            lemma_zone_same(self.array@, mid.array@, nb - 1, pre.total());

            assert forall|id: MTTaskId, key: MTTaskPri|
                self.heap_has(id, key) == (pre.heap_has(id, key) && !(id == hd.0 && key
                    == hd.1)) by {
                assert(self.heap_has(id, key) == zone_has(mid.array@, 0, nb - 1, id, key));
                assert(zone_has(mid.array@, 0, nb, id, key) == pre.heap_has(id, key));
                if zone_has(mid.array@, 0, nb - 1, id, key) {
                    let i = choose|i: int| 0 <= i < nb - 1 && mid.array@[i] == Some((id, key));
                    if id == hd.0 {
                        assert(mid.id_at(i) == id);
                        assert(mid.id_at(nb - 1) == hd.0);
                        assert(mid.wf_basic());
                        assert(mid.id_at(i) != mid.id_at(nb - 1));
                    }
                }
                if pre.heap_has(id, key) && !(id == hd.0 && key == hd.1) {
                    if zone_has(mid.array@, nb - 1, nb, id, key) {
                        let i = choose|i: int|
                            nb - 1 <= i < nb && mid.array@[i] == Some((id, key));
                        assert(i == nb - 1);
                        assert((id, key) == hd);
                    }
                    assert(zone_has(mid.array@, 0, nb - 1, id, key));
                }
            }

            assert forall|id: MTTaskId, key: MTTaskPri|
                self.flist_has(id, key) == (pre.flist_has(id, key) || (id == hd.0 && key
                    == hd.1)) by {
                assert(self.flist_has(id, key) == zone_has(
                    mid.array@,
                    nb - 1,
                    pre.total(),
                    id,
                    key,
                ));
                assert(zone_has(mid.array@, nb, pre.total(), id, key) == pre.flist_has(id, key));
                if id == hd.0 && key == hd.1 {
                    assert(mid.array@[nb - 1] == Some((id, key)));
                    assert(zone_has(mid.array@, nb - 1, nb, id, key));
                }
                if zone_has(mid.array@, nb - 1, nb, id, key) {
                    let i = choose|i: int| nb - 1 <= i < nb && mid.array@[i] == Some((id, key));
                    assert(i == nb - 1);
                    assert((id, key) == hd);
                }
            }

            // uniform keys: popping the head rotates the heap zone left
            if pre.heap_keys_uniform() && nb <= 3 {
                if nb == 1 {
                    assert(mid.array@ =~= pre.array@);
                    assert(self.array@ == mid.array@);
                } else if nb == 2 {
                    assert(mid.array@ == pre.array@.update(0, pre.array@[1]).update(
                        1,
                        pre.array@[0],
                    ));
                    assert(self.array@ == mid.array@);
                    assert(self.array@[0] == pre.array@[1]);
                } else {
                    assert(mid.array@ == pre.array@.update(0, pre.array@[2]).update(
                        2,
                        pre.array@[0],
                    ));
                    assert(mid.key_at(0) == pre.key_at(2));
                    assert(mid.key_at(1) == pre.key_at(1));
                    assert(mid.key_at(0) == mid.key_at(1));
                    assert(self.array@ == mid.array@.update(0, mid.array@[1]).update(
                        1,
                        mid.array@[0],
                    ));
                    assert(self.array@[0] == pre.array@[1]);
                    assert(self.array@[1] == pre.array@[2]);
                }
            }

            // with uniform keys, the first descent step put the entry from
            // slot one at the head, whatever the size
            if pre.heap_keys_uniform() && nb >= 2 {
                if nb == 2 {
                    assert(mid.array@ == pre.array@.update(0, pre.array@[1]).update(
                        1,
                        pre.array@[0],
                    ));
                    assert(self.array@ == mid.array@);
                    assert(self.array@[0] == pre.array@[1]);
                } else {
                    assert(mid.n_bheap >= 2);
                    assert forall|i: int|
                        0 <= i < mid.n_bheap implies #[trigger] mid.key_at(i) == mid.key_at(
                        0,
                    ) by {
                        assert(mid.array@[0] == pre.array@[nb - 1]);
                        if i > 0 {
                            assert(mid.array@[i] == pre.array@[i]);
                            assert(pre.key_at(i) == pre.key_at(0));
                        }
                        assert(pre.key_at(nb - 1) == pre.key_at(0));
                    }
                    assert(mid.heap_keys_uniform());
                    assert(self.array@[0] == mid.array@[1]);
                    assert(mid.array@[1] == pre.array@[1]);
                }
            }
        }
    }

    /// Rotate the heap head: pop it to the free-list head and promote it
    /// straight back. With uniformly equal keys the head passes to the next
    /// slot's entry and the outgoing head parks at the tail slot, whatever
    /// the size — the per-call round-robin handover; up to three entries the
    /// whole zone is exactly rotated, so the class cycles fairly.
    #[verifier::rlimit(100)]
    pub fn round_bheap_h(&mut self)
        requires
            old(self).wf(),
            old(self).n_bheap > 0,
        ensures
            final(self).wf(),
            final(self).n_bheap == old(self).n_bheap,
            final(self).n_flist == old(self).n_flist,
            final(self).array@.len() == old(self).array@.len(),
            forall|id: MTTaskId, key: MTTaskPri|
                final(self).heap_has(id, key) == old(self).heap_has(id, key),
            forall|id: MTTaskId, key: MTTaskPri|
                final(self).flist_has(id, key) == old(self).flist_has(id, key),
            forall|i: int|
                old(self).n_bheap <= i < old(self).array@.len() ==> final(self).array@[i] == old(self).array@[i],
            old(self).heap_keys_uniform() && old(self).n_bheap <= 3 ==> final(self).heap_seq()
                == rotl1(old(self).heap_seq()),
            // with every key equal, one rotation hands the head to the next
            // slot's entry and parks the outgoing head at the tail slot,
            // whatever the size
            old(self).heap_keys_uniform() && old(self).n_bheap >= 2 ==> final(self).array@[0]
                == old(self).array@[1] && final(self).array@[old(self).n_bheap - 1] == old(
                self,
            ).array@[0],
    {
        let ghost pre = *self;

        self.bheap_h_to_flist_h();

        let ghost mid = *self;
        let npos = self.n_bheap;
        self.flist_to_bheap(npos);

        proof {
            let hd = (pre.id_at(0), pre.key_at(0));
            assert(mid.array@[npos as int] == pre.array@[0]);
            assert(mid.id_at(npos as int) == hd.0 && mid.key_at(npos as int) == hd.1);

            assert forall|id: MTTaskId, key: MTTaskPri|
                self.heap_has(id, key) == pre.heap_has(id, key) by {
                assert(pre.heap_has(hd.0, hd.1));
            }

            assert forall|i: int|
                pre.n_bheap <= i < pre.array@.len() implies self.array@[i] == pre.array@[i] by {
                if i < pre.total() {
                    assert(mid.array@[i] == pre.array@[i]);
                    assert(self.array@[i] == mid.array@[i]);
                } else {
                    assert(mid.array@[i] == pre.array@[i]);
                    assert(self.array@[i] == mid.array@[i]);
                }
            }

            if pre.heap_keys_uniform() && pre.n_bheap <= 3 {
                assert forall|i: int|
                    0 <= i <= mid.n_bheap implies mid.key_at(i) == mid.key_at(npos as int) by {
                    if i < mid.n_bheap {
                        assert(mid.array@[i] == pre.array@[i + 1]);
                        assert(mid.key_at(i) == pre.key_at(i + 1));
                    }
                }
                assert(self.array@ == mid.array@);
                assert(self.array@[pre.n_bheap - 1] == pre.array@[0]);
                assert(self.heap_seq() =~= rotl1(pre.heap_seq()));
            }

            // in general, uniform keys make the promotion a no-move, so the
            // pop's head handover survives it
            if pre.heap_keys_uniform() && pre.n_bheap >= 2 {
                assert forall|i: int|
                    0 <= i <= mid.n_bheap implies mid.key_at(i) == mid.key_at(npos as int) by {
                    assert(mid.array@[npos as int] == pre.array@[0]);
                    assert(mid.key_at(npos as int) == pre.key_at(0));
                    if i < mid.n_bheap {
                        mid.lemma_at_has(i);
                        let p = mid.array@[i]->0;
                        assert(p == (p.0, p.1));
                        assert(mid.heap_has(p.0, p.1));
                        assert(pre.heap_has(p.0, p.1));
                        let j = choose|j: int|
                            0 <= j < pre.n_bheap && pre.array@[j] == Some((p.0, p.1));
                        assert(pre.key_at(j) == p.1);
                        assert(pre.key_at(j) == pre.key_at(0));
                        assert(mid.key_at(i) == p.1);
                    }
                }
                assert(self.array@ == mid.array@);
                assert(self.array@[0] == mid.array@[0]);
                assert(mid.array@[0] == pre.array@[1]);
                assert(self.array@[pre.n_bheap - 1] == pre.array@[0]);
            }
        }
    }

    /// Remove the heap's head entry altogether: pop it to the free-list head,
    /// swap it to the free-list tail and clear that slot.
    #[verifier::rlimit(50)]
    pub fn remove_bheap_h(&mut self)
        requires
            old(self).wf(),
            old(self).n_bheap > 0,
        ensures
            final(self).wf(),
            final(self).n_bheap == old(self).n_bheap - 1,
            final(self).n_flist == old(self).n_flist,
            final(self).array@.len() == old(self).array@.len(),
            forall|id: MTTaskId, key: MTTaskPri|
                final(self).heap_has(id, key) == (old(self).heap_has(id, key) && !(id == old(self).id_at(0) && key == old(self).key_at(0))),
            forall|id: MTTaskId, key: MTTaskPri|
                final(self).flist_has(id, key) == old(self).flist_has(id, key),
            forall|i: int|
                old(self).total() <= i < old(self).array@.len() ==> final(self).array@[i] == old(self).array@[i],
    {
        let ghost pre = *self;

        self.bheap_h_to_flist_h();

        let ghost mid = *self;

        // free-list head <=> free-list tail
        let npos = self.n_bheap;
        let pos1 = self.n_bheap + self.n_flist - 1;
        self.replace(npos, pos1);

        let ghost mid2 = *self;

        // remove the free-list tail
        self.array[pos1] = None;
        self.n_flist = self.n_flist - 1;

        proof {
            let hd = (pre.id_at(0), pre.key_at(0));
            let nb = npos as int;
            let tl = pos1 as int;

            Self::lemma_swap_wf_basic(mid, mid2, nb, tl);
            assert(mid2.array@[tl] == mid.array@[nb]);
            assert(mid.array@[nb] == pre.array@[0]);

            // occupancy after clearing the tail slot
            assert forall|i: int| 0 <= i < self.total() implies self.array@[i] is Some by {
                assert(self.array@[i] == mid2.array@[i]);
            }
            assert forall|i: int, j: int|
                0 <= i < j < self.total() implies self.id_at(i) != self.id_at(j) by {
                assert(self.array@[i] == mid2.array@[i]);
                assert(self.array@[j] == mid2.array@[j]);
                assert(mid2.id_at(i) != mid2.id_at(j));
            }
            assert forall|i: int|
                1 <= i < self.n_bheap implies self.key_at(parent(i)) <= self.key_at(i) by {
                assert(self.array@[i] == mid.array@[i]);
                assert(self.array@[parent(i)] == mid.array@[parent(i)]);
                assert(mid.key_at(parent(i)) <= mid.key_at(i));
            }
            assert(self.wf());

            // the heap zone was not touched after the pop
            assert forall|i: int| 0 <= i < nb implies self.array@[i] == mid.array@[i] by {
                assert(mid2.array@[i] == mid.array@[i]);
            }
            lemma_zone_same(self.array@, mid.array@, 0, nb);
            assert forall|id: MTTaskId, key: MTTaskPri|
                self.heap_has(id, key) == (pre.heap_has(id, key) && !(id == hd.0 && key
                    == hd.1)) by {
                assert(self.heap_has(id, key) == zone_has(self.array@, 0, nb, id, key));
                assert(zone_has(self.array@, 0, nb, id, key) == zone_has(
                    mid.array@,
                    0,
                    nb,
                    id,
                    key,
                ));
                assert(zone_has(mid.array@, 0, nb, id, key) == mid.heap_has(id, key));
            }

            // the remaining free list holds what it held before the pop: ids
            // are unique, so the popped head was not in it
            assert forall|id: MTTaskId, key: MTTaskPri|
                self.flist_has(id, key) == pre.flist_has(id, key) by {
                assert(self.flist_has(id, key) == zone_has(self.array@, nb, tl, id, key));
                lemma_zone_same(self.array@, mid2.array@, nb, tl);
                lemma_zone_swap(mid.array@, mid2.array@, nb, tl + 1, nb, tl);
                lemma_zone_split(mid2.array@, nb, tl, tl + 1);
                assert(zone_has(mid.array@, nb, tl + 1, id, key) == mid.flist_has(id, key));
                if zone_has(mid2.array@, tl, tl + 1, id, key) {
                    let i = choose|i: int| tl <= i < tl + 1 && mid2.array@[i] == Some((id, key));
                    assert(i == tl);
                    assert((id, key) == hd);
                }
                if pre.flist_has(id, key) {
                    assert(mid.flist_has(id, key));
                    if id == hd.0 && key == hd.1 {
                        assert(pre.heap_has(hd.0, hd.1));
                        assert(pre.in_heap(id) && pre.in_flist(id));
                        let i = choose|i: int|
                            0 <= i < pre.n_bheap && pre.array@[i] == Some((id, key));
                        let j = choose|j: int|
                            pre.n_bheap <= j < pre.total() && pre.array@[j] == Some((id, key));
                        assert(pre.id_at(i) == pre.id_at(j));
                    }
                    assert(zone_has(mid2.array@, nb, tl, id, key));
                }
                if zone_has(mid2.array@, nb, tl, id, key) {
                    assert(zone_has(mid2.array@, nb, tl + 1, id, key));
                    assert(mid.flist_has(id, key));
                    if id == hd.0 && key == hd.1 {
                        let i = choose|i: int| nb <= i < tl && mid2.array@[i] == Some((id, key));
                        assert(mid2.id_at(i) == hd.0);
                        assert(mid2.id_at(tl) == hd.0);
                        assert(mid2.id_at(i) != mid2.id_at(tl));
                    }
                    assert(mid.flist_has(id, key) && !(id == hd.0 && key == hd.1));
                    assert(pre.flist_has(id, key));
                }
            }
        }
    }

    /// Walk the free list once and promote into the heap every entry whose
    /// task id is flagged in `promote`. Each entry is examined exactly once,
    /// whatever reshuffling the promotions cause.
    #[verifier::rlimit(50)]
    pub fn flist_scan(&mut self, promote: &Vec<bool>)
        requires
            old(self).wf(),
            forall|id: MTTaskId, key: MTTaskPri|
                old(self).flist_has(id, key) ==> id < promote@.len(),
        ensures
            final(self).wf(),
            final(self).n_bheap + final(self).n_flist == old(self).total(),
            final(self).n_bheap >= old(self).n_bheap,
            final(self).array@.len() == old(self).array@.len(),
            forall|id: MTTaskId, key: MTTaskPri|
                final(self).heap_has(id, key) == (old(self).heap_has(id, key) || (old(self).flist_has(id, key) && promote@[id as int])),
            forall|id: MTTaskId, key: MTTaskPri|
                final(self).flist_has(id, key) == (old(self).flist_has(id, key)
                    && !promote@[id as int]),
            forall|i: int|
                old(self).total() <= i < old(self).array@.len() ==> final(self).array@[i] == old(self).array@[i],
    {
        let ghost pre = *self;
        let ghost nb0 = old(self).n_bheap as int;

        let pos_b = self.n_bheap;
        let pos_e = pos_b + self.n_flist;

        let mut pos = pos_b;
        while pos < pos_e
            invariant
                self.wf(),
                self.total() == pre.total(),
                pos_e == pre.total(),
                nb0 == pre.n_bheap as int,
                pre.wf(),
                self.array@.len() == pre.array@.len(),
                nb0 <= self.n_bheap <= pos <= pos_e,
                forall|i: int| pos <= i < pre.array@.len() ==> self.array@[i] == pre.array@[i],
                forall|id: MTTaskId, key: MTTaskPri|
                    #![trigger self.heap_has(id, key)]
                    self.heap_has(id, key) == (pre.heap_has(id, key) || (zone_has(
                        pre.array@,
                        nb0,
                        pos as int,
                        id,
                        key,
                    ) && promote@[id as int])),
                forall|id: MTTaskId, key: MTTaskPri|
                    #![trigger self.flist_has(id, key)]
                    self.flist_has(id, key) == ((zone_has(pre.array@, nb0, pos as int, id, key)
                        && !promote@[id as int]) || zone_has(
                        pre.array@,
                        pos as int,
                        pos_e as int,
                        id,
                        key,
                    )),
                forall|id: MTTaskId, key: MTTaskPri|
                    pre.flist_has(id, key) ==> id < promote@.len(),
            decreases pos_e - pos,
        {
            let ghost looped = *self;
            let entry = self.array[pos].unwrap();
            let id = entry.0;

            proof {
                assert(self.array@[pos as int] == pre.array@[pos as int]);
                assert(zone_has(pre.array@, pos as int, pos_e as int, entry.0, entry.1));
                assert(self.flist_has(entry.0, entry.1));
                assert(pre.flist_has(entry.0, entry.1));
                assert(id < promote@.len());
            }

            if promote[id as usize] {
                self.flist_to_bheap(pos);
            }

            proof {
                lemma_zone_split(pre.array@, nb0, pos as int, pos as int + 1);
                lemma_zone_split(pre.array@, pos as int, pos as int + 1, pos_e as int);
                let pr = (looped.id_at(pos as int), looped.key_at(pos as int));
                assert(pre.array@[pos as int] == Some(pr));
                lemma_zone_singleton(pre.array@, pos as int, pos as int + 1);
            }

            pos = pos + 1;
        }

        proof {
            assert forall|id: MTTaskId, key: MTTaskPri|
                self.heap_has(id, key) == (pre.heap_has(id, key) || (pre.flist_has(id, key)
                    && promote@[id as int])) by {
                assert(zone_has(pre.array@, nb0, pos_e as int, id, key) == pre.flist_has(id, key));
            }
            assert forall|id: MTTaskId, key: MTTaskPri|
                self.flist_has(id, key) == (pre.flist_has(id, key) && !promote@[id as int]) by {
                assert(zone_has(pre.array@, nb0, pos_e as int, id, key) == pre.flist_has(id, key));
                assert(!zone_has(pre.array@, pos_e as int, pos_e as int, id, key));
            }
        }
    }

    /// The task id at the heap's head: the ready entry with the smallest key,
    /// if any entry is ready.
    pub fn bheap_h(&self) -> (r: Option<MTTaskId>)
        requires
            self.wf(),
        ensures
            self.n_bheap > 0 ==> r == Some(self.id_at(0)),
            self.n_bheap == 0 ==> r is None,
    {
        if self.n_bheap > 0 {
            Some(self.array[0].unwrap().0)
        } else {
            None
        }
    }

    /// Sift the heap's head entry down to its place. An entry of equal key
    /// does not stop the descent — only strictly smaller-keyed children do,
    /// as the contract states — so a popped-and-reinserted head falls below
    /// its equals.
    #[verifier::rlimit(100)]
    fn down_bheap(&mut self) -> (dp: usize)
        requires
            old(self).wf_basic(),
            old(self).heap_ordered_except_down(0),
        ensures
            final(self).wf(),
            final(self).n_bheap == old(self).n_bheap,
            final(self).n_flist == old(self).n_flist,
            final(self).array@.len() == old(self).array@.len(),
            forall|i: int|
                old(self).n_bheap <= i < old(self).array@.len()
                    ==> final(self).array@[i] == old(self).array@[i],
            forall|id: MTTaskId, key: MTTaskPri|
                final(self).heap_has(id, key) == old(self).heap_has(id, key),
            old(self).n_bheap <= 1 ==> final(self).array@ == old(self).array@,
            old(self).n_bheap == 2 && old(self).key_at(0) == old(self).key_at(1)
                ==> final(self).array@ == old(self).array@.update(
                0,
                old(self).array@[1],
            ).update(1, old(self).array@[0]),
            // the exact descent: the head entry sank to `dp`; the entries it
            // passed all had keys at or below its own (equal keys do not stop
            // the descent), and only strictly smaller-keyed children did
            old(self).n_bheap > 0 ==> dp < old(self).n_bheap && final(self).array@[dp as int]
                == old(self).array@[0],
            forall|q: int|
                #![trigger on_path(q, dp as int)]
                0 <= q && on_path(q, dp as int) && q != dp ==> final(self).key_at(q) <= old(self).key_at(0),
            old(self).n_bheap > 0 && 2 * dp + 1 < old(self).n_bheap ==> final(self).key_at(
                2 * dp + 1,
            ) > old(self).key_at(0),
            old(self).n_bheap > 0 && 2 * dp + 2 < old(self).n_bheap ==> final(self).key_at(
                2 * dp + 2,
            ) > old(self).key_at(0),
            forall|i: int|
                #![trigger old(self).array@[i]]
                0 <= i < old(self).array@.len() && !on_path(i, dp as int) ==> final(self).array@[i] == old(self).array@[i],
            // with every key equal, the head hands over to the next slot
            old(self).n_bheap >= 2 && old(self).heap_keys_uniform() ==> final(self).array@[0]
                == old(self).array@[1],
    {
        let mut pos: usize = 0;

        proof {
            assert(2 * ((self.n_bheap as int) / 2) >= self.n_bheap as int - 1)
                by (nonlinear_arith);
        }

        while pos < self.n_bheap / 2
            invariant
                self.wf_basic(),
                self.n_bheap == old(self).n_bheap,
                self.n_flist == old(self).n_flist,
                self.array@.len() == old(self).array@.len(),
                0 <= pos,
                self.heap_ordered_except_down(pos as int),
                pos > 0 ==> forall|c: int|
                    1 <= c < self.n_bheap && parent(c) == pos
                        ==> self.key_at(parent(pos as int)) <= #[trigger] self.key_at(c),
                forall|i: int|
                    old(self).n_bheap <= i < old(self).array@.len()
                        ==> self.array@[i] == old(self).array@[i],
                forall|id: MTTaskId, key: MTTaskPri|
                    self.heap_has(id, key) == old(self).heap_has(id, key),
                old(self).n_bheap <= 1 ==> self.array@ == old(self).array@,
                old(self).n_bheap == 2 && old(self).key_at(0) == old(self).key_at(1) ==> (pos
                    == 0 && self.array@ == old(self).array@) || (pos == 1 && self.array@ == old(self).array@.update(0, old(self).array@[1]).update(1, old(self).array@[0])),
                pos as int >= (self.n_bheap as int) / 2 ==> self.heap_ordered(),
                old(self).n_bheap > 0 ==> pos < old(self).n_bheap && self.array@[pos as int]
                    == old(self).array@[0],
                forall|q: int|
                    #![trigger on_path(q, pos as int)]
                    0 <= q && on_path(q, pos as int) && q != pos as int ==> self.key_at(q) <= old(self).key_at(0),
                forall|i: int|
                    #![trigger old(self).array@[i]]
                    0 <= i < old(self).array@.len() && !on_path(i, pos as int) ==> self.array@[i]
                        == old(self).array@[i],
                old(self).n_bheap >= 2 && old(self).heap_keys_uniform() ==> (pos == 0
                    && self.array@ == old(self).array@) || (pos >= 1 && self.array@[0] == old(self).array@[1]),
                2 * ((self.n_bheap as int) / 2) >= self.n_bheap - 1,
            ensures
                self.wf(),
                self.n_bheap == old(self).n_bheap,
                self.n_flist == old(self).n_flist,
                self.array@.len() == old(self).array@.len(),
                forall|i: int|
                    old(self).n_bheap <= i < old(self).array@.len()
                        ==> self.array@[i] == old(self).array@[i],
                forall|id: MTTaskId, key: MTTaskPri|
                    self.heap_has(id, key) == old(self).heap_has(id, key),
                old(self).n_bheap <= 1 ==> self.array@ == old(self).array@,
                old(self).n_bheap == 2 && old(self).key_at(0) == old(self).key_at(1)
                    ==> self.array@ == old(self).array@.update(0, old(self).array@[1]).update(
                    1,
                    old(self).array@[0],
                ),
                old(self).n_bheap > 0 ==> pos < old(self).n_bheap && self.array@[pos as int]
                    == old(self).array@[0],
                forall|q: int|
                    #![trigger on_path(q, pos as int)]
                    0 <= q && on_path(q, pos as int) && q != pos as int ==> self.key_at(q) <= old(self).key_at(0),
                old(self).n_bheap > 0 && 2 * pos + 1 < old(self).n_bheap ==> self.key_at(
                    2 * pos as int + 1,
                ) > old(self).key_at(0),
                old(self).n_bheap > 0 && 2 * pos + 2 < old(self).n_bheap ==> self.key_at(
                    2 * pos as int + 2,
                ) > old(self).key_at(0),
                forall|i: int|
                    #![trigger old(self).array@[i]]
                    0 <= i < old(self).array@.len() && !on_path(i, pos as int) ==> self.array@[i]
                        == old(self).array@[i],
                old(self).n_bheap >= 2 && old(self).heap_keys_uniform() ==> self.array@[0] == old(self).array@[1],
            decreases self.n_bheap - pos,
        {
            proof {
                assert(2 * ((self.n_bheap as int) / 2) <= self.n_bheap as int) by (nonlinear_arith);
            }
            let child0: usize = pos * 2 + 1;
            let child1: usize = pos * 2 + 2;
            assert(child0 < self.n_bheap);

            let key_pos = self.array[pos].unwrap().1;
            let key_child0 = self.array[child0].unwrap().1;

            let (child, key_child) = if child1 < self.n_bheap {
                let key_child1 = self.array[child1].unwrap().1;
                if key_child0 <= key_child1 {
                    (child0, key_child0)
                } else {
                    (child1, key_child1)
                }
            } else {
                (child0, key_child0)
            };

            if key_pos < key_child {
                proof {
                    assert forall|i: int|
                        1 <= i < self.n_bheap implies self.key_at(parent(i)) <= self.key_at(
                        i,
                    ) by {
                        if parent(i) == pos as int {
                            assert(pos as int * 2 + 1 <= i <= pos as int * 2 + 2);
                            assert(self.key_at(i) >= key_child);
                        } else {
                            assert(self.key_at(parent(i)) <= self.key_at(i));
                        }
                    }
                    if old(self).n_bheap == 2 && old(self).key_at(0) == old(self).key_at(1) {
                        assert(false);
                    }
                    // the descent stopped only below strictly greater keys
                    assert(self.key_at(pos as int) == old(self).key_at(0));
                    assert(self.key_at(2 * pos as int + 1) >= key_child);
                    if 2 * pos + 2 < self.n_bheap {
                        assert(self.key_at(2 * pos as int + 2) >= key_child);
                    }
                    // with every key equal the descent cannot stop above the
                    // bottom: the strict comparison would be false
                    if old(self).n_bheap >= 2 && old(self).heap_keys_uniform() && pos == 0 {
                        assert(self.array@ == old(self).array@);
                        assert(self.key_at(0) == old(self).key_at(0));
                        assert(self.key_at(child0 as int) == old(self).key_at(child0 as int));
                        assert(old(self).key_at(child0 as int) == old(self).key_at(0));
                        assert(false);
                    }
                }
                break;
            }

            let ghost pre = *self;
            let ghost posi = pos as int;
            let ghost chi = child as int;
            self.replace(pos, child);
            proof {
                assert(parent(chi) == posi);
                Self::lemma_swap_wf_basic(pre, *self, posi, chi);
                assert(self.array@[chi] == pre.array@[posi]);
                assert(self.array@[posi] == pre.array@[chi]);

                // the smaller child's key bounds both children's keys
                assert forall|c: int|
                    1 <= c < pre.n_bheap && parent(c) == posi implies pre.key_at(chi)
                    <= pre.key_at(c) by {
                    assert(posi * 2 + 1 <= c <= posi * 2 + 2);
                }

                // ordering holds everywhere but at the edges out of `child`
                assert forall|i: int|
                    1 <= i < self.n_bheap && parent(i) != chi implies self.key_at(parent(i))
                    <= self.key_at(i) by {
                    if i == chi {
                        assert(self.key_at(i) == pre.key_at(posi));
                        assert(self.key_at(parent(i)) == pre.key_at(chi));
                    } else if parent(i) == posi {
                        assert(self.array@[i] == pre.array@[i]);
                        assert(pre.key_at(chi) <= pre.key_at(i));
                    } else if i == posi {
                        assert(parent(posi) != posi && parent(posi) != chi);
                        assert(self.array@[parent(i)] == pre.array@[parent(i)]);
                        assert(pre.key_at(parent(posi)) <= pre.key_at(chi));
                        assert(self.key_at(i) == pre.key_at(chi));
                    } else {
                        assert(self.array@[i] == pre.array@[i]);
                        assert(self.array@[parent(i)] == pre.array@[parent(i)]);
                        assert(pre.key_at(parent(i)) <= pre.key_at(i));
                    }
                }

                // the next bridge: children of `child` sit at or above the key
                // now stored at `pos`
                assert forall|c: int|
                    1 <= c < self.n_bheap && parent(c) == chi implies self.key_at(parent(chi))
                    <= self.key_at(c) by {
                    assert(c > chi);
                    assert(self.array@[c] == pre.array@[c]);
                    assert(pre.key_at(chi) <= pre.key_at(c));
                    assert(self.key_at(parent(chi)) == pre.key_at(chi));
                }

                lemma_zone_swap(pre.array@, self.array@, 0, pre.n_bheap as int, posi, chi);

                // path bookkeeping: the sinking entry now rides at `child`
                assert(on_path(posi, posi));
                assert(on_path(posi, chi));
                assert(self.array@[chi] == old(self).array@[0]);
                assert forall|q: int|
                    #![trigger on_path(q, chi)]
                    0 <= q && on_path(q, chi) && q != chi implies self.key_at(q) <= old(self).key_at(0) by {
                    assert(on_path(q, posi));
                    if q == posi {
                        assert(self.key_at(posi) == pre.key_at(chi));
                        assert(pre.key_at(chi) == key_child);
                        assert(key_child <= key_pos);
                        assert(key_pos == old(self).key_at(0));
                    } else {
                        lemma_on_path_bounds(q, posi);
                        assert(self.array@[q] == pre.array@[q]);
                        assert(pre.key_at(q) <= old(self).key_at(0));
                    }
                }
                assert forall|i: int|
                    #![trigger old(self).array@[i]]
                    0 <= i < old(self).array@.len() && !on_path(i, chi) implies self.array@[i]
                        == old(self).array@[i] by {
                    assert(!(i == chi));
                    if on_path(i, posi) {
                        assert(on_path(i, chi));
                    }
                    assert(self.array@[i] == pre.array@[i]);
                    assert(pre.array@[i] == old(self).array@[i]);
                }
                // with uniform keys the first step hands the head to slot one
                if old(self).n_bheap >= 2 && old(self).heap_keys_uniform() {
                    if posi == 0 && pre.array@ == old(self).array@ {
                        assert(old(self).key_at(1) == old(self).key_at(0));
                        if child1 < self.n_bheap {
                            assert(old(self).key_at(2) == old(self).key_at(0));
                        }
                        assert(chi == 1);
                        assert(self.array@[0] == old(self).array@[1]);
                    } else {
                        assert(self.array@[0] == old(self).array@[1]);
                    }
                }

                if chi >= (self.n_bheap as int) / 2 {
                    assert((self.n_bheap as int) <= 2 * ((self.n_bheap as int) / 2) + 1)
                        by (nonlinear_arith);
                    assert forall|i: int|
                        1 <= i < self.n_bheap implies self.key_at(parent(i)) <= self.key_at(
                        i,
                    ) by {
                        if parent(i) == chi {
                            assert(chi * 2 + 1 <= i <= chi * 2 + 2);
                        } else {
                            assert(self.key_at(parent(i)) <= self.key_at(i));
                        }
                    }
                }
            }
            pos = child;
        }
        pos
    }
}

} // verus!
