//! The paged, generation-stamped resource pool.
//!
//! The pool owns values of one resource type and issues [`u64`] handles for
//! them (see [`crate::gpu_resources`] for the handle layout).  Slots live in
//! fixed-size pages, so growth never moves an existing slot.  A deleted
//! slot's coordinates go on a free list; reusing it bumps the version stamp,
//! which makes every handle issued for the slot's earlier occupants invalid
//! forever.  A slot whose version stamp has reached its maximum is retired:
//! it is never reused, so a version never wraps around to a value that an
//! old handle could match.
//!
//! Entries are only ever changed through [`GpuResourcePool::add`] and
//! [`GpuResourcePool::delete`], never updated in place, so concurrent use
//! needs no more than one reader/writer lock around the whole pool:
//! exclusive for `add` and `delete`, shared for `get_ref`.

use vstd::prelude::*;

use crate::gpu_resources::{
    canonical, decode_as_usize, encode, encode_spec, lemma_decode_encode, lemma_encode_decode,
    page_of, slot_of, version_of, MAX_PAGE, MAX_VERSION, PAGE_SIZE,
};

verus! {

/// Why a pool operation failed.
#[derive(Clone, Copy, Debug, PartialEq, Eq, Structural)]
pub enum PoolError {
    /// The handle does not name a live resource: it was never issued by this
    /// pool, or the resource it named has been deleted.
    InvalidHandle,
    /// Every slot the 16-bit page and slot fields can address is taken or
    /// retired.
    OutOfCapacity,
}

/// Builds one page of empty slots, each holding no resource at version 0.
fn empty_page<Resource>() -> (r: Vec<(Option<Resource>, u64)>)
    ensures
        r@.len() == PAGE_SIZE,
        forall|s: int| 0 <= s < PAGE_SIZE ==> (#[trigger] r@[s]).0 is None && r@[s].1 == 0,
{
    let mut page: Vec<(Option<Resource>, u64)> = Vec::new();
    let mut i: usize = 0;
    while i < PAGE_SIZE
        invariant
            i <= PAGE_SIZE,
            page@.len() == i,
            forall|s: int| 0 <= s < i ==> (#[trigger] page@[s]).0 is None && page@[s].1 == 0,
        decreases PAGE_SIZE - i,
    {
        page.push((None, 0));
        i += 1;
    }
    page
}

/// A paged arena of resource slots plus a free list of deleted slots.
///
/// Only the identity bookkeeping lives here; creating and destroying the
/// underlying objects is the owning layer's business.
pub struct GpuResourcePool<Resource> {
    data: Vec<Vec<(Option<Resource>, u64)>>,
    free_indices: Vec<u64>,
    curr_page: usize,
    curr_index: usize,
}

impl<Resource> GpuResourcePool<Resource> {
    /// The slot stored at page `p`, index `s`: its occupant and its version.
    spec fn slot(self, p: int, s: int) -> (Option<Resource>, u64) {
        self.data@[p]@[s]
    }

    /// `(p, s)` addresses a slot of an existing page.
    spec fn in_data(self, p: int, s: int) -> bool {
        0 <= p < self.data@.len() && 0 <= s < self.data@[p]@.len()
    }

    /// `(p, s)` addresses a slot that has been handed out at least once.
    /// Slots past the append cursor have never been occupied.
    spec fn allocated(self, p: int, s: int) -> bool {
        self.in_data(p, s) && (p < self.curr_page || (p == self.curr_page
            && s < self.curr_index))
    }

    /// A free-list entry is a canonical handle naming an allocated, empty
    /// slot whose stored version matches the entry and can still be bumped.
    spec fn free_entry_ok(self, e: u64) -> bool {
        &&& canonical(e)
        &&& self.allocated(page_of(e) as int, slot_of(e) as int)
        &&& self.slot(page_of(e) as int, slot_of(e) as int).0 is None
        &&& self.slot(page_of(e) as int, slot_of(e) as int).1 == version_of(e)
        &&& version_of(e) < MAX_VERSION
    }

    /// Structural invariant of the pool.
    pub closed spec fn wf(self) -> bool {
        &&& self.data@.len() == self.curr_page + 1
        &&& self.curr_page <= MAX_PAGE
        &&& self.curr_index <= PAGE_SIZE
        &&& forall|p: int|
            0 <= p < self.data@.len() ==> (#[trigger] self.data@[p])@.len() == PAGE_SIZE
        &&& forall|p: int, s: int|
            self.in_data(p, s) ==> (#[trigger] self.slot(p, s)).1 <= MAX_VERSION
        &&& forall|s: int|
            self.curr_index <= s < PAGE_SIZE ==> (#[trigger] self.slot(
                self.curr_page as int,
                s,
            )).0 is None && self.slot(self.curr_page as int, s).1 == 0
        &&& forall|k: int|
            0 <= k < self.free_indices@.len() ==> self.free_entry_ok(
                #[trigger] self.free_indices@[k],
            )
        &&& forall|k1: int, k2: int|
            0 <= k1 < k2 < self.free_indices@.len() ==> self.free_indices@[k1]
                != self.free_indices@[k2]
    }

    /// `h` currently names an occupied slot: it is canonical, addresses an
    /// existing slot, and its version matches the slot's version.
    pub closed spec fn live(self, h: u64) -> bool {
        &&& canonical(h)
        &&& self.in_data(page_of(h) as int, slot_of(h) as int)
        &&& self.slot(page_of(h) as int, slot_of(h) as int).0 is Some
        &&& self.slot(page_of(h) as int, slot_of(h) as int).1 == version_of(h)
    }

    /// The resource a live handle names.
    pub closed spec fn value_at(self, h: u64) -> Resource {
        self.slot(page_of(h) as int, slot_of(h) as int).0.unwrap()
    }

    /// `h` can never name a resource again: the slot it addresses has moved
    /// past `h`'s version, or sits empty at it.  Deleting a handle makes it
    /// dead, and every later operation keeps it dead.
    pub closed spec fn dead(self, h: u64) -> bool {
        let p = page_of(h) as int;
        let s = slot_of(h) as int;
        let v = version_of(h);
        &&& canonical(h)
        &&& self.allocated(p, s)
        &&& (self.slot(p, s).1 > v || (self.slot(p, s).1 == v && self.slot(p, s).0 is None))
    }

    /// How many more insertions the pool can accept: free-list entries plus
    /// never-occupied slots of the current and future pages.
    pub closed spec fn space(self) -> int {
        self.free_indices@.len() + (PAGE_SIZE - self.curr_index) + (MAX_PAGE - self.curr_page)
            * PAGE_SIZE
    }

    /// The pool has room for at least one more resource.
    pub open spec fn can_add(self) -> bool {
        self.space() > 0
    }

    /// Number of deleted slots currently waiting on the free list for reuse.
    pub closed spec fn free_count(self) -> int {
        self.free_indices@.len() as int
    }

    /// Handles with anything in their top 16 bits are never live; in
    /// particular the null sentinel `u64::MAX` of the typed identifiers can
    /// never name a pooled resource.
    pub proof fn lemma_non_canonical_never_live(self, h: u64)
        requires
            !canonical(h),
        ensures
            !self.live(h),
    {
    }

    /// A dead handle is not live: the two conditions exclude each other, so
    /// once a handle is dead no lookup through it can succeed.
    pub proof fn lemma_dead_not_live(self, h: u64)
        requires
            self.dead(h),
        ensures
            !self.live(h),
    {
    }

    /// No aliasing among live handles: two live handles that address the
    /// same page and slot are the same handle.  Together with the fact that
    /// `add` returns a handle that was not live before, this makes all live
    /// handles pairwise distinct names for pairwise distinct slots.
    pub proof fn lemma_live_handles_unique(self, h1: u64, h2: u64)
        requires
            self.live(h1),
            self.live(h2),
            page_of(h1) == page_of(h2),
            slot_of(h1) == slot_of(h2),
        ensures
            h1 == h2,
    {
        lemma_decode_encode(h1);
        lemma_decode_encode(h2);
    }

    /// Creates a pool with one page of empty slots and an empty free list.
    pub fn new() -> (r: Self)
        ensures
            r.wf(),
            forall|h: u64| !r.live(h),
            forall|h: u64| !r.dead(h),
            r.space() == (MAX_PAGE + 1) * PAGE_SIZE,
            r.free_count() == 0,
    {
        let mut data: Vec<Vec<(Option<Resource>, u64)>> = Vec::new();
        data.push(empty_page());
        GpuResourcePool { data, free_indices: Vec::new(), curr_index: 0, curr_page: 0 }
    }

    /// Inserts `res` and returns a fresh handle for it.
    ///
    /// A deleted slot is reused first, with its version bumped by one —
    /// stated below as: the returned handle's immediate predecessor (same
    /// page and slot, version one lower) was a dead handle of the old pool.
    /// Otherwise the resource goes into the next never-occupied slot, at
    /// version 0, appending a page when the current one is full.  The handle
    /// returned is live, was not live before, and no other handle changes
    /// what it names.  Only a pool whose whole address space is taken or
    /// retired refuses the insertion.
    ///
    /// Which page and slot a handle word names is deliberately left
    /// unstated: a handle is an opaque identifier, pinned only through
    /// `live`, `dead`, `value_at` and the version clauses here, so callers
    /// cannot bake in the pool's placement choices.
    pub fn add(&mut self, res: Resource) -> (r: Result<u64, PoolError>)
        requires
            old(self).wf(),
        ensures
            final(self).wf(),
            r is Ok <==> old(self).can_add(),
            r is Err ==> *final(self) == *old(self),
            r matches Err(e) ==> e is OutOfCapacity,
            r matches Ok(h) ==> {
                &&& !old(self).live(h)
                &&& final(self).live(h)
                &&& final(self).value_at(h) == res
                &&& final(self).space() == old(self).space() - 1
                &&& canonical(h)
                &&& old(self).free_count() == 0 ==> version_of(h) == 0 && final(self).free_count()
                    == 0
                &&& old(self).free_count() > 0 ==> version_of(h) >= 1 && final(self).free_count()
                    == old(self).free_count() - 1 && old(self).dead(
                    encode_spec(page_of(h), slot_of(h), (version_of(h) - 1) as u64),
                )
                &&& forall|h2: u64|
                    h2 != h ==> (final(self).live(h2) <==> old(self).live(h2))
                &&& forall|h2: u64|
                    h2 != h && old(self).live(h2) ==> final(self).value_at(h2) == old(
                        self,
                    ).value_at(h2)
            },
            forall|h2: u64| final(self).dead(h2) <==> old(self).dead(h2),
    {
        if self.free_indices.len() == 0 {
            if self.curr_index >= PAGE_SIZE {
                if self.curr_page >= MAX_PAGE {
                    return Err(PoolError::OutOfCapacity);
                }
                self.data.push(empty_page());
                self.curr_index = 0;
                self.curr_page = self.curr_page + 1;
                proof {
                    assert forall|p: int, s: int| self.in_data(p, s) implies (#[trigger] self.slot(
                        p,
                        s,
                    )).1 <= MAX_VERSION by {
                        if p < old(self).data@.len() {
                            assert(old(self).in_data(p, s));
                            assert(self.slot(p, s) == old(self).slot(p, s));
                        }
                    }
                    assert forall|h2: u64| self.live(h2) <==> old(self).live(h2) by {
                        let (p, s) = (page_of(h2) as int, slot_of(h2) as int);
                        if self.in_data(p, s) && p < old(self).data@.len() {
                            assert(self.slot(p, s) == old(self).slot(p, s));
                        }
                    }
                    assert forall|h2: u64| self.dead(h2) <==> old(self).dead(h2) by {
                        let (p, s) = (page_of(h2) as int, slot_of(h2) as int);
                        if self.in_data(p, s) && p < old(self).data@.len() {
                            assert(self.slot(p, s) == old(self).slot(p, s));
                        }
                    }
                    assert(self.wf());
                }
            }
            let ghost mid = *self;
            let id = encode(self.curr_page as u64, self.curr_index as u64, 0);
            let page = self.curr_page;
            let index = self.curr_index;
            self.data[page][index] = (Some(res), 0);
            self.curr_index = index + 1;
            proof {
                lemma_encode_decode(page as u64, index as u64, 0);
                assert forall|p: int, s: int|
                    self.in_data(p, s) && !(p == page && s == index) implies mid.in_data(p, s) && (
                    #[trigger] self.slot(p, s)) == mid.slot(p, s) by {}
                assert(self.slot(page as int, index as int).0 == Some(res));
                assert(self.slot(page as int, index as int).1 == 0);
                assert forall|k: int|
                    0 <= k < self.free_indices@.len() implies self.free_entry_ok(
                    #[trigger] self.free_indices@[k],
                ) by {
                    let e = self.free_indices@[k];
                    assert(mid.free_entry_ok(e));
                    assert(!(page_of(e) == page && slot_of(e) == index));
                }
                assert(self.wf());
                assert forall|h2: u64| h2 != id implies (self.live(h2) <==> mid.live(h2)) by {
                    if canonical(h2) && page_of(h2) == page && slot_of(h2) == index {
                        lemma_decode_encode(h2);
                    }
                }
                assert forall|h2: u64| self.dead(h2) <==> mid.dead(h2) by {
                    let (p, s) = (page_of(h2) as int, slot_of(h2) as int);
                    if p == page && s == index {
                        assert(!mid.allocated(p, s));
                    }
                }
            }
            Ok(id)
        } else {
            let id = match self.free_indices.pop() {
                Some(e) => e,
                None => {
                    return Err(PoolError::InvalidHandle);
                },
            };
            let (page, index, version) = decode_as_usize(id);
            proof {
                assert(old(self).free_entry_ok(id));
            }
            let h = encode(page as u64, index as u64, version + 1);
            self.data[page][index] = (Some(res), version + 1);
            proof {
                lemma_decode_encode(id);
                assert forall|p: int, s: int|
                    self.in_data(p, s) && !(p == page && s == index) implies old(self).in_data(p, s)
                    && (#[trigger] self.slot(p, s)) == old(self).slot(p, s) by {}
                assert(self.slot(page as int, index as int).0 == Some(res));
                assert(self.slot(page as int, index as int).1 == version + 1);
                assert forall|k: int|
                    0 <= k < self.free_indices@.len() implies self.free_entry_ok(
                    #[trigger] self.free_indices@[k],
                ) by {
                    let e = self.free_indices@[k];
                    assert(old(self).free_entry_ok(e));
                    if page_of(e) == page_of(id) && slot_of(e) == slot_of(id) {
                        lemma_decode_encode(e);
                        assert(false);
                    }
                }
                assert(self.wf());
                assert forall|h2: u64| h2 != h implies (self.live(h2) <==> old(self).live(h2)) by {
                    if canonical(h2) && page_of(h2) == page_of(id) && slot_of(h2) == slot_of(id) {
                        lemma_decode_encode(h2);
                        lemma_encode_decode(page as u64, index as u64, (version + 1) as u64);
                    }
                }
                assert forall|h2: u64| self.dead(h2) <==> old(self).dead(h2) by {
                    if page_of(h2) == page_of(id) && slot_of(h2) == slot_of(id) {
                        assert(old(self).slot(page as int, index as int).1 == version);
                    }
                }
                assert(encode_spec(page_of(h), slot_of(h), (version_of(h) - 1) as u64) == id) by {
                    lemma_encode_decode(page as u64, index as u64, version);
                }
                assert(old(self).dead(id));
            }
            Ok(h)
        }
    }

    /// Removes the resource `id` names and returns it.
    ///
    /// Succeeds exactly when `id` is live.  The slot keeps its version and
    /// goes back on the free list (unless its version is exhausted, in which
    /// case it is retired), so `id` is dead from here on: neither a lookup
    /// nor a second delete through it can ever succeed again, whatever the
    /// slot later holds.  No other handle is affected.
    pub fn delete(&mut self, id: u64) -> (r: Result<Resource, PoolError>)
        requires
            old(self).wf(),
        ensures
            final(self).wf(),
            r is Ok <==> old(self).live(id),
            r is Err ==> *final(self) == *old(self),
            r matches Err(e) ==> e is InvalidHandle,
            r is Ok ==> {
                &&& r matches Ok(res) && res == old(self).value_at(id)
                &&& !final(self).live(id)
                &&& final(self).dead(id)
                &&& forall|h2: u64|
                    h2 != id ==> (final(self).live(h2) <==> old(self).live(h2))
                &&& forall|h2: u64|
                    h2 != id && old(self).live(h2) ==> final(self).value_at(h2) == old(
                        self,
                    ).value_at(h2)
                &&& forall|h2: u64|
                    final(self).dead(h2) <==> (old(self).dead(h2) || h2 == id)
                &&& final(self).space() >= old(self).space()
                &&& final(self).free_count() == old(self).free_count() + (
                if version_of(id) < MAX_VERSION {
                    1int
                } else {
                    0int
                })
            },
    {
        if (id >> 48) != 0 {
            return Err(PoolError::InvalidHandle);
        }
        let (page, index, version) = decode_as_usize(id);
        if page >= self.data.len() {
            return Err(PoolError::InvalidHandle);
        }
        if index >= self.data[page].len() {
            return Err(PoolError::InvalidHandle);
        }
        if self.data[page][index].1 != version {
            return Err(PoolError::InvalidHandle);
        }
        if self.data[page][index].0.is_none() {
            return Err(PoolError::InvalidHandle);
        }
        proof {
            // An occupied slot sits before the append cursor, so it counts
            // as allocated and a free-list entry for it is well formed.
            assert(old(self).in_data(page as int, index as int));
            if page as int == old(self).curr_page && index as int >= old(self).curr_index {
                assert(old(self).slot(old(self).curr_page as int, index as int).0 is None);
                assert(false);
            }
            assert(old(self).allocated(page as int, index as int));
        }
        let slot = &mut self.data[page][index];
        let taken = slot.0.take();
        if version < MAX_VERSION {
            self.free_indices.push(id);
        }
        proof {
            lemma_decode_encode(id);
            assert forall|p: int, s: int|
                self.in_data(p, s) && !(p == page && s == index) implies old(self).in_data(p, s)
                && (#[trigger] self.slot(p, s)) == old(self).slot(p, s) by {}
            assert(self.slot(page as int, index as int).0 is None);
            assert(self.slot(page as int, index as int).1 == version);
            assert forall|k: int|
                0 <= k < self.free_indices@.len() implies self.free_entry_ok(
                #[trigger] self.free_indices@[k],
            ) by {
                let e = self.free_indices@[k];
                if k < old(self).free_indices@.len() {
                    assert(old(self).free_entry_ok(e));
                    if page_of(e) == page_of(id) && slot_of(e) == slot_of(id) {
                        lemma_decode_encode(e);
                        assert(false);
                    }
                }
            }
            assert forall|k1: int, k2: int|
                0 <= k1 < k2 < self.free_indices@.len() implies self.free_indices@[k1]
                != self.free_indices@[k2] by {
                if k2 == old(self).free_indices@.len() {
                    let e = self.free_indices@[k1];
                    assert(old(self).free_entry_ok(e));
                    if page_of(e) == page_of(id) && slot_of(e) == slot_of(id) {
                        lemma_decode_encode(e);
                        assert(false);
                    }
                }
            }
            assert(self.wf());
            assert forall|h2: u64| h2 != id implies (self.live(h2) <==> old(self).live(h2)) by {
                if canonical(h2) && page_of(h2) == page_of(id) && slot_of(h2) == slot_of(id) {
                    lemma_decode_encode(h2);
                }
            }
            assert forall|h2: u64| self.dead(h2) <==> (old(self).dead(h2) || h2 == id) by {
                if canonical(h2) && page_of(h2) == page_of(id) && slot_of(h2) == slot_of(id) {
                    lemma_decode_encode(h2);
                }
            }
        }
        match taken {
            Some(res) => Ok(res),
            None => {
                proof {
                    assert(false);
                }
                Err(PoolError::InvalidHandle)
            },
        }
    }

    /// Borrows the resource `id` names without removing it.
    ///
    /// Succeeds exactly when `id` is live, performing the same validation as
    /// [`Self::delete`], and returns a reference to the resource the handle
    /// was issued for.
    pub fn get_ref(&self, id: u64) -> (r: Result<&Resource, PoolError>)
        requires
            self.wf(),
        ensures
            r is Ok <==> self.live(id),
            r matches Ok(res) ==> *res == self.value_at(id),
            r matches Err(e) ==> e is InvalidHandle,
    {
        if (id >> 48) != 0 {
            return Err(PoolError::InvalidHandle);
        }
        let (page, index, version) = decode_as_usize(id);
        if page >= self.data.len() {
            return Err(PoolError::InvalidHandle);
        }
        if index >= self.data[page].len() {
            return Err(PoolError::InvalidHandle);
        }
        if self.data[page][index].1 != version {
            return Err(PoolError::InvalidHandle);
        }
        match &self.data[page][index].0 {
            Some(res) => Ok(res),
            None => Err(PoolError::InvalidHandle),
        }
    }
}

} // verus!
