//! The frame resource pool: the concrete allocations the frame allocator keeps
//! across frames, with their use and age bookkeeping.
//!
//! The pool records each allocation's descriptor, ownership and ages; the GPU
//! object behind an allocation is held by the caller under the allocation's id.
//! Creating an owned allocation returns the creation descriptor the caller
//! creates that object from.
use vstd::prelude::*;

use crate::error::{FrameResourceError, FrameResourceResult};
use crate::pool::{FrameResourceAllocationClass, FrameResourceOwnership, FrameResourcePoolCandidate};
use crate::resource_desc::{
    FrameBufferDesc, FrameBufferDescriptor, FrameResourceDesc, FrameTextureDesc, FrameTextureDescriptor,
};
use crate::tags::FrameResourceAllocationId;

verus! {

/// One allocation kept by the pool.
#[derive(Debug)]
pub struct FrameResourceAllocation {
    pub id: FrameResourceAllocationId,
    pub desc: FrameResourceDesc,
    pub ownership: FrameResourceOwnership,
    pub used_this_frame: bool,
    pub cacheable: bool,
    /// Frames since the allocation was last used.
    pub age: u32,
    /// Frames in a row in which the allocation served only smaller requests.
    pub overcapacity_age: u32,
}

impl FrameResourceAllocation {
    pub fn id(&self) -> (r: FrameResourceAllocationId)
        ensures
            r == self.id,
    {
        self.id
    }

    pub fn desc(&self) -> (r: &FrameResourceDesc)
        ensures
            *r == self.desc,
    {
        &self.desc
    }

    pub fn ownership(&self) -> (r: FrameResourceOwnership)
        ensures
            r == self.ownership,
    {
        self.ownership
    }

    pub fn used_this_frame(&self) -> (r: bool)
        ensures
            r == self.used_this_frame,
    {
        self.used_this_frame
    }

    pub fn cacheable(&self) -> (r: bool)
        ensures
            r == self.cacheable,
    {
        self.cacheable
    }

    pub fn age(&self) -> (r: u32)
        ensures
            r == self.age,
    {
        self.age
    }

    pub fn overcapacity_age(&self) -> (r: u32)
        ensures
            r == self.overcapacity_age,
    {
        self.overcapacity_age
    }
}

/// `a + 1`, staying at the largest `u32`.
pub open spec fn saturating_next(a: u32) -> u32 {
    if a == u32::MAX {
        a
    } else {
        (a + 1) as u32
    }
}

/// Whether the pool may hand the allocation out again: owned and cacheable.
pub open spec fn is_cached(a: FrameResourceAllocation) -> bool {
    a.ownership == FrameResourceOwnership::Owned && a.cacheable
}

/// The allocation after a frame ends: a used one is young again, an unused
/// one a frame older.
pub open spec fn aged(a: FrameResourceAllocation) -> FrameResourceAllocation {
    if a.used_this_frame {
        FrameResourceAllocation { age: 0, used_this_frame: false, ..a }
    } else {
        FrameResourceAllocation { age: saturating_next(a.age), ..a }
    }
}

/// Whether an aged allocation stays in the pool.
pub open spec fn survives_cleanup(a: FrameResourceAllocation, max_unused_age: u32) -> bool {
    is_cached(a) && a.age <= max_unused_age && a.overcapacity_age <= max_unused_age
}

/// The allocations after a frame ends, in order.
pub open spec fn after_cleanup(s: Seq<FrameResourceAllocation>, max_unused_age: u32) -> Seq<FrameResourceAllocation>
    decreases s.len(),
{
    if s.len() == 0 {
        s
    } else {
        let rest = after_cleanup(s.drop_last(), max_unused_age);
        let a = aged(s.last());
        if survives_cleanup(a, max_unused_age) {
            rest.push(a)
        } else {
            rest
        }
    }
}

/// Whether a cached allocation serves only a smaller shape of `requested`.
pub open spec fn is_oversized_for(a: FrameResourceAllocation, requested: FrameResourceDesc) -> bool {
    is_cached(a) && a.desc.reusable_for(&requested) && a.desc.current_shape() != requested.current_shape()
}

/// The ids of the cached allocations oversized for `requested`, in order.
pub open spec fn oversized_ids(s: Seq<FrameResourceAllocation>, requested: FrameResourceDesc) -> Seq<
    FrameResourceAllocationId,
>
    decreases s.len(),
{
    if s.len() == 0 {
        Seq::empty()
    } else {
        let rest = oversized_ids(s.drop_last(), requested);
        if is_oversized_for(s.last(), requested) {
            rest.push(s.last().id)
        } else {
            rest
        }
    }
}

/// The cached allocations, in order, as planning candidates.
pub open spec fn cached_allocations(s: Seq<FrameResourceAllocation>) -> Seq<FrameResourceAllocation>
    decreases s.len(),
{
    if s.len() == 0 {
        Seq::empty()
    } else {
        let rest = cached_allocations(s.drop_last());
        if is_cached(s.last()) {
            rest.push(s.last())
        } else {
            rest
        }
    }
}

/// Whether `i` is the first position of `s` holding allocation `id`.
pub open spec fn first_position(s: Seq<FrameResourceAllocation>, id: FrameResourceAllocationId, i: int) -> bool {
    &&& 0 <= i < s.len()
    &&& s[i].id == id
    &&& forall|j: int| 0 <= j < i ==> (#[trigger] s[j]).id != id
}

/// Whether `s` holds allocation `id`.
pub open spec fn holds_id(s: Seq<FrameResourceAllocation>, id: FrameResourceAllocationId) -> bool {
    exists|i: int| 0 <= i < s.len() && (#[trigger] s[i]).id == id
}

/// Whether no two allocations share an id.
pub open spec fn ids_unique(s: Seq<FrameResourceAllocation>) -> bool {
    forall|i: int, j: int| 0 <= i < j < s.len() ==> (#[trigger] s[i]).id != (#[trigger] s[j]).id
}

pub open spec fn missing_allocation_error(operation: &'static str) -> FrameResourceError {
    FrameResourceError::InvalidOperation { operation, reason: "frame resource allocation id is not in the pool" }
}

pub open spec fn duplicate_allocation_error() -> FrameResourceError {
    FrameResourceError::InvalidOperation {
        operation: "FrameResourcePool::validate_new_allocation",
        reason: "frame resource allocation id already exists in the pool",
    }
}

/// The allocations the pool keeps across frames.
#[derive(Debug)]
pub struct FrameResourcePool {
    allocations: Vec<FrameResourceAllocation>,
    max_unused_age: u32,
}

impl FrameResourcePool {
    pub closed spec fn spec_allocations(&self) -> Seq<FrameResourceAllocation> {
        self.allocations@
    }

    pub closed spec fn spec_max_unused_age(&self) -> u32 {
        self.max_unused_age
    }

    /// How many frames an allocation may go unused before a new pool evicts it.
    pub fn default_max_unused_age() -> (r: u32)
        ensures
            r == 3,
    {
        3
    }

    /// An empty pool that evicts allocations unused for more than three frames.
    pub fn new() -> (r: Self)
        ensures
            r.spec_allocations().len() == 0,
            r.spec_max_unused_age() == 3,
    {
        Self::with_max_unused_age(Self::default_max_unused_age())
    }

    /// An empty pool that evicts allocations unused for more than `max_unused_age` frames.
    pub fn with_max_unused_age(max_unused_age: u32) -> (r: Self)
        ensures
            r.spec_allocations().len() == 0,
            r.spec_max_unused_age() == max_unused_age,
    {
        FrameResourcePool { allocations: Vec::new(), max_unused_age }
    }

    pub fn allocations(&self) -> (r: &[FrameResourceAllocation])
        ensures
            r@ == self.spec_allocations(),
    {
        self.allocations.as_slice()
    }

    pub fn max_unused_age(&self) -> (r: u32)
        ensures
            r == self.spec_max_unused_age(),
    {
        self.max_unused_age
    }

    fn position(&self, id: FrameResourceAllocationId) -> (r: Option<usize>)
        ensures
            r is None <==> !holds_id(self.spec_allocations(), id),
            r is Some ==> first_position(self.spec_allocations(), id, r->0 as int),
    {
        let mut i: usize = 0;
        while i < self.allocations.len()
            invariant
                i <= self.allocations@.len(),
                forall|j: int| 0 <= j < i ==> (#[trigger] self.allocations@[j]).id != id,
            decreases self.allocations@.len() - i,
        {
            if self.allocations[i].id == id {
                return Some(i);
            }
            i = i + 1;
        }
        None
    }

    /// The first allocation with id `id`.
    pub fn allocation(&self, id: FrameResourceAllocationId) -> (r: Option<&FrameResourceAllocation>)
        ensures
            r is None <==> !holds_id(self.spec_allocations(), id),
            r is Some ==> exists|i: int| #[trigger]
                first_position(self.spec_allocations(), id, i) && *r->0 == self.spec_allocations()[i],
    {
        match self.position(id) {
            Some(i) => Some(&self.allocations[i]),
            None => None,
        }
    }
}


/// Whether `after` is `before` with one allocation appended: `id`, owned or
/// not as `ownership` says, used this frame, young, with the given
/// cacheability.
pub open spec fn appended(
    before: Seq<FrameResourceAllocation>,
    after: Seq<FrameResourceAllocation>,
    id: FrameResourceAllocationId,
    ownership: FrameResourceOwnership,
    cacheable: bool,
) -> bool {
    &&& after.len() == before.len() + 1
    &&& forall|i: int| 0 <= i < before.len() ==> after[i] == before[i]
    &&& after.last().id == id
    &&& after.last().ownership == ownership
    &&& after.last().used_this_frame
    &&& after.last().cacheable == cacheable
    &&& after.last().age == 0
    &&& after.last().overcapacity_age == 0
}

impl FrameResourcePool {
    fn validate_new_allocation(&self, id: FrameResourceAllocationId) -> (r: FrameResourceResult<()>)
        ensures
            r is Ok <==> !holds_id(self.spec_allocations(), id),
            r is Err ==> r->Err_0 == duplicate_allocation_error(),
    {
        if self.position(id).is_some() {
            return Err(
                FrameResourceError::InvalidOperation {
                    operation: "FrameResourcePool::validate_new_allocation",
                    reason: "frame resource allocation id already exists in the pool",
                },
            );
        }
        Ok(())
    }

    fn push_allocation(
        &mut self,
        id: FrameResourceAllocationId,
        desc: FrameResourceDesc,
        ownership: FrameResourceOwnership,
        cacheable: bool,
    )
        requires
            !holds_id(old(self).spec_allocations(), id),
        ensures
            appended(old(self).spec_allocations(), final(self).spec_allocations(), id, ownership, cacheable),
            final(self).spec_allocations().last().desc == desc,
            final(self).spec_max_unused_age() == old(self).spec_max_unused_age(),
            ids_unique(old(self).spec_allocations()) ==> ids_unique(final(self).spec_allocations()),
    {
        self.allocations.push(
            FrameResourceAllocation {
                id,
                desc,
                ownership,
                used_this_frame: true,
                cacheable,
                age: 0,
                overcapacity_age: 0,
            },
        );
        proof {
            let a = final(self).spec_allocations();
            assert forall|i: int, j: int| 0 <= i < j < a.len() && ids_unique(old(self).spec_allocations()) implies (#[trigger] a[i]).id
                != (#[trigger] a[j]).id by {
                if j == a.len() - 1 {
                    assert(a[i] == old(self).spec_allocations()[i]);
                }
            }
        }
    }

    /// Records a new owned, cacheable texture allocation `id` at the current
    /// shape of `desc`, and returns the descriptor to create it from. An id
    /// already in the pool, or a descriptor that fails validation, is refused
    /// and the pool is unchanged.
    pub fn create_owned_texture(&mut self, id: FrameResourceAllocationId, desc: FrameTextureDesc) -> (r:
        FrameResourceResult<FrameTextureDescriptor>)
        ensures
            final(self).spec_max_unused_age() == old(self).spec_max_unused_age(),
            r is Ok <==> !holds_id(old(self).spec_allocations(), id) && desc.validation() is Ok,
            holds_id(old(self).spec_allocations(), id) ==> r == Err::<FrameTextureDescriptor, FrameResourceError>(
                duplicate_allocation_error(),
            ),
            !holds_id(old(self).spec_allocations(), id) && desc.validation() is Err ==> r == Err::<
                FrameTextureDescriptor,
                FrameResourceError,
            >(desc.validation()->Err_0),
            r is Err ==> final(self).spec_allocations() == old(self).spec_allocations(),
            r is Ok ==> {
                &&& r->Ok_0.same_as(
                    &FrameTextureDescriptor {
                        size: desc.spec_current_size(),
                        mip_level_count: desc.spec_current_mips(),
                        ..desc.spec_descriptor()
                    },
                )
                &&& appended(
                    old(self).spec_allocations(),
                    final(self).spec_allocations(),
                    id,
                    FrameResourceOwnership::Owned,
                    true,
                )
                &&& FrameResourceDesc::Texture(desc).is_capacity_at(
                    &final(self).spec_allocations().last().desc,
                    FrameResourceDesc::Texture(desc).current_shape(),
                )
                &&& ids_unique(old(self).spec_allocations()) ==> ids_unique(final(self).spec_allocations())
            },
    {
        match self.validate_new_allocation(id) {
            Ok(()) => {},
            Err(e) => return Err(e),
        }
        match desc.validate() {
            Ok(()) => {},
            Err(e) => return Err(e),
        }
        let shape = desc.current_allocation_shape();
        let descriptor = match desc.concrete_descriptor_for_shape(shape) {
            Ok(d) => d,
            Err(e) => return Err(e),
        };
        let whole = FrameResourceDesc::Texture(desc);
        let allocation_desc = match whole.concrete_capacity_desc_for_shape(shape) {
            Ok(d) => d,
            Err(e) => return Err(e),
        };
        self.push_allocation(id, allocation_desc, FrameResourceOwnership::Owned, true);
        Ok(descriptor)
    }

    /// Records a new owned, cacheable buffer allocation `id` at the current
    /// size of `desc`, and returns the descriptor to create it from. An id
    /// already in the pool, or a descriptor that fails validation, is refused
    /// and the pool is unchanged.
    pub fn create_owned_buffer(&mut self, id: FrameResourceAllocationId, desc: FrameBufferDesc) -> (r: FrameResourceResult<
        FrameBufferDescriptor,
    >)
        ensures
            final(self).spec_max_unused_age() == old(self).spec_max_unused_age(),
            r is Ok <==> !holds_id(old(self).spec_allocations(), id) && desc.validation() is Ok,
            holds_id(old(self).spec_allocations(), id) ==> r == Err::<FrameBufferDescriptor, FrameResourceError>(
                duplicate_allocation_error(),
            ),
            !holds_id(old(self).spec_allocations(), id) && desc.validation() is Err ==> r == Err::<
                FrameBufferDescriptor,
                FrameResourceError,
            >(desc.validation()->Err_0),
            r is Err ==> final(self).spec_allocations() == old(self).spec_allocations(),
            r is Ok ==> {
                &&& r->Ok_0 == (FrameBufferDescriptor { size: desc.spec_current_size(), ..desc.spec_descriptor() })
                &&& appended(
                    old(self).spec_allocations(),
                    final(self).spec_allocations(),
                    id,
                    FrameResourceOwnership::Owned,
                    true,
                )
                &&& FrameResourceDesc::Buffer(desc).is_capacity_at(
                    &final(self).spec_allocations().last().desc,
                    FrameResourceDesc::Buffer(desc).current_shape(),
                )
                &&& ids_unique(old(self).spec_allocations()) ==> ids_unique(final(self).spec_allocations())
            },
    {
        match self.validate_new_allocation(id) {
            Ok(()) => {},
            Err(e) => return Err(e),
        }
        match desc.validate() {
            Ok(()) => {},
            Err(e) => return Err(e),
        }
        let shape = desc.current_allocation_shape();
        let descriptor = match desc.concrete_descriptor_for_shape(shape) {
            Ok(d) => d,
            Err(e) => return Err(e),
        };
        let whole = FrameResourceDesc::Buffer(desc);
        let allocation_desc = match whole.concrete_capacity_desc_for_shape(shape) {
            Ok(d) => d,
            Err(e) => return Err(e),
        };
        self.push_allocation(id, allocation_desc, FrameResourceOwnership::Owned, true);
        Ok(descriptor)
    }

    fn insert_external(&mut self, id: FrameResourceAllocationId, desc: FrameResourceDesc, ownership: FrameResourceOwnership) -> (r:
        FrameResourceResult<()>)
        ensures
            final(self).spec_max_unused_age() == old(self).spec_max_unused_age(),
            r is Ok <==> !holds_id(old(self).spec_allocations(), id) && desc.validation() is Ok,
            holds_id(old(self).spec_allocations(), id) ==> r == Err::<(), FrameResourceError>(duplicate_allocation_error()),
            !holds_id(old(self).spec_allocations(), id) && desc.validation() is Err ==> r == Err::<(), FrameResourceError>(
                desc.validation()->Err_0,
            ),
            r is Err ==> final(self).spec_allocations() == old(self).spec_allocations(),
            r is Ok ==> {
                &&& appended(old(self).spec_allocations(), final(self).spec_allocations(), id, ownership, false)
                &&& final(self).spec_allocations().last().desc == desc
                &&& ids_unique(old(self).spec_allocations()) ==> ids_unique(final(self).spec_allocations())
            },
    {
        match self.validate_new_allocation(id) {
            Ok(()) => {},
            Err(e) => return Err(e),
        }
        match desc.validate() {
            Ok(()) => {},
            Err(e) => return Err(e),
        }
        self.push_allocation(id, desc, ownership, false);
        Ok(())
    }

    /// Records an imported texture under `id`; it is never cached.
    pub fn import_texture(&mut self, id: FrameResourceAllocationId, desc: FrameTextureDesc) -> (r: FrameResourceResult<()>)
        ensures
            final(self).spec_max_unused_age() == old(self).spec_max_unused_age(),
            r is Ok <==> !holds_id(old(self).spec_allocations(), id) && desc.validation() is Ok,
            holds_id(old(self).spec_allocations(), id) ==> r == Err::<(), FrameResourceError>(duplicate_allocation_error()),
            !holds_id(old(self).spec_allocations(), id) && desc.validation() is Err ==> r == Err::<(), FrameResourceError>(
                desc.validation()->Err_0,
            ),
            r is Err ==> final(self).spec_allocations() == old(self).spec_allocations(),
            r is Ok ==> appended(
                old(self).spec_allocations(),
                final(self).spec_allocations(),
                id,
                FrameResourceOwnership::Imported,
                false,
            ) && final(self).spec_allocations().last().desc == FrameResourceDesc::Texture(desc),
    {
        self.insert_external(id, FrameResourceDesc::Texture(desc), FrameResourceOwnership::Imported)
    }

    /// Records a texture swapped in from outside under `id`; it is never cached.
    pub fn insert_external_swap_texture(&mut self, id: FrameResourceAllocationId, desc: FrameTextureDesc) -> (r:
        FrameResourceResult<()>)
        ensures
            final(self).spec_max_unused_age() == old(self).spec_max_unused_age(),
            r is Ok <==> !holds_id(old(self).spec_allocations(), id) && desc.validation() is Ok,
            holds_id(old(self).spec_allocations(), id) ==> r == Err::<(), FrameResourceError>(duplicate_allocation_error()),
            !holds_id(old(self).spec_allocations(), id) && desc.validation() is Err ==> r == Err::<(), FrameResourceError>(
                desc.validation()->Err_0,
            ),
            r is Err ==> final(self).spec_allocations() == old(self).spec_allocations(),
            r is Ok ==> appended(
                old(self).spec_allocations(),
                final(self).spec_allocations(),
                id,
                FrameResourceOwnership::ExternalSwap,
                false,
            ) && final(self).spec_allocations().last().desc == FrameResourceDesc::Texture(desc),
    {
        self.insert_external(id, FrameResourceDesc::Texture(desc), FrameResourceOwnership::ExternalSwap)
    }

    /// Records an imported buffer under `id`; it is never cached.
    pub fn import_buffer(&mut self, id: FrameResourceAllocationId, desc: FrameBufferDesc) -> (r: FrameResourceResult<()>)
        ensures
            final(self).spec_max_unused_age() == old(self).spec_max_unused_age(),
            r is Ok <==> !holds_id(old(self).spec_allocations(), id) && desc.validation() is Ok,
            holds_id(old(self).spec_allocations(), id) ==> r == Err::<(), FrameResourceError>(duplicate_allocation_error()),
            !holds_id(old(self).spec_allocations(), id) && desc.validation() is Err ==> r == Err::<(), FrameResourceError>(
                desc.validation()->Err_0,
            ),
            r is Err ==> final(self).spec_allocations() == old(self).spec_allocations(),
            r is Ok ==> appended(
                old(self).spec_allocations(),
                final(self).spec_allocations(),
                id,
                FrameResourceOwnership::Imported,
                false,
            ) && final(self).spec_allocations().last().desc == FrameResourceDesc::Buffer(desc),
    {
        self.insert_external(id, FrameResourceDesc::Buffer(desc), FrameResourceOwnership::Imported)
    }

    /// Records a buffer swapped in from outside under `id`; it is never cached.
    pub fn insert_external_swap_buffer(&mut self, id: FrameResourceAllocationId, desc: FrameBufferDesc) -> (r:
        FrameResourceResult<()>)
        ensures
            final(self).spec_max_unused_age() == old(self).spec_max_unused_age(),
            r is Ok <==> !holds_id(old(self).spec_allocations(), id) && desc.validation() is Ok,
            holds_id(old(self).spec_allocations(), id) ==> r == Err::<(), FrameResourceError>(duplicate_allocation_error()),
            !holds_id(old(self).spec_allocations(), id) && desc.validation() is Err ==> r == Err::<(), FrameResourceError>(
                desc.validation()->Err_0,
            ),
            r is Err ==> final(self).spec_allocations() == old(self).spec_allocations(),
            r is Ok ==> appended(
                old(self).spec_allocations(),
                final(self).spec_allocations(),
                id,
                FrameResourceOwnership::ExternalSwap,
                false,
            ) && final(self).spec_allocations().last().desc == FrameResourceDesc::Buffer(desc),
    {
        self.insert_external(id, FrameResourceDesc::Buffer(desc), FrameResourceOwnership::ExternalSwap)
    }
}


impl FrameResourcePool {
    /// Marks allocation `id` used this frame and resets its over-capacity age.
    pub fn mark_used_this_frame(&mut self, id: FrameResourceAllocationId) -> (r: FrameResourceResult<()>)
        ensures
            final(self).spec_max_unused_age() == old(self).spec_max_unused_age(),
            r is Ok <==> holds_id(old(self).spec_allocations(), id),
            r is Err ==> r->Err_0 == missing_allocation_error("FrameResourcePool::mark_used_this_frame")
                && final(self).spec_allocations() == old(self).spec_allocations(),
            r is Ok ==> exists|i: int| #[trigger]
                first_position(old(self).spec_allocations(), id, i) && final(self).spec_allocations() == old(
                    self,
                ).spec_allocations().update(
                    i,
                    FrameResourceAllocation {
                        used_this_frame: true,
                        overcapacity_age: 0,
                        ..old(self).spec_allocations()[i]
                    },
                ),
    {
        let i = match self.position(id) {
            Some(i) => i,
            None => return Err(
                FrameResourceError::InvalidOperation {
                    operation: "FrameResourcePool::mark_used_this_frame",
                    reason: "frame resource allocation id is not in the pool",
                },
            ),
        };
        let ghost before = self.allocations@;
        let mut allocation = self.allocations.remove(i);
        allocation.used_this_frame = true;
        allocation.overcapacity_age = 0;
        self.allocations.insert(i, allocation);
        assert(self.allocations@ =~= before.update(i as int, allocation));
        Ok(())
    }

    /// Marks allocation `id` used this frame for `requested`; a cached
    /// allocation that can serve the request but has another current shape
    /// grows one frame older in over-capacity, any other starts over.
    pub fn mark_used_this_frame_for_request(&mut self, id: FrameResourceAllocationId, requested: &FrameResourceDesc) -> (r:
        FrameResourceResult<()>)
        ensures
            final(self).spec_max_unused_age() == old(self).spec_max_unused_age(),
            r is Ok <==> holds_id(old(self).spec_allocations(), id),
            r is Err ==> r->Err_0 == missing_allocation_error("FrameResourcePool::mark_used_this_frame_for_request")
                && final(self).spec_allocations() == old(self).spec_allocations(),
            r is Ok ==> exists|i: int| #[trigger]
                first_position(old(self).spec_allocations(), id, i) && {
                    let a = old(self).spec_allocations()[i];
                    final(self).spec_allocations() == old(self).spec_allocations().update(
                        i,
                        FrameResourceAllocation {
                            used_this_frame: true,
                            overcapacity_age: if is_oversized_for(a, *requested) {
                                saturating_next(a.overcapacity_age)
                            } else {
                                0
                            },
                            ..a
                        },
                    )
                },
    {
        let i = match self.position(id) {
            Some(i) => i,
            None => return Err(
                FrameResourceError::InvalidOperation {
                    operation: "FrameResourcePool::mark_used_this_frame_for_request",
                    reason: "frame resource allocation id is not in the pool",
                },
            ),
        };
        let ghost before = self.allocations@;
        let mut allocation = self.allocations.remove(i);
        allocation.used_this_frame = true;
        let oversized = allocation.ownership == FrameResourceOwnership::Owned && allocation.cacheable
            && allocation.desc.can_reuse_for(requested) && allocation.desc.current_allocation_shape()
            != requested.current_allocation_shape();
        if oversized {
            allocation.overcapacity_age = allocation.overcapacity_age.saturating_add(1);
        } else {
            allocation.overcapacity_age = 0;
        }
        self.allocations.insert(i, allocation);
        assert(self.allocations@ =~= before.update(i as int, allocation));
        Ok(())
    }

    /// Makes allocation `id` never cached again.
    pub fn mark_non_cacheable(&mut self, id: FrameResourceAllocationId) -> (r: FrameResourceResult<()>)
        ensures
            final(self).spec_max_unused_age() == old(self).spec_max_unused_age(),
            r is Ok <==> holds_id(old(self).spec_allocations(), id),
            r is Err ==> r->Err_0 == missing_allocation_error("FrameResourcePool::mark_non_cacheable")
                && final(self).spec_allocations() == old(self).spec_allocations(),
            r is Ok ==> exists|i: int| #[trigger]
                first_position(old(self).spec_allocations(), id, i) && final(self).spec_allocations() == old(
                    self,
                ).spec_allocations().update(
                    i,
                    FrameResourceAllocation { cacheable: false, ..old(self).spec_allocations()[i] },
                ),
    {
        let i = match self.position(id) {
            Some(i) => i,
            None => return Err(
                FrameResourceError::InvalidOperation {
                    operation: "FrameResourcePool::mark_non_cacheable",
                    reason: "frame resource allocation id is not in the pool",
                },
            ),
        };
        let ghost before = self.allocations@;
        let mut allocation = self.allocations.remove(i);
        allocation.cacheable = false;
        self.allocations.insert(i, allocation);
        assert(self.allocations@ =~= before.update(i as int, allocation));
        Ok(())
    }

    /// Ends a frame: every allocation ages, and only cached allocations that
    /// are neither unused nor over capacity for too long stay.
    pub fn cleanup_after_frame(&mut self)
        ensures
            final(self).spec_max_unused_age() == old(self).spec_max_unused_age(),
            final(self).spec_allocations() == after_cleanup(old(self).spec_allocations(), old(self).spec_max_unused_age()),
    {
        let ghost orig = self.allocations@;
        let total = self.allocations.len();
        let max_unused_age = self.max_unused_age;
        let mut k: usize = 0;
        let mut i: usize = 0;
        while i < self.allocations.len()
            invariant
                k <= orig.len(),
                orig.len() == total,
                max_unused_age == self.max_unused_age,
                self.allocations@ == after_cleanup(orig.take(k as int), max_unused_age) + orig.skip(k as int),
                i == after_cleanup(orig.take(k as int), max_unused_age).len(),
            decreases orig.len() - k,
        {
            let ghost kept = after_cleanup(orig.take(k as int), max_unused_age);
            proof {
                assert(orig.skip(k as int).len() > 0);
                assert(self.allocations@[i as int] == orig[k as int]);
                assert(orig.take(k + 1).drop_last() =~= orig.take(k as int));
                assert(orig.take(k + 1).last() == orig[k as int]);
            }
            let mut allocation = self.allocations.remove(i);
            if allocation.used_this_frame {
                allocation.age = 0;
                allocation.used_this_frame = false;
            } else {
                allocation.age = allocation.age.saturating_add(1);
            }
            let keep = allocation.ownership == FrameResourceOwnership::Owned && allocation.cacheable && allocation.age
                <= max_unused_age && allocation.overcapacity_age <= max_unused_age;
            assert(allocation == aged(orig[k as int]));
            if keep {
                self.allocations.insert(i, allocation);
                proof {
                    assert(self.allocations@ =~= kept.push(allocation) + orig.skip(k + 1));
                }
                i = i + 1;
            } else {
                proof {
                    assert(self.allocations@ =~= kept + orig.skip(k + 1));
                }
            }
            k = k + 1;
        }
        proof {
            let kept = after_cleanup(orig.take(k as int), max_unused_age);
            assert(orig.skip(k as int).len() == 0);
            assert(k == orig.len());
            assert(orig.take(k as int) =~= orig);
            assert(self.allocations@ =~= kept);
        }
    }

    /// Drops every allocation.
    pub fn clear_all_caches(&mut self)
        ensures
            final(self).spec_max_unused_age() == old(self).spec_max_unused_age(),
            final(self).spec_allocations().len() == 0,
    {
        self.allocations = Vec::new();
    }

    /// The ids of the cached allocations that can serve `requested` but have
    /// another current shape, in pool order.
    pub fn oversized_cached_allocations_for(&self, requested: &FrameResourceDesc) -> (r: Vec<FrameResourceAllocationId>)
        ensures
            r@ == oversized_ids(self.spec_allocations(), *requested),
    {
        let mut ids: Vec<FrameResourceAllocationId> = Vec::new();
        let mut i: usize = 0;
        while i < self.allocations.len()
            invariant
                i <= self.allocations@.len(),
                ids@ == oversized_ids(self.allocations@.take(i as int), *requested),
            decreases self.allocations@.len() - i,
        {
            proof {
                assert(self.allocations@.take(i + 1).drop_last() =~= self.allocations@.take(i as int));
            }
            let allocation = &self.allocations[i];
            if allocation.ownership == FrameResourceOwnership::Owned && allocation.cacheable
                && allocation.desc.can_reuse_for(requested) && allocation.desc.current_allocation_shape()
                != requested.current_allocation_shape() {
                ids.push(allocation.id);
            }
            i = i + 1;
        }
        proof {
            assert(self.allocations@.take(i as int) =~= self.allocations@);
        }
        ids
    }

    /// The cached allocations, in pool order, as candidates planning may hand out again.
    pub fn planner_candidates(&self) -> (r: Vec<FrameResourcePoolCandidate>)
        ensures
            r@.len() == cached_allocations(self.spec_allocations()).len(),
            forall|j: int|
                0 <= j < r@.len() ==> {
                    let a = cached_allocations(self.spec_allocations())[j];
                    &&& (#[trigger] r@[j]).allocation_id == a.id
                    &&& r@[j].desc.same_as(&a.desc)
                    &&& r@[j].class == FrameResourceAllocationClass::OwnedReusable
                },
    {
        let mut candidates: Vec<FrameResourcePoolCandidate> = Vec::new();
        let mut i: usize = 0;
        while i < self.allocations.len()
            invariant
                i <= self.allocations@.len(),
                candidates@.len() == cached_allocations(self.allocations@.take(i as int)).len(),
                forall|j: int|
                    0 <= j < candidates@.len() ==> {
                        let a = cached_allocations(self.allocations@.take(i as int))[j];
                        &&& (#[trigger] candidates@[j]).allocation_id == a.id
                        &&& candidates@[j].desc.same_as(&a.desc)
                        &&& candidates@[j].class == FrameResourceAllocationClass::OwnedReusable
                    },
            decreases self.allocations@.len() - i,
        {
            proof {
                assert(self.allocations@.take(i + 1).drop_last() =~= self.allocations@.take(i as int));
            }
            let allocation = &self.allocations[i];
            if allocation.ownership == FrameResourceOwnership::Owned && allocation.cacheable {
                candidates.push(FrameResourcePoolCandidate::owned_reusable(allocation.id, allocation.desc.copy()));
            }
            i = i + 1;
        }
        proof {
            assert(self.allocations@.take(i as int) =~= self.allocations@);
        }
        candidates
    }
}

impl Default for FrameResourcePool {
    fn default() -> (r: Self)
        ensures
            r.spec_allocations().len() == 0,
            r.spec_max_unused_age() == 3,
    {
        FrameResourcePool::new()
    }
}


/// After a frame ends, the pool holds only cached allocations that are not
/// marked used, whose ages are within the limit, and no more allocations than
/// before; an allocation that was cached, used this frame and within the
/// over-capacity limit is among them.
pub proof fn lemma_cleanup_keeps_only_fresh_cached(s: Seq<FrameResourceAllocation>, max_unused_age: u32)
    ensures
        after_cleanup(s, max_unused_age).len() <= s.len(),
        forall|i: int|
            0 <= i < after_cleanup(s, max_unused_age).len() ==> {
                let a = #[trigger] after_cleanup(s, max_unused_age)[i];
                &&& is_cached(a)
                &&& !a.used_this_frame
                &&& a.age <= max_unused_age
                &&& a.overcapacity_age <= max_unused_age
            },
        forall|i: int|
            0 <= i < s.len() && is_cached(#[trigger] s[i]) && s[i].used_this_frame && s[i].overcapacity_age
                <= max_unused_age ==> after_cleanup(s, max_unused_age).contains(aged(s[i])),
    decreases s.len(),
{
    if s.len() > 0 {
        let rest = s.drop_last();
        lemma_cleanup_keeps_only_fresh_cached(rest, max_unused_age);
        let r = after_cleanup(s, max_unused_age);
        let rr = after_cleanup(rest, max_unused_age);
        assert forall|i: int|
            0 <= i < s.len() && is_cached(#[trigger] s[i]) && s[i].used_this_frame && s[i].overcapacity_age
                <= max_unused_age implies r.contains(aged(s[i])) by {
            if i < s.len() - 1 {
                assert(rest[i] == s[i]);
                let j = choose|j: int| 0 <= j < rr.len() && rr[j] == aged(rest[i]);
                if survives_cleanup(aged(s.last()), max_unused_age) {
                    assert(r[j] == rr[j]);
                }
            } else {
                assert(r[r.len() - 1] == aged(s[i]));
            }
        }
    }
}

} // verus!
