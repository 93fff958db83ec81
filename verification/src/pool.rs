//! Frame resource pool assignment planning: which concrete allocation serves
//! each allocation request of a frame.
//!
//! Requests are planned largest first (then by start time, then by id). A
//! request that may be reused within the frame and cached across frames takes
//! the first planned allocation that can serve it and whose earlier requests do
//! not overlap it in time; every other request gets an allocation of its own.
use vstd::prelude::*;

use crate::error::{FrameResourceError, FrameResourceResult};
use crate::lifetime::{AllocationRequest, AllocationRequestSource, FrameLifetimeSolution, RequestRange};
use crate::resource_desc::{FrameResourceDesc, FrameResourceShape, extent_contains, usage_contains};
use crate::tags::{AllocationRequestId, FrameResourceAllocationId};

verus! {

/// Who owns the memory behind an allocation.
#[derive(Clone, Copy, Debug, PartialEq, Eq, Structural)]
pub enum FrameResourceOwnership {
    Owned,
    Imported,
    ExternalSwap,
}

/// How an allocation may be shared.
#[derive(Clone, Copy, Debug, PartialEq, Eq, Structural)]
pub enum FrameResourceAllocationClass {
    /// Owned, shareable within the frame and cacheable across frames.
    OwnedReusable,
    /// Owned, but serving one request only.
    OwnedRestricted,
    Imported,
    ExternalSwap,
}

/// Why a planned allocation could not serve a request.
#[derive(Clone, Copy, Debug, PartialEq, Eq, Structural)]
pub enum FrameResourceReuseRejectionReason {
    CandidateNotReusable,
    DescriptorIncompatible,
    LifetimeOverlaps,
    RequestNotReusable,
}

/// A planned allocation that was considered for a request and turned down.
#[derive(Clone, Copy, Debug, PartialEq, Eq, Structural)]
pub struct FrameResourceReuseRejection {
    pub request_id: AllocationRequestId,
    pub candidate_allocation_id: FrameResourceAllocationId,
    pub reason: FrameResourceReuseRejectionReason,
}

impl FrameResourceReuseRejection {
    pub fn request_id(&self) -> (r: AllocationRequestId)
        ensures
            r == self.request_id,
    {
        self.request_id
    }

    pub fn candidate_allocation_id(&self) -> (r: FrameResourceAllocationId)
        ensures
            r == self.candidate_allocation_id,
    {
        self.candidate_allocation_id
    }

    pub fn reason(&self) -> (r: FrameResourceReuseRejectionReason)
        ensures
            r == self.reason,
    {
        self.reason
    }
}

/// The allocation chosen for one request.
#[derive(Clone, Copy, Debug, PartialEq, Eq, Structural)]
pub struct FrameResourcePoolAssignment {
    pub request_id: AllocationRequestId,
    pub allocation_id: FrameResourceAllocationId,
    pub class: FrameResourceAllocationClass,
    /// Whether the allocation existed before this request: cached from an
    /// earlier frame or already serving an earlier request.
    pub reused_existing: bool,
}

impl FrameResourcePoolAssignment {
    pub fn request_id(&self) -> (r: AllocationRequestId)
        ensures
            r == self.request_id,
    {
        self.request_id
    }

    pub fn allocation_id(&self) -> (r: FrameResourceAllocationId)
        ensures
            r == self.allocation_id,
    {
        self.allocation_id
    }

    pub fn class(&self) -> (r: FrameResourceAllocationClass)
        ensures
            r == self.class,
    {
        self.class
    }

    pub fn reused_existing(&self) -> (r: bool)
        ensures
            r == self.reused_existing,
    {
        self.reused_existing
    }
}

/// An allocation cached from an earlier frame that planning may hand out again.
#[derive(Debug)]
pub struct FrameResourcePoolCandidate {
    pub allocation_id: FrameResourceAllocationId,
    pub desc: FrameResourceDesc,
    pub class: FrameResourceAllocationClass,
}

impl FrameResourcePoolCandidate {
    /// A cached allocation that may serve any compatible request.
    pub fn owned_reusable(allocation_id: FrameResourceAllocationId, desc: FrameResourceDesc) -> (r: Self)
        ensures
            r.allocation_id == allocation_id,
            r.desc == desc,
            r.class == FrameResourceAllocationClass::OwnedReusable,
    {
        FrameResourcePoolCandidate { allocation_id, desc, class: FrameResourceAllocationClass::OwnedReusable }
    }

    /// A cached allocation that planning must not hand out.
    pub fn restricted(allocation_id: FrameResourceAllocationId, desc: FrameResourceDesc) -> (r: Self)
        ensures
            r.allocation_id == allocation_id,
            r.desc == desc,
            r.class == FrameResourceAllocationClass::OwnedRestricted,
    {
        FrameResourcePoolCandidate { allocation_id, desc, class: FrameResourceAllocationClass::OwnedRestricted }
    }

    pub fn allocation_id(&self) -> (r: FrameResourceAllocationId)
        ensures
            r == self.allocation_id,
    {
        self.allocation_id
    }

    pub fn desc(&self) -> (r: &FrameResourceDesc)
        ensures
            *r == self.desc,
    {
        &self.desc
    }

    pub fn class(&self) -> (r: FrameResourceAllocationClass)
        ensures
            r == self.class,
    {
        self.class
    }
}

// ---------------------------------------------------------------------------
// The planning rules, stated over plain values.
// ---------------------------------------------------------------------------

/// Whether an allocation made at the current shape of `existing` can serve `request`.
pub open spec fn current_capacity_serves(existing: FrameResourceDesc, request: FrameResourceDesc) -> bool {
    match (existing, request) {
        (FrameResourceDesc::Texture(a), FrameResourceDesc::Texture(b)) => {
            let x = a.spec_descriptor();
            let y = b.spec_descriptor();
            &&& extent_contains(a.spec_current_size(), b.spec_current_size())
            &&& a.spec_current_mips() >= b.spec_current_mips()
            &&& x.sample_count == y.sample_count
            &&& x.dimension == y.dimension
            &&& x.format == y.format
            &&& usage_contains(x.usage, y.usage)
            &&& x.view_formats@ == y.view_formats@
        },
        (FrameResourceDesc::Buffer(a), FrameResourceDesc::Buffer(b)) => {
            &&& a.spec_current_size() >= b.spec_current_size()
            &&& a.spec_stride() == b.spec_stride()
            &&& usage_contains(a.spec_descriptor().usage, b.spec_descriptor().usage)
            &&& a.spec_descriptor().mapped_at_creation == b.spec_descriptor().mapped_at_creation
        },
        _ => false,
    }
}

/// The size of an allocation at the current shape: texels times mip levels,
/// or bytes.
pub open spec fn request_weight(desc: FrameResourceDesc) -> int {
    match desc.current_shape() {
        FrameResourceShape::Texture { size, mip_level_count } => size.width * size.height
            * size.depth_or_array_layers * mip_level_count,
        FrameResourceShape::Buffer { size_bytes } => size_bytes as int,
    }
}

/// Whether `a` is planned before `b`: heavier first, then earlier start, then
/// smaller id.
pub open spec fn planned_before(a: AllocationRequest, b: AllocationRequest) -> bool {
    let wa = request_weight(a.spec_desc());
    let wb = request_weight(b.spec_desc());
    let sa = a.spec_lifetime().spec_start();
    let sb = b.spec_lifetime().spec_start();
    ||| wa > wb
    ||| wa == wb && sa < sb
    ||| wa == wb && sa == sb && a.spec_id().0 < b.spec_id().0
}

/// Whether `order` lists the positions of `requests` in planning order.
pub open spec fn is_planning_order(requests: Seq<AllocationRequest>, order: Seq<int>) -> bool {
    &&& order.len() == requests.len()
    &&& forall|k: int| 0 <= k < order.len() ==> 0 <= #[trigger] order[k] < requests.len()
    &&& forall|k: int, l: int|
        0 <= k < l < order.len() ==> planned_before(requests[#[trigger] order[k]], requests[#[trigger] order[l]])
}

/// The sharing class of the allocation a request needs.
pub open spec fn class_for(request: AllocationRequest) -> FrameResourceAllocationClass {
    match request.spec_source() {
        AllocationRequestSource::Owned => if request.spec_can_reuse_same_frame()
            && request.spec_can_cache_across_frames() {
            FrameResourceAllocationClass::OwnedReusable
        } else {
            FrameResourceAllocationClass::OwnedRestricted
        },
        AllocationRequestSource::Imported(_) => FrameResourceAllocationClass::Imported,
        AllocationRequestSource::ExternalSwap(_) => FrameResourceAllocationClass::ExternalSwap,
    }
}

/// Whether no two cached candidates share an allocation id.
pub open spec fn cached_ids_unique(cached: Seq<FrameResourcePoolCandidate>) -> bool {
    forall|i: int, j: int|
        0 <= i < j < cached.len() ==> (#[trigger] cached[i]).allocation_id != (#[trigger] cached[j]).allocation_id
}

/// The first allocation id after every cached one.
pub open spec fn cached_next(cached: Seq<FrameResourcePoolCandidate>) -> int
    decreases cached.len(),
{
    if cached.len() == 0 {
        0
    } else {
        let rest = cached_next(cached.drop_last());
        let own = cached.last().allocation_id.0 + 1;
        if rest > own {
            rest
        } else {
            own
        }
    }
}

/// A planned allocation: the descriptor it was planned from, whether it was
/// cached (planned from a candidate) or made for a request at that request's
/// current shape, its class and the lifetimes of the requests it serves.
pub struct PlannedSlotModel {
    pub allocation_id: u32,
    pub source: FrameResourceDesc,
    pub cached: bool,
    pub class: FrameResourceAllocationClass,
    pub lifetimes: Seq<RequestRange>,
}

/// The state of planning after some requests.
pub struct PoolPlanModel {
    pub slots: Seq<PlannedSlotModel>,
    pub next_id: int,
    pub assignments: Seq<FrameResourcePoolAssignment>,
    pub order: Seq<AllocationRequestId>,
    pub rejections: Seq<FrameResourceReuseRejection>,
}

/// Whether the planned allocation can hold `request`'s descriptor.
pub open spec fn slot_fits(slot: PlannedSlotModel, request: FrameResourceDesc) -> bool {
    if slot.cached {
        slot.source.reusable_for(&request)
    } else {
        current_capacity_serves(slot.source, request)
    }
}

/// Why `slot` cannot serve `request`, if it cannot.
pub open spec fn reject_reason(request: AllocationRequest, slot: PlannedSlotModel) -> Option<
    FrameResourceReuseRejectionReason,
> {
    if !request.spec_can_reuse_same_frame() || !request.spec_can_cache_across_frames() {
        Some(FrameResourceReuseRejectionReason::RequestNotReusable)
    } else if slot.class != FrameResourceAllocationClass::OwnedReusable {
        Some(FrameResourceReuseRejectionReason::CandidateNotReusable)
    } else if !slot_fits(slot, request.spec_desc()) {
        Some(FrameResourceReuseRejectionReason::DescriptorIncompatible)
    } else if exists|j: int|
        0 <= j < slot.lifetimes.len() && (#[trigger] slot.lifetimes[j]).shares_time(request.spec_lifetime()) {
        Some(FrameResourceReuseRejectionReason::LifetimeOverlaps)
    } else {
        None
    }
}

/// The first position at or after `i` of a slot that can serve `request`, or
/// the number of slots.
pub open spec fn first_fit_from(request: AllocationRequest, slots: Seq<PlannedSlotModel>, i: int) -> int
    decreases slots.len() - i,
{
    if i >= slots.len() || i < 0 {
        slots.len() as int
    } else if reject_reason(request, slots[i]) is None {
        i
    } else {
        first_fit_from(request, slots, i + 1)
    }
}

/// The planning state after giving `request` a new allocation.
pub open spec fn with_new_slot(
    m: PoolPlanModel,
    request: AllocationRequest,
    class: FrameResourceAllocationClass,
) -> PoolPlanModel {
    PoolPlanModel {
        slots: m.slots.push(
            PlannedSlotModel {
                allocation_id: m.next_id as u32,
                source: request.spec_desc(),
                cached: false,
                class,
                lifetimes: seq![request.spec_lifetime()],
            },
        ),
        next_id: m.next_id + 1,
        assignments: m.assignments.push(
            FrameResourcePoolAssignment {
                request_id: request.spec_id(),
                allocation_id: FrameResourceAllocationId(m.next_id as u32),
                class,
                reused_existing: false,
            },
        ),
        ..m
    }
}

/// The rejections recorded for `request` against the first `count` slots.
pub open spec fn rejections_for(request: AllocationRequest, slots: Seq<PlannedSlotModel>, count: int) -> Seq<
    FrameResourceReuseRejection,
> {
    Seq::new(
        count as nat,
        |j: int|
            FrameResourceReuseRejection {
                request_id: request.spec_id(),
                candidate_allocation_id: FrameResourceAllocationId(slots[j].allocation_id),
                reason: reject_reason(request, slots[j])->0,
            },
    )
}

/// The planning state after planning `request`.
pub open spec fn plan_step(m: PoolPlanModel, request: AllocationRequest) -> PoolPlanModel {
    let class = class_for(request);
    let m1 = PoolPlanModel { order: m.order.push(request.spec_id()), ..m };
    if class != FrameResourceAllocationClass::OwnedReusable {
        with_new_slot(m1, request, class)
    } else {
        let f = first_fit_from(request, m.slots, 0);
        let m2 = PoolPlanModel { rejections: m.rejections + rejections_for(request, m.slots, f), ..m1 };
        if f < m.slots.len() {
            let slot = m.slots[f];
            PoolPlanModel {
                slots: m.slots.update(f, PlannedSlotModel { lifetimes: slot.lifetimes.push(request.spec_lifetime()), ..slot }),
                assignments: m.assignments.push(
                    FrameResourcePoolAssignment {
                        request_id: request.spec_id(),
                        allocation_id: FrameResourceAllocationId(slot.allocation_id),
                        class,
                        reused_existing: slot.cached || slot.lifetimes.len() > 0,
                    },
                ),
                ..m2
            }
        } else {
            with_new_slot(m2, request, class)
        }
    }
}

/// The planning state before any request: one slot per cached candidate.
pub open spec fn initial_plan(cached: Seq<FrameResourcePoolCandidate>) -> PoolPlanModel {
    PoolPlanModel {
        slots: Seq::new(
            cached.len(),
            |i: int|
                PlannedSlotModel {
                    allocation_id: cached[i].allocation_id.0,
                    source: cached[i].desc,
                    cached: true,
                    class: cached[i].class,
                    lifetimes: Seq::empty(),
                },
        ),
        next_id: cached_next(cached),
        assignments: Seq::empty(),
        order: Seq::empty(),
        rejections: Seq::empty(),
    }
}

/// The planning state after the first `k` requests of `order`.
pub open spec fn plan_prefix(
    requests: Seq<AllocationRequest>,
    cached: Seq<FrameResourcePoolCandidate>,
    order: Seq<int>,
    k: int,
) -> PoolPlanModel
    decreases k,
{
    if k <= 0 {
        initial_plan(cached)
    } else {
        plan_step(plan_prefix(requests, cached, order, k - 1), requests[order[k - 1]])
    }
}


/// Whether `order` lists the positions of `requests` in planning order and the
/// plan is the one planning builds in that order.
pub open spec fn plan_model(
    requests: Seq<AllocationRequest>,
    cached: Seq<FrameResourcePoolCandidate>,
    order: Seq<int>,
) -> PoolPlanModel {
    plan_prefix(requests, cached, order, order.len() as int)
}

proof fn lemma_first_fit_from(request: AllocationRequest, slots: Seq<PlannedSlotModel>, k: int, i: int)
    requires
        0 <= k <= i <= slots.len(),
        forall|j: int| 0 <= j < i ==> (#[trigger] reject_reason(request, slots[j])) is Some,
        i < slots.len() ==> reject_reason(request, slots[i]) is None,
    ensures
        first_fit_from(request, slots, k) == i,
    decreases i - k,
{
    if k < i {
        assert(reject_reason(request, slots[k]) is Some);
        lemma_first_fit_from(request, slots, k + 1, i);
    }
}

/// A planned allocation during planning.
struct PlannedSlot {
    allocation_id: FrameResourceAllocationId,
    desc: FrameResourceDesc,
    class: FrameResourceAllocationClass,
    lifetimes: Vec<RequestRange>,
    seeded_from_cache: bool,
}

spec fn slot_matches(s: PlannedSlot, m: PlannedSlotModel) -> bool {
    &&& s.allocation_id.0 == m.allocation_id
    &&& s.class == m.class
    &&& s.lifetimes@ == m.lifetimes
    &&& s.seeded_from_cache == m.cached
    &&& forall|b: FrameResourceDesc| #[trigger] s.desc.reusable_for(&b) == slot_fits(m, b)
}

fn allocation_class_for_request(request: &AllocationRequest) -> (r: FrameResourceAllocationClass)
    ensures
        r == class_for(*request),
{
    match request.source() {
        AllocationRequestSource::Owned => if request.can_reuse_same_frame() && request.can_cache_across_frames() {
            FrameResourceAllocationClass::OwnedReusable
        } else {
            FrameResourceAllocationClass::OwnedRestricted
        },
        AllocationRequestSource::Imported(_) => FrameResourceAllocationClass::Imported,
        AllocationRequestSource::ExternalSwap(_) => FrameResourceAllocationClass::ExternalSwap,
    }
}

fn reuse_rejection_reason(request: &AllocationRequest, slot: &PlannedSlot, Ghost(m): Ghost<PlannedSlotModel>) -> (r:
    Option<FrameResourceReuseRejectionReason>)
    requires
        slot_matches(*slot, m),
    ensures
        r == reject_reason(*request, m),
{
    if !request.can_reuse_same_frame() || !request.can_cache_across_frames() {
        return Some(FrameResourceReuseRejectionReason::RequestNotReusable);
    }
    if slot.class != FrameResourceAllocationClass::OwnedReusable {
        return Some(FrameResourceReuseRejectionReason::CandidateNotReusable);
    }
    let fits = slot.desc.can_reuse_for(request.desc());
    assert(fits == slot_fits(m, request.spec_desc()));
    if !fits {
        return Some(FrameResourceReuseRejectionReason::DescriptorIncompatible);
    }
    let lifetime = request.lifetime();
    let mut j: usize = 0;
    while j < slot.lifetimes.len()
        invariant
            j <= slot.lifetimes@.len(),
            slot.lifetimes@ == m.lifetimes,
            lifetime == request.spec_lifetime(),
            request.spec_can_reuse_same_frame() && request.spec_can_cache_across_frames(),
            m.class == FrameResourceAllocationClass::OwnedReusable,
            slot_fits(m, request.spec_desc()),
            forall|i: int| 0 <= i < j ==> !(#[trigger] slot.lifetimes@[i]).shares_time(lifetime),
        decreases slot.lifetimes@.len() - j,
    {
        if slot.lifetimes[j].overlaps(lifetime) {
            assert(m.lifetimes[j as int].shares_time(request.spec_lifetime()));
            return Some(FrameResourceReuseRejectionReason::LifetimeOverlaps);
        }
        j = j + 1;
    }
    None
}

/// The planning state during planning.
struct PoolAssignmentPlanner {
    slots: Vec<PlannedSlot>,
    next_allocation_id: u32,
    assignments: Vec<FrameResourcePoolAssignment>,
    assignment_order: Vec<AllocationRequestId>,
    rejections: Vec<FrameResourceReuseRejection>,
}

impl PoolAssignmentPlanner {
    spec fn matches(&self, m: PoolPlanModel) -> bool {
        &&& self.slots@.len() == m.slots.len()
        &&& forall|i: int| 0 <= i < m.slots.len() ==> slot_matches(#[trigger] self.slots@[i], m.slots[i])
        &&& self.next_allocation_id == m.next_id
        &&& self.assignments@ == m.assignments
        &&& self.assignment_order@ == m.order
        &&& self.rejections@ == m.rejections
    }

    fn create_new_slot(
        &mut self,
        request: &AllocationRequest,
        class: FrameResourceAllocationClass,
        Ghost(m): Ghost<PoolPlanModel>,
    ) -> (r: FrameResourceResult<()>)
        requires
            old(self).matches(m),
            m.next_id < u32::MAX,
            request.spec_desc().validation() is Ok,
        ensures
            r is Ok,
            final(self).matches(with_new_slot(m, *request, class)),
    {
        let shape = request.desc().current_allocation_shape();
        let desc = match request.desc().concrete_capacity_desc_for_shape(shape) {
            Ok(d) => d,
            Err(e) => return Err(e),
        };
        let allocation_id = FrameResourceAllocationId::new(self.next_allocation_id);
        self.next_allocation_id = self.next_allocation_id + 1;
        let mut lifetimes: Vec<RequestRange> = Vec::new();
        lifetimes.push(request.lifetime());
        let slot = PlannedSlot { allocation_id, desc, class, lifetimes, seeded_from_cache: false };
        proof {
            let nm = with_new_slot(m, *request, class);
            assert forall|b: FrameResourceDesc| #[trigger] slot.desc.reusable_for(&b) == slot_fits(
                nm.slots.last(),
                b,
            ) by {}
            assert(slot_matches(slot, nm.slots.last()));
        }
        self.slots.push(slot);
        self.assignments.push(
            FrameResourcePoolAssignment { request_id: request.id(), allocation_id, class, reused_existing: false },
        );
        proof {
            let nm = with_new_slot(m, *request, class);
            assert forall|i: int| 0 <= i < nm.slots.len() implies slot_matches(
                #[trigger] self.slots@[i],
                nm.slots[i],
            ) by {
                if i < m.slots.len() {
                    assert(self.slots@[i] == old(self).slots@[i]);
                }
            }
        }
        Ok(())
    }

    fn assign_request(&mut self, request: &AllocationRequest, Ghost(m): Ghost<PoolPlanModel>) -> (r:
        FrameResourceResult<()>)
        requires
            old(self).matches(m),
            m.next_id < u32::MAX,
            request.spec_desc().validation() is Ok,
        ensures
            r is Ok,
            final(self).matches(plan_step(m, *request)),
            m.next_id <= plan_step(m, *request).next_id <= m.next_id + 1,
    {
        self.assignment_order.push(request.id());
        let class = allocation_class_for_request(request);
        let ghost m1 = PoolPlanModel { order: m.order.push(request.spec_id()), ..m };
        assert(self.matches(m1));
        if class != FrameResourceAllocationClass::OwnedReusable {
            return self.create_new_slot(request, class, Ghost(m1));
        }
        let mut slot_index: usize = 0;
        while slot_index < self.slots.len()
            invariant
                slot_index <= m.slots.len(),
                m1 == (PoolPlanModel { order: m.order.push(request.spec_id()), ..m }),
                class == class_for(*request),
                class == FrameResourceAllocationClass::OwnedReusable,
                m.next_id < u32::MAX,
                request.spec_desc().validation() is Ok,
                self.matches(
                    PoolPlanModel { rejections: m.rejections + rejections_for(*request, m.slots, slot_index as int), ..m1 },
                ),
                forall|j: int| 0 <= j < slot_index ==> (#[trigger] reject_reason(*request, m.slots[j])) is Some,
            decreases m.slots.len() - slot_index,
        {
            assert(slot_matches(self.slots@[slot_index as int], m.slots[slot_index as int]));
            let reason = reuse_rejection_reason(request, &self.slots[slot_index], Ghost(m.slots[slot_index as int]));
            match reason {
                Some(reason) => {
                    let rejection = FrameResourceReuseRejection {
                        request_id: request.id(),
                        candidate_allocation_id: self.slots[slot_index].allocation_id,
                        reason,
                    };
                    self.rejections.push(rejection);
                    proof {
                        assert(rejections_for(*request, m.slots, slot_index + 1) =~= rejections_for(
                            *request,
                            m.slots,
                            slot_index as int,
                        ).push(rejection));
                        assert(m.rejections + rejections_for(*request, m.slots, slot_index + 1) =~= (m.rejections
                            + rejections_for(*request, m.slots, slot_index as int)).push(rejection));
                    }
                    slot_index = slot_index + 1;
                },
                None => {
                    proof {
                        lemma_first_fit_from(*request, m.slots, 0, slot_index as int);
                    }
                    let reused_existing = self.slots[slot_index].seeded_from_cache
                        || self.slots[slot_index].lifetimes.len() > 0;
                    let allocation_id = self.slots[slot_index].allocation_id;
                    let ghost before = self.slots@;
                    let mut slot = self.slots.remove(slot_index);
                    slot.lifetimes.push(request.lifetime());
                    self.slots.insert(slot_index, slot);
                    self.assignments.push(
                        FrameResourcePoolAssignment { request_id: request.id(), allocation_id, class, reused_existing },
                    );
                    proof {
                        let nm = plan_step(m, *request);
                        assert(first_fit_from(*request, m.slots, 0) == slot_index);
                        assert(nm.slots.len() == m.slots.len());
                        assert(before.len() == m.slots.len());
                        assert(self.slots@ =~= before.update(slot_index as int, slot));
                        assert forall|i: int| 0 <= i < nm.slots.len() implies slot_matches(
                            #[trigger] self.slots@[i],
                            nm.slots[i],
                        ) by {
                            if i != slot_index {
                                assert(self.slots@[i] == before[i]);
                            }
                        }
                    }
                    return Ok(());
                },
            }
        }
        proof {
            lemma_first_fit_from(*request, m.slots, 0, m.slots.len() as int);
        }
        let ghost m2 = PoolPlanModel { rejections: m.rejections + rejections_for(*request, m.slots, m.slots.len() as int), ..m1 };
        self.create_new_slot(request, class, Ghost(m2))
    }
}


fn validate_cached_allocation_ids(cached_allocations: &[FrameResourcePoolCandidate]) -> (r: FrameResourceResult<()>)
    ensures
        r is Ok <==> cached_ids_unique(cached_allocations@),
        r is Err ==> r == Err::<(), FrameResourceError>(
            FrameResourceError::InvalidOperation {
                operation: "FrameResourcePoolPlan::plan_with_cached_allocations",
                reason: "cached allocation ids must be unique",
            },
        ),
{
    let mut index: usize = 0;
    while index < cached_allocations.len()
        invariant
            index <= cached_allocations@.len(),
            forall|i: int, j: int|
                0 <= i < j < index ==> (#[trigger] cached_allocations@[i]).allocation_id
                    != (#[trigger] cached_allocations@[j]).allocation_id,
        decreases cached_allocations@.len() - index,
    {
        let mut previous: usize = 0;
        while previous < index
            invariant
                index < cached_allocations@.len(),
                previous <= index,
                forall|i: int| 0 <= i < previous ==> (#[trigger] cached_allocations@[i]).allocation_id
                    != cached_allocations@[index as int].allocation_id,
            decreases index - previous,
        {
            if cached_allocations[previous].allocation_id == cached_allocations[index].allocation_id {
                return Err(
                    FrameResourceError::InvalidOperation {
                        operation: "FrameResourcePoolPlan::plan_with_cached_allocations",
                        reason: "cached allocation ids must be unique",
                    },
                );
            }
            previous = previous + 1;
        }
        index = index + 1;
    }
    Ok(())
}

impl PoolAssignmentPlanner {
    fn new(cached_allocations: &[FrameResourcePoolCandidate]) -> (r: FrameResourceResult<Self>)
        requires
            forall|i: int| 0 <= i < cached_allocations@.len() ==> (#[trigger] cached_allocations@[i]).allocation_id.0 < u32::MAX,
        ensures
            r is Ok <==> cached_ids_unique(cached_allocations@),
            r is Err ==> r == Err::<Self, FrameResourceError>(
                FrameResourceError::InvalidOperation {
                    operation: "FrameResourcePoolPlan::plan_with_cached_allocations",
                    reason: "cached allocation ids must be unique",
                },
            ),
            r is Ok ==> r->Ok_0.matches(initial_plan(cached_allocations@)),
    {
        match validate_cached_allocation_ids(cached_allocations) {
            Ok(()) => {},
            Err(e) => return Err(e),
        }
        let ghost init = initial_plan(cached_allocations@);
        let mut next_allocation_id: u32 = 0;
        let mut slots: Vec<PlannedSlot> = Vec::new();
        let mut i: usize = 0;
        while i < cached_allocations.len()
            invariant
                i <= cached_allocations@.len(),
                init == initial_plan(cached_allocations@),
                forall|j: int| 0 <= j < cached_allocations@.len() ==> (#[trigger] cached_allocations@[j]).allocation_id.0 < u32::MAX,
                next_allocation_id == cached_next(cached_allocations@.take(i as int)),
                slots@.len() == i,
                forall|j: int| 0 <= j < i ==> slot_matches(#[trigger] slots@[j], init.slots[j]),
            decreases cached_allocations@.len() - i,
        {
            let candidate = &cached_allocations[i];
            let own = candidate.allocation_id.0 + 1;
            proof {
                assert(cached_allocations@.take(i + 1).drop_last() =~= cached_allocations@.take(i as int));
            }
            if own > next_allocation_id {
                next_allocation_id = own;
            }
            let desc = candidate.desc.copy();
            let slot = PlannedSlot {
                allocation_id: candidate.allocation_id,
                desc,
                class: candidate.class,
                lifetimes: Vec::new(),
                seeded_from_cache: true,
            };
            proof {
                assert forall|b: FrameResourceDesc| #[trigger] slot.desc.reusable_for(&b) == slot_fits(
                    init.slots[i as int],
                    b,
                ) by {}
                assert(slot.lifetimes@ =~= init.slots[i as int].lifetimes);
            }
            slots.push(slot);
            i = i + 1;
        }
        proof {
            assert(cached_allocations@.take(i as int) =~= cached_allocations@);
        }
        let planner = PoolAssignmentPlanner {
            slots,
            next_allocation_id,
            assignments: Vec::new(),
            assignment_order: Vec::new(),
            rejections: Vec::new(),
        };
        assert(planner.assignments@ =~= init.assignments);
        assert(planner.assignment_order@ =~= init.order);
        assert(planner.rejections@ =~= init.rejections);
        Ok(planner)
    }
}


proof fn lemma_mul_le(x: int, bx: int, y: int, by_: int)
    by (nonlinear_arith)
    requires
        0 <= x <= bx,
        0 <= y <= by_,
    ensures
        x * y <= bx * by_,
{
}

fn resource_weight(desc: &FrameResourceDesc) -> (r: u128)
    ensures
        r == request_weight(*desc),
{
    match desc.current_allocation_shape() {
        FrameResourceShape::Texture { size, mip_level_count } => {
            proof {
                let m: int = 0xffff_ffff;
                lemma_mul_le(size.width as int, m, size.height as int, m);
                lemma_mul_le(size.width * size.height, m * m, size.depth_or_array_layers as int, m);
                lemma_mul_le(size.width * size.height * size.depth_or_array_layers, m * m * m, mip_level_count as int, m);
                assert(m * m * m * m < 0x1_0000_0000_0000_0000_0000_0000_0000_0000);
            }
            let area = (size.width as u128) * (size.height as u128);
            let volume = area * (size.depth_or_array_layers as u128);
            volume * (mip_level_count as u128)
        },
        FrameResourceShape::Buffer { size_bytes } => size_bytes as u128,
    }
}

fn is_planned_before(a: &AllocationRequest, b: &AllocationRequest) -> (r: bool)
    ensures
        r == planned_before(*a, *b),
{
    let wa = resource_weight(a.desc());
    let wb = resource_weight(b.desc());
    if wa != wb {
        return wa > wb;
    }
    let sa = a.lifetime().start().get();
    let sb = b.lifetime().start().get();
    if sa != sb {
        return sa < sb;
    }
    a.id().get() < b.id().get()
}

proof fn lemma_planned_before_total(a: AllocationRequest, b: AllocationRequest)
    requires
        a.spec_id() != b.spec_id(),
    ensures
        planned_before(a, b) || planned_before(b, a),
{
}

proof fn lemma_planned_before_transitive(a: AllocationRequest, b: AllocationRequest, c: AllocationRequest)
    requires
        planned_before(a, b),
        planned_before(b, c),
    ensures
        planned_before(a, c),
{
}

/// The first position of `order` whose request `requests[x]` is planned after.
fn insertion_position(requests: &[AllocationRequest], order: &Vec<usize>, x: usize) -> (p: usize)
    requires
        x < requests@.len(),
        forall|k: int| 0 <= k < order@.len() ==> #[trigger] order@[k] < requests@.len(),
    ensures
        p <= order@.len(),
        forall|j: int| 0 <= j < p ==> !planned_before(requests@[x as int], requests@[#[trigger] order@[j] as int]),
        p < order@.len() ==> planned_before(requests@[x as int], requests@[order@[p as int] as int]),
{
    let mut p: usize = 0;
    while p < order.len()
        invariant
            p <= order@.len(),
            x < requests@.len(),
            forall|k: int| 0 <= k < order@.len() ==> #[trigger] order@[k] < requests@.len(),
            forall|j: int| 0 <= j < p ==> !planned_before(requests@[x as int], requests@[#[trigger] order@[j] as int]),
        decreases order@.len() - p,
    {
        if is_planned_before(&requests[x], &requests[order[p]]) {
            return p;
        }
        p = p + 1;
    }
    p
}

/// The positions of `requests` in planning order.
fn planning_order(requests: &[AllocationRequest]) -> (order: Vec<usize>)
    requires
        forall|i: int| 0 <= i < requests@.len() ==> (#[trigger] requests@[i]).spec_id().0 == i,
    ensures
        is_planning_order(requests@, order@.map_values(|x: usize| x as int)),
{
    let mut order: Vec<usize> = Vec::new();
    let mut i: usize = 0;
    while i < requests.len()
        invariant
            i <= requests@.len(),
            forall|k: int| 0 <= k < requests@.len() ==> (#[trigger] requests@[k]).spec_id().0 == k,
            order@.len() == i,
            forall|k: int| 0 <= k < order@.len() ==> #[trigger] order@[k] < i,
            forall|k: int, l: int|
                0 <= k < l < order@.len() ==> planned_before(
                    requests@[#[trigger] order@[k] as int],
                    requests@[#[trigger] order@[l] as int],
                ),
        decreases requests@.len() - i,
    {
        let p = insertion_position(requests, &order, i);
        let ghost old_order = order@;
        order.insert(p, i);
        proof {
            let x = requests@[i as int];
            assert forall|k: int, l: int| 0 <= k < l < order@.len() implies planned_before(
                requests@[#[trigger] order@[k] as int],
                requests@[#[trigger] order@[l] as int],
            ) by {
                if k < p && l < p {
                    assert(order@[k] == old_order[k] && order@[l] == old_order[l]);
                } else if k < p && l == p {
                    assert(order@[k] == old_order[k]);
                    let y = requests@[old_order[k] as int];
                    assert(!planned_before(x, y));
                    assert(y.spec_id().0 == old_order[k]);
                    lemma_planned_before_total(x, y);
                } else if k < p {
                    assert(order@[k] == old_order[k] && order@[l] == old_order[l - 1]);
                } else if k == p {
                    assert(order@[l] == old_order[l - 1]);
                    if l - 1 > p {
                        assert(planned_before(requests@[old_order[p as int] as int], requests@[old_order[l - 1] as int]));
                        lemma_planned_before_transitive(
                            x,
                            requests@[old_order[p as int] as int],
                            requests@[old_order[l - 1] as int],
                        );
                    }
                } else {
                    assert(order@[k] == old_order[k - 1] && order@[l] == old_order[l - 1]);
                }
            }
            assert forall|k: int| 0 <= k < order@.len() implies #[trigger] order@[k] < i + 1 by {
                if k < p {
                    assert(order@[k] == old_order[k]);
                } else if k > p {
                    assert(order@[k] == old_order[k - 1]);
                }
            }
        }
        i = i + 1;
    }
    proof {
        let mapped = order@.map_values(|x: usize| x as int);
        assert forall|k: int, l: int| 0 <= k < l < mapped.len() implies planned_before(
            requests@[#[trigger] mapped[k]],
            requests@[#[trigger] mapped[l]],
        ) by {
            assert(mapped[k] == order@[k] as int && mapped[l] == order@[l] as int);
        }
        assert forall|k: int| 0 <= k < mapped.len() implies 0 <= #[trigger] mapped[k] < requests@.len() by {
            assert(mapped[k] == order@[k] as int);
        }
    }
    order
}


/// Which allocation serves each allocation request of a frame, in planning
/// order, with every planned allocation that was considered and turned down.
#[derive(Debug)]
pub struct FrameResourcePoolPlan {
    assignments: Vec<FrameResourcePoolAssignment>,
    assignment_order: Vec<AllocationRequestId>,
    rejections: Vec<FrameResourceReuseRejection>,
}

impl FrameResourcePoolPlan {
    pub closed spec fn spec_assignments(&self) -> Seq<FrameResourcePoolAssignment> {
        self.assignments@
    }

    pub closed spec fn spec_assignment_order(&self) -> Seq<AllocationRequestId> {
        self.assignment_order@
    }

    pub closed spec fn spec_rejections(&self) -> Seq<FrameResourceReuseRejection> {
        self.rejections@
    }

    /// Whether the plan holds the assignments, order and rejections of `m`.
    pub open spec fn is_plan_of(&self, m: PoolPlanModel) -> bool {
        &&& self.spec_assignments() == m.assignments
        &&& self.spec_assignment_order() == m.order
        &&& self.spec_rejections() == m.rejections
    }

    /// Plans the requests of `solution` with no cached allocations.
    pub fn plan(solution: &FrameLifetimeSolution) -> (r: FrameResourceResult<Self>)
        requires
            solution.spec_requests().len() <= u32::MAX,
        ensures
            r is Ok,
            exists|order: Seq<int>|
                #[trigger] is_planning_order(solution.spec_requests(), order) && r->Ok_0.is_plan_of(
                    plan_model(solution.spec_requests(), Seq::empty(), order),
                ),
    {
        let cached: Vec<FrameResourcePoolCandidate> = Vec::new();
        proof {
            assert(cached@ =~= Seq::<FrameResourcePoolCandidate>::empty());
        }
        Self::plan_with_cached_allocations(solution, cached.as_slice())
    }

    /// Plans the requests of `solution`, starting from the cached allocations;
    /// cached allocation ids must be unique. New allocations are numbered from
    /// the first id after every cached one.
    pub fn plan_with_cached_allocations(
        solution: &FrameLifetimeSolution,
        cached_allocations: &[FrameResourcePoolCandidate],
    ) -> (r: FrameResourceResult<Self>)
        requires
            forall|i: int| 0 <= i < cached_allocations@.len() ==> (#[trigger] cached_allocations@[i]).allocation_id.0 < u32::MAX,
            cached_next(cached_allocations@) + solution.spec_requests().len() <= u32::MAX,
        ensures
            r is Ok <==> cached_ids_unique(cached_allocations@),
            r is Err ==> r == Err::<Self, FrameResourceError>(
                FrameResourceError::InvalidOperation {
                    operation: "FrameResourcePoolPlan::plan_with_cached_allocations",
                    reason: "cached allocation ids must be unique",
                },
            ),
            r is Ok ==> exists|order: Seq<int>|
                #[trigger] is_planning_order(solution.spec_requests(), order) && r->Ok_0.is_plan_of(
                    plan_model(solution.spec_requests(), cached_allocations@, order),
                ),
    {
        proof {
            use_type_invariant(solution);
        }
        let requests = solution.allocation_requests();
        let order = planning_order(requests);
        let mut planner = match PoolAssignmentPlanner::new(cached_allocations) {
            Ok(p) => p,
            Err(e) => return Err(e),
        };
        let ghost ord = order@.map_values(|x: usize| x as int);
        let ghost base = cached_next(cached_allocations@);
        let mut k: usize = 0;
        while k < order.len()
            invariant
                k <= order@.len(),
                order@.len() == requests@.len(),
                requests@ == solution.spec_requests(),
                solution.well_formed(),
                ord == order@.map_values(|x: usize| x as int),
                is_planning_order(requests@, ord),
                base == cached_next(cached_allocations@),
                base + requests@.len() <= u32::MAX,
                planner.matches(plan_prefix(requests@, cached_allocations@, ord, k as int)),
                plan_prefix(requests@, cached_allocations@, ord, k as int).next_id <= base + k,
            decreases order@.len() - k,
        {
            let index = order[k];
            assert(ord[k as int] == index as int);
            assert(0 <= ord[k as int] < requests@.len());
            let request = &requests[index];
            assert(request.spec_desc().validation() is Ok);
            let ghost m = plan_prefix(requests@, cached_allocations@, ord, k as int);
            match planner.assign_request(request, Ghost(m)) {
                Ok(()) => {},
                Err(e) => return Err(e),
            }
            k = k + 1;
        }
        let plan = FrameResourcePoolPlan {
            assignments: planner.assignments,
            assignment_order: planner.assignment_order,
            rejections: planner.rejections,
        };
        assert(is_planning_order(solution.spec_requests(), ord));
        Ok(plan)
    }

    pub fn assignments(&self) -> (r: &[FrameResourcePoolAssignment])
        ensures
            r@ == self.spec_assignments(),
    {
        self.assignments.as_slice()
    }

    pub fn assignment_order(&self) -> (r: &[AllocationRequestId])
        ensures
            r@ == self.spec_assignment_order(),
    {
        self.assignment_order.as_slice()
    }

    pub fn rejections(&self) -> (r: &[FrameResourceReuseRejection])
        ensures
            r@ == self.spec_rejections(),
    {
        self.rejections.as_slice()
    }

    /// The first assignment of `request_id`.
    pub fn assignment_for_request(&self, request_id: AllocationRequestId) -> (r: Option<&FrameResourcePoolAssignment>)
        ensures
            r is None <==> forall|i: int|
                0 <= i < self.spec_assignments().len() ==> (#[trigger] self.spec_assignments()[i]).request_id
                    != request_id,
            r is Some ==> exists|i: int|
                0 <= i < self.spec_assignments().len() && *r->0 == #[trigger] self.spec_assignments()[i]
                    && r->0.request_id == request_id && forall|j: int|
                    0 <= j < i ==> (#[trigger] self.spec_assignments()[j]).request_id != request_id,
    {
        let mut i: usize = 0;
        while i < self.assignments.len()
            invariant
                i <= self.assignments@.len(),
                forall|j: int| 0 <= j < i ==> (#[trigger] self.assignments@[j]).request_id != request_id,
            decreases self.assignments@.len() - i,
        {
            if self.assignments[i].request_id == request_id {
                return Some(&self.assignments[i]);
            }
            i = i + 1;
        }
        None
    }
}


// ---------------------------------------------------------------------------
// What planning keeps.
// ---------------------------------------------------------------------------

/// Assignment `i` is served by slot `s`: the slot carries its allocation id,
/// holds its lifetime, can hold its descriptor and has its class.
pub open spec fn slot_holds(m: PoolPlanModel, s: int, i: int, request: AllocationRequest) -> bool {
    &&& 0 <= s < m.slots.len()
    &&& m.slots[s].allocation_id == m.assignments[i].allocation_id.0
    &&& m.slots[s].lifetimes.contains(request.spec_lifetime())
    &&& slot_fits(m.slots[s], request.spec_desc())
    &&& m.slots[s].class == class_for(request)
}

/// Slot `s` was planned from a cached candidate with its id and descriptor,
/// or made for the first request assigned to it.
pub open spec fn slot_origin(
    requests: Seq<AllocationRequest>,
    cached: Seq<FrameResourcePoolCandidate>,
    order: Seq<int>,
    m: PoolPlanModel,
    s: int,
) -> bool {
    if m.slots[s].cached {
        exists|c: int|
            0 <= c < cached.len() && (#[trigger] cached[c]).allocation_id.0 == m.slots[s].allocation_id
                && cached[c].desc == m.slots[s].source
    } else {
        &&& m.slots[s].lifetimes.len() > 0
        &&& exists|j: int|
            0 <= j < m.assignments.len() && (#[trigger] m.assignments[j]).allocation_id.0 == m.slots[s].allocation_id
                && !m.assignments[j].reused_existing && requests[order[j]].spec_desc() == m.slots[s].source
                && forall|i: int| 0 <= i < j ==> (#[trigger] m.assignments[i]).allocation_id.0 != m.slots[s].allocation_id
    }
}

/// Assignment `i` is that of the `i`-th request of `order`, with its class,
/// and some slot serves it.
pub open spec fn assignment_ok(requests: Seq<AllocationRequest>, order: Seq<int>, m: PoolPlanModel, i: int) -> bool {
    let q = requests[order[i]];
    &&& m.assignments[i].request_id == q.spec_id()
    &&& m.order[i] == q.spec_id()
    &&& m.assignments[i].class == class_for(q)
    &&& exists|s: int| slot_holds(m, s, i, q)
}

/// Every assignment before `k` is `assignment_ok`.
#[verifier::opaque]
pub open spec fn inv_assignments(requests: Seq<AllocationRequest>, order: Seq<int>, k: int, m: PoolPlanModel) -> bool {
    forall|i: int| 0 <= i < k ==> #[trigger] assignment_ok(requests, order, m, i)
}

/// No two slots share an allocation id, and every id is below `next_id`.
#[verifier::opaque]
pub open spec fn inv_slot_ids(m: PoolPlanModel) -> bool {
    &&& forall|s: int, t: int|
        0 <= s < t < m.slots.len() ==> (#[trigger] m.slots[s]).allocation_id != (#[trigger] m.slots[t]).allocation_id
    &&& forall|s: int| 0 <= s < m.slots.len() ==> (#[trigger] m.slots[s]).allocation_id < m.next_id
}

/// Every slot has a `slot_origin`.
#[verifier::opaque]
pub open spec fn inv_origins(
    requests: Seq<AllocationRequest>,
    cached: Seq<FrameResourcePoolCandidate>,
    order: Seq<int>,
    m: PoolPlanModel,
) -> bool {
    forall|s: int| 0 <= s < m.slots.len() ==> #[trigger] slot_origin(requests, cached, order, m, s)
}

/// Two assignments before `k` to one allocation have disjoint lifetimes.
#[verifier::opaque]
pub open spec fn inv_disjoint(requests: Seq<AllocationRequest>, order: Seq<int>, k: int, m: PoolPlanModel) -> bool {
    forall|a: int, b: int|
        0 <= a < b < k && (#[trigger] m.assignments[a]).allocation_id == (#[trigger] m.assignments[b]).allocation_id
            ==> !requests[order[a]].spec_lifetime().shares_time(requests[order[b]].spec_lifetime())
            && class_for(requests[order[a]]) == FrameResourceAllocationClass::OwnedReusable
            && class_for(requests[order[b]]) == FrameResourceAllocationClass::OwnedReusable
}

/// What holds of the planning state after the first `k` requests of `order`.
pub open spec fn plan_invariant(
    requests: Seq<AllocationRequest>,
    cached: Seq<FrameResourcePoolCandidate>,
    order: Seq<int>,
    k: int,
    m: PoolPlanModel,
) -> bool {
    &&& m.assignments.len() == k
    &&& m.order.len() == k
    &&& cached_next(cached) <= m.next_id <= cached_next(cached) + k
    &&& inv_assignments(requests, order, k, m)
    &&& inv_slot_ids(m)
    &&& inv_origins(requests, cached, order, m)
    &&& inv_disjoint(requests, order, k, m)
}

proof fn lemma_cached_next_bound(cached: Seq<FrameResourcePoolCandidate>)
    ensures
        cached_next(cached) >= 0,
        forall|i: int| 0 <= i < cached.len() ==> (#[trigger] cached[i]).allocation_id.0 < cached_next(cached),
    decreases cached.len(),
{
    if cached.len() > 0 {
        lemma_cached_next_bound(cached.drop_last());
        assert forall|i: int| 0 <= i < cached.len() implies (#[trigger] cached[i]).allocation_id.0 < cached_next(cached) by {
            if i < cached.len() - 1 {
                assert(cached.drop_last()[i] == cached[i]);
            }
        }
    }
}

/// An allocation made at a request's current shape holds that request.
pub proof fn lemma_current_capacity_serves_itself(desc: FrameResourceDesc)
    ensures
        current_capacity_serves(desc, desc),
{
    match desc {
        FrameResourceDesc::Texture(a) => {
            let u = a.spec_descriptor().usage;
            assert(u & u == u) by (bit_vector);
        },
        FrameResourceDesc::Buffer(a) => {
            let u = a.spec_descriptor().usage;
            assert(u & u == u) by (bit_vector);
        },
    }
}


/// The facts every planning law rests on.
pub open spec fn planning_inputs_ok(
    requests: Seq<AllocationRequest>,
    cached: Seq<FrameResourcePoolCandidate>,
    order: Seq<int>,
) -> bool {
    &&& forall|i: int| 0 <= i < requests.len() ==> (#[trigger] requests[i]).spec_id().0 == i
    &&& is_planning_order(requests, order)
    &&& cached_ids_unique(cached)
    &&& cached_next(cached) + requests.len() <= u32::MAX
}

proof fn lemma_plan_initial(
    requests: Seq<AllocationRequest>,
    cached: Seq<FrameResourcePoolCandidate>,
    order: Seq<int>,
)
    requires
        planning_inputs_ok(requests, cached, order),
    ensures
        plan_invariant(requests, cached, order, 0, initial_plan(cached)),
{
    reveal(inv_assignments);
    reveal(inv_slot_ids);
    reveal(inv_origins);
    reveal(inv_disjoint);
    let m = initial_plan(cached);
    lemma_cached_next_bound(cached);
    assert forall|s: int, t: int| 0 <= s < t < m.slots.len() implies (#[trigger] m.slots[s]).allocation_id
        != (#[trigger] m.slots[t]).allocation_id by {
        assert(cached[s].allocation_id != cached[t].allocation_id);
    }
    assert forall|s: int| 0 <= s < m.slots.len() implies #[trigger] slot_origin(requests, cached, order, m, s) by {
        assert(cached[s].allocation_id.0 == m.slots[s].allocation_id);
    }
    assert forall|s: int| 0 <= s < m.slots.len() implies (#[trigger] m.slots[s]).allocation_id < m.next_id by {
        assert(cached[s].allocation_id.0 < cached_next(cached));
    }
}

/// An assignment before `k` names an allocation id below `next_id`.
proof fn lemma_assigned_ids_below(
    requests: Seq<AllocationRequest>,
    cached: Seq<FrameResourcePoolCandidate>,
    order: Seq<int>,
    k: int,
    m: PoolPlanModel,
)
    requires
        plan_invariant(requests, cached, order, k, m),
    ensures
        forall|i: int| 0 <= i < k ==> (#[trigger] m.assignments[i]).allocation_id.0 < m.next_id,
{
    reveal(inv_assignments);
    reveal(inv_slot_ids);
    assert forall|i: int| 0 <= i < k implies (#[trigger] m.assignments[i]).allocation_id.0 < m.next_id by {
        assert(assignment_ok(requests, order, m, i));
        let s = choose|s: int| slot_holds(m, s, i, requests[order[i]]);
        assert(m.slots[s].allocation_id < m.next_id);
    }
}

proof fn lemma_new_slot_assignments(
    requests: Seq<AllocationRequest>,
    cached: Seq<FrameResourcePoolCandidate>,
    order: Seq<int>,
    k: int,
    m: PoolPlanModel,
    mx: PoolPlanModel,
)
    requires
        planning_inputs_ok(requests, cached, order),
        0 <= k < order.len(),
        plan_invariant(requests, cached, order, k, m),
        mx.slots == m.slots,
        mx.next_id == m.next_id,
        mx.assignments == m.assignments,
        mx.order == m.order.push(requests[order[k]].spec_id()),
    ensures
        inv_assignments(requests, order, k + 1, with_new_slot(mx, requests[order[k]], class_for(requests[order[k]]))),
{
    reveal(inv_assignments);
    let q = requests[order[k]];
    let m2 = with_new_slot(mx, q, class_for(q));
    let n = m.slots.len() as int;
    assert(m.next_id < u32::MAX);
    lemma_current_capacity_serves_itself(q.spec_desc());
    assert(m2.slots[n].lifetimes[0] == q.spec_lifetime());
    assert(slot_holds(m2, n, k, q));
    assert(assignment_ok(requests, order, m2, k));
    assert forall|i: int| 0 <= i < k + 1 implies #[trigger] assignment_ok(requests, order, m2, i) by {
        if i < k {
            let qi = requests[order[i]];
            assert(assignment_ok(requests, order, m, i));
            let s = choose|s: int| slot_holds(m, s, i, qi);
            assert(m2.slots[s] == m.slots[s]);
            assert(slot_holds(m2, s, i, qi));
        }
    }
}

proof fn lemma_new_slot_ids(
    requests: Seq<AllocationRequest>,
    cached: Seq<FrameResourcePoolCandidate>,
    order: Seq<int>,
    k: int,
    m: PoolPlanModel,
    mx: PoolPlanModel,
)
    requires
        planning_inputs_ok(requests, cached, order),
        0 <= k < order.len(),
        plan_invariant(requests, cached, order, k, m),
        mx.slots == m.slots,
        mx.next_id == m.next_id,
    ensures
        inv_slot_ids(with_new_slot(mx, requests[order[k]], class_for(requests[order[k]]))),
{
    reveal(inv_slot_ids);
    let q = requests[order[k]];
    let m2 = with_new_slot(mx, q, class_for(q));
    let n = m.slots.len() as int;
    assert(m.next_id < u32::MAX);
    assert forall|s: int, t: int| 0 <= s < t < m2.slots.len() implies (#[trigger] m2.slots[s]).allocation_id
        != (#[trigger] m2.slots[t]).allocation_id by {
        if t == n {
            assert(m.slots[s].allocation_id < m.next_id);
        } else {
            assert(m.slots[s].allocation_id != m.slots[t].allocation_id);
        }
    }
    assert forall|s: int| 0 <= s < m2.slots.len() implies (#[trigger] m2.slots[s]).allocation_id < m2.next_id by {
        if s < n {
            assert(m.slots[s].allocation_id < m.next_id);
        }
    }
}

proof fn lemma_new_slot_origins(
    requests: Seq<AllocationRequest>,
    cached: Seq<FrameResourcePoolCandidate>,
    order: Seq<int>,
    k: int,
    m: PoolPlanModel,
    mx: PoolPlanModel,
)
    requires
        planning_inputs_ok(requests, cached, order),
        0 <= k < order.len(),
        plan_invariant(requests, cached, order, k, m),
        mx.slots == m.slots,
        mx.next_id == m.next_id,
        mx.assignments == m.assignments,
    ensures
        inv_origins(requests, cached, order, with_new_slot(mx, requests[order[k]], class_for(requests[order[k]]))),
{
    reveal(inv_origins);
    let q = requests[order[k]];
    let m2 = with_new_slot(mx, q, class_for(q));
    let n = m.slots.len() as int;
    assert(m.next_id < u32::MAX);
    lemma_assigned_ids_below(requests, cached, order, k, m);
    assert forall|s: int| 0 <= s < m2.slots.len() implies #[trigger] slot_origin(requests, cached, order, m2, s) by {
        if s < n {
            assert(slot_origin(requests, cached, order, m, s));
            assert(m2.slots[s] == m.slots[s]);
            if !m.slots[s].cached {
                let j = choose|j: int|
                    0 <= j < m.assignments.len() && (#[trigger] m.assignments[j]).allocation_id.0
                        == m.slots[s].allocation_id && !m.assignments[j].reused_existing && requests[order[j]].spec_desc()
                        == m.slots[s].source && forall|i: int|
                        0 <= i < j ==> (#[trigger] m.assignments[i]).allocation_id.0 != m.slots[s].allocation_id;
                assert(m2.assignments[j] == m.assignments[j]);
                assert forall|i: int| 0 <= i < j implies (#[trigger] m2.assignments[i]).allocation_id.0
                    != m2.slots[s].allocation_id by {
                    assert(m2.assignments[i] == m.assignments[i]);
                }
            }
        } else {
            assert forall|i: int| 0 <= i < k implies (#[trigger] m2.assignments[i]).allocation_id.0
                != m2.slots[s].allocation_id by {
                assert(m2.assignments[i] == m.assignments[i]);
                assert(m.assignments[i].allocation_id.0 < m.next_id);
            }
            assert(m2.assignments[k].allocation_id.0 == m2.slots[s].allocation_id);
        }
    }
}

proof fn lemma_new_slot_disjoint(
    requests: Seq<AllocationRequest>,
    cached: Seq<FrameResourcePoolCandidate>,
    order: Seq<int>,
    k: int,
    m: PoolPlanModel,
    mx: PoolPlanModel,
)
    requires
        planning_inputs_ok(requests, cached, order),
        0 <= k < order.len(),
        plan_invariant(requests, cached, order, k, m),
        mx.next_id == m.next_id,
        mx.assignments == m.assignments,
    ensures
        inv_disjoint(requests, order, k + 1, with_new_slot(mx, requests[order[k]], class_for(requests[order[k]]))),
{
    reveal(inv_disjoint);
    let q = requests[order[k]];
    let m2 = with_new_slot(mx, q, class_for(q));
    assert(m.next_id < u32::MAX);
    lemma_assigned_ids_below(requests, cached, order, k, m);
    assert forall|a: int, b: int|
        0 <= a < b < k + 1 && (#[trigger] m2.assignments[a]).allocation_id == (#[trigger] m2.assignments[b]).allocation_id
            implies !requests[order[a]].spec_lifetime().shares_time(requests[order[b]].spec_lifetime())
            && class_for(requests[order[a]]) == FrameResourceAllocationClass::OwnedReusable
            && class_for(requests[order[b]]) == FrameResourceAllocationClass::OwnedReusable by {
        assert(m2.assignments[a] == m.assignments[a]);
        if b < k {
            assert(m2.assignments[b] == m.assignments[b]);
        } else {
            assert(m.assignments[a].allocation_id.0 < m.next_id);
        }
    }
}


proof fn lemma_first_fit_found(request: AllocationRequest, slots: Seq<PlannedSlotModel>, i: int)
    requires
        0 <= i,
    ensures
        first_fit_from(request, slots, i) <= slots.len(),
        first_fit_from(request, slots, i) < slots.len() ==> reject_reason(
            request,
            slots[first_fit_from(request, slots, i)],
        ) is None && 0 <= first_fit_from(request, slots, i),
    decreases slots.len() - i,
{
    if i < slots.len() && reject_reason(request, slots[i]) is Some {
        lemma_first_fit_found(request, slots, i + 1);
    }
}

/// Planning `request` when it takes the planned allocation at `f`.
pub open spec fn reuse_case(m: PoolPlanModel, request: AllocationRequest, f: int) -> bool {
    &&& class_for(request) == FrameResourceAllocationClass::OwnedReusable
    &&& f == first_fit_from(request, m.slots, 0)
    &&& 0 <= f < m.slots.len()
    &&& reject_reason(request, m.slots[f]) is None
}

proof fn lemma_reuse_assignments(
    requests: Seq<AllocationRequest>,
    cached: Seq<FrameResourcePoolCandidate>,
    order: Seq<int>,
    k: int,
    m: PoolPlanModel,
    f: int,
)
    requires
        planning_inputs_ok(requests, cached, order),
        0 <= k < order.len(),
        plan_invariant(requests, cached, order, k, m),
        reuse_case(m, requests[order[k]], f),
    ensures
        inv_assignments(requests, order, k + 1, plan_step(m, requests[order[k]])),
{
    reveal(inv_assignments);
    let q = requests[order[k]];
    let m2 = plan_step(m, q);
    assert(m2.slots[f].lifetimes.last() == q.spec_lifetime());
    assert(m2.slots[f].lifetimes.contains(q.spec_lifetime()));
    assert(slot_holds(m2, f, k, q));
    assert(assignment_ok(requests, order, m2, k));
    assert forall|i: int| 0 <= i < k + 1 implies #[trigger] assignment_ok(requests, order, m2, i) by {
        if i < k {
            let qi = requests[order[i]];
            assert(assignment_ok(requests, order, m, i));
            let s = choose|s: int| slot_holds(m, s, i, qi);
            if s == f {
                let idx = choose|idx: int| 0 <= idx < m.slots[s].lifetimes.len() && m.slots[s].lifetimes[idx] == qi.spec_lifetime();
                assert(m2.slots[s].lifetimes[idx] == qi.spec_lifetime());
            } else {
                assert(m2.slots[s] == m.slots[s]);
            }
            assert(slot_holds(m2, s, i, qi));
        }
    }
}

proof fn lemma_reuse_ids_origins(
    requests: Seq<AllocationRequest>,
    cached: Seq<FrameResourcePoolCandidate>,
    order: Seq<int>,
    k: int,
    m: PoolPlanModel,
    f: int,
)
    requires
        planning_inputs_ok(requests, cached, order),
        0 <= k < order.len(),
        plan_invariant(requests, cached, order, k, m),
        reuse_case(m, requests[order[k]], f),
    ensures
        inv_slot_ids(plan_step(m, requests[order[k]])),
        inv_origins(requests, cached, order, plan_step(m, requests[order[k]])),
{
    reveal(inv_slot_ids);
    reveal(inv_origins);
    let q = requests[order[k]];
    let m2 = plan_step(m, q);
    assert forall|s: int| 0 <= s < m2.slots.len() implies #[trigger] slot_origin(requests, cached, order, m2, s) by {
        assert(slot_origin(requests, cached, order, m, s));
        assert(m2.slots[s].allocation_id == m.slots[s].allocation_id);
        assert(m2.slots[s].source == m.slots[s].source);
        assert(m2.slots[s].cached == m.slots[s].cached);
        if !m.slots[s].cached {
            let j = choose|j: int|
                0 <= j < m.assignments.len() && (#[trigger] m.assignments[j]).allocation_id.0 == m.slots[s].allocation_id
                    && !m.assignments[j].reused_existing && requests[order[j]].spec_desc() == m.slots[s].source
                    && forall|i: int| 0 <= i < j ==> (#[trigger] m.assignments[i]).allocation_id.0 != m.slots[s].allocation_id;
            assert(m2.assignments[j] == m.assignments[j]);
            assert forall|i: int| 0 <= i < j implies (#[trigger] m2.assignments[i]).allocation_id.0
                != m2.slots[s].allocation_id by {
                assert(m2.assignments[i] == m.assignments[i]);
            }
        }
    }
    assert forall|s: int, t: int| 0 <= s < t < m2.slots.len() implies (#[trigger] m2.slots[s]).allocation_id
        != (#[trigger] m2.slots[t]).allocation_id by {
        assert(m.slots[s].allocation_id != m.slots[t].allocation_id);
    }
    assert forall|s: int| 0 <= s < m2.slots.len() implies (#[trigger] m2.slots[s]).allocation_id < m2.next_id by {
        assert(m.slots[s].allocation_id < m.next_id);
    }
}

proof fn lemma_reuse_disjoint(
    requests: Seq<AllocationRequest>,
    cached: Seq<FrameResourcePoolCandidate>,
    order: Seq<int>,
    k: int,
    m: PoolPlanModel,
    f: int,
)
    requires
        planning_inputs_ok(requests, cached, order),
        0 <= k < order.len(),
        plan_invariant(requests, cached, order, k, m),
        reuse_case(m, requests[order[k]], f),
    ensures
        inv_disjoint(requests, order, k + 1, plan_step(m, requests[order[k]])),
{
    reveal(inv_disjoint);
    reveal(inv_assignments);
    reveal(inv_slot_ids);
    let q = requests[order[k]];
    let m2 = plan_step(m, q);
    assert forall|a: int, b: int|
        0 <= a < b < k + 1 && (#[trigger] m2.assignments[a]).allocation_id == (#[trigger] m2.assignments[b]).allocation_id
            implies !requests[order[a]].spec_lifetime().shares_time(requests[order[b]].spec_lifetime())
            && class_for(requests[order[a]]) == FrameResourceAllocationClass::OwnedReusable
            && class_for(requests[order[b]]) == FrameResourceAllocationClass::OwnedReusable by {
        assert(m2.assignments[a] == m.assignments[a]);
        if b < k {
            assert(m2.assignments[b] == m.assignments[b]);
        } else {
            let qa = requests[order[a]];
            assert(assignment_ok(requests, order, m, a));
            let s = choose|s: int| slot_holds(m, s, a, qa);
            if s != f {
                assert(m.slots[s].allocation_id != m.slots[f].allocation_id);
            }
            let idx = choose|idx: int| 0 <= idx < m.slots[f].lifetimes.len() && m.slots[f].lifetimes[idx] == qa.spec_lifetime();
            assert(!(m.slots[f].lifetimes[idx]).shares_time(q.spec_lifetime()));
        }
    }
}

proof fn lemma_plan_prefix_invariant(
    requests: Seq<AllocationRequest>,
    cached: Seq<FrameResourcePoolCandidate>,
    order: Seq<int>,
    k: int,
)
    requires
        planning_inputs_ok(requests, cached, order),
        0 <= k <= order.len(),
    ensures
        plan_invariant(requests, cached, order, k, plan_prefix(requests, cached, order, k)),
    decreases k,
{
    if k == 0 {
        lemma_plan_initial(requests, cached, order);
    } else {
        lemma_plan_prefix_invariant(requests, cached, order, k - 1);
        let m = plan_prefix(requests, cached, order, k - 1);
        let q = requests[order[k - 1]];
        assert(0 <= order[k - 1] < requests.len());
        let class = class_for(q);
        let m1 = PoolPlanModel { order: m.order.push(q.spec_id()), ..m };
        if class != FrameResourceAllocationClass::OwnedReusable {
            lemma_new_slot_assignments(requests, cached, order, k - 1, m, m1);
            lemma_new_slot_ids(requests, cached, order, k - 1, m, m1);
            lemma_new_slot_origins(requests, cached, order, k - 1, m, m1);
            lemma_new_slot_disjoint(requests, cached, order, k - 1, m, m1);
        } else {
            let f = first_fit_from(q, m.slots, 0);
            lemma_first_fit_found(q, m.slots, 0);
            if f < m.slots.len() {
                lemma_reuse_assignments(requests, cached, order, k - 1, m, f);
                lemma_reuse_ids_origins(requests, cached, order, k - 1, m, f);
                lemma_reuse_disjoint(requests, cached, order, k - 1, m, f);
            } else {
                let m2 = PoolPlanModel { rejections: m.rejections + rejections_for(q, m.slots, f), ..m1 };
                lemma_new_slot_assignments(requests, cached, order, k - 1, m, m2);
                lemma_new_slot_ids(requests, cached, order, k - 1, m, m2);
                lemma_new_slot_origins(requests, cached, order, k - 1, m, m2);
                lemma_new_slot_disjoint(requests, cached, order, k - 1, m, m2);
            }
        }
    }
}


// ---------------------------------------------------------------------------
// Laws of pool planning.
// ---------------------------------------------------------------------------

/// The inputs a plan of `solution` starting from `cached` is built from, in
/// the planning order `order`.
pub open spec fn plan_inputs(
    solution: FrameLifetimeSolution,
    cached: Seq<FrameResourcePoolCandidate>,
    order: Seq<int>,
) -> bool {
    &&& solution.well_formed()
    &&& is_planning_order(solution.spec_requests(), order)
    &&& cached_ids_unique(cached)
    &&& cached_next(cached) + solution.spec_requests().len() <= u32::MAX
}

proof fn lemma_plan_model_invariant(
    solution: FrameLifetimeSolution,
    cached: Seq<FrameResourcePoolCandidate>,
    order: Seq<int>,
)
    requires
        plan_inputs(solution, cached, order),
    ensures
        plan_invariant(
            solution.spec_requests(),
            cached,
            order,
            order.len() as int,
            plan_model(solution.spec_requests(), cached, order),
        ),
{
    let requests = solution.spec_requests();
    assert forall|i: int| 0 <= i < requests.len() implies (#[trigger] requests[i]).spec_id().0 == i by {}
    lemma_plan_prefix_invariant(requests, cached, order, order.len() as int);
}

/// Every request is planned once, in planning order: assignment `i` and the
/// `i`-th entry of the assignment order belong to the `i`-th request of
/// `order`, with the class that request needs.
pub proof fn lemma_plan_assigns_each_request_in_order(
    solution: FrameLifetimeSolution,
    cached: Seq<FrameResourcePoolCandidate>,
    order: Seq<int>,
)
    requires
        plan_inputs(solution, cached, order),
    ensures
        ({
            let requests = solution.spec_requests();
            let m = plan_model(requests, cached, order);
            &&& m.assignments.len() == requests.len()
            &&& m.order.len() == requests.len()
            &&& forall|i: int|
                0 <= i < requests.len() ==> {
                    &&& (#[trigger] m.assignments[i]).request_id == requests[order[i]].spec_id()
                    &&& m.order[i] == requests[order[i]].spec_id()
                    &&& m.assignments[i].class == class_for(requests[order[i]])
                }
            &&& forall|i: int, j: int|
                0 <= i < j < requests.len() ==> (#[trigger] m.assignments[i]).request_id != (#[trigger] m.assignments[j]).request_id
        }),
{
    reveal(inv_assignments);
    let requests = solution.spec_requests();
    let m = plan_model(requests, cached, order);
    lemma_plan_model_invariant(solution, cached, order);
    assert forall|i: int| 0 <= i < requests.len() implies {
        &&& (#[trigger] m.assignments[i]).request_id == requests[order[i]].spec_id()
        &&& m.order[i] == requests[order[i]].spec_id()
        &&& m.assignments[i].class == class_for(requests[order[i]])
    } by {
        assert(assignment_ok(requests, order, m, i));
    }
    assert forall|i: int, j: int| 0 <= i < j < requests.len() implies (#[trigger] m.assignments[i]).request_id
        != (#[trigger] m.assignments[j]).request_id by {
        assert(assignment_ok(requests, order, m, i));
        assert(assignment_ok(requests, order, m, j));
        assert(planned_before(requests[order[i]], requests[order[j]]));
        assert(0 <= order[i] < requests.len() && 0 <= order[j] < requests.len());
        assert(requests[order[i]].spec_id().0 == order[i]);
        assert(requests[order[j]].spec_id().0 == order[j]);
    }
}

/// Two requests that share an allocation are both reusable and never alive at
/// the same time.
pub proof fn lemma_plan_shared_allocations_never_overlap(
    solution: FrameLifetimeSolution,
    cached: Seq<FrameResourcePoolCandidate>,
    order: Seq<int>,
)
    requires
        plan_inputs(solution, cached, order),
    ensures
        ({
            let requests = solution.spec_requests();
            let m = plan_model(requests, cached, order);
            forall|a: int, b: int|
                0 <= a < b < m.assignments.len() && (#[trigger] m.assignments[a]).allocation_id
                    == (#[trigger] m.assignments[b]).allocation_id ==> {
                    &&& !requests[order[a]].spec_lifetime().shares_time(requests[order[b]].spec_lifetime())
                    &&& class_for(requests[order[a]]) == FrameResourceAllocationClass::OwnedReusable
                    &&& class_for(requests[order[b]]) == FrameResourceAllocationClass::OwnedReusable
                }
        }),
{
    reveal(inv_disjoint);
    lemma_plan_model_invariant(solution, cached, order);
}

/// Every assignment can hold its request: either its allocation is a cached
/// candidate whose descriptor can serve the request, or it was made, at the
/// current shape of the earliest request assigned to it, by that request.
#[verifier::spinoff_prover]
#[verifier::rlimit(40)]
pub proof fn lemma_plan_allocations_fit_their_requests(
    solution: FrameLifetimeSolution,
    cached: Seq<FrameResourcePoolCandidate>,
    order: Seq<int>,
)
    requires
        plan_inputs(solution, cached, order),
    ensures
        ({
            let requests = solution.spec_requests();
            let m = plan_model(requests, cached, order);
            forall|i: int|
                #![trigger m.assignments[i]]
                0 <= i < m.assignments.len() ==> {
                    let q = requests[order[i]];
                    ||| exists|c: int|
                        0 <= c < cached.len() && (#[trigger] cached[c]).allocation_id == m.assignments[i].allocation_id
                            && cached[c].desc.reusable_for(&q.spec_desc())
                    ||| exists|j: int|
                        0 <= j <= i && (#[trigger] m.assignments[j]).allocation_id == m.assignments[i].allocation_id
                            && !m.assignments[j].reused_existing && current_capacity_serves(
                            requests[order[j]].spec_desc(),
                            q.spec_desc(),
                        )
                }
        }),
{
    reveal(inv_assignments);
    reveal(inv_origins);
    let requests = solution.spec_requests();
    let m = plan_model(requests, cached, order);
    lemma_plan_model_invariant(solution, cached, order);
    assert forall|i: int| #![trigger m.assignments[i]] 0 <= i < m.assignments.len() implies {
        let q = requests[order[i]];
        ||| exists|c: int|
            0 <= c < cached.len() && (#[trigger] cached[c]).allocation_id == m.assignments[i].allocation_id
                && cached[c].desc.reusable_for(&q.spec_desc())
        ||| exists|j: int|
            0 <= j <= i && (#[trigger] m.assignments[j]).allocation_id == m.assignments[i].allocation_id
                && !m.assignments[j].reused_existing && current_capacity_serves(requests[order[j]].spec_desc(), q.spec_desc())
    } by {
        let q = requests[order[i]];
        assert(assignment_ok(requests, order, m, i));
        let s = choose|s: int| slot_holds(m, s, i, q);
        assert(slot_origin(requests, cached, order, m, s));
        if m.slots[s].cached {
            let c = choose|c: int|
                0 <= c < cached.len() && (#[trigger] cached[c]).allocation_id.0 == m.slots[s].allocation_id
                    && cached[c].desc == m.slots[s].source;
            assert(cached[c].allocation_id == m.assignments[i].allocation_id);
        } else {
            let j = choose|j: int|
                0 <= j < m.assignments.len() && (#[trigger] m.assignments[j]).allocation_id.0 == m.slots[s].allocation_id
                    && !m.assignments[j].reused_existing && requests[order[j]].spec_desc() == m.slots[s].source
                    && forall|x: int| 0 <= x < j ==> (#[trigger] m.assignments[x]).allocation_id.0 != m.slots[s].allocation_id;
            assert(m.assignments[j].allocation_id == m.assignments[i].allocation_id);
            if j > i {
                assert(m.assignments[i].allocation_id.0 != m.slots[s].allocation_id);
            }
        }
    }
}

} // verus!
