//! The frame resource allocator: the per-frame phase machine that records the
//! resource requests of every flow group, solves their lifetimes, plans the
//! pool and answers, during consume, which allocation a tag names.
//!
//! GPU objects are not held here: resolving returns the allocations the caller
//! must create, and external resources are registered by descriptor, their
//! objects kept by the caller under their external ids.
use vstd::prelude::*;

use crate::error::{FrameResourceError, FrameResourceResult};
use crate::lifetime::{FrameLifetimeSolution, first_tag_position, lookup_prefix};
use crate::lifetime_solver::{group_requests, lemma_requests_before_monotonic, requests_before, solved_as};
use crate::phase::ResourceAllocatorPhase;
use crate::pool::{
    FrameResourceAllocationClass, FrameResourceOwnership, FrameResourcePoolAssignment, FrameResourcePoolCandidate,
    FrameResourcePoolPlan, cached_ids_unique, cached_next, is_planning_order, plan_model,
};
use crate::request::{ExternalFrameResourceId, RequestGroup, RequestGroupAction, ResourceRequest, apply_outcome, request_id_range_error};
use crate::lifetime::{AllocationRequest, AllocationRequestSource};
use crate::resource_desc::{FrameBufferDesc, FrameBufferDescriptor, FrameResourceDesc, FrameTextureDesc, FrameTextureDescriptor};
use crate::resource_pool::{
    FrameResourceAllocation, FrameResourcePool, after_cleanup, appended, cached_allocations, duplicate_allocation_error, holds_id,
    first_position, missing_allocation_error,
};
use crate::tags::{AllocationRequestId, FrameResourceAllocationId, RenderFlowGroup, RenderFlowNameTag, RequestTime};

verus! {

/// An external resource registered for the coming resolve.
#[derive(Debug)]
pub enum ExternalFrameResourceRegistration {
    Texture(FrameTextureDesc),
    Buffer(FrameBufferDesc),
}

/// Whether the allocator may move from phase `from` to phase `to`: startup,
/// pre-consume, resolve, consume, cleanup, and back to startup.
pub open spec fn valid_transition(from: ResourceAllocatorPhase, to: ResourceAllocatorPhase) -> bool {
    ||| from == ResourceAllocatorPhase::Cleanup && to == ResourceAllocatorPhase::Startup
    ||| from == ResourceAllocatorPhase::Startup && to == ResourceAllocatorPhase::PreConsume
    ||| from == ResourceAllocatorPhase::PreConsume && to == ResourceAllocatorPhase::Resolve
    ||| from == ResourceAllocatorPhase::Resolve && to == ResourceAllocatorPhase::Consume
    ||| from == ResourceAllocatorPhase::Consume && to == ResourceAllocatorPhase::Cleanup
}

pub open spec fn transition_error() -> FrameResourceError {
    FrameResourceError::InvalidOperation {
        operation: "FrameResourceAllocator::set_phase",
        reason: "invalid frame resource allocator phase transition",
    }
}

/// Whether request `i` of group `g` is a declaration whose descriptor fails validation.
pub open spec fn invalid_declare(groups: Seq<Seq<ResourceRequest>>, g: int, i: int) -> bool {
    &&& 0 <= g < groups.len()
    &&& 0 <= i < groups[g].len()
    &&& groups[g][i] matches ResourceRequest::Declare { desc, .. } && desc.validation() is Err
}

/// The validation error of the declaration at `(g, i)`.
pub open spec fn declare_error(groups: Seq<Seq<ResourceRequest>>, g: int, i: int) -> FrameResourceError {
    match groups[g][i] {
        ResourceRequest::Declare { desc, .. } => desc.validation()->Err_0,
        _ => FrameResourceError::InvalidState { reason: "" },
    }
}

/// Whether `(g, i)` is the first invalid declaration, groups first.
pub open spec fn first_invalid_declare(groups: Seq<Seq<ResourceRequest>>, g: int, i: int) -> bool {
    &&& invalid_declare(groups, g, i)
    &&& forall|h: int, j: int| 0 <= h < g && #[trigger] invalid_declare(groups, h, j) ==> false
    &&& forall|j: int| 0 <= j < i ==> !#[trigger] invalid_declare(groups, g, j)
}

/// The per-frame phase machine of frame resources.
#[derive(Debug)]
pub struct FrameResourceAllocator {
    phase: ResourceAllocatorPhase,
    request_groups: Vec<RequestGroup>,
    lifetime_solution: Option<FrameLifetimeSolution>,
    pool_plan: Option<FrameResourcePoolPlan>,
    resource_pool: FrameResourcePool,
    external_resources: Vec<(ExternalFrameResourceId, ExternalFrameResourceRegistration)>,
    current_consume_time: Option<RequestTime>,
    resources_resolved: bool,
    caches_cleared_count: u32,
}

impl FrameResourceAllocator {
    pub closed spec fn spec_phase(&self) -> ResourceAllocatorPhase {
        self.phase
    }

    pub closed spec fn spec_groups(&self) -> Seq<RequestGroup> {
        self.request_groups@
    }

    pub closed spec fn spec_solution(&self) -> Option<FrameLifetimeSolution> {
        self.lifetime_solution
    }

    pub closed spec fn spec_plan(&self) -> Option<FrameResourcePoolPlan> {
        self.pool_plan
    }

    pub closed spec fn spec_pool(&self) -> FrameResourcePool {
        self.resource_pool
    }

    pub closed spec fn spec_externals(&self) -> Seq<(ExternalFrameResourceId, ExternalFrameResourceRegistration)> {
        self.external_resources@
    }

    pub closed spec fn spec_consume_time(&self) -> Option<RequestTime> {
        self.current_consume_time
    }

    pub closed spec fn spec_resolved(&self) -> bool {
        self.resources_resolved
    }

    pub closed spec fn spec_caches_cleared(&self) -> u32 {
        self.caches_cleared_count
    }

    /// A fresh allocator in startup, with no groups and an empty pool.
    pub fn new() -> (r: Self)
        ensures
            r.spec_phase() == ResourceAllocatorPhase::Startup,
            r.spec_groups().len() == 0,
            r.spec_solution() is None,
            r.spec_plan() is None,
            r.spec_pool().spec_allocations().len() == 0,
            r.spec_pool().spec_max_unused_age() == 3,
            r.spec_externals().len() == 0,
            r.spec_consume_time() is None,
            !r.spec_resolved(),
            r.spec_caches_cleared() == 0,
    {
        FrameResourceAllocator {
            phase: ResourceAllocatorPhase::Startup,
            request_groups: Vec::new(),
            lifetime_solution: None,
            pool_plan: None,
            resource_pool: FrameResourcePool::new(),
            external_resources: Vec::new(),
            current_consume_time: None,
            resources_resolved: false,
            caches_cleared_count: 0,
        }
    }

    pub fn phase(&self) -> (r: ResourceAllocatorPhase)
        ensures
            r == self.spec_phase(),
    {
        self.phase
    }

    pub fn is_consume_phase(&self) -> (r: bool)
        ensures
            r == (self.spec_phase() == ResourceAllocatorPhase::Consume),
    {
        self.phase.is_consume()
    }

    pub fn request_groups(&self) -> (r: &[RequestGroup])
        ensures
            r@ == self.spec_groups(),
    {
        self.request_groups.as_slice()
    }

    pub fn request_group_count(&self) -> (r: usize)
        ensures
            r == self.spec_groups().len(),
    {
        self.request_groups.len()
    }

    /// Whether all request groups together hold fewer than `bound` requests.
    pub fn request_total_below(&self, bound: usize) -> (r: bool)
        ensures
            r == (requests_before(group_requests(self.spec_groups()), self.spec_groups().len() as int) < bound),
    {
        let ghost groups = group_requests(self.spec_groups());
        if bound == 0 {
            proof {
                lemma_requests_before_monotonic(groups, 0, groups.len() as int);
            }
            return false;
        }
        let mut total: usize = 0;
        let mut g: usize = 0;
        while g < self.request_groups.len()
            invariant
                groups == group_requests(self.spec_groups()),
                groups.len() == self.request_groups@.len(),
                g <= self.request_groups@.len(),
                total == requests_before(groups, g as int),
                total < bound,
            decreases self.request_groups@.len() - g,
        {
            let count = self.request_groups[g].requests().len();
            proof {
                assert(groups[g as int] == self.request_groups@[g as int].spec_requests());
            }
            if count >= bound - total {
                proof {
                    lemma_requests_before_monotonic(groups, g as int, self.request_groups@.len() as int);
                }
                return false;
            }
            total = total + count;
            g = g + 1;
        }
        true
    }


    pub fn request_group(&self, flow_group: RenderFlowGroup) -> (r: Option<&RequestGroup>)
        ensures
            (flow_group.0 as int) < self.spec_groups().len() ==> r == Some(&self.spec_groups()[flow_group.0 as int]),
            (flow_group.0 as int) >= self.spec_groups().len() ==> r is None,
    {
        let index = flow_group.0 as usize;
        if index < self.request_groups.len() {
            Some(&self.request_groups[index])
        } else {
            None
        }
    }

    pub fn current_consume_time(&self) -> (r: Option<RequestTime>)
        ensures
            r == self.spec_consume_time(),
    {
        self.current_consume_time
    }

    pub fn lifetime_solution(&self) -> (r: Option<&FrameLifetimeSolution>)
        ensures
            match self.spec_solution() {
                Some(s) => r == Some(&s),
                None => r is None,
            },
    {
        match &self.lifetime_solution {
            Some(s) => Some(s),
            None => None,
        }
    }

    pub fn pool_plan(&self) -> (r: Option<&FrameResourcePoolPlan>)
        ensures
            match self.spec_plan() {
                Some(p) => r == Some(&p),
                None => r is None,
            },
    {
        match &self.pool_plan {
            Some(p) => Some(p),
            None => None,
        }
    }

    pub fn resource_pool(&self) -> (r: &FrameResourcePool)
        ensures
            *r == self.spec_pool(),
    {
        &self.resource_pool
    }

    pub fn resources_resolved(&self) -> (r: bool)
        ensures
            r == self.spec_resolved(),
    {
        self.resources_resolved
    }

    pub fn caches_cleared_count(&self) -> (r: u32)
        ensures
            r == self.spec_caches_cleared(),
    {
        self.caches_cleared_count
    }

    /// Resources can be retrieved only during consume.
    pub fn validate_resource_retrieval_phase(&self) -> (r: FrameResourceResult<()>)
        ensures
            r is Ok <==> self.spec_phase() == ResourceAllocatorPhase::Consume,
            r is Err ==> r == Err::<(), FrameResourceError>(
                FrameResourceError::InvalidOperation {
                    operation: "FrameResourceAllocator::validate_resource_retrieval_phase",
                    reason: "resource retrieval is only valid during consume",
                },
            ),
    {
        if self.phase == ResourceAllocatorPhase::Consume {
            Ok(())
        } else {
            Err(
                FrameResourceError::InvalidOperation {
                    operation: "FrameResourceAllocator::validate_resource_retrieval_phase",
                    reason: "resource retrieval is only valid during consume",
                },
            )
        }
    }

    fn validate_transition(&self, next: ResourceAllocatorPhase) -> (r: FrameResourceResult<()>)
        ensures
            r is Ok <==> valid_transition(self.spec_phase(), next),
            r is Err ==> r->Err_0 == transition_error(),
    {
        let valid = match (self.phase, next) {
            (ResourceAllocatorPhase::Cleanup, ResourceAllocatorPhase::Startup) => true,
            (ResourceAllocatorPhase::Startup, ResourceAllocatorPhase::PreConsume) => true,
            (ResourceAllocatorPhase::PreConsume, ResourceAllocatorPhase::Resolve) => true,
            (ResourceAllocatorPhase::Resolve, ResourceAllocatorPhase::Consume) => true,
            (ResourceAllocatorPhase::Consume, ResourceAllocatorPhase::Cleanup) => true,
            _ => false,
        };
        if valid {
            Ok(())
        } else {
            Err(
                FrameResourceError::InvalidOperation {
                    operation: "FrameResourceAllocator::set_phase",
                    reason: "invalid frame resource allocator phase transition",
                },
            )
        }
    }
}


/// Whether `after` holds the groups of `before`, each emptied for a new frame.
pub open spec fn groups_emptied(before: Seq<RequestGroup>, after: Seq<RequestGroup>) -> bool {
    &&& after.len() == before.len()
    &&& forall|i: int|
        0 <= i < after.len() ==> (#[trigger] after[i]).spec_requests().len() == 0 && after[i].spec_consume_cursor() == 0
            && !after[i].spec_touched()
}

/// Whether `after` holds the groups of `before`, each rewound for replay.
pub open spec fn groups_rewound(before: Seq<RequestGroup>, after: Seq<RequestGroup>) -> bool {
    &&& after.len() == before.len()
    &&& forall|i: int|
        0 <= i < after.len() ==> (#[trigger] after[i]).spec_requests() == before[i].spec_requests()
            && after[i].spec_consume_cursor() == 0 && !after[i].spec_touched()
}

/// Whether every group replayed all its recorded requests.
pub open spec fn all_groups_replayed(groups: Seq<RequestGroup>) -> bool {
    forall|i: int|
        0 <= i < groups.len() ==> (#[trigger] groups[i]).spec_consume_cursor() == groups[i].spec_requests().len()
}

pub open spec fn unfinished_replay_error() -> FrameResourceError {
    FrameResourceError::InvalidState { reason: "consume did not replay every pre-consume resource request" }
}

impl FrameResourceAllocator {
    /// Whether `self` and `other` hold the same state but for the phase.
    pub open spec fn same_but_phase(&self, other: &Self) -> bool {
        &&& self.spec_groups() == other.spec_groups()
        &&& self.spec_solution() == other.spec_solution()
        &&& self.spec_plan() == other.spec_plan()
        &&& self.spec_pool() == other.spec_pool()
        &&& self.spec_externals() == other.spec_externals()
        &&& self.spec_consume_time() == other.spec_consume_time()
        &&& self.spec_resolved() == other.spec_resolved()
        &&& self.spec_caches_cleared() == other.spec_caches_cleared()
    }

    fn empty_groups(&mut self)
        ensures
            groups_emptied(old(self).spec_groups(), final(self).spec_groups()),
            final(self).spec_phase() == old(self).spec_phase(),
            final(self).spec_pool() == old(self).spec_pool(),
            final(self).spec_caches_cleared() == old(self).spec_caches_cleared(),
            final(self).spec_solution() == old(self).spec_solution(),
            final(self).spec_plan() == old(self).spec_plan(),
            final(self).spec_externals() == old(self).spec_externals(),
            final(self).spec_consume_time() == old(self).spec_consume_time(),
            final(self).spec_resolved() == old(self).spec_resolved(),
    {
        let mut i: usize = 0;
        while i < self.request_groups.len()
            invariant
                i <= self.request_groups@.len(),
                self.request_groups@.len() == old(self).request_groups@.len(),
                forall|j: int|
                    0 <= j < i ==> (#[trigger] self.request_groups@[j]).spec_requests().len() == 0
                        && self.request_groups@[j].spec_consume_cursor() == 0 && !self.request_groups@[j].spec_touched(),
                self.phase == old(self).phase,
                self.resource_pool == old(self).resource_pool,
                self.caches_cleared_count == old(self).caches_cleared_count,
                self.lifetime_solution == old(self).lifetime_solution,
                self.pool_plan == old(self).pool_plan,
                self.external_resources == old(self).external_resources,
                self.current_consume_time == old(self).current_consume_time,
                self.resources_resolved == old(self).resources_resolved,
            decreases self.request_groups@.len() - i,
        {
            let ghost before = self.request_groups@;
            let mut group = self.request_groups.remove(i);
            group.reset_for_preconsume();
            self.request_groups.insert(i, group);
            proof {
                assert forall|j: int| 0 <= j < i + 1 implies (#[trigger] self.request_groups@[j]).spec_requests().len() == 0
                    && self.request_groups@[j].spec_consume_cursor() == 0 && !self.request_groups@[j].spec_touched() by {
                    if j < i {
                        assert(self.request_groups@[j] == before[j]);
                    }
                }
            }
            i = i + 1;
        }
    }

    fn rewind_groups(&mut self)
        ensures
            groups_rewound(old(self).spec_groups(), final(self).spec_groups()),
            final(self).spec_phase() == old(self).spec_phase(),
            final(self).spec_pool() == old(self).spec_pool(),
            final(self).spec_caches_cleared() == old(self).spec_caches_cleared(),
            final(self).spec_solution() == old(self).spec_solution(),
            final(self).spec_plan() == old(self).spec_plan(),
            final(self).spec_externals() == old(self).spec_externals(),
            final(self).spec_consume_time() == old(self).spec_consume_time(),
            final(self).spec_resolved() == old(self).spec_resolved(),
    {
        let mut i: usize = 0;
        while i < self.request_groups.len()
            invariant
                i <= self.request_groups@.len(),
                self.request_groups@.len() == old(self).request_groups@.len(),
                forall|j: int|
                    0 <= j < i ==> (#[trigger] self.request_groups@[j]).spec_requests()
                        == old(self).request_groups@[j].spec_requests() && self.request_groups@[j].spec_consume_cursor() == 0
                        && !self.request_groups@[j].spec_touched(),
                forall|j: int| i <= j < self.request_groups@.len() ==> self.request_groups@[j] == old(self).request_groups@[j],
                self.phase == old(self).phase,
                self.resource_pool == old(self).resource_pool,
                self.caches_cleared_count == old(self).caches_cleared_count,
                self.lifetime_solution == old(self).lifetime_solution,
                self.pool_plan == old(self).pool_plan,
                self.external_resources == old(self).external_resources,
                self.current_consume_time == old(self).current_consume_time,
                self.resources_resolved == old(self).resources_resolved,
            decreases self.request_groups@.len() - i,
        {
            let ghost before = self.request_groups@;
            let mut group = self.request_groups.remove(i);
            group.reset_consume_cursor();
            self.request_groups.insert(i, group);
            proof {
                assert forall|j: int| 0 <= j < i + 1 implies (#[trigger] self.request_groups@[j]).spec_requests()
                    == old(self).request_groups@[j].spec_requests() && self.request_groups@[j].spec_consume_cursor() == 0
                    && !self.request_groups@[j].spec_touched() by {
                    if j < i {
                        assert(self.request_groups@[j] == before[j]);
                    }
                }
                assert forall|j: int| i + 1 <= j < self.request_groups@.len() implies self.request_groups@[j] == old(
                    self,
                ).request_groups@[j] by {
                    assert(self.request_groups@[j] == before[j]);
                }
            }
            i = i + 1;
        }
    }

    fn validate_groups_replayed(&self) -> (r: FrameResourceResult<()>)
        ensures
            r is Ok <==> all_groups_replayed(self.spec_groups()),
            r is Err ==> r->Err_0 == unfinished_replay_error(),
    {
        let mut i: usize = 0;
        while i < self.request_groups.len()
            invariant
                i <= self.request_groups@.len(),
                forall|j: int|
                    0 <= j < i ==> (#[trigger] self.request_groups@[j]).spec_consume_cursor()
                        == self.request_groups@[j].spec_requests().len(),
            decreases self.request_groups@.len() - i,
        {
            match self.request_groups[i].validate_consume_finished() {
                Ok(()) => {},
                Err(e) => return Err(e),
            }
            i = i + 1;
        }
        Ok(())
    }

    fn validate_declares(&self) -> (r: FrameResourceResult<()>)
        ensures
            r is Ok <==> forall|g: int, i: int| !#[trigger] invalid_declare(group_requests(self.spec_groups()), g, i),
            forall|g: int, i: int| #[trigger]
                first_invalid_declare(group_requests(self.spec_groups()), g, i) ==> r == Err::<(), FrameResourceError>(
                    declare_error(group_requests(self.spec_groups()), g, i),
                ),
    {
        let ghost groups = group_requests(self.spec_groups());
        let mut g: usize = 0;
        while g < self.request_groups.len()
            invariant
                g <= self.request_groups@.len(),
                groups == group_requests(self.spec_groups()),
                groups.len() == self.request_groups@.len(),
                forall|h: int, j: int| 0 <= h < g ==> !#[trigger] invalid_declare(groups, h, j),
            decreases self.request_groups@.len() - g,
        {
            let requests = self.request_groups[g].requests();
            assert(requests@ == groups[g as int]);
            let mut i: usize = 0;
            while i < requests.len()
                invariant
                    g < groups.len(),
                    requests@ == groups[g as int],
                    groups == group_requests(self.spec_groups()),
                    i <= requests@.len(),
                    forall|h: int, j: int| 0 <= h < g ==> !#[trigger] invalid_declare(groups, h, j),
                    forall|j: int| 0 <= j < i ==> !#[trigger] invalid_declare(groups, g as int, j),
                decreases requests@.len() - i,
            {
                match &requests[i] {
                    ResourceRequest::Declare { desc, .. } => {
                        match desc.validate() {
                            Ok(()) => {},
                            Err(e) => {
                                proof {
                                    assert(first_invalid_declare(groups, g as int, i as int));
                                    assert forall|h: int, j: int| #[trigger]
                                        first_invalid_declare(groups, h, j) implies (h == g && j == i) by {
                                        if h < g {
                                        } else if h > g {
                                            assert(!invalid_declare(groups, g as int, i as int)) by {
                                                assert(0 <= g < h);
                                            }
                                        } else if j > i {
                                        } else if j < i {
                                        }
                                    }
                                }
                                return Err(e);
                            },
                        }
                    },
                    _ => {},
                }
                i = i + 1;
            }
            proof {
                assert forall|j: int| !#[trigger] invalid_declare(groups, g as int, j) by {
                    if 0 <= j < groups[g as int].len() {
                        assert(!invalid_declare(groups, g as int, j));
                    }
                }
            }
            g = g + 1;
        }
        proof {
            assert forall|h: int, j: int| !#[trigger] invalid_declare(groups, h, j) by {
                if 0 <= h < g {
                }
            }
        }
        Ok(())
    }
}


impl FrameResourceAllocator {
    /// Moves to phase `next`. Entering pre-consume empties every group and
    /// forgets the previous frame; entering resolve checks the declared
    /// descriptors, solves the lifetimes and plans the pool; entering consume
    /// rewinds every group for replay; entering cleanup requires every group
    /// to have replayed all its requests, then drops the frame's state and
    /// ends the frame for the pool. A refused move changes nothing.
    pub fn set_phase(&mut self, next: ResourceAllocatorPhase) -> (r: FrameResourceResult<()>)
        requires
            next == ResourceAllocatorPhase::Resolve ==> requests_before(
                group_requests(old(self).spec_groups()),
                old(self).spec_groups().len() as int,
            ) < u32::MAX,
        ensures
            r is Err ==> *final(self) == *old(self),
            !valid_transition(old(self).spec_phase(), next) ==> r == Err::<(), FrameResourceError>(transition_error()),
            r is Ok ==> valid_transition(old(self).spec_phase(), next) && final(self).spec_phase() == next,
            valid_transition(old(self).spec_phase(), next) && next == ResourceAllocatorPhase::Startup ==> r is Ok
                && final(self).same_but_phase(&*old(self)),
            valid_transition(old(self).spec_phase(), next) && next == ResourceAllocatorPhase::PreConsume ==> r is Ok && {
                &&& groups_emptied(old(self).spec_groups(), final(self).spec_groups())
                &&& final(self).spec_solution() is None
                &&& final(self).spec_plan() is None
                &&& final(self).spec_externals().len() == 0
                &&& final(self).spec_consume_time() is None
                &&& !final(self).spec_resolved()
                &&& final(self).spec_pool() == old(self).spec_pool()
                &&& final(self).spec_caches_cleared() == old(self).spec_caches_cleared()
            },
            valid_transition(old(self).spec_phase(), next) && next == ResourceAllocatorPhase::Resolve ==> forall|
                g: int,
                i: int,
            | #[trigger]
                first_invalid_declare(group_requests(old(self).spec_groups()), g, i) ==> r == Err::<(), FrameResourceError>(
                    declare_error(group_requests(old(self).spec_groups()), g, i),
                ),
            valid_transition(old(self).spec_phase(), next) && next == ResourceAllocatorPhase::Resolve && (forall|
                g: int,
                i: int,
            | !#[trigger] invalid_declare(group_requests(old(self).spec_groups()), g, i)) ==> exists|
                s: FrameResourceResult<FrameLifetimeSolution>,
            | #[trigger] solved_as(s, old(self).spec_groups()) && (s is Err ==> r == Err::<(), FrameResourceError>(s->Err_0))
                && (s is Ok ==> r is Ok && final(self).spec_solution() == Some(s->Ok_0)),
            next == ResourceAllocatorPhase::Resolve && r is Ok ==> {
                let sol = final(self).spec_solution()->0;
                &&& final(self).spec_solution() is Some
                &&& final(self).spec_plan() is Some
                &&& exists|order: Seq<int>|
                    #[trigger] is_planning_order(sol.spec_requests(), order) && final(self).spec_plan()->0.is_plan_of(
                        plan_model(sol.spec_requests(), Seq::empty(), order),
                    )
                &&& final(self).spec_groups() == old(self).spec_groups()
                &&& final(self).spec_pool() == old(self).spec_pool()
                &&& final(self).spec_externals() == old(self).spec_externals()
                &&& final(self).spec_consume_time() == old(self).spec_consume_time()
                &&& final(self).spec_resolved() == old(self).spec_resolved()
                &&& final(self).spec_caches_cleared() == old(self).spec_caches_cleared()
            },
            valid_transition(old(self).spec_phase(), next) && next == ResourceAllocatorPhase::Consume ==> r is Ok && {
                &&& groups_rewound(old(self).spec_groups(), final(self).spec_groups())
                &&& final(self).spec_consume_time() is None
                &&& final(self).spec_solution() == old(self).spec_solution()
                &&& final(self).spec_plan() == old(self).spec_plan()
                &&& final(self).spec_pool() == old(self).spec_pool()
                &&& final(self).spec_externals() == old(self).spec_externals()
                &&& final(self).spec_resolved() == old(self).spec_resolved()
                &&& final(self).spec_caches_cleared() == old(self).spec_caches_cleared()
            },
            valid_transition(old(self).spec_phase(), next) && next == ResourceAllocatorPhase::Cleanup ==> (r is Ok
                <==> all_groups_replayed(old(self).spec_groups())),
            valid_transition(old(self).spec_phase(), next) && next == ResourceAllocatorPhase::Cleanup && r is Err ==> r->Err_0
                == unfinished_replay_error(),
            next == ResourceAllocatorPhase::Cleanup && r is Ok ==> {
                &&& final(self).spec_groups().len() == 0
                &&& final(self).spec_solution() is None
                &&& final(self).spec_plan() is None
                &&& final(self).spec_externals().len() == 0
                &&& final(self).spec_consume_time() is None
                &&& !final(self).spec_resolved()
                &&& final(self).spec_pool().spec_allocations() == after_cleanup(
                    old(self).spec_pool().spec_allocations(),
                    old(self).spec_pool().spec_max_unused_age(),
                )
                &&& final(self).spec_pool().spec_max_unused_age() == old(self).spec_pool().spec_max_unused_age()
                &&& final(self).spec_caches_cleared() == old(self).spec_caches_cleared()
            },
    {
        match self.validate_transition(next) {
            Ok(()) => {},
            Err(e) => return Err(e),
        }
        match next {
            ResourceAllocatorPhase::Startup => {},
            ResourceAllocatorPhase::PreConsume => {
                self.lifetime_solution = None;
                self.pool_plan = None;
                self.external_resources = Vec::new();
                self.current_consume_time = None;
                self.resources_resolved = false;
                self.empty_groups();
            },
            ResourceAllocatorPhase::Resolve => {
                match self.validate_declares() {
                    Ok(()) => {},
                    Err(e) => return Err(e),
                }
                let solved = FrameLifetimeSolution::solve_request_groups(self.request_groups.as_slice());
                let ghost outcome = solved;
                assert(solved_as(outcome, self.spec_groups()));
                let solution = match solved {
                    Ok(s) => s,
                    Err(e) => return Err(e),
                };
                let plan = match FrameResourcePoolPlan::plan(&solution) {
                    Ok(p) => p,
                    Err(e) => return Err(e),
                };
                let ghost sol_g = solution;
                let ghost plan_g = plan;
                self.lifetime_solution = Some(solution);
                self.pool_plan = Some(plan);
                proof {
                    assert(outcome is Ok && self.spec_solution() == Some(outcome->Ok_0));
                    assert(self.spec_solution()->0 == sol_g);
                    assert(self.spec_plan()->0 == plan_g);
                    let order = choose|order: Seq<int>|
                        #[trigger] is_planning_order(sol_g.spec_requests(), order) && plan_g.is_plan_of(
                            plan_model(sol_g.spec_requests(), Seq::empty(), order),
                        );
                    assert(is_planning_order(self.spec_solution()->0.spec_requests(), order));
                }
            },
            ResourceAllocatorPhase::Consume => {
                self.current_consume_time = None;
                self.rewind_groups();
            },
            ResourceAllocatorPhase::Cleanup => {
                match self.validate_groups_replayed() {
                    Ok(()) => {},
                    Err(e) => return Err(e),
                }
                self.request_groups = Vec::new();
                self.lifetime_solution = None;
                self.pool_plan = None;
                self.external_resources = Vec::new();
                self.current_consume_time = None;
                self.resources_resolved = false;
                self.resource_pool.cleanup_after_frame();
            },
        }
        self.phase = next;
        Ok(())
    }
}


/// Whether a group holds no request and was not touched.
pub open spec fn fresh_group(g: RequestGroup) -> bool {
    g.spec_requests().len() == 0 && g.spec_consume_cursor() == 0 && !g.spec_touched()
}

/// Whether `after` holds the groups of `before`, with fresh groups added up
/// to group `g` and every group but `g` unchanged.
pub open spec fn groups_after_record(before: Seq<RequestGroup>, after: Seq<RequestGroup>, g: int) -> bool {
    let n = before.len();
    &&& after.len() == if g < n { n as int } else { g + 1 }
    &&& forall|i: int| 0 <= i < n && i != g ==> after[i] == before[i]
    &&& forall|i: int| n <= i < after.len() && i != g ==> fresh_group(#[trigger] after[i])
}

/// The group `g` a request is applied to: the existing one, or a fresh one.
pub open spec fn prior_group(before: Seq<RequestGroup>, g: int, prior: RequestGroup) -> bool {
    if g < before.len() {
        prior == before[g]
    } else {
        fresh_group(prior)
    }
}

/// Whether `tag` names a resource after `requests`: the last request about it
/// declared, imported or swapped one in, and no free came after.
pub open spec fn declared_after(requests: Seq<ResourceRequest>, tag: RenderFlowNameTag) -> bool
    decreases requests.len(),
{
    if requests.len() == 0 {
        false
    } else {
        match requests.last() {
            ResourceRequest::Declare { tag: t, .. } if t == tag => true,
            ResourceRequest::Import { tag: t, .. } if t == tag => true,
            ResourceRequest::DeclareLike { dst, .. } if dst == tag => true,
            ResourceRequest::SwapWithExternal { tag: t, .. } if t == tag => true,
            ResourceRequest::Free { tag: t } if t == tag => false,
            _ => declared_after(requests.drop_last(), tag),
        }
    }
}

fn is_tag_declared_after_requests(requests: &[ResourceRequest], end: usize, tag: RenderFlowNameTag) -> (r: bool)
    requires
        end <= requests@.len(),
    ensures
        r == declared_after(requests@.take(end as int), tag),
{
    let mut declared = false;
    let mut i: usize = 0;
    while i < end
        invariant
            i <= end <= requests@.len(),
            declared == declared_after(requests@.take(i as int), tag),
        decreases end - i,
    {
        proof {
            assert(requests@.take(i + 1).drop_last() =~= requests@.take(i as int));
            assert(requests@.take(i + 1).last() == requests@[i as int]);
        }
        match &requests[i] {
            ResourceRequest::Declare { tag: t, .. } if *t == tag => {
                declared = true;
            },
            ResourceRequest::Import { tag: t, .. } if *t == tag => {
                declared = true;
            },
            ResourceRequest::DeclareLike { dst, .. } if *dst == tag => {
                declared = true;
            },
            ResourceRequest::Free { tag: t } if *t == tag => {
                declared = false;
            },
            ResourceRequest::SwapWithExternal { tag: t, .. } if *t == tag => {
                declared = true;
            },
            _ => {},
        }
        i = i + 1;
    }
    declared
}

impl FrameResourceAllocator {
    /// Applies `request` to the group of `flow_group` in the current phase,
    /// making empty groups up to it first; a replay during consume becomes
    /// the current consume time.
    #[verifier::spinoff_prover]
    pub fn record_request(&mut self, flow_group: RenderFlowGroup, request: ResourceRequest) -> (r: FrameResourceResult<
        RequestGroupAction,
    >)
        ensures
            groups_after_record(old(self).spec_groups(), final(self).spec_groups(), flow_group.0 as int),
            exists|prior: RequestGroup|
                prior_group(old(self).spec_groups(), flow_group.0 as int, prior) && #[trigger] apply_outcome(
                    prior,
                    final(self).spec_groups()[flow_group.0 as int],
                    old(self).spec_phase(),
                    request,
                    r,
                ),
            final(self).spec_phase() == old(self).spec_phase(),
            final(self).spec_solution() == old(self).spec_solution(),
            final(self).spec_plan() == old(self).spec_plan(),
            final(self).spec_pool() == old(self).spec_pool(),
            final(self).spec_externals() == old(self).spec_externals(),
            final(self).spec_resolved() == old(self).spec_resolved(),
            final(self).spec_caches_cleared() == old(self).spec_caches_cleared(),
            r is Ok && old(self).spec_phase() == ResourceAllocatorPhase::Consume ==> final(self).spec_consume_time()
                == Some(RequestTime((flow_group.0 * 0x1_0000_0000 + match r->Ok_0 {
                RequestGroupAction::Recorded { id } => id.0,
                RequestGroupAction::Replayed { id, .. } => id.0,
            }) as u64)),
            !(r is Ok && old(self).spec_phase() == ResourceAllocatorPhase::Consume) ==> final(self).spec_consume_time()
                == old(self).spec_consume_time(),
    {
        let index = flow_group.0 as usize;
        while self.request_groups.len() <= index
            invariant
                old(self).request_groups@.len() <= index ==> old(self).request_groups@.len() <= self.request_groups@.len()
                    <= index + 1,
                old(self).request_groups@.len() > index ==> self.request_groups@ == old(self).request_groups@,
                forall|i: int|
                    0 <= i < old(self).request_groups@.len() && i < self.request_groups@.len() ==> self.request_groups@[i]
                        == old(self).request_groups@[i],
                forall|i: int|
                    old(self).request_groups@.len() <= i < self.request_groups@.len() ==> fresh_group(
                        #[trigger] self.request_groups@[i],
                    ),
                self.phase == old(self).phase,
                self.resource_pool == old(self).resource_pool,
                self.caches_cleared_count == old(self).caches_cleared_count,
                self.lifetime_solution == old(self).lifetime_solution,
                self.pool_plan == old(self).pool_plan,
                self.external_resources == old(self).external_resources,
                self.current_consume_time == old(self).current_consume_time,
                self.resources_resolved == old(self).resources_resolved,
            decreases index + 1 - self.request_groups@.len(),
        {
            self.request_groups.push(RequestGroup::new());
        }
        let phase = self.phase;
        let ghost before = self.request_groups@;
        let mut group = self.request_groups.remove(index);
        let ghost prior = group;
        let result = group.apply(phase, request);
        self.request_groups.insert(index, group);
        proof {
            assert(self.request_groups@ =~= before.update(index as int, group));
            assert(apply_outcome(prior, self.request_groups@[index as int], phase, request, result));
            if old(self).request_groups@.len() > index {
                assert(prior == old(self).spec_groups()[index as int]);
            } else {
                assert(fresh_group(prior));
            }
        }
        let ghost outcome = result;
        match result {
            Ok(action) => {
                assert(outcome == Ok::<RequestGroupAction, FrameResourceError>(action));
                if phase == ResourceAllocatorPhase::Consume {
                    let id = action.id();
                    let time = RequestTime::new(flow_group, id.get());
                    assert(0 <= flow_group.0 * 0x1_0000_0000 + id.0 <= u64::MAX);
                    self.current_consume_time = Some(time);
                }
                assert(prior_group(old(self).spec_groups(), index as int, prior) && apply_outcome(
                    prior,
                    self.spec_groups()[index as int],
                    phase,
                    request,
                    Ok::<RequestGroupAction, FrameResourceError>(action),
                ));
                Ok(action)
            },
            Err(e) => {
                assert(prior_group(old(self).spec_groups(), index as int, prior) && apply_outcome(
                    prior,
                    self.spec_groups()[index as int],
                    phase,
                    request,
                    Err::<RequestGroupAction, FrameResourceError>(e),
                ));
                Err(e)
            },
        }
    }

    /// Whether `tag` names a resource at the current request position of
    /// `flow_group`, recorded as an is-declared request; a group that was
    /// never made holds no declaration.
    pub fn request_is_declared(&mut self, flow_group: RenderFlowGroup, tag: RenderFlowNameTag) -> (r:
        FrameResourceResult<bool>)
        ensures
            ({
                let n = old(self).spec_groups().len();
                let g = flow_group.0 as int;
                let phase = old(self).spec_phase();
                let known = g < n && (phase == ResourceAllocatorPhase::PreConsume || phase
                    == ResourceAllocatorPhase::Consume);
                let group = old(self).spec_groups()[g];
                let end = if phase == ResourceAllocatorPhase::PreConsume {
                    group.spec_requests().len() as int
                } else {
                    group.spec_consume_cursor() as int
                };
                &&& g < n && !known ==> r == Err::<bool, FrameResourceError>(
                    FrameResourceError::InvalidOperation {
                        operation: "FrameResourceAllocator::request_is_declared",
                        reason: "is-declared requests are only valid during pre-consume or consume",
                    },
                )
                &&& r is Ok ==> r->Ok_0 == (known && end <= group.spec_requests().len() && declared_after(
                    group.spec_requests().take(end),
                    tag,
                ))
            }),
    {
        let declared = match self.declared_at_current_position(flow_group, tag) {
            Ok(d) => d,
            Err(e) => return Err(e),
        };
        match self.record_request(flow_group, ResourceRequest::IsDeclared { tag, declared }) {
            Ok(_) => Ok(declared),
            Err(e) => Err(e),
        }
    }

    fn declared_at_current_position(&self, flow_group: RenderFlowGroup, tag: RenderFlowNameTag) -> (r:
        FrameResourceResult<bool>)
        ensures
            ({
                let n = self.spec_groups().len();
                let g = flow_group.0 as int;
                let phase = self.spec_phase();
                let known = g < n && (phase == ResourceAllocatorPhase::PreConsume || phase
                    == ResourceAllocatorPhase::Consume);
                let group = self.spec_groups()[g];
                let end = if phase == ResourceAllocatorPhase::PreConsume {
                    group.spec_requests().len() as int
                } else {
                    group.spec_consume_cursor() as int
                };
                &&& g < n && !known ==> r == Err::<bool, FrameResourceError>(
                    FrameResourceError::InvalidOperation {
                        operation: "FrameResourceAllocator::request_is_declared",
                        reason: "is-declared requests are only valid during pre-consume or consume",
                    },
                )
                &&& (g >= n || known) ==> r is Ok
                &&& r is Ok ==> r->Ok_0 == (known && end <= group.spec_requests().len() && declared_after(
                    group.spec_requests().take(end),
                    tag,
                ))
            }),
    {
        let group = match self.request_group(flow_group) {
            Some(g) => g,
            None => return Ok(false),
        };
        let requests = group.requests();
        let end = match self.phase {
            ResourceAllocatorPhase::PreConsume => requests.len(),
            ResourceAllocatorPhase::Consume => group.consume_cursor(),
            _ => {
                return Err(
                    FrameResourceError::InvalidOperation {
                        operation: "FrameResourceAllocator::request_is_declared",
                        reason: "is-declared requests are only valid during pre-consume or consume",
                    },
                );
            },
        };
        if end > requests.len() {
            return Ok(false);
        }
        Ok(is_tag_declared_after_requests(requests, end, tag))
    }

    /// Records a decision during pre-consume and returns it; during consume
    /// returns the value recorded at the same position in pre-consume.
    pub fn request_decision(&mut self, flow_group: RenderFlowGroup, value: bool) -> (r: FrameResourceResult<bool>)
        ensures
            ({
                let g = flow_group.0 as int;
                let phase = old(self).spec_phase();
                let recorded = recorded_in(old(self).spec_groups(), g);
                let c = cursor_in(old(self).spec_groups(), g);
                let after = final(self).spec_groups()[g];
                &&& phase == ResourceAllocatorPhase::PreConsume ==> {
                    &&& (r is Ok <==> recorded.len() <= u32::MAX)
                    &&& r is Ok ==> r->Ok_0 == value
                    &&& r is Ok ==> after.spec_requests() == recorded.push(ResourceRequest::Decision { value })
                    &&& r is Ok ==> after.spec_consume_cursor() == c && after.spec_touched()
                    &&& r is Err ==> r->Err_0 == request_id_range_error()
                }
                &&& phase == ResourceAllocatorPhase::Consume ==> {
                    &&& (r is Ok <==> c < recorded.len() && recorded[c] is Decision && c <= u32::MAX)
                    &&& r is Ok ==> recorded[c] == (ResourceRequest::Decision { value: r->Ok_0 })
                    &&& r is Ok ==> after.spec_requests() == recorded && after.spec_consume_cursor() == c + 1
                        && after.spec_touched()
                    &&& c >= recorded.len() ==> r == Err::<bool, FrameResourceError>(
                        FrameResourceError::InvalidOperation {
                            operation: "RequestGroup::replay_consume",
                            reason: "consume replay produced more requests than pre-consume",
                        },
                    )
                    &&& c < recorded.len() && !(recorded[c] is Decision) ==> r == Err::<bool, FrameResourceError>(
                        FrameResourceError::InvalidOperation {
                            operation: "RequestGroup::replay_consume",
                            reason: "consume request did not match pre-consume request",
                        },
                    )
                    &&& c < recorded.len() && recorded[c] is Decision && c > u32::MAX ==> r == Err::<
                        bool,
                        FrameResourceError,
                    >(request_id_range_error())
                }
                &&& phase != ResourceAllocatorPhase::PreConsume && phase != ResourceAllocatorPhase::Consume ==> r
                    == Err::<bool, FrameResourceError>(
                    FrameResourceError::InvalidOperation {
                        operation: "RequestGroup::apply",
                        reason: "resource requests are only valid during pre-consume or consume",
                    },
                )
                &&& r is Err ==> after.spec_requests() == recorded && after.spec_consume_cursor() == c
                    && after.spec_touched() == touched_in(old(self).spec_groups(), g)
            }),
            groups_after_record(old(self).spec_groups(), final(self).spec_groups(), flow_group.0 as int),
            final(self).spec_phase() == old(self).spec_phase(),
            final(self).spec_solution() == old(self).spec_solution(),
            final(self).spec_plan() == old(self).spec_plan(),
            final(self).spec_pool() == old(self).spec_pool(),
            final(self).spec_externals() == old(self).spec_externals(),
            final(self).spec_resolved() == old(self).spec_resolved(),
            final(self).spec_caches_cleared() == old(self).spec_caches_cleared(),
            r is Ok && old(self).spec_phase() == ResourceAllocatorPhase::Consume ==> final(self).spec_consume_time()
                == Some(RequestTime((flow_group.0 * 0x1_0000_0000 + cursor_in(old(self).spec_groups(), flow_group.0 as int)) as u64)),
            !(r is Ok && old(self).spec_phase() == ResourceAllocatorPhase::Consume) ==> final(self).spec_consume_time()
                == old(self).spec_consume_time(),
    {
        let request = ResourceRequest::Decision { value };
        let ghost g = flow_group.0 as int;
        let result = self.record_request(flow_group, request);
        let ghost prior = choose|prior: RequestGroup|
            prior_group(old(self).spec_groups(), g, prior) && #[trigger] apply_outcome(
                prior,
                self.spec_groups()[g],
                old(self).spec_phase(),
                request,
                result,
            );
        proof {
            assert(prior.spec_requests() == recorded_in(old(self).spec_groups(), g));
            assert(prior.spec_consume_cursor() == cursor_in(old(self).spec_groups(), g));
            assert(prior.spec_touched() == touched_in(old(self).spec_groups(), g));
        }
        let action = match result {
            Ok(a) => a,
            Err(e) => return Err(e),
        };
        match action.recorded_request() {
            Some(ResourceRequest::Decision { value: recorded }) => Ok(*recorded),
            _ => Ok(value),
        }
    }
}

/// The requests group `g` of `groups` holds; none where it is not made yet.
pub open spec fn recorded_in(groups: Seq<RequestGroup>, g: int) -> Seq<ResourceRequest> {
    if g < groups.len() {
        groups[g].spec_requests()
    } else {
        Seq::empty()
    }
}

/// The consume cursor of group `g` of `groups`; zero where it is not made yet.
pub open spec fn cursor_in(groups: Seq<RequestGroup>, g: int) -> int {
    if g < groups.len() {
        groups[g].spec_consume_cursor() as int
    } else {
        0
    }
}

/// Whether group `g` of `groups` was touched; not where it is not made yet.
pub open spec fn touched_in(groups: Seq<RequestGroup>, g: int) -> bool {
    g < groups.len() && groups[g].spec_touched()
}


/// Whether `id` is registered in `externals`.
pub open spec fn external_registered(
    externals: Seq<(ExternalFrameResourceId, ExternalFrameResourceRegistration)>,
    id: ExternalFrameResourceId,
) -> bool {
    exists|i: int| 0 <= i < externals.len() && (#[trigger] externals[i]).0 == id
}

impl FrameResourceAllocator {
    fn external_position(&self, id: ExternalFrameResourceId) -> (r: Option<usize>)
        ensures
            r is None <==> !external_registered(self.spec_externals(), id),
            r is Some ==> r->0 < self.spec_externals().len() && self.spec_externals()[r->0 as int].0 == id && forall|
                j: int,
            | 0 <= j < r->0 ==> (#[trigger] self.spec_externals()[j]).0 != id,
    {
        let mut i: usize = 0;
        while i < self.external_resources.len()
            invariant
                i <= self.external_resources@.len(),
                forall|j: int| 0 <= j < i ==> (#[trigger] self.external_resources@[j]).0 != id,
            decreases self.external_resources@.len() - i,
        {
            if self.external_resources[i].0 == id {
                return Some(i);
            }
            i = i + 1;
        }
        None
    }

    fn register_external_resource(
        &mut self,
        external_id: ExternalFrameResourceId,
        registration: ExternalFrameResourceRegistration,
    ) -> (r: FrameResourceResult<()>)
        ensures
            r is Ok <==> !external_registered(old(self).spec_externals(), external_id),
            r is Err ==> r->Err_0 == (FrameResourceError::InvalidOperation {
                operation: "FrameResourceAllocator::register_external_resource",
                reason: "external resource id was registered more than once",
            }),
            r is Ok ==> final(self).spec_externals() == old(self).spec_externals().push((external_id, registration)),
            r is Err ==> exists|i: int|
                0 <= i < old(self).spec_externals().len() && (#[trigger] old(self).spec_externals()[i]).0 == external_id
                    && final(self).spec_externals() == old(self).spec_externals().update(i, (external_id, registration)),
            final(self).spec_phase() == old(self).spec_phase(),
            final(self).spec_groups() == old(self).spec_groups(),
            final(self).spec_solution() == old(self).spec_solution(),
            final(self).spec_plan() == old(self).spec_plan(),
            final(self).spec_pool() == old(self).spec_pool(),
            final(self).spec_consume_time() == old(self).spec_consume_time(),
            final(self).spec_resolved() == old(self).spec_resolved(),
            final(self).spec_caches_cleared() == old(self).spec_caches_cleared(),
    {
        match self.external_position(external_id) {
            Some(i) => {
                self.external_resources.set(i, (external_id, registration));
                Err(
                    FrameResourceError::InvalidOperation {
                        operation: "FrameResourceAllocator::register_external_resource",
                        reason: "external resource id was registered more than once",
                    },
                )
            },
            None => {
                self.external_resources.push((external_id, registration));
                Ok(())
            },
        }
    }

    /// Registers the descriptor of an external texture for the coming
    /// resolve; registering an id twice keeps the later one and is refused.
    pub fn register_external_texture(&mut self, external_id: ExternalFrameResourceId, desc: FrameTextureDesc) -> (r:
        FrameResourceResult<()>)
        ensures
            r is Ok <==> !external_registered(old(self).spec_externals(), external_id),
            r is Ok ==> final(self).spec_externals() == old(self).spec_externals().push(
                (external_id, ExternalFrameResourceRegistration::Texture(desc)),
            ),
            r is Err ==> r->Err_0 == (FrameResourceError::InvalidOperation {
                operation: "FrameResourceAllocator::register_external_resource",
                reason: "external resource id was registered more than once",
            }),
            final(self).spec_phase() == old(self).spec_phase(),
            final(self).spec_groups() == old(self).spec_groups(),
            final(self).spec_pool() == old(self).spec_pool(),
    {
        self.register_external_resource(external_id, ExternalFrameResourceRegistration::Texture(desc))
    }

    /// Registers the descriptor of an external buffer for the coming resolve;
    /// registering an id twice keeps the later one and is refused.
    pub fn register_external_buffer(&mut self, external_id: ExternalFrameResourceId, desc: FrameBufferDesc) -> (r:
        FrameResourceResult<()>)
        ensures
            r is Ok <==> !external_registered(old(self).spec_externals(), external_id),
            r is Ok ==> final(self).spec_externals() == old(self).spec_externals().push(
                (external_id, ExternalFrameResourceRegistration::Buffer(desc)),
            ),
            r is Err ==> r->Err_0 == (FrameResourceError::InvalidOperation {
                operation: "FrameResourceAllocator::register_external_resource",
                reason: "external resource id was registered more than once",
            }),
            final(self).spec_phase() == old(self).spec_phase(),
            final(self).spec_groups() == old(self).spec_groups(),
            final(self).spec_pool() == old(self).spec_pool(),
    {
        self.register_external_resource(external_id, ExternalFrameResourceRegistration::Buffer(desc))
    }

    /// Drops every pool allocation; only valid during cleanup.
    pub fn clear_all_caches(&mut self) -> (r: FrameResourceResult<()>)
        requires
            old(self).spec_caches_cleared() < u32::MAX,
        ensures
            r is Ok <==> old(self).spec_phase() == ResourceAllocatorPhase::Cleanup,
            r is Err ==> r == Err::<(), FrameResourceError>(
                FrameResourceError::InvalidOperation {
                    operation: "FrameResourceAllocator::clear_all_caches",
                    reason: "cache clearing is only valid during cleanup",
                },
            ) && *final(self) == *old(self),
            r is Ok ==> final(self).spec_caches_cleared() == old(self).spec_caches_cleared() + 1
                && final(self).spec_pool().spec_allocations().len() == 0 && final(self).spec_pool().spec_max_unused_age()
                == old(self).spec_pool().spec_max_unused_age() && final(self).spec_phase() == old(self).spec_phase()
                && final(self).spec_groups() == old(self).spec_groups(),
    {
        if self.phase != ResourceAllocatorPhase::Cleanup {
            return Err(
                FrameResourceError::InvalidOperation {
                    operation: "FrameResourceAllocator::clear_all_caches",
                    reason: "cache clearing is only valid during cleanup",
                },
            );
        }
        self.caches_cleared_count = self.caches_cleared_count + 1;
        self.resource_pool.clear_all_caches();
        Ok(())
    }
}


/// Whether `r` is the allocation answered for allocation request `request`
/// under `plan`: none for no request, otherwise the allocation of the first
/// assignment of the request.
pub open spec fn allocation_answer(
    r: FrameResourceResult<Option<FrameResourceAllocationId>>,
    request: Option<AllocationRequestId>,
    plan: Option<FrameResourcePoolPlan>,
) -> bool {
    match request {
        None => r == Ok::<Option<FrameResourceAllocationId>, FrameResourceError>(None),
        Some(id) => match plan {
            None => r == Err::<Option<FrameResourceAllocationId>, FrameResourceError>(
                FrameResourceError::InvalidState { reason: "pool plan is missing during consume" },
            ),
            Some(p) => if forall|j: int|
                0 <= j < p.spec_assignments().len() ==> (#[trigger] p.spec_assignments()[j]).request_id != id {
                r == Err::<Option<FrameResourceAllocationId>, FrameResourceError>(
                    FrameResourceError::InvalidState {
                        reason: "allocation request was not assigned to a pool allocation",
                    },
                )
            } else {
                exists|j: int|
                    0 <= j < p.spec_assignments().len() && (#[trigger] p.spec_assignments()[j]).request_id == id
                        && (forall|x: int| 0 <= x < j ==> (#[trigger] p.spec_assignments()[x]).request_id != id) && r
                        == Ok::<Option<FrameResourceAllocationId>, FrameResourceError>(
                        Some(p.spec_assignments()[j].allocation_id),
                    )
            },
        },
    }
}

impl FrameResourceAllocator {
    /// The allocation `tag` names at the current consume time, if any.
    pub fn resolved_allocation_id(&self, tag: RenderFlowNameTag) -> (r: FrameResourceResult<
        Option<FrameResourceAllocationId>,
    >)
        ensures
            self.spec_phase() != ResourceAllocatorPhase::Consume ==> r == Err::<
                Option<FrameResourceAllocationId>,
                FrameResourceError,
            >(
                FrameResourceError::InvalidOperation {
                    operation: "FrameResourceAllocator::validate_resource_retrieval_phase",
                    reason: "resource retrieval is only valid during consume",
                },
            ),
            self.spec_phase() == ResourceAllocatorPhase::Consume && !self.spec_resolved() ==> r == Err::<
                Option<FrameResourceAllocationId>,
                FrameResourceError,
            >(
                FrameResourceError::InvalidOperation {
                    operation: "FrameResourceAllocator::try_resolved_allocation_id",
                    reason: "frame resources have not been materialized",
                },
            ),
            self.spec_phase() == ResourceAllocatorPhase::Consume && self.spec_resolved() && self.spec_consume_time() is None
                ==> r == Err::<Option<FrameResourceAllocationId>, FrameResourceError>(
                FrameResourceError::InvalidState {
                    reason: "no current consume request time is available for resource retrieval",
                },
            ),
            self.spec_phase() == ResourceAllocatorPhase::Consume && self.spec_resolved() && self.spec_consume_time() is Some
                && self.spec_solution() is None ==> r == Err::<Option<FrameResourceAllocationId>, FrameResourceError>(
                FrameResourceError::InvalidState { reason: "lifetime solution is missing during consume" },
            ),
            self.spec_phase() == ResourceAllocatorPhase::Consume && self.spec_resolved() && self.spec_consume_time() is Some
                && self.spec_solution() is Some ==> {
                let lifetimes = self.spec_solution()->0.spec_tag_lifetimes();
                let time = self.spec_consume_time()->0;
                &&& (forall|i: int| 0 <= i < lifetimes.len() ==> (#[trigger] lifetimes[i]).tag != tag) ==> r == Ok::<
                    Option<FrameResourceAllocationId>,
                    FrameResourceError,
                >(None)
                &&& forall|i: int| #[trigger]
                    first_tag_position(lifetimes, tag, i) ==> {
                        let events = lifetimes[i].events@;
                        &&& !(events.len() > 0 && events[0].time.0 <= time.0) ==> r == Err::<
                            Option<FrameResourceAllocationId>,
                            FrameResourceError,
                        >(
                            FrameResourceError::InvalidOperation {
                                operation: "TagLifetime::lookup",
                                reason: "lookup time precedes the tag lifetime timeline",
                            },
                        )
                        &&& forall|k: int| #[trigger]
                            lookup_prefix(events, time.0, k) && k > 0 ==> allocation_answer(
                                r,
                                events[k - 1].allocation,
                                self.spec_plan(),
                            )
                    }
            },
    {
        match self.validate_resource_retrieval_phase() {
            Ok(()) => {},
            Err(e) => return Err(e),
        }
        if !self.resources_resolved {
            return Err(
                FrameResourceError::InvalidOperation {
                    operation: "FrameResourceAllocator::try_resolved_allocation_id",
                    reason: "frame resources have not been materialized",
                },
            );
        }
        let current_time = match self.current_consume_time {
            Some(t) => t,
            None => return Err(
                FrameResourceError::InvalidState {
                    reason: "no current consume request time is available for resource retrieval",
                },
            ),
        };
        let solution = match &self.lifetime_solution {
            Some(s) => s,
            None => return Err(FrameResourceError::InvalidState { reason: "lifetime solution is missing during consume" }),
        };
        if solution.tag_lifetime(tag).is_none() {
            return Ok(None);
        }
        let looked_up = solution.lookup_allocation_for_tag(tag, current_time);
        let ghost lookup = looked_up;
        let request_id = match looked_up {
            Ok(Some(id)) => id,
            Ok(None) => {
                proof {
                    lemma_lookup_prefix_unique(solution.spec_tag_lifetimes(), tag, current_time.0);
                }
                return Ok(None);
            },
            Err(e) => return Err(e),
        };
        proof {
            lemma_lookup_prefix_unique(solution.spec_tag_lifetimes(), tag, current_time.0);
        }
        let plan = match &self.pool_plan {
            Some(p) => p,
            None => return Err(FrameResourceError::InvalidState { reason: "pool plan is missing during consume" }),
        };
        let assignment = match plan.assignment_for_request(request_id) {
            Some(a) => a,
            None => return Err(
                FrameResourceError::InvalidState { reason: "allocation request was not assigned to a pool allocation" },
            ),
        };
        Ok(Some(assignment.allocation_id))
    }
}

/// The position `lookup_prefix` names is unique.
proof fn lemma_lookup_prefix_unique(lifetimes: Seq<crate::lifetime::TagLifetime>, tag: RenderFlowNameTag, time: u64)
    ensures
        forall|i: int, k1: int, k2: int|
            #![trigger first_tag_position(lifetimes, tag, i), lookup_prefix(lifetimes[i].events@, time, k1), lookup_prefix(lifetimes[i].events@, time, k2)]
            first_tag_position(lifetimes, tag, i) && lookup_prefix(lifetimes[i].events@, time, k1) && lookup_prefix(
                lifetimes[i].events@,
                time,
                k2,
            ) ==> k1 == k2,
{
    assert forall|i: int, k1: int, k2: int|
        first_tag_position(lifetimes, tag, i) && lookup_prefix(lifetimes[i].events@, time, k1) && lookup_prefix(
            lifetimes[i].events@,
            time,
            k2,
        ) implies k1 == k2 by {
        let events = lifetimes[i].events@;
        if k1 < k2 {
            assert(events[k1].time.0 <= time);
        } else if k2 < k1 {
            assert(events[k2].time.0 <= time);
        }
    }
}


/// A GPU object the caller must create for a resolved allocation.
#[derive(Debug)]
pub enum FrameResourceCreation {
    Texture { allocation_id: FrameResourceAllocationId, descriptor: FrameTextureDescriptor },
    Buffer { allocation_id: FrameResourceAllocationId, descriptor: FrameBufferDescriptor },
}

impl FrameResourceCreation {
    pub open spec fn spec_allocation_id(&self) -> FrameResourceAllocationId {
        match self {
            FrameResourceCreation::Texture { allocation_id, .. } => *allocation_id,
            FrameResourceCreation::Buffer { allocation_id, .. } => *allocation_id,
        }
    }
}

/// Whether creation `c` is for the allocation that assignment `origin[c]`
/// made new.
pub open spec fn created_for(
    creations: Seq<FrameResourceCreation>,
    assignments: Seq<crate::pool::FrameResourcePoolAssignment>,
    origin: Seq<int>,
) -> bool {
    &&& origin.len() == creations.len()
    &&& forall|c: int|
        0 <= c < creations.len() ==> {
            let j = #[trigger] origin[c];
            &&& 0 <= j < assignments.len()
            &&& !assignments[j].reused_existing
            &&& assignments[j].allocation_id == creations[c].spec_allocation_id()
        }
}

/// Whether `candidates` are the cached allocations of `allocations`, in order.
pub open spec fn candidates_of(candidates: Seq<FrameResourcePoolCandidate>, allocations: Seq<FrameResourceAllocation>) -> bool {
    &&& candidates.len() == cached_allocations(allocations).len()
    &&& forall|j: int|
        0 <= j < candidates.len() ==> {
            let a = cached_allocations(allocations)[j];
            &&& (#[trigger] candidates[j]).allocation_id == a.id
            &&& candidates[j].desc.same_as(&a.desc)
            &&& candidates[j].class == FrameResourceAllocationClass::OwnedReusable
        }
}

proof fn lemma_cached_allocations_within(s: Seq<FrameResourceAllocation>)
    ensures
        cached_allocations(s).len() <= s.len(),
        forall|j: int|
            0 <= j < cached_allocations(s).len() ==> exists|i: int|
                0 <= i < s.len() && s[i] == #[trigger] cached_allocations(s)[j],
    decreases s.len(),
{
    if s.len() > 0 {
        let rest = s.drop_last();
        lemma_cached_allocations_within(rest);
        assert forall|j: int| 0 <= j < cached_allocations(s).len() implies exists|i: int|
            0 <= i < s.len() && s[i] == #[trigger] cached_allocations(s)[j] by {
            if j < cached_allocations(rest).len() {
                let i = choose|i: int| 0 <= i < rest.len() && rest[i] == #[trigger] cached_allocations(rest)[j];
                assert(s[i] == rest[i]);
            } else {
                assert(s[s.len() - 1] == cached_allocations(s)[j]);
            }
        }
    }
}

proof fn lemma_cached_next_below(c: Seq<FrameResourcePoolCandidate>, bound: int)
    requires
        bound >= 0,
        forall|i: int| 0 <= i < c.len() ==> (#[trigger] c[i]).allocation_id.0 < bound,
    ensures
        cached_next(c) <= bound,
    decreases c.len(),
{
    if c.len() > 0 {
        assert forall|i: int| 0 <= i < c.drop_last().len() implies (#[trigger] c.drop_last()[i]).allocation_id.0 < bound by {
            assert(c.drop_last()[i] == c[i]);
        }
        lemma_cached_next_below(c.drop_last(), bound);
    }
}

/// The descriptor an external resource was registered with.
pub open spec fn registration_desc(registration: ExternalFrameResourceRegistration) -> FrameResourceDesc {
    match registration {
        ExternalFrameResourceRegistration::Texture(d) => FrameResourceDesc::Texture(d),
        ExternalFrameResourceRegistration::Buffer(d) => FrameResourceDesc::Buffer(d),
    }
}

/// The error of an attach whose external id was never registered.
pub open spec fn unregistered_external_error() -> FrameResourceError {
    FrameResourceError::InvalidOperation {
        operation: "FrameResourceAllocator::attach_external_resource",
        reason: "external resource id was not registered before resolve",
    }
}

/// The error of an attach whose registration does not fit the request.
pub open spec fn mismatched_external_error() -> FrameResourceError {
    FrameResourceError::InvalidOperation {
        operation: "FrameResourceAllocator::attach_external_resource",
        reason: "registered external resource does not match the requested kind or descriptor",
    }
}

/// Whether attaching `registration` to the request described by `expected`,
/// under `id` and as `class`, took the pool's allocations from `before` to
/// `after` with result `r`: the registration must be of the same kind and
/// exactly the requested descriptor, the class imported or swapped in; then
/// the pool records it like any external allocation.
pub open spec fn attach_outcome(
    before: Seq<FrameResourceAllocation>,
    after: Seq<FrameResourceAllocation>,
    registration: ExternalFrameResourceRegistration,
    expected: FrameResourceDesc,
    id: FrameResourceAllocationId,
    class: FrameResourceAllocationClass,
    r: FrameResourceResult<()>,
) -> bool {
    let desc = registration_desc(registration);
    if !desc.exact_match(&expected) || !(class == FrameResourceAllocationClass::Imported || class
        == FrameResourceAllocationClass::ExternalSwap) {
        r == Err::<(), FrameResourceError>(mismatched_external_error()) && after == before
    } else {
        let ownership = if class == FrameResourceAllocationClass::Imported {
            FrameResourceOwnership::Imported
        } else {
            FrameResourceOwnership::ExternalSwap
        };
        &&& (r is Ok <==> !holds_id(before, id) && desc.validation() is Ok)
        &&& holds_id(before, id) ==> r == Err::<(), FrameResourceError>(duplicate_allocation_error())
        &&& !holds_id(before, id) && desc.validation() is Err ==> r == Err::<(), FrameResourceError>(
            desc.validation()->Err_0,
        )
        &&& r is Err ==> after == before
        &&& r is Ok ==> appended(before, after, id, ownership, false) && after.last().desc == desc
    }
}

/// Takes the first registration of `external_id` out of `externals` and
/// records it in the pool under `allocation_id`.
fn attach_external_resource(
    externals: &mut Vec<(ExternalFrameResourceId, ExternalFrameResourceRegistration)>,
    pool: &mut FrameResourcePool,
    allocation_id: FrameResourceAllocationId,
    expected: &FrameResourceDesc,
    external_id: ExternalFrameResourceId,
    class: FrameResourceAllocationClass,
) -> (r: FrameResourceResult<()>)
    ensures
        final(pool).spec_max_unused_age() == old(pool).spec_max_unused_age(),
        !external_registered(old(externals)@, external_id) ==> {
            &&& r == Err::<(), FrameResourceError>(unregistered_external_error())
            &&& final(externals)@ == old(externals)@
            &&& final(pool).spec_allocations() == old(pool).spec_allocations()
        },
        external_registered(old(externals)@, external_id) ==> exists|p: int|
            {
                &&& 0 <= p < old(externals)@.len()
                &&& (#[trigger] old(externals)@[p]).0 == external_id
                &&& forall|j: int| 0 <= j < p ==> (#[trigger] old(externals)@[j]).0 != external_id
                &&& final(externals)@ == old(externals)@.remove(p)
                &&& attach_outcome(
                    old(pool).spec_allocations(),
                    final(pool).spec_allocations(),
                    old(externals)@[p].1,
                    *expected,
                    allocation_id,
                    class,
                    r,
                )
            },
{
    let mut position: usize = 0;
    while position < externals.len() && externals[position].0 != external_id
        invariant
            position <= externals@.len(),
            forall|j: int| 0 <= j < position ==> (#[trigger] externals@[j]).0 != external_id,
        decreases externals@.len() - position,
    {
        position = position + 1;
    }
    if position == externals.len() {
        return Err(
            FrameResourceError::InvalidOperation {
                operation: "FrameResourceAllocator::attach_external_resource",
                reason: "external resource id was not registered before resolve",
            },
        );
    }
    let ghost p = position as int;
    let ghost registered = externals@[p].1;
    let (_, registration) = externals.remove(position);
    let r = match (registration, expected) {
        (ExternalFrameResourceRegistration::Texture(desc), FrameResourceDesc::Texture(wanted)) => {
            if !desc.is_exact_match(wanted) {
                return Err(mismatched_external());
            }
            match class {
                FrameResourceAllocationClass::Imported => pool.import_texture(allocation_id, desc),
                FrameResourceAllocationClass::ExternalSwap => pool.insert_external_swap_texture(allocation_id, desc),
                _ => Err(mismatched_external()),
            }
        },
        (ExternalFrameResourceRegistration::Buffer(desc), FrameResourceDesc::Buffer(wanted)) => {
            if !desc.is_exact_match(wanted) {
                return Err(mismatched_external());
            }
            match class {
                FrameResourceAllocationClass::Imported => pool.import_buffer(allocation_id, desc),
                FrameResourceAllocationClass::ExternalSwap => pool.insert_external_swap_buffer(allocation_id, desc),
                _ => Err(mismatched_external()),
            }
        },
        _ => Err(mismatched_external()),
    };
    proof {
        assert(attach_outcome(
            old(pool).spec_allocations(),
            pool.spec_allocations(),
            registered,
            *expected,
            allocation_id,
            class,
            r,
        ));
    }
    r
}

fn mismatched_external() -> (r: FrameResourceError)
    ensures
        r == mismatched_external_error(),
{
    FrameResourceError::InvalidOperation {
        operation: "FrameResourceAllocator::attach_external_resource",
        reason: "registered external resource does not match the requested kind or descriptor",
    }
}

/// Registrations of external resources, in registration order.
pub type ExternalRegistrations = Seq<(ExternalFrameResourceId, ExternalFrameResourceRegistration)>;

/// The ids of the allocations of a pool.
pub open spec fn pool_ids(allocations: Seq<FrameResourceAllocation>) -> Set<FrameResourceAllocationId> {
    Set::new(|id: FrameResourceAllocationId| holds_id(allocations, id))
}

/// No two cached allocations share an id.
pub open spec fn cached_alloc_ids_unique(allocations: Seq<FrameResourceAllocation>) -> bool {
    forall|i: int, j: int|
        0 <= i < j < cached_allocations(allocations).len() ==> (#[trigger] cached_allocations(allocations)[i]).id != (
        #[trigger] cached_allocations(allocations)[j]).id
}

/// Whether some request of `requests` has id `id`.
pub open spec fn has_request(requests: Seq<AllocationRequest>, id: AllocationRequestId) -> bool {
    exists|i: int| 0 <= i < requests.len() && (#[trigger] requests[i]).spec_id() == id
}

/// The position of the first request with id `id`.
pub open spec fn request_index(requests: Seq<AllocationRequest>, id: AllocationRequestId) -> int {
    choose|i: int|
        0 <= i < requests.len() && requests[i].spec_id() == id && forall|j: int|
            0 <= j < i ==> (#[trigger] requests[j]).spec_id() != id
}

/// The position of the first registration of `id`.
pub open spec fn external_index(externals: ExternalRegistrations, id: ExternalFrameResourceId) -> int {
    choose|p: int|
        0 <= p < externals.len() && externals[p].0 == id && forall|j: int| 0 <= j < p ==> (#[trigger] externals[j]).0 != id
}

/// The error of an assignment whose request the solution does not hold.
pub open spec fn unknown_assignment_error() -> FrameResourceError {
    FrameResourceError::InvalidState { reason: "pool assignment references an unknown allocation request" }
}

/// The outcome of recording a new allocation `id` described by `desc` in a
/// pool holding `ids`.
pub open spec fn new_allocation_result(
    ids: Set<FrameResourceAllocationId>,
    id: FrameResourceAllocationId,
    desc: FrameResourceDesc,
) -> FrameResourceResult<()> {
    if ids.contains(id) {
        Err(duplicate_allocation_error())
    } else if desc.validation() is Err {
        Err(desc.validation()->Err_0)
    } else {
        Ok(())
    }
}

/// The outcome of materializing one pool assignment, with the pool holding
/// `ids` and the registrations `externals`: a reused allocation is marked used,
/// an owned one is recorded, an external one is attached from its first
/// registration, which must fit the request exactly.
#[verifier::opaque]
pub open spec fn resolve_step_result(
    ids: Set<FrameResourceAllocationId>,
    externals: ExternalRegistrations,
    requests: Seq<AllocationRequest>,
    a: FrameResourcePoolAssignment,
) -> FrameResourceResult<()> {
    if !has_request(requests, a.request_id) {
        Err(unknown_assignment_error())
    } else {
        let request = requests[request_index(requests, a.request_id)];
        if a.reused_existing {
            if ids.contains(a.allocation_id) {
                Ok(())
            } else {
                Err(missing_allocation_error("FrameResourcePool::mark_used_this_frame_for_request"))
            }
        } else {
            match request.spec_source() {
                AllocationRequestSource::Owned => new_allocation_result(ids, a.allocation_id, request.spec_desc()),
                AllocationRequestSource::Imported(e) => external_step_result(ids, externals, request, a, e),
                AllocationRequestSource::ExternalSwap(e) => external_step_result(ids, externals, request, a, e),
            }
        }
    }
}

/// The outcome of attaching the registration of `e` for `request`.
pub open spec fn external_step_result(
    ids: Set<FrameResourceAllocationId>,
    externals: ExternalRegistrations,
    request: AllocationRequest,
    a: FrameResourcePoolAssignment,
    e: ExternalFrameResourceId,
) -> FrameResourceResult<()> {
    if !external_registered(externals, e) {
        Err(unregistered_external_error())
    } else {
        let desc = registration_desc(externals[external_index(externals, e)].1);
        if !desc.exact_match(&request.spec_desc()) {
            Err(mismatched_external_error())
        } else {
            new_allocation_result(ids, a.allocation_id, desc)
        }
    }
}

/// The pool ids after one successful step.
pub open spec fn resolve_step_ids(ids: Set<FrameResourceAllocationId>, a: FrameResourcePoolAssignment) -> Set<
    FrameResourceAllocationId,
> {
    if a.reused_existing {
        ids
    } else {
        ids.insert(a.allocation_id)
    }
}

/// The registrations after one step: an attach takes out the registration used.
pub open spec fn resolve_step_externals(
    externals: ExternalRegistrations,
    requests: Seq<AllocationRequest>,
    a: FrameResourcePoolAssignment,
) -> ExternalRegistrations {
    if !has_request(requests, a.request_id) || a.reused_existing {
        externals
    } else {
        match requests[request_index(requests, a.request_id)].spec_source() {
            AllocationRequestSource::Owned => externals,
            AllocationRequestSource::Imported(e) => if external_registered(externals, e) {
                externals.remove(external_index(externals, e))
            } else {
                externals
            },
            AllocationRequestSource::ExternalSwap(e) => if external_registered(externals, e) {
                externals.remove(external_index(externals, e))
            } else {
                externals
            },
        }
    }
}

/// Materializing the assignments `asg` in order, stopping at the first
/// failure: the outcome, then the pool ids and registrations reached.
#[verifier::opaque]
pub open spec fn resolve_walk(
    ids: Set<FrameResourceAllocationId>,
    externals: ExternalRegistrations,
    requests: Seq<AllocationRequest>,
    asg: Seq<FrameResourcePoolAssignment>,
) -> (FrameResourceResult<()>, Set<FrameResourceAllocationId>, ExternalRegistrations)
    decreases asg.len(),
{
    if asg.len() == 0 {
        (Ok(()), ids, externals)
    } else {
        let prev = resolve_walk(ids, externals, requests, asg.drop_last());
        if prev.0 is Err {
            prev
        } else {
            let a = asg.last();
            (
                resolve_step_result(prev.1, prev.2, requests, a),
                resolve_step_ids(prev.1, a),
                resolve_step_externals(prev.2, requests, a),
            )
        }
    }
}

/// A walk that has not failed takes its next step.
proof fn lemma_walk_step(
    ids: Set<FrameResourceAllocationId>,
    externals: ExternalRegistrations,
    requests: Seq<AllocationRequest>,
    asg: Seq<FrameResourcePoolAssignment>,
    k: int,
)
    requires
        0 <= k < asg.len(),
        resolve_walk(ids, externals, requests, asg.take(k)).0 is Ok,
    ensures
        ({
            let prev = resolve_walk(ids, externals, requests, asg.take(k));
            resolve_walk(ids, externals, requests, asg.take(k + 1)) == (
                resolve_step_result(prev.1, prev.2, requests, asg[k]),
                resolve_step_ids(prev.1, asg[k]),
                resolve_step_externals(prev.2, requests, asg[k]),
            )
        }),
{
    reveal(resolve_walk);
    assert(asg.take(k + 1).drop_last() =~= asg.take(k));
    assert(asg.take(k + 1).last() == asg[k]);
}

/// An empty walk succeeds and changes nothing.
proof fn lemma_walk_empty(
    ids: Set<FrameResourceAllocationId>,
    externals: ExternalRegistrations,
    requests: Seq<AllocationRequest>,
    asg: Seq<FrameResourcePoolAssignment>,
)
    ensures
        resolve_walk(ids, externals, requests, asg.take(0)) == (Ok::<(), FrameResourceError>(()), ids, externals),
{
    reveal(resolve_walk);
    assert(asg.take(0).len() == 0);
}

/// Once a walk failed, walking further keeps its failure.
proof fn lemma_walk_failure_stays(
    ids: Set<FrameResourceAllocationId>,
    externals: ExternalRegistrations,
    requests: Seq<AllocationRequest>,
    asg: Seq<FrameResourcePoolAssignment>,
    m: int,
)
    requires
        0 <= m <= asg.len(),
        resolve_walk(ids, externals, requests, asg.take(m)).0 is Err,
    ensures
        resolve_walk(ids, externals, requests, asg).0 == resolve_walk(ids, externals, requests, asg.take(m)).0,
    decreases asg.len() - m,
{
    reveal(resolve_walk);
    if m < asg.len() {
        assert(asg.take(m + 1).drop_last() =~= asg.take(m));
        lemma_walk_failure_stays(ids, externals, requests, asg, m + 1);
    } else {
        assert(asg.take(m) =~= asg);
    }
}

/// Updating an allocation in place at the first position of `id` keeps the
/// pool's ids.
proof fn lemma_pool_ids_marked(
    before: Seq<FrameResourceAllocation>,
    after: Seq<FrameResourceAllocation>,
    id: FrameResourceAllocationId,
)
    requires
        exists|i: int|
            #[trigger] first_position(before, id, i) && after.len() == before.len() && after[i].id == before[i].id
                && forall|j: int| 0 <= j < before.len() && j != i ==> after[j] == before[j],
    ensures
        pool_ids(after) == pool_ids(before),
{
    let i = choose|i: int|
        #[trigger] first_position(before, id, i) && after.len() == before.len() && after[i].id == before[i].id
            && forall|j: int| 0 <= j < before.len() && j != i ==> after[j] == before[j];
    assert forall|x: FrameResourceAllocationId| #[trigger] holds_id(after, x) == holds_id(before, x) by {
        if holds_id(after, x) {
            let j = choose|j: int| 0 <= j < after.len() && (#[trigger] after[j]).id == x;
            assert(before[j].id == x);
        }
        if holds_id(before, x) {
            let j = choose|j: int| 0 <= j < before.len() && (#[trigger] before[j]).id == x;
            assert(after[j].id == x);
        }
    }
    assert(pool_ids(after) =~= pool_ids(before));
}

/// Appending an allocation adds its id.
proof fn lemma_pool_ids_appended(
    before: Seq<FrameResourceAllocation>,
    after: Seq<FrameResourceAllocation>,
    id: FrameResourceAllocationId,
    ownership: FrameResourceOwnership,
    cacheable: bool,
)
    requires
        appended(before, after, id, ownership, cacheable),
    ensures
        pool_ids(after) == pool_ids(before).insert(id),
{
    assert forall|x: FrameResourceAllocationId| #[trigger] holds_id(after, x) == (holds_id(before, x) || x == id) by {
        if holds_id(after, x) {
            let j = choose|j: int| 0 <= j < after.len() && (#[trigger] after[j]).id == x;
            if j < before.len() {
                assert(before[j].id == x);
            }
        }
        if holds_id(before, x) {
            let j = choose|j: int| 0 <= j < before.len() && (#[trigger] before[j]).id == x;
            assert(after[j].id == x);
        }
        if x == id {
            assert(after[after.len() - 1].id == x);
        }
    }
    assert(pool_ids(after) =~= pool_ids(before).insert(id));
}

/// Attaching an external resource follows the resolve step: its result, the
/// pool ids and the registrations it leaves.
proof fn lemma_attach_step(
    before_exts: ExternalRegistrations,
    after_exts: ExternalRegistrations,
    before: Seq<FrameResourceAllocation>,
    after: Seq<FrameResourceAllocation>,
    expected: FrameResourceDesc,
    id: FrameResourceAllocationId,
    e: ExternalFrameResourceId,
    class: FrameResourceAllocationClass,
    r: FrameResourceResult<()>,
)
    requires
        class == FrameResourceAllocationClass::Imported || class == FrameResourceAllocationClass::ExternalSwap,
        !external_registered(before_exts, e) ==> r == Err::<(), FrameResourceError>(unregistered_external_error()),
        external_registered(before_exts, e) ==> exists|p: int|
            {
                &&& 0 <= p < before_exts.len()
                &&& (#[trigger] before_exts[p]).0 == e
                &&& forall|j: int| 0 <= j < p ==> (#[trigger] before_exts[j]).0 != e
                &&& after_exts == before_exts.remove(p)
                &&& attach_outcome(before, after, before_exts[p].1, expected, id, class, r)
            },
    ensures
        ({
            let result: FrameResourceResult<()> = if !external_registered(before_exts, e) {
                Err(unregistered_external_error())
            } else {
                let desc = registration_desc(before_exts[external_index(before_exts, e)].1);
                if !desc.exact_match(&expected) {
                    Err(mismatched_external_error())
                } else {
                    new_allocation_result(pool_ids(before), id, desc)
                }
            };
            &&& (r is Ok <==> result is Ok)
            &&& r is Err ==> r->Err_0 == result->Err_0
        }),
        external_registered(before_exts, e) ==> after_exts == before_exts.remove(external_index(before_exts, e)),
        r is Ok ==> pool_ids(after) == pool_ids(before).insert(id),
{
    if external_registered(before_exts, e) {
        let p = choose|p: int|
            {
                &&& 0 <= p < before_exts.len()
                &&& (#[trigger] before_exts[p]).0 == e
                &&& forall|j: int| 0 <= j < p ==> (#[trigger] before_exts[j]).0 != e
                &&& after_exts == before_exts.remove(p)
                &&& attach_outcome(before, after, before_exts[p].1, expected, id, class, r)
            };
        let q = external_index(before_exts, e);
        assert(0 <= q < before_exts.len() && before_exts[q].0 == e);
        if q < p {
            assert(before_exts[q].0 != e);
        }
        if p < q {
            assert(before_exts[p].0 != e);
        }
        assert(q == p);
        let desc = registration_desc(before_exts[p].1);
        assert(pool_ids(before).contains(id) == holds_id(before, id));
        if desc.exact_match(&expected) {
            let ownership = if class == FrameResourceAllocationClass::Imported {
                FrameResourceOwnership::Imported
            } else {
                FrameResourceOwnership::ExternalSwap
            };
            if r is Ok {
                lemma_pool_ids_appended(before, after, id, ownership, false);
            }
        }
    }
}

/// Materializes one pool assignment for `requests`: marks a reused allocation
/// used, records an owned one (returning what the caller must create), or
/// attaches an external one from its registration; a restricted allocation is
/// then made non-cacheable.
fn materialize_assignment(
    externals: &mut Vec<(ExternalFrameResourceId, ExternalFrameResourceRegistration)>,
    pool: &mut FrameResourcePool,
    requests: &[AllocationRequest],
    assignment: FrameResourcePoolAssignment,
) -> (r: FrameResourceResult<Option<FrameResourceCreation>>)
    ensures
        final(pool).spec_max_unused_age() == old(pool).spec_max_unused_age(),
        ({
            let step = resolve_step_result(pool_ids(old(pool).spec_allocations()), old(externals)@, requests@, assignment);
            &&& (r is Ok <==> step is Ok)
            &&& r is Err ==> r->Err_0 == step->Err_0
        }),
        r is Ok ==> pool_ids(final(pool).spec_allocations()) == resolve_step_ids(
            pool_ids(old(pool).spec_allocations()),
            assignment,
        ),
        r is Ok ==> final(externals)@ == resolve_step_externals(old(externals)@, requests@, assignment),
        r is Ok && r->Ok_0 is Some ==> !assignment.reused_existing && r->Ok_0->0.spec_allocation_id()
            == assignment.allocation_id,
{
    reveal(resolve_step_result);
    let mut i: usize = 0;
    while i < requests.len() && requests[i].id() != assignment.request_id
        invariant
            i <= requests@.len(),
            forall|j: int| 0 <= j < i ==> (#[trigger] requests@[j]).spec_id() != assignment.request_id,
        decreases requests@.len() - i,
    {
        i = i + 1;
    }
    if i == requests.len() {
        proof {
            assert(!has_request(requests@, assignment.request_id));
        }
        return Err(
            FrameResourceError::InvalidState { reason: "pool assignment references an unknown allocation request" },
        );
    }
    let request = &requests[i];
    proof {
        assert(has_request(requests@, assignment.request_id));
        let ri = request_index(requests@, assignment.request_id);
        assert(0 <= ri < requests@.len() && requests@[ri].spec_id() == assignment.request_id);
        if ri < i {
            assert(requests@[ri].spec_id() != assignment.request_id);
        }
        if ri > i {
            assert(requests@[i as int].spec_id() != assignment.request_id);
        }
        assert(ri == i);
    }
    let ghost before_pool = pool.spec_allocations();
    let ghost before_exts = externals@;
    let mut created: Option<FrameResourceCreation> = None;
    if assignment.reused_existing {
        match pool.mark_used_this_frame_for_request(assignment.allocation_id, request.desc()) {
            Ok(()) => {},
            Err(e) => {
                proof {
                    assert(!pool_ids(old(pool).spec_allocations()).contains(assignment.allocation_id));
                }
                return Err(e);
            },
        }
        proof {
            lemma_pool_ids_marked(before_pool, pool.spec_allocations(), assignment.allocation_id);
        }
    } else {
        match request.source() {
            AllocationRequestSource::Owned => match request.desc() {
                FrameResourceDesc::Texture(desc) => {
                    let descriptor = match pool.create_owned_texture(
                        assignment.allocation_id,
                        desc.copy(),
                    ) {
                        Ok(d) => d,
                        Err(e) => {
                            return Err(e);
                        },
                    };
                    created = Some(
                        FrameResourceCreation::Texture { allocation_id: assignment.allocation_id, descriptor },
                    );
                    proof {
                        lemma_pool_ids_appended(before_pool, pool.spec_allocations(), assignment.allocation_id, FrameResourceOwnership::Owned, true);
                    }
                },
                FrameResourceDesc::Buffer(desc) => {
                    let descriptor = match pool.create_owned_buffer(assignment.allocation_id, *desc) {
                        Ok(d) => d,
                        Err(e) => {
                            return Err(e);
                        },
                    };
                    created = Some(
                        FrameResourceCreation::Buffer { allocation_id: assignment.allocation_id, descriptor },
                    );
                    proof {
                        lemma_pool_ids_appended(before_pool, pool.spec_allocations(), assignment.allocation_id, FrameResourceOwnership::Owned, true);
                    }
                },
            },
            AllocationRequestSource::Imported(external_id) => {
                let attached = attach_external_resource(
                    externals,
                    pool,
                    assignment.allocation_id,
                    request.desc(),
                    external_id,
                    FrameResourceAllocationClass::Imported,
                );
                proof {
                    lemma_attach_step(before_exts, externals@, before_pool, pool.spec_allocations(), request.spec_desc(), assignment.allocation_id, external_id, FrameResourceAllocationClass::Imported, attached);
                }
                match attached {
                    Ok(()) => {},
                    Err(e) => {
                        return Err(e);
                    },
                }
            },
            AllocationRequestSource::ExternalSwap(external_id) => {
                let attached = attach_external_resource(
                    externals,
                    pool,
                    assignment.allocation_id,
                    request.desc(),
                    external_id,
                    FrameResourceAllocationClass::ExternalSwap,
                );
                proof {
                    lemma_attach_step(before_exts, externals@, before_pool, pool.spec_allocations(), request.spec_desc(), assignment.allocation_id, external_id, FrameResourceAllocationClass::ExternalSwap, attached);
                }
                match attached {
                    Ok(()) => {},
                    Err(e) => {
                        return Err(e);
                    },
                }
            },
        }
        if assignment.class == FrameResourceAllocationClass::OwnedRestricted {
            let ghost marked_before = pool.spec_allocations();
            proof {
                assert(pool_ids(marked_before).contains(assignment.allocation_id));
            }
            match pool.mark_non_cacheable(assignment.allocation_id) {
                Ok(()) => {},
                Err(e) => return Err(e),
            }
            proof {
                lemma_pool_ids_marked(marked_before, pool.spec_allocations(), assignment.allocation_id);
            }
        }
    }
    Ok(created)
}

impl FrameResourceAllocator {
    /// Plans the pool for the frame's solution, starting from the cached
    /// allocations, and materializes the plan in the pool: reused allocations
    /// are marked used for their request, owned ones are recorded (and
    /// returned for the caller to create), external ones are attached from
    /// their registrations, and restricted ones are made non-cacheable. Only
    /// valid during resolve.
    #[verifier::spinoff_prover]
    #[verifier::rlimit(100)]
    pub fn resolve_frame_resources(&mut self) -> (r: FrameResourceResult<Vec<FrameResourceCreation>>)
        requires
            old(self).spec_solution() is Some ==> old(self).spec_solution()->0.spec_requests().len() < u32::MAX,
            old(self).spec_solution() is Some ==> forall|i: int|
                0 <= i < old(self).spec_pool().spec_allocations().len() ==> (#[trigger] old(
                    self,
                ).spec_pool().spec_allocations()[i]).id.0 + old(self).spec_solution()->0.spec_requests().len() < u32::MAX,
        ensures
            old(self).spec_phase() != ResourceAllocatorPhase::Resolve ==> r == Err::<
                Vec<FrameResourceCreation>,
                FrameResourceError,
            >(
                FrameResourceError::InvalidOperation {
                    operation: "FrameResourceAllocator::resolve_frame_resources",
                    reason: "frame resources can only be materialized during resolve",
                },
            ) && *final(self) == *old(self),
            old(self).spec_phase() == ResourceAllocatorPhase::Resolve && old(self).spec_solution() is None ==> r == Err::<
                Vec<FrameResourceCreation>,
                FrameResourceError,
            >(FrameResourceError::InvalidState { reason: "lifetime solution is missing during resolve" }) && *final(self)
                == *old(self),
            final(self).spec_phase() == old(self).spec_phase(),
            final(self).spec_groups() == old(self).spec_groups(),
            final(self).spec_solution() == old(self).spec_solution(),
            final(self).spec_consume_time() == old(self).spec_consume_time(),
            final(self).spec_caches_cleared() == old(self).spec_caches_cleared(),
            final(self).spec_pool().spec_max_unused_age() == old(self).spec_pool().spec_max_unused_age(),
            old(self).spec_phase() == ResourceAllocatorPhase::Resolve && old(self).spec_solution() is Some
                && !cached_alloc_ids_unique(old(self).spec_pool().spec_allocations()) ==> r == Err::<
                Vec<FrameResourceCreation>,
                FrameResourceError,
            >(
                FrameResourceError::InvalidOperation {
                    operation: "FrameResourcePoolPlan::plan_with_cached_allocations",
                    reason: "cached allocation ids must be unique",
                },
            ),
            old(self).spec_phase() == ResourceAllocatorPhase::Resolve && old(self).spec_solution() is Some
                && cached_alloc_ids_unique(old(self).spec_pool().spec_allocations()) ==> exists|
                cands: Seq<FrameResourcePoolCandidate>,
                order: Seq<int>,
            |
                #![trigger candidates_of(cands, old(self).spec_pool().spec_allocations()), is_planning_order(old(self).spec_solution()->0.spec_requests(), order)]
                candidates_of(cands, old(self).spec_pool().spec_allocations()) && is_planning_order(
                    old(self).spec_solution()->0.spec_requests(),
                    order,
                ) && {
                    let walk = resolve_walk(
                        pool_ids(old(self).spec_pool().spec_allocations()),
                        old(self).spec_externals(),
                        old(self).spec_solution()->0.spec_requests(),
                        plan_model(old(self).spec_solution()->0.spec_requests(), cands, order).assignments,
                    );
                    &&& (r is Ok <==> walk.0 is Ok)
                    &&& r is Err ==> r->Err_0 == walk.0->Err_0
                },
            r is Ok ==> {
                let sol = old(self).spec_solution()->0;
                let plan = final(self).spec_plan()->0;
                &&& old(self).spec_solution() is Some
                &&& final(self).spec_resolved()
                &&& final(self).spec_plan() is Some
                &&& exists|cands: Seq<FrameResourcePoolCandidate>, order: Seq<int>|
                    #![trigger candidates_of(cands, old(self).spec_pool().spec_allocations()), is_planning_order(sol.spec_requests(), order)]
                    candidates_of(cands, old(self).spec_pool().spec_allocations()) && is_planning_order(
                        sol.spec_requests(),
                        order,
                    ) && plan.is_plan_of(plan_model(sol.spec_requests(), cands, order))
                &&& exists|origin: Seq<int>| #[trigger] created_for(r->Ok_0@, plan.spec_assignments(), origin)
            },
    {
        if self.phase != ResourceAllocatorPhase::Resolve {
            return Err(
                FrameResourceError::InvalidOperation {
                    operation: "FrameResourceAllocator::resolve_frame_resources",
                    reason: "frame resources can only be materialized during resolve",
                },
            );
        }
        let solution = match &self.lifetime_solution {
            Some(s) => s,
            None => return Err(FrameResourceError::InvalidState { reason: "lifetime solution is missing during resolve" }),
        };
        let candidates = self.resource_pool.planner_candidates();
        proof {
            assert(self.spec_solution()->0 == *solution);
            let allocations = self.resource_pool.spec_allocations();
            lemma_cached_allocations_within(allocations);
            assert forall|i: int| 0 <= i < candidates@.len() implies (#[trigger] candidates@[i]).allocation_id.0
                < u32::MAX - solution.spec_requests().len() by {
                let a = cached_allocations(allocations)[i];
                let k = choose|k: int| 0 <= k < allocations.len() && allocations[k] == #[trigger] cached_allocations(allocations)[i];
                assert(old(self).spec_pool().spec_allocations()[k].id.0 + old(self).spec_solution()->0.spec_requests().len()
                    < u32::MAX);
            }
            lemma_cached_next_below(candidates@, u32::MAX - solution.spec_requests().len());
        }
        let cached = candidates.as_slice();
        assert(cached@ == candidates@);
        let planned = FrameResourcePoolPlan::plan_with_cached_allocations(solution, cached);
        proof {
            let allocations = old(self).spec_pool().spec_allocations();
            assert(candidates_of(candidates@, allocations));
            if cached_alloc_ids_unique(allocations) {
                assert forall|i: int, j: int| 0 <= i < j < candidates@.len() implies (#[trigger] candidates@[i]).allocation_id
                    != (#[trigger] candidates@[j]).allocation_id by {
                    assert(cached_allocations(allocations)[i].id != cached_allocations(allocations)[j].id);
                }
            } else {
                let (i, j) = choose|i: int, j: int|
                    0 <= i < j < cached_allocations(allocations).len() && (#[trigger] cached_allocations(allocations)[i]).id
                        == (#[trigger] cached_allocations(allocations)[j]).id;
                assert(candidates@[i].allocation_id == candidates@[j].allocation_id);
            }
        }
        let plan = match planned {
            Ok(p) => p,
            Err(e) => return Err(e),
        };
        let ghost order_g = choose|order: Seq<int>|
            #[trigger] is_planning_order(solution.spec_requests(), order) && plan.is_plan_of(
                plan_model(solution.spec_requests(), candidates@, order),
            );
        let ghost ids0 = pool_ids(old(self).spec_pool().spec_allocations());
        let ghost exts0 = old(self).spec_externals();
        let requests = solution.allocation_requests();
        let assignments = plan.assignments();
        proof {
            assert(self.spec_solution()->0 == *solution);
            assert(cached_alloc_ids_unique(old(self).spec_pool().spec_allocations()));
            lemma_walk_empty(ids0, exts0, requests@, assignments@);
            assert(plan.spec_assignments() == plan_model(solution.spec_requests(), candidates@, order_g).assignments);
        }
        let mut creations: Vec<FrameResourceCreation> = Vec::new();
        let ghost mut origin: Seq<int> = Seq::empty();
        let mut k: usize = 0;
        while k < assignments.len()
            invariant
                k <= assignments@.len(),
                assignments@ == plan.spec_assignments(),
                self.resource_pool.spec_max_unused_age() == old(self).resource_pool.spec_max_unused_age(),
                created_for(creations@, assignments@, origin),
                forall|c: int| 0 <= c < origin.len() ==> #[trigger] origin[c] < k,
                self.phase == old(self).phase,
                self.request_groups == old(self).request_groups,
                self.lifetime_solution == old(self).lifetime_solution,
                self.pool_plan == old(self).pool_plan,
                self.current_consume_time == old(self).current_consume_time,
                self.resources_resolved == old(self).resources_resolved,
                self.caches_cleared_count == old(self).caches_cleared_count,
                old(self).phase == ResourceAllocatorPhase::Resolve,
                old(self).lifetime_solution is Some,
                requests@ == old(self).spec_solution()->0.spec_requests(),
                ids0 == pool_ids(old(self).spec_pool().spec_allocations()),
                exts0 == old(self).spec_externals(),
                candidates_of(candidates@, old(self).spec_pool().spec_allocations()),
                cached_alloc_ids_unique(old(self).spec_pool().spec_allocations()),
                is_planning_order(old(self).spec_solution()->0.spec_requests(), order_g),
                assignments@ == plan_model(old(self).spec_solution()->0.spec_requests(), candidates@, order_g).assignments,
                resolve_walk(ids0, exts0, requests@, assignments@.take(k as int)).0 is Ok,
                pool_ids(self.resource_pool.spec_allocations()) == resolve_walk(
                    ids0,
                    exts0,
                    requests@,
                    assignments@.take(k as int),
                ).1,
                self.external_resources@ == resolve_walk(ids0, exts0, requests@, assignments@.take(k as int)).2,
            decreases assignments@.len() - k,
        {
            let assignment = assignments[k];
            proof {
                lemma_walk_step(ids0, exts0, requests@, assignments@, k as int);
            }
            match materialize_assignment(&mut self.external_resources, &mut self.resource_pool, requests, assignment) {
                Ok(Some(creation)) => {
                    creations.push(creation);
                    proof {
                        origin = origin.push(k as int);
                    }
                },
                Ok(None) => {},
                Err(e) => {
                    proof {
                        lemma_walk_failure_stays(ids0, exts0, requests@, assignments@, k as int + 1);
                    }
                    return Err(e);
                },
            }
            k = k + 1;
        }
        proof {
            assert(assignments@.take(k as int) =~= assignments@);
        }
        let ghost plan_g = plan;
        self.pool_plan = Some(plan);
        self.resources_resolved = true;
        proof {
            let sol = old(self).spec_solution()->0;
            assert(sol == *solution);
            assert(candidates_of(candidates@, old(self).spec_pool().spec_allocations()));
            let order = choose|order: Seq<int>|
                #[trigger] is_planning_order(solution.spec_requests(), order) && plan_g.is_plan_of(
                    plan_model(solution.spec_requests(), candidates@, order),
                );
            assert(is_planning_order(sol.spec_requests(), order));
            assert(self.spec_plan()->0 == plan_g);
            assert(self.spec_plan()->0.spec_assignments() == assignments@);
            assert(created_for(creations@, self.spec_plan()->0.spec_assignments(), origin));
        }
        let result: FrameResourceResult<Vec<FrameResourceCreation>> = Ok(creations);
        assert(result->Ok_0@ == creations@);
        assert(created_for(result->Ok_0@, self.spec_plan()->0.spec_assignments(), origin));
        result
    }
}

} // verus!
