use leet_render::error::FrameResourceError;
use leet_render::lifetime::FrameLifetimeSolution;
use leet_render::phase::ResourceAllocatorPhase;
use leet_render::pool::{
    FrameResourceAllocationClass, FrameResourcePoolCandidate, FrameResourcePoolPlan, FrameResourceReuseRejectionReason,
};
use leet_render::request::{ExternalFrameResourceId, ImportedFrameResource, RequestGroup, ResourceRequest};
use leet_render::resource_desc::{
    FrameResourceDesc, FrameTextureDesc, FrameTextureDescriptor, FrameTextureDimension, FrameTextureExtent,
    FrameTextureFormat,
};
use leet_render::tags::{AllocationRequestId, FrameResourceAllocationId, RenderFlowNameTag};
use leet_render::usage::ResourceUsage;

const TEXTURE_BINDING: u32 = 1 << 2;
const RENDER_ATTACHMENT: u32 = 1 << 4;

fn tag(raw: u64) -> RenderFlowNameTag {
    RenderFlowNameTag::new(raw)
}

fn texture_desc(width: u32, height: u32) -> FrameTextureDesc {
    FrameTextureDesc::new(FrameTextureDescriptor {
        size: FrameTextureExtent { width, height, depth_or_array_layers: 1 },
        mip_level_count: 1,
        sample_count: 1,
        dimension: FrameTextureDimension::D2,
        format: FrameTextureFormat(18),
        usage: TEXTURE_BINDING | RENDER_ATTACHMENT,
        view_formats: Vec::new(),
    })
}

fn declare(raw: u64, width: u32) -> ResourceRequest {
    ResourceRequest::Declare { tag: tag(raw), desc: FrameResourceDesc::Texture(texture_desc(width, 32)) }
}

fn use_begin(raw: u64) -> ResourceRequest {
    ResourceRequest::UseBegin { tag: tag(raw), usage: ResourceUsage::write() }
}

fn use_end(raw: u64) -> ResourceRequest {
    ResourceRequest::UseEnd { tag: tag(raw) }
}

fn free(raw: u64) -> ResourceRequest {
    ResourceRequest::Free { tag: tag(raw) }
}

fn solve(requests: Vec<ResourceRequest>) -> FrameLifetimeSolution {
    let mut group = RequestGroup::new();
    for request in requests {
        group.apply(ResourceAllocatorPhase::PreConsume, request).unwrap();
    }
    FrameLifetimeSolution::solve_request_groups(&[group]).unwrap()
}

#[test]
fn requests_alive_at_different_times_share_one_allocation() {
    let solution = solve(vec![
        declare(1, 64),
        use_begin(1),
        use_end(1),
        free(1),
        declare(2, 64),
        use_begin(2),
        use_end(2),
    ]);
    let plan = FrameResourcePoolPlan::plan(&solution).unwrap();

    assert_eq!(plan.assignment_order(), &[AllocationRequestId::new(0), AllocationRequestId::new(1)]);
    let assignments = plan.assignments();
    assert_eq!(assignments.len(), 2);
    assert_eq!(assignments[0].allocation_id(), FrameResourceAllocationId::new(0));
    assert!(!assignments[0].reused_existing());
    assert_eq!(assignments[1].allocation_id(), FrameResourceAllocationId::new(0));
    assert!(assignments[1].reused_existing());
    assert_eq!(assignments[1].class(), FrameResourceAllocationClass::OwnedReusable);
    assert!(plan.rejections().is_empty());
}

#[test]
fn overlapping_requests_get_distinct_allocations_with_a_recorded_rejection() {
    let solution = solve(vec![declare(1, 64), declare(2, 64), use_begin(1), use_begin(2), use_end(1), use_end(2)]);
    let plan = FrameResourcePoolPlan::plan(&solution).unwrap();

    let assignments = plan.assignments();
    assert_eq!(assignments.len(), 2);
    assert_ne!(assignments[0].allocation_id(), assignments[1].allocation_id());
    assert_eq!(plan.rejections().len(), 1);
    let rejection = plan.rejections()[0];
    assert_eq!(rejection.request_id(), AllocationRequestId::new(1));
    assert_eq!(rejection.candidate_allocation_id(), FrameResourceAllocationId::new(0));
    assert_eq!(rejection.reason(), FrameResourceReuseRejectionReason::LifetimeOverlaps);
}

#[test]
fn larger_requests_are_planned_first_and_hold_smaller_ones() {
    let solution = solve(vec![
        declare(1, 64),
        use_begin(1),
        use_end(1),
        free(1),
        declare(2, 128),
        use_begin(2),
        use_end(2),
    ]);
    let plan = FrameResourcePoolPlan::plan(&solution).unwrap();

    assert_eq!(plan.assignment_order(), &[AllocationRequestId::new(1), AllocationRequestId::new(0)]);
    let small = plan.assignment_for_request(AllocationRequestId::new(0)).unwrap();
    let large = plan.assignment_for_request(AllocationRequestId::new(1)).unwrap();
    assert_eq!(small.allocation_id(), large.allocation_id());
    assert!(small.reused_existing());
    assert!(plan.assignment_for_request(AllocationRequestId::new(9)).is_none());
}

#[test]
fn one_large_allocation_serves_requests_alive_apart() {
    let solution = solve(vec![
        declare(1, 128),
        use_begin(1),
        use_end(1),
        free(1),
        declare(2, 64),
        use_begin(2),
        use_end(2),
        declare(3, 256),
        use_begin(3),
        use_end(3),
    ]);
    let plan = FrameResourcePoolPlan::plan(&solution).unwrap();

    assert_eq!(
        plan.assignment_order(),
        &[AllocationRequestId::new(2), AllocationRequestId::new(0), AllocationRequestId::new(1)]
    );
    let assignments = plan.assignments();
    assert_eq!(assignments[0].allocation_id(), FrameResourceAllocationId::new(0));
    assert_eq!(assignments[1].allocation_id(), FrameResourceAllocationId::new(0));
    assert_eq!(assignments[2].allocation_id(), FrameResourceAllocationId::new(0));
    assert!(plan.rejections().is_empty());
}

#[test]
fn imported_requests_keep_their_own_allocation() {
    let imported = ImportedFrameResource::texture(ExternalFrameResourceId::new(4), texture_desc(64, 32));
    let solution = solve(vec![
        ResourceRequest::Import { tag: tag(1), resource: imported },
        use_begin(1),
        use_end(1),
        free(1),
        declare(2, 64),
        use_begin(2),
        use_end(2),
    ]);
    let plan = FrameResourcePoolPlan::plan(&solution).unwrap();

    let imported = plan.assignment_for_request(AllocationRequestId::new(0)).unwrap();
    assert_eq!(imported.class(), FrameResourceAllocationClass::Imported);
    let owned = plan.assignment_for_request(AllocationRequestId::new(1)).unwrap();
    assert_ne!(owned.allocation_id(), imported.allocation_id());
    assert_eq!(plan.rejections().len(), 1);
    assert_eq!(plan.rejections()[0].reason(), FrameResourceReuseRejectionReason::CandidateNotReusable);
}

#[test]
fn cached_allocations_are_reused_and_new_ids_follow_them() {
    let solution = solve(vec![declare(1, 64), declare(2, 64), use_begin(1), use_begin(2), use_end(1), use_end(2)]);
    let cached = vec![
        FrameResourcePoolCandidate::restricted(FrameResourceAllocationId::new(2), FrameResourceDesc::Texture(texture_desc(256, 32))),
        FrameResourcePoolCandidate::owned_reusable(FrameResourceAllocationId::new(5), FrameResourceDesc::Texture(texture_desc(128, 32))),
    ];
    let plan = FrameResourcePoolPlan::plan_with_cached_allocations(&solution, &cached).unwrap();

    let assignments = plan.assignments();
    assert_eq!(assignments[0].allocation_id(), FrameResourceAllocationId::new(5));
    assert!(assignments[0].reused_existing());
    assert_eq!(assignments[1].allocation_id(), FrameResourceAllocationId::new(6));
    assert!(!assignments[1].reused_existing());
    let reasons: Vec<FrameResourceReuseRejectionReason> = plan.rejections().iter().map(|r| r.reason()).collect();
    assert_eq!(
        reasons,
        vec![
            FrameResourceReuseRejectionReason::CandidateNotReusable,
            FrameResourceReuseRejectionReason::CandidateNotReusable,
            FrameResourceReuseRejectionReason::LifetimeOverlaps,
        ]
    );
}

#[test]
fn cached_candidate_with_an_incompatible_descriptor_is_turned_down() {
    let solution = solve(vec![declare(1, 128), use_begin(1), use_end(1)]);
    let cached = vec![FrameResourcePoolCandidate::owned_reusable(
        FrameResourceAllocationId::new(0),
        FrameResourceDesc::Texture(texture_desc(64, 32)),
    )];
    let plan = FrameResourcePoolPlan::plan_with_cached_allocations(&solution, &cached).unwrap();

    assert_eq!(plan.rejections()[0].reason(), FrameResourceReuseRejectionReason::DescriptorIncompatible);
    assert_eq!(plan.assignments()[0].allocation_id(), FrameResourceAllocationId::new(1));
    assert_eq!(cached[0].class(), FrameResourceAllocationClass::OwnedReusable);
    assert_eq!(cached[0].allocation_id(), FrameResourceAllocationId::new(0));
}

#[test]
fn duplicate_cached_allocation_ids_are_refused() {
    let solution = solve(vec![declare(1, 64), use_begin(1), use_end(1)]);
    let cached = vec![
        FrameResourcePoolCandidate::owned_reusable(FrameResourceAllocationId::new(3), FrameResourceDesc::Texture(texture_desc(64, 32))),
        FrameResourcePoolCandidate::owned_reusable(FrameResourceAllocationId::new(3), FrameResourceDesc::Texture(texture_desc(64, 32))),
    ];
    assert_eq!(
        FrameResourcePoolPlan::plan_with_cached_allocations(&solution, &cached).unwrap_err(),
        FrameResourceError::InvalidOperation {
            operation: "FrameResourcePoolPlan::plan_with_cached_allocations",
            reason: "cached allocation ids must be unique",
        }
    );
}
