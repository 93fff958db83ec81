use leet_render::allocator::{FrameResourceAllocator, FrameResourceCreation};
use leet_render::error::FrameResourceError;
use leet_render::phase::ResourceAllocatorPhase;
use leet_render::pool::FrameResourceOwnership;
use leet_render::request::{ExternalFrameResourceId, ImportedFrameResource, ResourceRequest};
use leet_render::resource_desc::{
    FrameResourceDesc, FrameTextureDesc, FrameTextureDescriptor, FrameTextureDimension, FrameTextureExtent,
    FrameTextureFormat,
};
use leet_render::tags::{FrameResourceAllocationId, RenderFlowGroup, RenderFlowNameTag};
use leet_render::usage::ResourceUsage;

const TEXTURE_BINDING: u32 = 1 << 2;
const RENDER_ATTACHMENT: u32 = 1 << 4;

fn tag(raw: u64) -> RenderFlowNameTag {
    RenderFlowNameTag::new(raw)
}

fn group() -> RenderFlowGroup {
    RenderFlowGroup::new(0)
}

fn texture_desc(width: u32) -> FrameTextureDesc {
    FrameTextureDesc::new(FrameTextureDescriptor {
        size: FrameTextureExtent { width, height: 32, depth_or_array_layers: 1 },
        mip_level_count: 1,
        sample_count: 1,
        dimension: FrameTextureDimension::D2,
        format: FrameTextureFormat(18),
        usage: TEXTURE_BINDING | RENDER_ATTACHMENT,
        view_formats: Vec::new(),
    })
}

fn frame_requests(width: u32) -> Vec<ResourceRequest> {
    vec![
        ResourceRequest::Declare { tag: tag(1), desc: FrameResourceDesc::Texture(texture_desc(width)) },
        ResourceRequest::UseBegin { tag: tag(1), usage: ResourceUsage::write() },
        ResourceRequest::UseEnd { tag: tag(1) },
    ]
}

fn record_all(allocator: &mut FrameResourceAllocator, requests: Vec<ResourceRequest>) {
    for request in requests {
        allocator.record_request(group(), request).unwrap();
    }
}

fn run_frame(allocator: &mut FrameResourceAllocator, width: u32) -> Vec<FrameResourceCreation> {
    if allocator.phase() == ResourceAllocatorPhase::Cleanup {
        allocator.set_phase(ResourceAllocatorPhase::Startup).unwrap();
    }
    allocator.set_phase(ResourceAllocatorPhase::PreConsume).unwrap();
    record_all(allocator, frame_requests(width));
    allocator.set_phase(ResourceAllocatorPhase::Resolve).unwrap();
    let creations = allocator.resolve_frame_resources().unwrap();
    allocator.set_phase(ResourceAllocatorPhase::Consume).unwrap();
    record_all(allocator, frame_requests(width));
    allocator.set_phase(ResourceAllocatorPhase::Cleanup).unwrap();
    creations
}

#[test]
fn phases_move_only_in_frame_order() {
    let mut allocator = FrameResourceAllocator::new();
    assert_eq!(
        allocator.set_phase(ResourceAllocatorPhase::Resolve).unwrap_err(),
        FrameResourceError::InvalidOperation {
            operation: "FrameResourceAllocator::set_phase",
            reason: "invalid frame resource allocator phase transition",
        }
    );
    assert_eq!(allocator.phase(), ResourceAllocatorPhase::Startup);
    allocator.set_phase(ResourceAllocatorPhase::PreConsume).unwrap();
    allocator.set_phase(ResourceAllocatorPhase::Resolve).unwrap();
    allocator.set_phase(ResourceAllocatorPhase::Consume).unwrap();
    assert!(allocator.is_consume_phase());
    allocator.set_phase(ResourceAllocatorPhase::Cleanup).unwrap();
    assert!(allocator.set_phase(ResourceAllocatorPhase::PreConsume).is_err());
    allocator.set_phase(ResourceAllocatorPhase::Startup).unwrap();
}

#[test]
fn resolve_materializes_an_owned_texture_and_consume_finds_it() {
    let mut allocator = FrameResourceAllocator::new();
    allocator.set_phase(ResourceAllocatorPhase::PreConsume).unwrap();
    record_all(&mut allocator, frame_requests(64));
    allocator.set_phase(ResourceAllocatorPhase::Resolve).unwrap();

    let creations = allocator.resolve_frame_resources().unwrap();
    assert!(allocator.resources_resolved());
    assert_eq!(creations.len(), 1);
    let FrameResourceCreation::Texture { allocation_id, descriptor } = &creations[0] else {
        panic!("a texture request creates a texture");
    };
    assert_eq!(*allocation_id, FrameResourceAllocationId::new(0));
    assert_eq!(descriptor.size.width, 64);
    assert_eq!(allocator.resource_pool().allocations().len(), 1);

    allocator.set_phase(ResourceAllocatorPhase::Consume).unwrap();
    assert!(allocator.resolved_allocation_id(tag(1)).is_err());
    allocator
        .record_request(group(), ResourceRequest::Declare { tag: tag(1), desc: FrameResourceDesc::Texture(texture_desc(64)) })
        .unwrap();
    assert_eq!(allocator.resolved_allocation_id(tag(1)).unwrap(), Some(FrameResourceAllocationId::new(0)));
    assert_eq!(allocator.resolved_allocation_id(tag(9)).unwrap(), None);
}

#[test]
fn getters_fail_before_materialized_resolve() {
    let mut allocator = FrameResourceAllocator::new();
    allocator.set_phase(ResourceAllocatorPhase::PreConsume).unwrap();
    record_all(&mut allocator, frame_requests(64));
    allocator.set_phase(ResourceAllocatorPhase::Resolve).unwrap();
    allocator.set_phase(ResourceAllocatorPhase::Consume).unwrap();
    allocator
        .record_request(group(), ResourceRequest::Declare { tag: tag(1), desc: FrameResourceDesc::Texture(texture_desc(64)) })
        .unwrap();

    assert_eq!(
        allocator.resolved_allocation_id(tag(1)).unwrap_err(),
        FrameResourceError::InvalidOperation {
            operation: "FrameResourceAllocator::try_resolved_allocation_id",
            reason: "frame resources have not been materialized",
        }
    );
}

#[test]
fn declared_but_unused_resource_resolves_without_allocation() {
    let mut allocator = FrameResourceAllocator::new();
    allocator.set_phase(ResourceAllocatorPhase::PreConsume).unwrap();
    allocator
        .record_request(group(), ResourceRequest::Declare { tag: tag(2), desc: FrameResourceDesc::Texture(texture_desc(64)) })
        .unwrap();
    allocator.set_phase(ResourceAllocatorPhase::Resolve).unwrap();
    assert!(allocator.resolve_frame_resources().unwrap().is_empty());
    assert!(allocator.resource_pool().allocations().is_empty());
}

#[test]
fn imported_texture_attaches_its_registration() {
    let mut allocator = FrameResourceAllocator::new();
    allocator.set_phase(ResourceAllocatorPhase::PreConsume).unwrap();
    let imported = ImportedFrameResource::texture(ExternalFrameResourceId::new(5), texture_desc(64));
    allocator.record_request(group(), ResourceRequest::Import { tag: tag(3), resource: imported }).unwrap();
    allocator.register_external_texture(ExternalFrameResourceId::new(5), texture_desc(64)).unwrap();
    assert!(allocator.register_external_texture(ExternalFrameResourceId::new(5), texture_desc(64)).is_err());
    allocator.set_phase(ResourceAllocatorPhase::Resolve).unwrap();

    assert!(allocator.resolve_frame_resources().unwrap().is_empty());
    let allocation = &allocator.resource_pool().allocations()[0];
    assert_eq!(allocation.ownership(), FrameResourceOwnership::Imported);
    assert!(!allocation.cacheable());
}

#[test]
fn resolve_fails_when_registered_external_descriptor_mismatches_request() {
    let mut allocator = FrameResourceAllocator::new();
    allocator.set_phase(ResourceAllocatorPhase::PreConsume).unwrap();
    let imported = ImportedFrameResource::texture(ExternalFrameResourceId::new(5), texture_desc(64));
    allocator.record_request(group(), ResourceRequest::Import { tag: tag(3), resource: imported }).unwrap();
    allocator.register_external_texture(ExternalFrameResourceId::new(5), texture_desc(128)).unwrap();
    allocator.set_phase(ResourceAllocatorPhase::Resolve).unwrap();

    assert_eq!(
        allocator.resolve_frame_resources().unwrap_err(),
        FrameResourceError::InvalidOperation {
            operation: "FrameResourceAllocator::attach_external_resource",
            reason: "registered external resource does not match the requested kind or descriptor",
        }
    );
}

#[test]
fn unregistered_external_resource_fails_resolve() {
    let mut allocator = FrameResourceAllocator::new();
    allocator.set_phase(ResourceAllocatorPhase::PreConsume).unwrap();
    let imported = ImportedFrameResource::texture(ExternalFrameResourceId::new(5), texture_desc(64));
    allocator.record_request(group(), ResourceRequest::Import { tag: tag(3), resource: imported }).unwrap();
    allocator.set_phase(ResourceAllocatorPhase::Resolve).unwrap();
    assert!(allocator.resolve_frame_resources().is_err());
}

#[test]
fn smaller_next_frame_reuses_the_cached_larger_allocation() {
    let mut allocator = FrameResourceAllocator::new();
    let first = run_frame(&mut allocator, 128);
    assert_eq!(first.len(), 1);
    assert_eq!(allocator.resource_pool().allocations().len(), 1);

    let second = run_frame(&mut allocator, 64);
    assert!(second.is_empty());
    let allocation = &allocator.resource_pool().allocations()[0];
    assert_eq!(allocation.id(), FrameResourceAllocationId::new(0));
    assert_eq!(allocation.overcapacity_age(), 1);
}

#[test]
fn larger_next_frame_allocates_a_new_texture() {
    let mut allocator = FrameResourceAllocator::new();
    run_frame(&mut allocator, 64);
    let second = run_frame(&mut allocator, 128);
    assert_eq!(second.len(), 1);
    let FrameResourceCreation::Texture { allocation_id, descriptor } = &second[0] else {
        panic!("a texture request creates a texture");
    };
    assert_eq!(*allocation_id, FrameResourceAllocationId::new(1));
    assert_eq!(descriptor.size.width, 128);
}

#[test]
fn declarations_and_decisions_follow_the_request_position() {
    let mut allocator = FrameResourceAllocator::new();
    allocator.set_phase(ResourceAllocatorPhase::PreConsume).unwrap();
    assert!(!allocator.request_is_declared(group(), tag(1)).unwrap());
    allocator
        .record_request(group(), ResourceRequest::Declare { tag: tag(1), desc: FrameResourceDesc::Texture(texture_desc(64)) })
        .unwrap();
    assert!(allocator.request_is_declared(group(), tag(1)).unwrap());
    assert!(allocator.request_decision(group(), true).unwrap());
    allocator.record_request(group(), ResourceRequest::Free { tag: tag(1) }).unwrap();
    assert!(!allocator.request_is_declared(group(), tag(1)).unwrap());
    assert_eq!(allocator.request_group_count(), 1);
    assert_eq!(allocator.request_group(group()).unwrap().requests().len(), 6);

    allocator.set_phase(ResourceAllocatorPhase::Resolve).unwrap();
    allocator.set_phase(ResourceAllocatorPhase::Consume).unwrap();
    assert!(!allocator.request_is_declared(group(), tag(1)).unwrap());
    allocator
        .record_request(group(), ResourceRequest::Declare { tag: tag(1), desc: FrameResourceDesc::Texture(texture_desc(64)) })
        .unwrap();
    assert!(allocator.current_consume_time().is_some());
    assert!(allocator.request_is_declared(group(), tag(1)).unwrap());
    assert!(allocator.request_decision(group(), false).unwrap());
    assert_eq!(
        allocator.set_phase(ResourceAllocatorPhase::Cleanup).unwrap_err(),
        FrameResourceError::InvalidState { reason: "consume did not replay every pre-consume resource request" }
    );
}

#[test]
fn caches_clear_only_during_cleanup() {
    let mut allocator = FrameResourceAllocator::new();
    assert!(allocator.clear_all_caches().is_err());
    run_frame(&mut allocator, 64);
    assert_eq!(allocator.resource_pool().allocations().len(), 1);
    allocator.clear_all_caches().unwrap();
    assert_eq!(allocator.caches_cleared_count(), 1);
    assert!(allocator.resource_pool().allocations().is_empty());
    assert!(allocator.validate_resource_retrieval_phase().is_err());
}

#[test]
fn consume_decisions_answer_with_the_recorded_value() {
    let mut allocator = FrameResourceAllocator::new();
    assert_eq!(
        allocator.request_decision(group(), true).unwrap_err(),
        FrameResourceError::InvalidOperation {
            operation: "RequestGroup::apply",
            reason: "resource requests are only valid during pre-consume or consume",
        }
    );
    allocator.set_phase(ResourceAllocatorPhase::PreConsume).unwrap();
    assert!(allocator.request_decision(group(), true).unwrap());
    record_all(&mut allocator, declare_then_free());
    allocator.set_phase(ResourceAllocatorPhase::Resolve).unwrap();
    allocator.set_phase(ResourceAllocatorPhase::Consume).unwrap();

    assert!(allocator.request_decision(group(), false).unwrap());
    assert_eq!(
        allocator.request_decision(group(), false).unwrap_err(),
        FrameResourceError::InvalidOperation {
            operation: "RequestGroup::replay_consume",
            reason: "consume request did not match pre-consume request",
        }
    );
    record_all(&mut allocator, declare_then_free());
    assert_eq!(
        allocator.request_decision(group(), true).unwrap_err(),
        FrameResourceError::InvalidOperation {
            operation: "RequestGroup::replay_consume",
            reason: "consume replay produced more requests than pre-consume",
        }
    );
}

fn declare_then_free() -> Vec<ResourceRequest> {
    vec![
        ResourceRequest::Declare { tag: tag(1), desc: FrameResourceDesc::Texture(texture_desc(64)) },
        ResourceRequest::Free { tag: tag(1) },
    ]
}
