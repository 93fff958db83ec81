use leet_render::allocator::FrameResourceAllocator;
use leet_render::error::FrameResourceError;
use leet_render::lifetime::{AllocationRequestSource, FrameLifetimeSolution, TagLifetimeEventKind};
use leet_render::phase::ResourceAllocatorPhase;
use leet_render::request::{
    ExternalFrameResourceId, ImportedFrameResource, QueueSyncKind, RequestGroup, RequestGroupAction, ResourceRequest,
};
use leet_render::resource_desc::{
    FrameResourceDesc, FrameTextureDesc, FrameTextureDescriptor, FrameTextureDimension, FrameTextureExtent,
    FrameTextureFormat,
};
use leet_render::tags::{RenderFlowGroup, RenderFlowNameTag, RequestTime};
use leet_render::usage::ResourceUsage;

const TEXTURE_BINDING: u32 = 1 << 2;
const RENDER_ATTACHMENT: u32 = 1 << 4;

fn tag(name: &'static str) -> RenderFlowNameTag {
    let mut hash: u64 = 0xcbf29ce484222325;
    for byte in name.bytes() {
        hash ^= byte as u64;
        hash = hash.wrapping_mul(0x100000001b3);
    }
    RenderFlowNameTag::new(hash)
}

fn flow_group(index: u16) -> RenderFlowGroup {
    RenderFlowGroup::new(index)
}

fn time(index: u32) -> RequestTime {
    RequestTime::new(flow_group(0), index)
}

fn texture_desc(width: u32, height: u32) -> FrameTextureDesc {
    FrameTextureDesc::new(FrameTextureDescriptor {
        size: FrameTextureExtent { width, height, depth_or_array_layers: 1 },
        mip_level_count: 1,
        sample_count: 1,
        dimension: FrameTextureDimension::D2,
        format: FrameTextureFormat(18),
        usage: TEXTURE_BINDING | RENDER_ATTACHMENT,
        view_formats: Vec::new(),
    })
}

fn declare(name: &'static str, width: u32) -> ResourceRequest {
    ResourceRequest::Declare { tag: tag(name), desc: FrameResourceDesc::Texture(texture_desc(width, 32)) }
}

fn use_begin(name: &'static str) -> ResourceRequest {
    ResourceRequest::UseBegin { tag: tag(name), usage: ResourceUsage::read() }
}

fn use_end(name: &'static str) -> ResourceRequest {
    ResourceRequest::UseEnd { tag: tag(name) }
}

fn group_of(requests: Vec<ResourceRequest>) -> RequestGroup {
    let mut group = RequestGroup::new();
    for request in requests {
        group.apply(ResourceAllocatorPhase::PreConsume, request).unwrap();
    }
    group
}

fn solve(requests: Vec<ResourceRequest>) -> FrameLifetimeSolution {
    FrameLifetimeSolution::solve_request_groups(&[group_of(requests)]).unwrap()
}

#[test]
fn simple_declare_use_free_produces_one_owned_lifetime() {
    let solution = solve(vec![
        declare("color", 64),
        use_begin("color"),
        use_end("color"),
        ResourceRequest::Free { tag: tag("color") },
    ]);

    assert_eq!(solution.allocation_requests().len(), 1);
    let allocation = &solution.allocation_requests()[0];
    assert_eq!(allocation.tag(), tag("color"));
    assert_eq!(allocation.source(), AllocationRequestSource::Owned);
    assert_eq!(allocation.lifetime().start(), time(0));
    assert_eq!(allocation.lifetime().end(), time(3));
    assert!(allocation.can_reuse_same_frame());
    assert!(allocation.can_cache_across_frames());
    assert_eq!(solution.lookup_allocation_for_tag(tag("color"), time(2)).unwrap(), Some(allocation.id()));
    assert_eq!(solution.lookup_allocation_for_tag(tag("color"), time(3)).unwrap(), None);
}

#[test]
fn declared_but_unused_resource_produces_no_allocation_request() {
    let solution = solve(vec![declare("unused", 64)]);

    assert!(solution.allocation_requests().is_empty());
    assert_eq!(solution.lookup_allocation_for_tag(tag("unused"), time(0)).unwrap(), None);
}

#[test]
fn declare_like_copies_source_descriptor_at_request_time() {
    let solution = solve(vec![
        declare("source", 128),
        ResourceRequest::DeclareLike { dst: tag("copy"), src: tag("source") },
        use_begin("copy"),
        use_end("copy"),
    ]);

    assert_eq!(solution.allocation_requests().len(), 1);
    let FrameResourceDesc::Texture(copy_desc) = solution.allocation_requests()[0].desc() else {
        panic!("declare-like copy should preserve texture descriptor kind");
    };
    assert_eq!(copy_desc.current_size().width, 128);
}

#[test]
fn import_creates_tracked_non_owned_lifetime() {
    let imported = ImportedFrameResource::texture(ExternalFrameResourceId::new(11), texture_desc(64, 32));
    let solution = solve(vec![ResourceRequest::Import { tag: tag("history"), resource: imported }]);

    assert_eq!(solution.allocation_requests().len(), 1);
    let allocation = &solution.allocation_requests()[0];
    assert_eq!(allocation.source(), AllocationRequestSource::Imported(ExternalFrameResourceId::new(11)));
    assert!(!allocation.can_reuse_same_frame());
    assert!(!allocation.can_cache_across_frames());
    assert_eq!(solution.lookup_allocation_for_tag(tag("history"), time(0)).unwrap(), Some(allocation.id()));
}

#[test]
fn swap_timeline_lookup_returns_different_allocations_after_swap() {
    let solution = solve(vec![
        declare("a", 64),
        declare("b", 64),
        use_begin("a"),
        use_end("a"),
        use_begin("b"),
        use_end("b"),
        ResourceRequest::Swap { a: tag("a"), b: tag("b") },
    ]);

    let a_before = solution.lookup_allocation_for_tag(tag("a"), time(5)).unwrap().unwrap();
    let b_before = solution.lookup_allocation_for_tag(tag("b"), time(5)).unwrap().unwrap();
    assert_ne!(a_before, b_before);
    assert_eq!(solution.lookup_allocation_for_tag(tag("a"), time(6)).unwrap(), Some(b_before));
    assert_eq!(solution.lookup_allocation_for_tag(tag("b"), time(6)).unwrap(), Some(a_before));

    let a_events = solution.tag_lifetime(tag("a")).unwrap().events();
    assert!(a_events.iter().any(|event| event.kind() == TagLifetimeEventKind::Swap));
}

#[test]
fn swap_with_external_restricts_old_and_external_allocation_reuse() {
    let external = ImportedFrameResource::texture(ExternalFrameResourceId::new(17), texture_desc(64, 32));
    let solution = solve(vec![
        declare("color", 64),
        use_begin("color"),
        use_end("color"),
        ResourceRequest::SwapWithExternal { tag: tag("color"), resource: external },
    ]);

    assert_eq!(solution.allocation_requests().len(), 2);
    let old = &solution.allocation_requests()[0];
    let external = &solution.allocation_requests()[1];
    assert_eq!(old.source(), AllocationRequestSource::Owned);
    assert!(!old.can_reuse_same_frame());
    assert!(!old.can_cache_across_frames());
    assert_eq!(external.source(), AllocationRequestSource::ExternalSwap(ExternalFrameResourceId::new(17)));
    assert!(!external.can_reuse_same_frame());
    assert!(!external.can_cache_across_frames());
    assert_eq!(solution.lookup_allocation_for_tag(tag("color"), time(3)).unwrap(), Some(external.id()));
}

#[test]
fn queue_sync_is_accepted_inside_balanced_use_range() {
    let solution = solve(vec![
        declare("color", 64),
        use_begin("color"),
        ResourceRequest::QueueSync { sync: QueueSyncKind::Fork },
        use_end("color"),
    ]);

    assert_eq!(solution.allocation_requests().len(), 1);
    assert!(solution.allocation_requests()[0].lifetime().touches(time(2)));
}

#[test]
fn missing_tag_lookup_fails_loudly() {
    let solution = solve(vec![declare("unused", 64)]);

    assert!(solution.lookup_allocation_for_tag(tag("missing"), time(0)).is_err());
}

#[test]
fn unbalanced_or_invalid_use_requests_fail_during_solve() {
    let group = group_of(vec![declare("color", 64), use_end("color")]);
    assert!(FrameLifetimeSolution::solve_request_groups(&[group]).is_err());

    let group = group_of(vec![declare("color", 64), use_begin("color")]);
    assert!(FrameLifetimeSolution::solve_request_groups(&[group]).is_err());
}

#[test]
fn use_begin_requires_read_or_write_not_only_no_discard() {
    let group = group_of(vec![
        declare("color", 64),
        ResourceRequest::UseBegin { tag: tag("color"), usage: ResourceUsage::no_discard() },
    ]);

    assert!(FrameLifetimeSolution::solve_request_groups(&[group]).is_err());
}

#[test]
fn swap_requires_descriptor_compatibility() {
    let group = group_of(vec![
        declare("a", 64),
        declare("b", 128),
        ResourceRequest::Swap { a: tag("a"), b: tag("b") },
    ]);

    assert!(FrameLifetimeSolution::solve_request_groups(&[group]).is_err());
}

#[test]
fn solving_reports_the_exact_refusal() {
    let group = group_of(vec![declare("color", 64), use_end("color")]);
    assert_eq!(
        FrameLifetimeSolution::solve_request_groups(&[group]).unwrap_err(),
        FrameResourceError::InvalidOperation {
            operation: "LifetimeSolver::use_end",
            reason: "resource use end had no matching use begin",
        }
    );

    let group = group_of(vec![declare("color", 64), use_begin("color")]);
    assert_eq!(
        FrameLifetimeSolution::solve_request_groups(&[group]).unwrap_err(),
        FrameResourceError::InvalidState { reason: "resource use begin was not balanced by use end" }
    );

    let group = group_of(vec![declare("color", 64), declare("color", 64)]);
    assert_eq!(
        FrameLifetimeSolution::solve_request_groups(&[group]).unwrap_err(),
        FrameResourceError::InvalidOperation {
            operation: "LifetimeSolver::declare",
            reason: "resource tag was declared while already alive",
        }
    );

    let group = group_of(vec![ResourceRequest::Declare {
        tag: RenderFlowNameTag::invalid(),
        desc: FrameResourceDesc::Texture(texture_desc(64, 32)),
    }]);
    assert_eq!(
        FrameLifetimeSolution::solve_request_groups(&[group]).unwrap_err(),
        FrameResourceError::InvalidOperation {
            operation: "LifetimeSolver::declare",
            reason: "cannot declare an invalid resource tag",
        }
    );

    let group = group_of(vec![ResourceRequest::Free { tag: tag("ghost") }]);
    assert_eq!(
        FrameLifetimeSolution::solve_request_groups(&[group]).unwrap_err(),
        FrameResourceError::InvalidOperation {
            operation: "LifetimeSolver::current_instance",
            reason: "resource tag is not currently alive",
        }
    );

    let group = group_of(vec![declare("color", 64), use_begin("color"), ResourceRequest::Free { tag: tag("color") }]);
    assert_eq!(
        FrameLifetimeSolution::solve_request_groups(&[group]).unwrap_err(),
        FrameResourceError::InvalidOperation {
            operation: "LifetimeSolver::free",
            reason: "cannot free a resource while it has an open use",
        }
    );
}

#[test]
fn request_times_follow_group_then_position() {
    let first = group_of(vec![declare("color", 64), use_begin("color")]);
    let second = group_of(vec![use_end("color")]);
    let solution = FrameLifetimeSolution::solve_request_groups(&[first, second]).unwrap();

    let lifetime = solution.allocation_requests()[0].lifetime();
    assert_eq!(lifetime.start(), time(0));
    assert_eq!(lifetime.end(), RequestTime::new(flow_group(1), 0));
    assert_eq!(lifetime.end().flow_group(), flow_group(1));
    assert_eq!(lifetime.end().index(), 0);
    assert!(lifetime.touches(RequestTime::new(flow_group(0), 7)));
}

#[test]
fn queue_boundaries_widen_only_open_uses() {
    let solution = solve(vec![
        declare("open", 64),
        declare("closed", 64),
        use_begin("open"),
        use_begin("closed"),
        use_end("closed"),
        ResourceRequest::EndQueue,
        use_end("open"),
    ]);

    let requests = solution.allocation_requests();
    assert_eq!(requests.len(), 2);
    assert_eq!(requests[0].tag(), tag("open"));
    assert_eq!(requests[0].lifetime().end(), time(6));
    assert_eq!(requests[1].tag(), tag("closed"));
    assert_eq!(requests[1].lifetime().end(), time(4));
    assert!(!requests[1].lifetime().touches(time(5)));
}

#[test]
fn tag_timelines_are_ordered_by_tag_and_cover_every_event() {
    let solution = solve(vec![
        declare("a", 64),
        declare("b", 64),
        use_begin("a"),
        use_end("a"),
        ResourceRequest::Free { tag: tag("a") },
    ]);

    let lifetimes = solution.tag_lifetimes();
    assert_eq!(lifetimes.len(), 2);
    assert!(lifetimes[0].tag().get() < lifetimes[1].tag().get());
    let a_events = solution.tag_lifetime(tag("a")).unwrap().events();
    assert_eq!(a_events.len(), 2);
    assert_eq!(a_events[0].kind(), TagLifetimeEventKind::Declare);
    assert_eq!(a_events[1].kind(), TagLifetimeEventKind::Free);
    assert_eq!(a_events[1].allocation(), None);
    let b_events = solution.tag_lifetime(tag("b")).unwrap().events();
    assert_eq!(b_events.len(), 1);
    assert_eq!(b_events[0].allocation(), None);
    assert!(solution.allocation_request(solution.allocation_requests()[0].id()).is_some());
}

#[test]
fn request_group_records_then_replays_in_order() {
    let mut group = RequestGroup::new();
    let recorded = group.apply(ResourceAllocatorPhase::PreConsume, declare("color", 64)).unwrap();
    assert_eq!(recorded.id().get(), 0);
    assert!(recorded.recorded_request().is_none());
    group.apply(ResourceAllocatorPhase::PreConsume, ResourceRequest::Decision { value: true }).unwrap();
    assert_eq!(group.requests().len(), 2);
    assert!(group.touched());

    group.reset_consume_cursor();
    assert!(!group.touched());
    assert!(group.validate_consume_finished().is_err());
    let replayed = group.apply(ResourceAllocatorPhase::Consume, declare("color", 64)).unwrap();
    assert_eq!(replayed.id().get(), 0);
    assert!(matches!(replayed, RequestGroupAction::Replayed { .. }));
    assert!(replayed.recorded_request().unwrap().matches_replay(&declare("color", 64)));
    let decision = group.apply(ResourceAllocatorPhase::Consume, ResourceRequest::Decision { value: false }).unwrap();
    assert_eq!(decision.id().get(), 1);
    assert!(group.is_consume_finished());
    assert_eq!(group.consume_cursor(), 2);
    assert!(group.validate_consume_finished().is_ok());

    assert_eq!(
        group.apply(ResourceAllocatorPhase::Consume, ResourceRequest::EndQueue).unwrap_err(),
        FrameResourceError::InvalidOperation {
            operation: "RequestGroup::replay_consume",
            reason: "consume replay produced more requests than pre-consume",
        }
    );

    group.reset_for_preconsume();
    assert!(group.requests().is_empty());
}

#[test]
fn request_group_rejects_divergent_replay_and_wrong_phase() {
    let mut group = RequestGroup::default();
    group.apply(ResourceAllocatorPhase::PreConsume, declare("color", 64)).unwrap();
    assert_eq!(
        group.apply(ResourceAllocatorPhase::Consume, declare("color", 128)).unwrap_err(),
        FrameResourceError::InvalidOperation {
            operation: "RequestGroup::replay_consume",
            reason: "consume request did not match pre-consume request",
        }
    );
    assert_eq!(group.consume_cursor(), 0);
    assert_eq!(
        group.apply(ResourceAllocatorPhase::Resolve, declare("color", 64)).unwrap_err(),
        FrameResourceError::InvalidOperation {
            operation: "RequestGroup::apply",
            reason: "resource requests are only valid during pre-consume or consume",
        }
    );
    assert_eq!(group.requests().len(), 1);
}

#[test]
fn allocator_resolve_stores_lifetime_solution() {
    let mut allocator = FrameResourceAllocator::new();

    allocator.set_phase(ResourceAllocatorPhase::PreConsume).unwrap();
    allocator.record_request(flow_group(0), declare("color", 64)).unwrap();
    allocator.record_request(flow_group(0), use_begin("color")).unwrap();
    allocator.record_request(flow_group(0), use_end("color")).unwrap();
    allocator.set_phase(ResourceAllocatorPhase::Resolve).unwrap();

    assert_eq!(allocator.lifetime_solution().unwrap().allocation_requests().len(), 1);
}
