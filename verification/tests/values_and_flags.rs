use leet_render::cache::{RenderGraphShapeHash, RenderGraphShapeHashBuilder};
use leet_render::camera_storage::CameraDependencyFlags;
use leet_render::error::{FrameResourceError, RenderGraphError};
use leet_render::frame_input::{FramePurpose, FrameRenderingMode};
use leet_render::lifetime::{RequestRange, TagLifetime, TagLifetimeEvent, TagLifetimeEventKind};
use leet_render::phase::ResourceAllocatorPhase;
use leet_render::render_node_impl_context::{RenderNodeImplContextInit, RenderNodeImplKind};
use leet_render::request::ExternalFrameResourceId;
use leet_render::tags::{AllocationRequestId, RenderFlowGroup, RenderFlowNameTag, RenderFlowSpace, RequestTime};
use leet_render::usage::ResourceUsage;

#[test]
fn shape_hash_of_nothing_is_the_invalid_marker() {
    let hash = RenderGraphShapeHashBuilder::new().finish();
    assert_eq!(hash, RenderGraphShapeHash::invalid());
    assert!(!hash.is_valid());
    assert_eq!(hash.raw(), 0xcbf29ce484222325);
}

#[test]
fn shape_hash_matches_fnv1a_over_little_endian_bytes() {
    let mut bytes = RenderGraphShapeHashBuilder::new();
    bytes.append_bytes(b"a");
    assert_eq!(bytes.finish().raw(), 0xaf63dc4c8601ec8c);

    let mut flag = RenderGraphShapeHashBuilder::new();
    flag.append_bool(true);
    assert_eq!(flag.finish().raw(), 0xaf63bc4c8601b62c);

    let mut wide = RenderGraphShapeHashBuilder::new();
    wide.append_u64(7);
    assert_eq!(wide.finish().raw(), 0x4bd7a317074c5b62);

    let mut narrow = RenderGraphShapeHashBuilder::new();
    narrow.append_u32(7);
    assert_eq!(narrow.finish().raw(), 0x6d3572669b2cde42);

    let mut size = RenderGraphShapeHashBuilder::new();
    size.append_usize(7);
    assert_eq!(size.finish().raw(), 0x4bd7a317074c5b62);
}

#[test]
fn shape_hash_appends_compose() {
    let mut split = RenderGraphShapeHashBuilder::new();
    split.append_bytes(b"a");
    split.append_bytes(b"b");
    let mut joined = RenderGraphShapeHashBuilder::new();
    joined.append_bytes(b"ab");

    assert_eq!(split.finish(), joined.finish());
    assert_eq!(RenderGraphShapeHash::from_raw(0x89c4407b545986a).raw(), 0x89c4407b545986a);
}

#[test]
fn resource_usage_accepts_only_known_bits() {
    assert_eq!(ResourceUsage::from_bits(3).unwrap().bits(), 3);
    assert!(ResourceUsage::from_bits(8).is_none());
    assert_eq!(ResourceUsage::from_bits_truncate(0xff).bits(), 7);

    let read_write = ResourceUsage::read().union(ResourceUsage::write());
    assert!(read_write.contains(ResourceUsage::read()));
    assert!(read_write.contains(ResourceUsage::write()));
    assert!(!read_write.contains(ResourceUsage::no_discard()));
    assert!(read_write.intersects(ResourceUsage::write()));
    assert!(!ResourceUsage::read().intersects(ResourceUsage::write()));
    assert!(ResourceUsage::none().is_empty());
    assert_eq!(read_write.intersection(ResourceUsage::write()).bits(), 2);
}

#[test]
fn camera_dependency_flags_follow_temporary_lifecycle() {
    let mut flags = CameraDependencyFlags::output_color();
    assert!(!flags.is_temporary());

    flags.mark_temporary_requested();
    assert!(flags.is_temporary());
    assert!(flags.was_requested_this_frame());
    assert_eq!(flags.bits(), 7);

    flags.clear_temporary_requested();
    assert!(flags.is_temporary());
    assert!(!flags.was_requested_this_frame());

    flags.add_outputs(CameraDependencyFlags::output_final_color());
    assert_eq!(flags.bits(), 13);

    flags.make_permanent();
    assert!(!flags.is_temporary());
    assert_eq!(flags.bits(), 12);
    assert_eq!(CameraDependencyFlags::empty().bits(), 0);
}

#[test]
fn request_ranges_touch_and_overlap_inclusively() {
    let range = RequestRange::new(RequestTime::new(RenderFlowGroup::new(0), 2), RequestTime::new(RenderFlowGroup::new(0), 5)).unwrap();
    assert!(range.touches(RequestTime::new(RenderFlowGroup::new(0), 2)));
    assert!(range.touches(RequestTime::new(RenderFlowGroup::new(0), 5)));
    assert!(!range.touches(RequestTime::new(RenderFlowGroup::new(0), 6)));
    assert!(range.overlaps(RequestRange::single(RequestTime::new(RenderFlowGroup::new(0), 5))));
    assert!(!range.overlaps(RequestRange::single(RequestTime::new(RenderFlowGroup::new(0), 1))));
    assert_eq!(range.start().get(), 2);
    assert_eq!(range.end().get(), 5);

    let mut grown = RequestRange::single(RequestTime::new(RenderFlowGroup::new(0), 4));
    grown.extend_to(RequestTime::new(RenderFlowGroup::new(0), 9));
    grown.extend_to(RequestTime::new(RenderFlowGroup::new(0), 1));
    assert_eq!((grown.start().get(), grown.end().get()), (1, 9));

    assert_eq!(
        RequestRange::new(RequestTime::new(RenderFlowGroup::new(0), 5), RequestTime::new(RenderFlowGroup::new(0), 2)).unwrap_err(),
        FrameResourceError::InvalidOperation {
            operation: "RequestRange::new",
            reason: "request range end precedes start",
        }
    );
}

#[test]
fn tag_lifetime_lookup_uses_last_event_not_after_time() {
    let lifetime = TagLifetime::new(
        RenderFlowNameTag::new(1),
        vec![
            TagLifetimeEvent::new(RequestTime::new(RenderFlowGroup::new(0), 2), Some(AllocationRequestId::new(10)), TagLifetimeEventKind::Declare),
            TagLifetimeEvent::new(RequestTime::new(RenderFlowGroup::new(0), 5), None, TagLifetimeEventKind::Free),
            TagLifetimeEvent::new(RequestTime::new(RenderFlowGroup::new(0), 8), Some(AllocationRequestId::new(11)), TagLifetimeEventKind::Import),
        ],
    );

    assert_eq!(lifetime.lookup(RequestTime::new(RenderFlowGroup::new(0), 3)).unwrap(), Some(AllocationRequestId::new(10)));
    assert_eq!(lifetime.lookup(RequestTime::new(RenderFlowGroup::new(0), 5)).unwrap(), None);
    assert_eq!(lifetime.lookup(RequestTime::new(RenderFlowGroup::new(0), 100)).unwrap(), Some(AllocationRequestId::new(11)));
    assert_eq!(
        lifetime.lookup(RequestTime::new(RenderFlowGroup::new(0), 1)).unwrap_err(),
        FrameResourceError::InvalidOperation {
            operation: "TagLifetime::lookup",
            reason: "lookup time precedes the tag lifetime timeline",
        }
    );
    assert_eq!(lifetime.events().len(), 3);
    assert_eq!(lifetime.tag(), RenderFlowNameTag::new(1));
    assert_eq!(lifetime.events()[1].kind(), TagLifetimeEventKind::Free);
}

#[test]
fn context_init_scopes_unique_and_camera_nodes() {
    let unique = RenderNodeImplContextInit::unique_node(RenderFlowGroup::new(3));
    assert_eq!(unique.flow_space(), RenderFlowSpace::shared());
    assert_eq!(unique.camera_index(), None);
    assert_eq!(unique.node_kind(), RenderNodeImplKind::Unique);
    assert_eq!(unique.dispatcher_thread_index(), u32::MAX);

    let camera = RenderNodeImplContextInit::camera_node(RenderFlowGroup::new(4), RenderFlowSpace::new(2));
    assert_eq!(camera.camera_index(), Some(2));
    assert_eq!(camera.flow_group(), RenderFlowGroup::new(4));
    assert_eq!(camera.node_kind(), RenderNodeImplKind::Camera);

    let indexed = RenderNodeImplContextInit::camera_node_with_index(RenderFlowGroup::new(1), RenderFlowSpace::new(2), 9)
        .with_dispatcher_thread_index(5);
    assert_eq!(indexed.camera_index(), Some(9));
    assert_eq!(indexed.dispatcher_thread_index(), 5);
}

#[test]
fn frame_modes_and_phases_classify_as_documented() {
    assert!(FrameRenderingMode::Shaded.allows_camera_jitter());
    assert!(!FrameRenderingMode::OverlayOnly.flushes_temporary_cameras());
    assert!(!FramePurpose::Normal.requires_stable_dissolves());
    assert!(FramePurpose::Screenshot.requires_stable_dissolves());
    assert!(FramePurpose::Blank.requires_stable_dissolves());
    assert!(ResourceAllocatorPhase::Consume.is_consume());
    assert!(!ResourceAllocatorPhase::Resolve.is_consume());
    assert_eq!(ExternalFrameResourceId::new(42).get(), 42);
}

#[test]
fn error_conversion_wraps_frame_resource_errors() {
    let error: RenderGraphError = FrameResourceError::InvalidState { reason: "x" }.into();
    assert_eq!(error, RenderGraphError::FrameResource(FrameResourceError::InvalidState { reason: "x" }));
}

#[test]
fn render_graph_error_messages_name_the_failure() {
    assert_eq!(RenderGraphError::InvalidId { kind: "node", raw: 42 }.message(), "invalid render graph node id: 42");
    assert_eq!(RenderGraphError::InvalidId { kind: "node", raw: 0 }.message(), "invalid render graph node id: 0");
    assert_eq!(
        RenderGraphError::DuplicateDependency { dependency_kind: "CPU", parent: 7, child: 4294967295 }.message(),
        "duplicate CPU dependency from node 7 to node 4294967295"
    );
    assert_eq!(
        RenderGraphError::SelfDependency { dependency_kind: "GPU", node: 10 }.message(),
        "invalid GPU dependency: node 10 cannot depend on itself"
    );
    assert_eq!(
        RenderGraphError::GraphAlreadyBuilt { operation: "add_node" }.message(),
        "render graph operation `add_node` cannot mutate a built graph"
    );
    assert_eq!(
        RenderGraphError::CycleDetected { dependency_kind: "CPU", remaining_nodes: 3 }.message(),
        "CPU dependency cycle detected with 3 unresolved nodes"
    );
    assert_eq!(
        RenderGraphError::InvalidExecutionPhase { operation: "consume", phase: "Declare", expected: "Consume" }.message(),
        "invalid render graph phase for `consume`: current phase is Declare, expected Consume"
    );
    assert_eq!(
        RenderGraphError::FrameResource(FrameResourceError::InvalidOperation { operation: "resolve", reason: "missing tag" })
            .message(),
        "frame resource error during render graph execution: invalid frame resource operation `resolve`: missing tag"
    );
    assert_eq!(
        FrameResourceError::InvalidState { reason: "not resolved" }.message(),
        "invalid frame resource allocator state: not resolved"
    );
}
