use leet_render::command_group::{CommandListGroupNode, CommandListGroupStore};
use leet_render::command_recorder::{FrameCommandPassKind, FrameCommandRecorderState, FrameCommandRecorders};
use leet_render::error::RenderGraphError;
use leet_render::execution::{
    context_init_for_node, execution_flow_group, RenderGraphDependencyCounters, RenderNodeProcessState,
};
use leet_render::render_node_impl_context::RenderNodeImplKind;
use leet_render::ids::{RenderNodeId, RenderNodeImplId};
use leet_render::metadata::{RenderNodeCommandListUsage, RenderNodeDebugName, RenderNodeDependencyKind};
use leet_render::node_impl::RenderGlobalBindingMask;
use leet_render::node_topology::{RenderNodeExecutionMetadata, RenderNodeParameters};
use leet_render::render_node_graph::import::GraphImportMap;
use leet_render::render_node_graph::RenderNodeGraph;
use leet_render::request::{QueueSyncKind, RenderQueueKind};
use leet_render::tags::RenderFlowGroup;
use leet_render::viewport::RenderViewportRect;

fn add_node(graph: &mut RenderNodeGraph, name: &str) -> RenderNodeId {
    graph.add_node(RenderNodeParameters::stage(name), RenderNodeExecutionMetadata::default()).unwrap()
}

fn chain_graph() -> (RenderNodeGraph, RenderNodeId, RenderNodeId, RenderNodeId) {
    let mut graph = RenderNodeGraph::new();
    let a = add_node(&mut graph, "a");
    let b = add_node(&mut graph, "b");
    let c = add_node(&mut graph, "c");
    graph.add_dependency(RenderNodeDependencyKind::Cpu, a, b).unwrap();
    graph.add_dependency(RenderNodeDependencyKind::Cpu, a, c).unwrap();
    graph.add_dependency(RenderNodeDependencyKind::Gpu, b, c).unwrap();
    graph.build_flow_groups().unwrap();
    (graph, a, b, c)
}

#[test]
fn process_state_counts_generations_and_epilogues() {
    let mut state = RenderNodeProcessState::new();
    state.begin_node(RenderNodeId::from_index(3));
    let mut mask = RenderGlobalBindingMask::empty();
    mask.insert_slot(2).unwrap();
    state.note_global_binding_mod(mask);

    assert_eq!(state.current_node(), Some(RenderNodeId::from_index(3)));
    assert_eq!(state.node_generation(), 1);
    assert!(state.active_global_binding_mod().contains_slot(2));

    state.run_epilogue();
    assert_eq!(state.epilogue_count(), 1);
    assert!(state.active_global_binding_mod().is_empty());

    state.end_node();
    assert_eq!(state.current_node(), None);
}

#[test]
fn dependency_counters_require_a_built_graph() {
    let mut graph = RenderNodeGraph::new();
    add_node(&mut graph, "a");

    assert_eq!(
        RenderGraphDependencyCounters::prepare(&graph).unwrap_err(),
        RenderGraphError::InvalidState { reason: "render graph must be built before dependency-counter execution" }
    );
}

#[test]
fn dependency_counters_release_children_after_parents_complete() {
    let (graph, a, b, c) = chain_graph();
    let mut counters = RenderGraphDependencyCounters::prepare(&graph).unwrap();

    assert_eq!(counters.jobs().len(), 3);
    assert_eq!(counters.scheduled_jobs(), 3);
    assert_eq!(counters.terminal_nodes(), 2);
    assert!(counters.ready_nodes().is_empty());
    assert_eq!(
        counters.begin_node(a).unwrap_err(),
        RenderGraphError::InvalidState { reason: "dependency-counter job started before external kickoff" }
    );

    counters.release_external_kickoff();
    assert_eq!(counters.take_ready_batch(), vec![a]);
    assert_eq!(
        counters.begin_node(b).unwrap_err(),
        RenderGraphError::InvalidState { reason: "dependency-counter job started before CPU parents completed" }
    );

    let payload = counters.begin_node(a).unwrap();
    assert_eq!(payload.node, a);
    assert_eq!(payload.worker_index, 0);
    counters.complete_node(a).unwrap();
    assert_eq!(counters.completed_jobs(), 1);
    assert_eq!(counters.take_ready_batch(), vec![c, b]);
    assert!(!counters.terminal_completed());

    counters.begin_node(b).unwrap();
    counters.begin_node(c).unwrap();
    assert_eq!(
        counters.begin_node(c).unwrap_err(),
        RenderGraphError::InvalidState { reason: "dependency-counter job was started more than once" }
    );
    counters.complete_node(b).unwrap();
    counters.complete_node(c).unwrap();

    assert_eq!(counters.completed_jobs(), 3);
    assert!(counters.terminal_completed());
    assert!(counters.debug_validate_terminal_completion().is_ok());
    assert_eq!(
        counters.complete_node(c).unwrap_err(),
        RenderGraphError::InvalidState { reason: "dependency-counter job completed without a matching start" }
    );
    assert_eq!(
        counters.complete_node(RenderNodeId::from_index(77)).unwrap_err(),
        RenderGraphError::InvalidId { kind: "dependency-counter graph job", raw: 77 }
    );
}

#[test]
fn command_recorders_follow_record_finish_submit_order() {
    let (graph, _a, _b, _c) = chain_graph();
    let mut recorders = FrameCommandRecorders::prepare_for_graph(&graph).unwrap();
    let g0 = RenderFlowGroup::new(0);
    let g1 = RenderFlowGroup::new(1);

    assert_eq!(recorders.len(), 3);
    assert_eq!(recorders.state(g0).unwrap(), FrameCommandRecorderState::Empty);
    assert!(recorders.create_own_recorder(g0, RenderQueueKind::Copy, "copy").is_err());
    assert_eq!(recorders.create_own_recorder(g0, RenderQueueKind::Graphics, "main").unwrap().get(), 0);
    assert_eq!(
        recorders.create_own_recorder(g0, RenderQueueKind::Graphics, "again").unwrap_err(),
        RenderGraphError::InvalidCommandRecorderUsage {
            operation: "create_own_recorder",
            reason: "command recorder slot is already owned",
        }
    );

    recorders.begin_render_pass(g0, "pass").unwrap();
    assert_eq!(recorders.active_pass(g0).unwrap(), Some(FrameCommandPassKind::Render));
    recorders.set_viewport(g0, RenderViewportRect::new(0, 0, 64, 32)).unwrap();
    assert!(recorders.finish_recorder(g0).is_err());
    recorders.end_pass(g0).unwrap();
    recorders.push_debug_marker(g0, "marker").unwrap();
    recorders.record_sync(g0, QueueSyncKind::Barrier, "sync").unwrap();
    recorders.finish_recorder(g0).unwrap();

    assert_eq!(recorders.viewport(g0).unwrap(), Some(RenderViewportRect::new(0, 0, 64, 32)));
    assert_eq!(recorders.debug_markers(g0).unwrap().len(), 2);
    assert_eq!(recorders.sync_events(g0).unwrap().len(), 1);
    assert!(recorders.has_command_recorder(g0).unwrap());
    assert!(!recorders.has_command_recorder(g1).unwrap());

    let submissions = recorders.submit_finished_in_gpu_order(&graph).unwrap();
    assert_eq!(submissions.len(), 1);
    assert_eq!(submissions[0].label, "main");
    assert_eq!(submissions[0].queue, RenderQueueKind::Graphics);
    assert_eq!(recorders.state(g0).unwrap(), FrameCommandRecorderState::Submitted);
    assert_eq!(recorders.submissions().len(), 1);

    recorders.cleanup();
    assert_eq!(recorders.state(g0).unwrap(), FrameCommandRecorderState::Empty);
    assert!(recorders.submissions().is_empty());
    assert_eq!(
        recorders.state(RenderFlowGroup::new(9)).unwrap_err(),
        RenderGraphError::InvalidId { kind: "frame command recorder slot", raw: 9 }
    );
}

#[test]
fn unfinished_recorder_blocks_submission() {
    let (graph, _a, _b, _c) = chain_graph();
    let mut recorders = FrameCommandRecorders::prepare_for_graph(&graph).unwrap();
    recorders.create_own_recorder(RenderFlowGroup::new(2), RenderQueueKind::Compute, "busy").unwrap();

    assert_eq!(
        recorders.submit_finished_in_gpu_order(&graph).unwrap_err(),
        RenderGraphError::InvalidCommandRecorderUsage {
            operation: "submit_finished_in_gpu_order",
            reason: "cannot submit an unfinished command recorder",
        }
    );
    assert!(FrameCommandRecorders::prepare(65537).is_err());
}

#[test]
fn command_groups_are_unique_per_node_and_import_through_the_map() {
    let node = RenderNodeId::from_index(1);
    let mut group = CommandListGroupNode::new(node, RenderNodeDebugName::new("group"), RenderQueueKind::Graphics);
    group.push_subnode(RenderNodeImplId::from_index(4));
    let mut store = CommandListGroupStore::new();
    store.insert(group.clone()).unwrap();

    assert_eq!(
        store.insert(group).unwrap_err(),
        RenderGraphError::InvalidCommandListGroupUsage {
            operation: "begin_command_list_group",
            reason: "graph node already owns a command-list group",
        }
    );
    assert_eq!(store.get(node).unwrap().subnodes(), &[RenderNodeImplId::from_index(4)]);
    assert_eq!(store.get(node).unwrap().command_list_usage(), RenderNodeCommandListUsage::Own);
    assert!(store.get(RenderNodeId::from_index(2)).is_err());

    let mut map = GraphImportMap::new();
    map.insert_node(node, RenderNodeId::from_index(10));
    let mut target = CommandListGroupStore::new();
    target.import_from(&store, &map).unwrap();
    assert_eq!(target.len(), 1);
    assert_eq!(target.groups()[0].graph_node(), RenderNodeId::from_index(10));
    assert_eq!(target.groups()[0].name().as_str(), "group");

    let empty_map = GraphImportMap::new();
    let mut other = CommandListGroupStore::new();
    assert_eq!(
        other.import_from(&store, &empty_map).unwrap_err(),
        RenderGraphError::InvalidMerge { reason: "imported command-list group referenced a node outside the import map" }
    );
}

#[test]
fn import_map_answers_with_the_latest_destination() {
    let mut map = GraphImportMap::new();
    map.insert_node(RenderNodeId::from_index(1), RenderNodeId::from_index(5));
    map.insert_node(RenderNodeId::from_index(1), RenderNodeId::from_index(6));

    assert_eq!(map.node(RenderNodeId::from_index(1)), Some(RenderNodeId::from_index(6)));
    assert_eq!(map.node(RenderNodeId::from_index(2)), None);
}

#[test]
fn group_import_stops_at_the_first_group_it_cannot_add() {
    let mut store = CommandListGroupStore::new();
    for raw in 1..4 {
        let group = CommandListGroupNode::new(
            RenderNodeId::from_index(raw),
            RenderNodeDebugName::new("group"),
            RenderQueueKind::Graphics,
        );
        store.insert(group).unwrap();
    }

    let mut colliding = GraphImportMap::new();
    colliding.insert_node(RenderNodeId::from_index(1), RenderNodeId::from_index(10));
    colliding.insert_node(RenderNodeId::from_index(2), RenderNodeId::from_index(10));
    colliding.insert_node(RenderNodeId::from_index(3), RenderNodeId::from_index(12));
    let mut target = CommandListGroupStore::new();
    assert_eq!(
        target.import_from(&store, &colliding).unwrap_err(),
        RenderGraphError::InvalidCommandListGroupUsage {
            operation: "begin_command_list_group",
            reason: "graph node already owns a command-list group",
        }
    );
    assert_eq!(target.len(), 1);
    assert_eq!(target.groups()[0].graph_node(), RenderNodeId::from_index(10));

    let mut partial = GraphImportMap::new();
    partial.insert_node(RenderNodeId::from_index(1), RenderNodeId::from_index(20));
    partial.insert_node(RenderNodeId::from_index(2), RenderNodeId::from_index(21));
    let mut other = CommandListGroupStore::new();
    assert_eq!(
        other.import_from(&store, &partial).unwrap_err(),
        RenderGraphError::InvalidMerge { reason: "imported command-list group referenced a node outside the import map" }
    );
    assert_eq!(other.len(), 2);
    assert_eq!(other.groups()[1].graph_node(), RenderNodeId::from_index(21));
}

#[test]
fn node_context_follows_camera_and_gpu_group() {
    let mut metadata = RenderNodeExecutionMetadata::new(None, None);
    assert_eq!(
        execution_flow_group(metadata).unwrap_err(),
        RenderGraphError::InvalidState {
            reason: "node is missing GPU flow group; build_flow_groups must run before execution",
        }
    );
    metadata.set_flow_group(RenderNodeDependencyKind::Gpu, RenderFlowGroup::new(3));
    assert_eq!(execution_flow_group(metadata).unwrap(), RenderFlowGroup::new(3));

    let unique = context_init_for_node(metadata, RenderFlowGroup::new(3)).unwrap();
    assert_eq!(unique.node_kind, RenderNodeImplKind::Unique);
    assert_eq!(unique.camera_index, None);
    assert_eq!(unique.flow_group, RenderFlowGroup::new(3));

    let camera = context_init_for_node(RenderNodeExecutionMetadata::new(Some(4), None), RenderFlowGroup::new(1)).unwrap();
    assert_eq!(camera.node_kind, RenderNodeImplKind::Camera);
    assert_eq!(camera.camera_index, Some(4));
    assert_eq!(camera.flow_space.0, 4);

    assert_eq!(
        context_init_for_node(RenderNodeExecutionMetadata::new(Some(256), None), RenderFlowGroup::new(1)).unwrap_err(),
        RenderGraphError::InvalidState { reason: "camera render-flow space exceeded u8 range" }
    );
}
