use leet_render::allocator::FrameResourceAllocator;
use leet_render::command_group::CommandListGroupStore;
use leet_render::command_recorder::FrameCommandRecorders;
use leet_render::executor::RenderGraphExecutor;
use leet_render::core_runner::{RenderGraphCoreRunner, RenderGraphCoreRunnerState};
use leet_render::error::RenderGraphError;
use leet_render::execution::{
    execute_graph_dependency_counter_consume, execute_graph_sequential_gpu_order, process_node_core,
    RenderNodeProcessState,
};
use leet_render::ids::RenderNodeId;
use leet_render::metadata::{
    RenderNodeCommandListUsage, RenderNodeDebugName, RenderNodeDependencyKind, RenderNodeKind, RenderNodeRole,
    RenderNodeSubtype,
};
use leet_render::node_impl::{RenderGlobalBindingMask, RenderNodeImpl, RenderNodeImplStore};
use leet_render::node_topology::{RenderNodeExecutionMetadata, RenderNodeParameters};
use leet_render::phase::ResourceAllocatorPhase;
use leet_render::render_node_graph::RenderNodeGraph;
use leet_render::render_node_impl_context::RenderNodeImplContextInit;
use leet_render::error::RenderGraphResult;

struct Recorder {
    usage: RenderNodeCommandListUsage,
    mask: u64,
}

impl RenderNodeImpl for Recorder {
    fn command_list_usage(&self) -> RenderNodeCommandListUsage {
        self.usage
    }

    fn allow_gpu_scope(&self) -> bool {
        true
    }

    fn global_binding_mod(&self) -> RenderGlobalBindingMask {
        RenderGlobalBindingMask::from_bits(self.mask)
    }

    fn execute(&self, _allocator: &mut FrameResourceAllocator, _init: RenderNodeImplContextInit) -> RenderGraphResult<()> {
        Ok(())
    }
}

fn stage(graph: &mut RenderNodeGraph, name: &str) -> RenderNodeId {
    graph.add_node(RenderNodeParameters::stage(name), RenderNodeExecutionMetadata::default()).unwrap()
}

fn chain() -> (RenderNodeGraph, RenderNodeId, RenderNodeId) {
    let mut graph = RenderNodeGraph::new();
    let a = stage(&mut graph, "a");
    let b = stage(&mut graph, "b");
    graph.add_dependency(RenderNodeDependencyKind::Cpu, a, b).unwrap();
    graph.add_dependency(RenderNodeDependencyKind::Gpu, a, b).unwrap();
    graph.build_flow_groups().unwrap();
    (graph, a, b)
}

fn consume_allocator() -> FrameResourceAllocator {
    let mut allocator = FrameResourceAllocator::new();
    allocator.set_phase(ResourceAllocatorPhase::PreConsume).unwrap();
    allocator.set_phase(ResourceAllocatorPhase::Resolve).unwrap();
    allocator.set_phase(ResourceAllocatorPhase::Consume).unwrap();
    allocator
}

#[test]
fn processing_runs_the_node_implementation_and_its_epilogue() {
    let mut impls = RenderNodeImplStore::new();
    let id = impls.insert(Recorder { usage: RenderNodeCommandListUsage::Own, mask: 1 }).unwrap();
    let mut graph = RenderNodeGraph::new();
    let params = RenderNodeParameters::new(
        RenderNodeKind::Stage,
        RenderNodeRole::Normal,
        RenderNodeSubtype::new(0),
        Some(id),
        RenderNodeDebugName::new("draw"),
    );
    let node = graph.add_node(params, RenderNodeExecutionMetadata::default()).unwrap();
    let groups = CommandListGroupStore::new();
    let mut state = RenderNodeProcessState::new();
    let mut allocator = consume_allocator();

    assert_eq!(
        process_node_core(&graph, &impls, &groups, node, &mut state, &mut allocator, 2).unwrap_err(),
        RenderGraphError::InvalidState {
            reason: "node is missing GPU flow group; build_flow_groups must run before execution",
        }
    );
    graph.build_flow_groups().unwrap();
    let report = process_node_core(&graph, &impls, &groups, node, &mut state, &mut allocator, 2).unwrap();
    assert_eq!(report.node, node);
    assert_eq!(report.executed_impls, 1);
    assert!(report.epilogue_ran);
    assert!(report.global_binding_restore_ran);
    assert_eq!(report.state_generation, 1);
    assert_eq!(report.worker_index, 2);
    assert_eq!(state.epilogue_count(), 1);
    assert_eq!(state.current_node(), None);
}

#[test]
fn consume_runs_every_node_in_dependency_batches() {
    let (graph, a, b) = chain();
    let impls: RenderNodeImplStore<Recorder> = RenderNodeImplStore::new();
    let groups = CommandListGroupStore::new();
    let mut state = RenderNodeProcessState::new();
    let mut preconsume = FrameResourceAllocator::new();
    assert_eq!(
        execute_graph_dependency_counter_consume(&graph, &impls, &groups, &mut state, &mut preconsume).unwrap_err(),
        RenderGraphError::InvalidState { reason: "dependency-counter graph execution is a consume-phase operation" }
    );

    let mut allocator = consume_allocator();
    let report = execute_graph_dependency_counter_consume(&graph, &impls, &groups, &mut state, &mut allocator).unwrap();
    assert_eq!(report.ready_batches, vec![vec![a], vec![b]]);
    assert_eq!(report.completed_jobs, 2);
    assert!(report.terminal_completed);

    let reports = execute_graph_sequential_gpu_order(&graph, &impls, &groups, &mut state, &mut allocator).unwrap();
    assert_eq!(reports.iter().map(|r| r.node).collect::<Vec<_>>(), vec![a, b]);
}

#[test]
fn core_runner_walks_the_frame_lifecycle() {
    let (graph, _, _) = chain();
    let impls: RenderNodeImplStore<Recorder> = RenderNodeImplStore::new();
    let groups = CommandListGroupStore::new();
    let mut runner = RenderGraphCoreRunner::new();

    let report = runner.execute_built_graph(&graph, &impls, &groups).unwrap();
    assert_eq!(
        report.phase_order,
        vec![
            ResourceAllocatorPhase::Startup,
            ResourceAllocatorPhase::PreConsume,
            ResourceAllocatorPhase::Resolve,
            ResourceAllocatorPhase::Consume,
            ResourceAllocatorPhase::Cleanup,
        ]
    );
    assert_eq!(report.consume_report.ready_batches.iter().map(Vec::len).collect::<Vec<_>>(), vec![1, 1]);
    assert!(report.terminal_completed_before_cleanup);
    assert!(report.cleanup_ran);
    assert_eq!(runner.completed_frames(), 1);
    assert_eq!(runner.state(), RenderGraphCoreRunnerState::Finished);
    assert_eq!(runner.allocator().phase(), ResourceAllocatorPhase::Cleanup);

    let unbuilt = RenderNodeGraph::new();
    assert_eq!(
        runner.execute_built_graph(&unbuilt, &impls, &groups).unwrap_err(),
        RenderGraphError::InvalidState { reason: "render graph must be built before core runner execution" }
    );
    assert_eq!(runner.completed_frames(), 1);
}

#[test]
fn executor_frame_steps_count_frames_and_report_phases() {
    let mut executor = RenderGraphExecutor::new();
    assert_eq!(
        executor.begin_frame(false).unwrap_err(),
        RenderGraphError::InvalidState { reason: "render graph must be built before core runner execution" }
    );
    assert!(executor.begin_frame(true).is_ok());
    let order = RenderGraphExecutor::frame_phase_order(ResourceAllocatorPhase::Startup, ResourceAllocatorPhase::PreConsume);
    let report = executor.finish_frame(FrameCommandRecorders::default(), RenderNodeProcessState::new(), order, 3, true);
    assert_eq!(
        report.phase_order,
        vec![
            ResourceAllocatorPhase::Startup,
            ResourceAllocatorPhase::PreConsume,
            ResourceAllocatorPhase::Resolve,
            ResourceAllocatorPhase::Consume,
        ]
    );
    assert_eq!(report.command_recorder_slots_prepared, 3);
    assert!(report.camera_data_prepared);
    assert!(!report.cleanup_ran);
    assert_eq!(executor.completed_frames(), 1);
}
