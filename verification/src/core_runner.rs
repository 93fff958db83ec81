//! Lifecycle state and report of the graph-core runner.
use vstd::prelude::*;

use crate::allocator::FrameResourceAllocator;
use crate::command_group::CommandListGroupStore;
use crate::command_recorder::{FrameCommandRecorders, FrameCommandSubmission};
use crate::error::{FrameResourceError, RenderGraphError, RenderGraphResult};
use crate::execution::{
    batch_nodes, execute_graph_dependency_counter_consume, execute_graph_sequential_gpu_order, reported_nodes,
    saturating_succ, RenderGraphDependencyExecutionReport, RenderNodeProcessReport, RenderNodeProcessState,
};
use crate::metadata::RenderNodeDependencyKind;
use crate::node_impl::{RenderNodeImpl, RenderNodeImplStore};
use crate::phase::ResourceAllocatorPhase;
use crate::render_node_graph::RenderNodeGraph;

verus! {

/// Execution state of the graph-core runner.
#[derive(Clone, Copy, Debug, PartialEq, Eq, Structural)]
pub enum RenderGraphCoreRunnerState {
    /// No graph execution is currently active.
    Idle,
    /// A frame execution view is active and cannot be entered again.
    Running,
    /// The previous execution completed or failed and the runner can be reused.
    Finished,
}

impl Default for RenderGraphCoreRunnerState {
    fn default() -> (r: Self)
        ensures
            r == RenderGraphCoreRunnerState::Idle,
    {
        RenderGraphCoreRunnerState::Idle
    }
}

/// Report produced by one graph-core run.
#[derive(Clone, Debug, PartialEq, Eq)]
pub struct RenderGraphCoreRunReport {
    pub phase_order: Vec<ResourceAllocatorPhase>,
    pub command_recorder_slots_prepared: usize,
    pub graph_ready_hook_completed: bool,
    pub frame_data_hook_completed: bool,
    pub preconsume_reports: Vec<RenderNodeProcessReport>,
    pub consume_report: RenderGraphDependencyExecutionReport,
    pub command_submissions: Vec<FrameCommandSubmission>,
    pub terminal_completed_before_cleanup: bool,
    pub cleanup_ran: bool,
}

/// Lifecycle hooks a runner's user supplies; each may refuse the frame.
pub trait RenderGraphCoreRunnerHooks {
    /// Called once the graph is known to be built, before recorders are prepared.
    fn after_graph_build_merge(&mut self, graph: &RenderNodeGraph) -> RenderGraphResult<()>;

    /// Called once recorders are prepared, before pre-consume.
    fn prepare_frame_data(&mut self, graph: &RenderNodeGraph) -> RenderGraphResult<()>;
}

/// Runner hooks that do nothing.
#[derive(Clone, Copy, Debug, Default)]
pub struct NoopRenderGraphCoreRunnerHooks;

impl RenderGraphCoreRunnerHooks for NoopRenderGraphCoreRunnerHooks {
    fn after_graph_build_merge(&mut self, graph: &RenderNodeGraph) -> (r: RenderGraphResult<()>) {
        Ok(())
    }

    fn prepare_frame_data(&mut self, graph: &RenderNodeGraph) -> (r: RenderGraphResult<()>) {
        Ok(())
    }
}

/// Runs built graphs through the frame lifecycle: startup, pre-consume in GPU
/// order, resolve, consume over the CPU dependency counters, submission and
/// cleanup. One run at a time.
pub struct RenderGraphCoreRunner {
    state: RenderGraphCoreRunnerState,
    allocator: FrameResourceAllocator,
    command_recorders: FrameCommandRecorders,
    process_state: RenderNodeProcessState,
    completed_frames: u64,
}

impl RenderGraphCoreRunner {
    pub closed spec fn spec_state(&self) -> RenderGraphCoreRunnerState {
        self.state
    }

    pub closed spec fn spec_completed_frames(&self) -> u64 {
        self.completed_frames
    }

    pub closed spec fn spec_allocator(&self) -> FrameResourceAllocator {
        self.allocator
    }

    pub closed spec fn spec_recorders(&self) -> FrameCommandRecorders {
        self.command_recorders
    }

    pub closed spec fn spec_process_state(&self) -> RenderNodeProcessState {
        self.process_state
    }

    /// An idle runner that completed no frame.
    pub fn new() -> (r: Self)
        ensures
            r.spec_state() == RenderGraphCoreRunnerState::Idle,
            r.spec_completed_frames() == 0,
            r.spec_recorders().wf(),
    {
        RenderGraphCoreRunner {
            state: RenderGraphCoreRunnerState::Idle,
            allocator: FrameResourceAllocator::new(),
            command_recorders: FrameCommandRecorders::default(),
            process_state: RenderNodeProcessState::new(),
            completed_frames: 0,
        }
    }

    pub fn state(&self) -> (r: RenderGraphCoreRunnerState)
        ensures
            r == self.spec_state(),
    {
        self.state
    }

    /// How many frame executions reached the runner epilogue.
    pub fn completed_frames(&self) -> (r: u64)
        ensures
            r == self.spec_completed_frames(),
    {
        self.completed_frames
    }

    /// The frame resource allocator of the last run.
    pub fn allocator(&self) -> (r: &FrameResourceAllocator)
        ensures
            *r == self.spec_allocator(),
    {
        &self.allocator
    }

    /// The command recorders of the last run.
    pub fn command_recorders(&self) -> (r: &FrameCommandRecorders)
        ensures
            *r == self.spec_recorders(),
    {
        &self.command_recorders
    }

    /// The node process state of the runner.
    pub fn process_state(&self) -> (r: &RenderNodeProcessState)
        ensures
            *r == self.spec_process_state(),
    {
        &self.process_state
    }

    /// Enters the exclusive execution view; refused while one is active.
    pub fn begin_execution_view(&mut self) -> (r: RenderGraphResult<()>)
        ensures
            old(self).spec_state() == RenderGraphCoreRunnerState::Running ==> r == Err::<(), RenderGraphError>(
                RenderGraphError::InvalidState { reason: "graph-core runner execution view is already active" },
            ) && *final(self) == *old(self),
            old(self).spec_state() != RenderGraphCoreRunnerState::Running ==> r is Ok && final(self).spec_state()
                == RenderGraphCoreRunnerState::Running && final(self).spec_completed_frames()
                == old(self).spec_completed_frames() && final(self).spec_recorders() == old(self).spec_recorders(),
    {
        if self.state == RenderGraphCoreRunnerState::Running {
            return Err(RenderGraphError::InvalidState { reason: "graph-core runner execution view is already active" });
        }
        self.state = RenderGraphCoreRunnerState::Running;
        Ok(())
    }

    /// Leaves the exclusive execution view; refused when none is active.
    pub fn end_execution_view(&mut self) -> (r: RenderGraphResult<()>)
        ensures
            old(self).spec_state() != RenderGraphCoreRunnerState::Running ==> r == Err::<(), RenderGraphError>(
                RenderGraphError::InvalidState { reason: "graph-core runner execution view is not active" },
            ) && *final(self) == *old(self),
            old(self).spec_state() == RenderGraphCoreRunnerState::Running ==> r is Ok && final(self).spec_state()
                == RenderGraphCoreRunnerState::Finished && final(self).spec_completed_frames()
                == old(self).spec_completed_frames(),
    {
        if self.state != RenderGraphCoreRunnerState::Running {
            return Err(RenderGraphError::InvalidState { reason: "graph-core runner execution view is not active" });
        }
        self.state = RenderGraphCoreRunnerState::Finished;
        Ok(())
    }

    /// Executes a built graph with hooks that do nothing.
    pub fn execute_built_graph<I: RenderNodeImpl>(
        &mut self,
        graph: &RenderNodeGraph,
        impls: &RenderNodeImplStore<I>,
        groups: &CommandListGroupStore,
    ) -> (r: RenderGraphResult<RenderGraphCoreRunReport>)
        requires
            graph.wf(),
            impls.wf(),
        ensures
            core_run_outcome(*old(self), *final(self), *graph, r),
    {
        let mut hooks = NoopRenderGraphCoreRunnerHooks;
        self.execute_built_graph_with_hooks(graph, impls, groups, &mut hooks)
    }

    /// Executes a built graph through the frame lifecycle inside the exclusive
    /// execution view, which the runner leaves finished whatever happens.
    pub fn execute_built_graph_with_hooks<I: RenderNodeImpl, H: RenderGraphCoreRunnerHooks>(
        &mut self,
        graph: &RenderNodeGraph,
        impls: &RenderNodeImplStore<I>,
        groups: &CommandListGroupStore,
        hooks: &mut H,
    ) -> (r: RenderGraphResult<RenderGraphCoreRunReport>)
        requires
            graph.wf(),
            impls.wf(),
        ensures
            core_run_outcome(*old(self), *final(self), *graph, r),
    {
        match self.begin_execution_view() {
            Ok(()) => {},
            Err(e) => return Err(e),
        }
        let result = self.execute_built_graph_inner(graph, impls, groups, hooks);
        self.state = RenderGraphCoreRunnerState::Finished;
        result
    }

    fn execute_built_graph_inner<I: RenderNodeImpl, H: RenderGraphCoreRunnerHooks>(
        &mut self,
        graph: &RenderNodeGraph,
        impls: &RenderNodeImplStore<I>,
        groups: &CommandListGroupStore,
        hooks: &mut H,
    ) -> (r: RenderGraphResult<RenderGraphCoreRunReport>)
        requires
            graph.wf(),
            impls.wf(),
        ensures
            !graph.built() ==> r == Err::<RenderGraphCoreRunReport, RenderGraphError>(
                RenderGraphError::InvalidState { reason: "render graph must be built before core runner execution" },
            ),
            r is Err ==> final(self).spec_completed_frames() == old(self).spec_completed_frames(),
            r is Ok ==> core_run_report(*graph, r->Ok_0) && final(self).spec_completed_frames() == saturating_succ(
                old(self).spec_completed_frames(),
            ) && final(self).spec_allocator().spec_phase() == ResourceAllocatorPhase::Cleanup,
    {
        if !graph.is_built() {
            return Err(RenderGraphError::InvalidState { reason: "render graph must be built before core runner execution" });
        }
        self.allocator = FrameResourceAllocator::new();
        self.command_recorders = FrameCommandRecorders::default();
        self.process_state = RenderNodeProcessState::new();
        let mut phase_order: Vec<ResourceAllocatorPhase> = Vec::new();
        phase_order.push(ResourceAllocatorPhase::Startup);
        match hooks.after_graph_build_merge(graph) {
            Ok(()) => {},
            Err(e) => return Err(e),
        }
        self.command_recorders = match FrameCommandRecorders::prepare_for_graph(graph) {
            Ok(c) => c,
            Err(e) => return Err(e),
        };
        let command_recorder_slots_prepared = self.command_recorders.len();
        match hooks.prepare_frame_data(graph) {
            Ok(()) => {},
            Err(e) => return Err(e),
        }
        match self.allocator.set_phase(ResourceAllocatorPhase::PreConsume) {
            Ok(()) => {},
            Err(e) => return Err(RenderGraphError::FrameResource(e)),
        }
        phase_order.push(ResourceAllocatorPhase::PreConsume);
        let preconsume_reports = match execute_graph_sequential_gpu_order(
            graph,
            impls,
            groups,
            &mut self.process_state,
            &mut self.allocator,
        ) {
            Ok(reports) => reports,
            Err(e) => return Err(e),
        };
        if !self.allocator.request_total_below(4294967295usize) {
            return Err(
                RenderGraphError::FrameResource(
                    FrameResourceError::InvalidState { reason: "resource request group exceeded u32 request id range" },
                ),
            );
        }
        match self.allocator.set_phase(ResourceAllocatorPhase::Resolve) {
            Ok(()) => {},
            Err(e) => return Err(RenderGraphError::FrameResource(e)),
        }
        phase_order.push(ResourceAllocatorPhase::Resolve);
        match self.allocator.set_phase(ResourceAllocatorPhase::Consume) {
            Ok(()) => {},
            Err(e) => return Err(RenderGraphError::FrameResource(e)),
        }
        phase_order.push(ResourceAllocatorPhase::Consume);
        let consume_report = match execute_graph_dependency_counter_consume(
            graph,
            impls,
            groups,
            &mut self.process_state,
            &mut self.allocator,
        ) {
            Ok(report) => report,
            Err(e) => return Err(e),
        };
        let terminal_completed_before_cleanup = consume_report.terminal_completed;
        let command_submissions = match self.command_recorders.submit_finished_in_gpu_order(graph) {
            Ok(s) => s,
            Err(e) => return Err(e),
        };
        match self.allocator.set_phase(ResourceAllocatorPhase::Cleanup) {
            Ok(()) => {},
            Err(e) => return Err(RenderGraphError::FrameResource(e)),
        }
        phase_order.push(ResourceAllocatorPhase::Cleanup);
        self.command_recorders.cleanup();
        self.completed_frames = self.completed_frames.saturating_add(1);
        proof {
            assert(phase_order@ =~= seq![
                ResourceAllocatorPhase::Startup,
                ResourceAllocatorPhase::PreConsume,
                ResourceAllocatorPhase::Resolve,
                ResourceAllocatorPhase::Consume,
                ResourceAllocatorPhase::Cleanup,
            ]);
        }
        Ok(
            RenderGraphCoreRunReport {
                phase_order,
                command_recorder_slots_prepared,
                graph_ready_hook_completed: true,
                frame_data_hook_completed: true,
                preconsume_reports,
                consume_report,
                command_submissions,
                terminal_completed_before_cleanup,
                cleanup_ran: true,
            },
        )
    }
}

/// What a successful core run reports: the frame phases in order, a recorder
/// slot per node, both hooks, pre-consume over the GPU order, a consume that
/// completed every job, and cleanup.
pub open spec fn core_run_report(graph: RenderNodeGraph, report: RenderGraphCoreRunReport) -> bool {
    &&& graph.built()
    &&& report.phase_order@ == seq![
        ResourceAllocatorPhase::Startup,
        ResourceAllocatorPhase::PreConsume,
        ResourceAllocatorPhase::Resolve,
        ResourceAllocatorPhase::Consume,
        ResourceAllocatorPhase::Cleanup,
    ]
    &&& report.command_recorder_slots_prepared == graph.node_order().len()
    &&& report.graph_ready_hook_completed
    &&& report.frame_data_hook_completed
    &&& reported_nodes(report.preconsume_reports@) == graph.flattened(RenderNodeDependencyKind::Gpu)
    &&& report.consume_report.scheduled_jobs == graph.node_order().len()
    &&& report.consume_report.completed_jobs == report.consume_report.scheduled_jobs
    &&& report.consume_report.terminal_completed
    &&& batch_nodes(report.consume_report.ready_batches@) == reported_nodes(report.consume_report.node_reports@)
    &&& report.terminal_completed_before_cleanup
    &&& report.cleanup_ran
}

/// How a core run leaves the runner: refused while a view is active; else the
/// view ends finished, an unbuilt graph is refused before any work, and a
/// completed run counts one more frame and ends in cleanup.
pub open spec fn core_run_outcome(
    before: RenderGraphCoreRunner,
    after: RenderGraphCoreRunner,
    graph: RenderNodeGraph,
    r: RenderGraphResult<RenderGraphCoreRunReport>,
) -> bool {
    if before.spec_state() == RenderGraphCoreRunnerState::Running {
        r == Err::<RenderGraphCoreRunReport, RenderGraphError>(
            RenderGraphError::InvalidState { reason: "graph-core runner execution view is already active" },
        ) && after == before
    } else {
        &&& after.spec_state() == RenderGraphCoreRunnerState::Finished
        &&& !graph.built() ==> r == Err::<RenderGraphCoreRunReport, RenderGraphError>(
            RenderGraphError::InvalidState { reason: "render graph must be built before core runner execution" },
        )
        &&& r is Err ==> after.spec_completed_frames() == before.spec_completed_frames()
        &&& r is Ok ==> core_run_report(graph, r->Ok_0) && after.spec_completed_frames() == saturating_succ(
            before.spec_completed_frames(),
        ) && after.spec_allocator().spec_phase() == ResourceAllocatorPhase::Cleanup
    }
}

} // verus!
