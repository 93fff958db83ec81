//! Lifecycle of the built-graph execution facade: an exclusive execution view
//! that can be entered once at a time, and the report of one run.
use vstd::prelude::*;

use crate::command_recorder::{FrameCommandRecorders, FrameCommandSubmission};
use crate::error::{RenderGraphError, RenderGraphResult};
use crate::execution::{
    saturating_succ, RenderGraphDependencyExecutionReport, RenderNodeProcessReport, RenderNodeProcessState,
};
use crate::phase::ResourceAllocatorPhase;

verus! {

/// Execution state of the graph executor.
#[derive(Clone, Copy, Debug, PartialEq, Eq, Structural)]
pub enum RenderGraphExecutorState {
    /// No graph execution is currently active.
    Idle,
    /// A frame execution view is active and cannot be entered again.
    Running,
    /// The previous execution completed or failed and the executor can be reused.
    Finished,
}

impl Default for RenderGraphExecutorState {
    fn default() -> (r: Self)
        ensures
            r == RenderGraphExecutorState::Idle,
    {
        RenderGraphExecutorState::Idle
    }
}

/// Report produced by one executor run.
#[derive(Clone, Debug, PartialEq, Eq)]
pub struct RenderGraphExecutionReport {
    pub phase_order: Vec<ResourceAllocatorPhase>,
    pub command_recorder_slots_prepared: usize,
    pub graph_ready_hook_completed: bool,
    pub frame_data_hook_completed: bool,
    pub camera_data_prepared: bool,
    pub preconsume_reports: Vec<RenderNodeProcessReport>,
    pub consume_report: RenderGraphDependencyExecutionReport,
    pub command_submissions: Vec<FrameCommandSubmission>,
    pub terminal_completed_before_cleanup: bool,
    pub cleanup_ran: bool,
}

/// Persistent facade for built render graph execution.
pub struct RenderGraphExecutor {
    state: RenderGraphExecutorState,
    last_command_recorders: FrameCommandRecorders,
    last_process_state: RenderNodeProcessState,
    completed_frames: u64,
}

/// The error of entering a view that is already active.
pub open spec fn view_active_error() -> RenderGraphError {
    RenderGraphError::InvalidState { reason: "graph-core runner execution view is already active" }
}

/// The error of leaving a view that is not active.
pub open spec fn view_inactive_error() -> RenderGraphError {
    RenderGraphError::InvalidState { reason: "graph-core runner execution view is not active" }
}

impl RenderGraphExecutor {
    /// Lifecycle state.
    pub closed spec fn spec_state(&self) -> RenderGraphExecutorState {
        self.state
    }

    /// Number of frame executions that reached the epilogue.
    pub closed spec fn spec_completed_frames(&self) -> u64 {
        self.completed_frames
    }

    /// Command recorder state kept from the last run.
    pub closed spec fn spec_command_recorders(&self) -> FrameCommandRecorders {
        self.last_command_recorders
    }

    /// Node process state kept from the last run.
    pub closed spec fn spec_process_state(&self) -> RenderNodeProcessState {
        self.last_process_state
    }

    /// An idle executor that has completed no frame.
    pub fn new() -> (r: Self)
        ensures
            r.spec_state() == RenderGraphExecutorState::Idle,
            r.spec_completed_frames() == 0,
            r.spec_command_recorders().spec_slots().len() == 0,
            r.spec_command_recorders().spec_submissions().len() == 0,
            r.spec_process_state().current_node is None,
            r.spec_process_state().node_generation == 0,
            r.spec_process_state().epilogue_count == 0,
    {
        RenderGraphExecutor {
            state: RenderGraphExecutorState::Idle,
            last_command_recorders: FrameCommandRecorders::default(),
            last_process_state: RenderNodeProcessState::new(),
            completed_frames: 0,
        }
    }

    /// Returns the lifecycle state.
    pub fn state(&self) -> (r: RenderGraphExecutorState)
        ensures
            r == self.spec_state(),
    {
        self.state
    }

    /// Returns how many frame executions reached the epilogue.
    pub fn completed_frames(&self) -> (r: u64)
        ensures
            r == self.spec_completed_frames(),
    {
        self.completed_frames
    }

    /// Returns the command recorder state kept from the last run.
    pub fn command_recorders(&self) -> (r: &FrameCommandRecorders)
        ensures
            *r == self.spec_command_recorders(),
    {
        &self.last_command_recorders
    }

    /// Returns the node process state kept from the last run.
    pub fn process_state(&self) -> (r: &RenderNodeProcessState)
        ensures
            *r == self.spec_process_state(),
    {
        &self.last_process_state
    }

    /// Enters the exclusive execution view; refused while one is active.
    pub fn begin_execution_view(&mut self) -> (r: RenderGraphResult<()>)
        ensures
            old(self).spec_state() == RenderGraphExecutorState::Running ==> r == Err::<(), RenderGraphError>(
                view_active_error(),
            ) && final(self).spec_state() == RenderGraphExecutorState::Running,
            old(self).spec_state() != RenderGraphExecutorState::Running ==> r is Ok && final(self).spec_state()
                == RenderGraphExecutorState::Running,
            final(self).spec_completed_frames() == old(self).spec_completed_frames(),
            final(self).spec_command_recorders() == old(self).spec_command_recorders(),
            final(self).spec_process_state() == old(self).spec_process_state(),
    {
        match self.state {
            RenderGraphExecutorState::Running => {
                return Err(RenderGraphError::InvalidState { reason: "graph-core runner execution view is already active" });
            },
            _ => {},
        }
        self.state = RenderGraphExecutorState::Running;
        Ok(())
    }

    /// Leaves the exclusive execution view; refused when none is active.
    pub fn end_execution_view(&mut self) -> (r: RenderGraphResult<()>)
        ensures
            old(self).spec_state() != RenderGraphExecutorState::Running ==> r == Err::<(), RenderGraphError>(
                view_inactive_error(),
            ) && final(self).spec_state() == old(self).spec_state(),
            old(self).spec_state() == RenderGraphExecutorState::Running ==> r is Ok && final(self).spec_state()
                == RenderGraphExecutorState::Finished,
            final(self).spec_completed_frames() == old(self).spec_completed_frames(),
            final(self).spec_command_recorders() == old(self).spec_command_recorders(),
            final(self).spec_process_state() == old(self).spec_process_state(),
    {
        match self.state {
            RenderGraphExecutorState::Running => {},
            _ => {
                return Err(RenderGraphError::InvalidState { reason: "graph-core runner execution view is not active" });
            },
        }
        self.state = RenderGraphExecutorState::Finished;
        Ok(())
    }
}

impl RenderGraphExecutor {
    /// Decides whether a frame may run: only a built graph executes. The job
    /// dispatch that follows belongs to the caller's job system.
    pub fn begin_frame(&self, graph_built: bool) -> (r: RenderGraphResult<()>)
        ensures
            r is Ok <==> graph_built,
            !graph_built ==> r == Err::<(), RenderGraphError>(
                RenderGraphError::InvalidState { reason: "render graph must be built before core runner execution" },
            ),
    {
        if !graph_built {
            return Err(RenderGraphError::InvalidState { reason: "render graph must be built before core runner execution" });
        }
        Ok(())
    }

    /// The allocator phases a frame passes: the phase it starts in, the phase
    /// pre-consume leaves, then resolve and consume.
    pub fn frame_phase_order(start: ResourceAllocatorPhase, after_preconsume: ResourceAllocatorPhase) -> (r: Vec<
        ResourceAllocatorPhase,
    >)
        ensures
            r@ == seq![start, after_preconsume, ResourceAllocatorPhase::Resolve, ResourceAllocatorPhase::Consume],
    {
        let mut order: Vec<ResourceAllocatorPhase> = Vec::new();
        order.push(start);
        order.push(after_preconsume);
        order.push(ResourceAllocatorPhase::Resolve);
        order.push(ResourceAllocatorPhase::Consume);
        proof {
            assert(order@ =~= seq![start, after_preconsume, ResourceAllocatorPhase::Resolve, ResourceAllocatorPhase::Consume]);
        }
        order
    }

    /// Ends a dispatched frame: keeps its recorders and process state, counts
    /// the frame, and reports what the executor itself observed. Hooks,
    /// per-node reports, submissions and cleanup happen in the dispatched jobs,
    /// so the report leaves them unset.
    pub fn finish_frame(
        &mut self,
        recorders: FrameCommandRecorders,
        process_state: RenderNodeProcessState,
        phase_order: Vec<ResourceAllocatorPhase>,
        command_recorder_slots_prepared: usize,
        camera_data_prepared: bool,
    ) -> (r: RenderGraphExecutionReport)
        ensures
            final(self).spec_command_recorders() == recorders,
            final(self).spec_process_state() == process_state,
            final(self).spec_completed_frames() == saturating_succ(old(self).spec_completed_frames()),
            final(self).spec_state() == old(self).spec_state(),
            r.phase_order@ == phase_order@,
            r.command_recorder_slots_prepared == command_recorder_slots_prepared,
            r.camera_data_prepared == camera_data_prepared,
            !r.graph_ready_hook_completed,
            !r.frame_data_hook_completed,
            r.preconsume_reports@.len() == 0,
            r.consume_report.scheduled_jobs == 0 && r.consume_report.completed_jobs == 0
                && r.consume_report.ready_batches@.len() == 0 && r.consume_report.node_reports@.len() == 0
                && !r.consume_report.terminal_completed,
            r.command_submissions@.len() == 0,
            !r.terminal_completed_before_cleanup,
            !r.cleanup_ran,
    {
        self.last_command_recorders = recorders;
        self.last_process_state = process_state;
        self.completed_frames = self.completed_frames.saturating_add(1);
        RenderGraphExecutionReport {
            phase_order,
            command_recorder_slots_prepared,
            graph_ready_hook_completed: false,
            frame_data_hook_completed: false,
            camera_data_prepared,
            preconsume_reports: Vec::new(),
            consume_report: RenderGraphDependencyExecutionReport::default(),
            command_submissions: Vec::new(),
            terminal_completed_before_cleanup: false,
            cleanup_ran: false,
        }
    }
}

impl Default for RenderGraphExecutor {
    fn default() -> (r: Self)
        ensures
            r.spec_state() == RenderGraphExecutorState::Idle,
            r.spec_completed_frames() == 0,
    {
        RenderGraphExecutor::new()
    }
}

} // verus!
