//! Node processing state and the CPU dependency-counter job table.
use vstd::prelude::*;

use crate::error::{RenderGraphError, RenderGraphResult};
use crate::ids::{RenderNodeId, RenderNodeImplId};
use crate::metadata::{RenderNodeCommandListUsage, RenderNodeDependencyKind};
use crate::phase::ResourceAllocatorPhase;
use crate::tags::{RenderFlowGroup, RenderFlowSpace};
use crate::render_node_impl_context::RenderNodeImplContextInit;
use crate::allocator::FrameResourceAllocator;
use crate::command_group::CommandListGroupStore;
use crate::metadata::RenderNodeRole;
use crate::node_impl::{RenderNodeImpl, RenderNodeImplStore};
use crate::request::ResourceRequest;
use crate::node_impl::RenderGlobalBindingMask;
use crate::node_topology::RenderNodeExecutionMetadata;
use crate::render_node_graph::RenderNodeGraph;

verus! {

/// The GPU flow group a node executes in; a node without one was never built.
pub fn execution_flow_group(metadata: RenderNodeExecutionMetadata) -> (r: RenderGraphResult<RenderFlowGroup>)
    ensures
        metadata.spec_flow_group(RenderNodeDependencyKind::Gpu) is Some ==> r == Ok::<RenderFlowGroup, RenderGraphError>(
            metadata.spec_flow_group(RenderNodeDependencyKind::Gpu)->0,
        ),
        metadata.spec_flow_group(RenderNodeDependencyKind::Gpu) is None ==> r == Err::<RenderFlowGroup, RenderGraphError>(
            RenderGraphError::InvalidState {
                reason: "node is missing GPU flow group; build_flow_groups must run before execution",
            },
        ),
{
    match metadata.flow_group(RenderNodeDependencyKind::Gpu) {
        Some(g) => Ok(g),
        None => Err(
            RenderGraphError::InvalidState {
                reason: "node is missing GPU flow group; build_flow_groups must run before execution",
            },
        ),
    }
}

/// The implementation context of a node in `flow_group`: a camera node runs in
/// the render-flow space of its camera, any other node in the shared space.
pub fn context_init_for_node(metadata: RenderNodeExecutionMetadata, flow_group: RenderFlowGroup) -> (r: RenderGraphResult<
    RenderNodeImplContextInit,
>)
    ensures
        metadata.camera_index is None ==> r == Ok::<RenderNodeImplContextInit, RenderGraphError>(
            RenderNodeImplContextInit::spec_unique_node(flow_group),
        ),
        metadata.camera_index is Some && metadata.camera_index->0 <= 255 ==> r == Ok::<
            RenderNodeImplContextInit,
            RenderGraphError,
        >(RenderNodeImplContextInit::spec_camera_node(flow_group, RenderFlowSpace(metadata.camera_index->0 as u8))),
        metadata.camera_index is Some && metadata.camera_index->0 > 255 ==> r == Err::<
            RenderNodeImplContextInit,
            RenderGraphError,
        >(RenderGraphError::InvalidState { reason: "camera render-flow space exceeded u8 range" }),
{
    match metadata.camera_index {
        Some(camera_index) => {
            if camera_index > 255 {
                return Err(RenderGraphError::InvalidState { reason: "camera render-flow space exceeded u8 range" });
            }
            Ok(RenderNodeImplContextInit::camera_node(flow_group, RenderFlowSpace::new(camera_index as u8)))
        },
        None => Ok(RenderNodeImplContextInit::unique_node(flow_group)),
    }
}

/// Per-executor mutable state reset at the beginning of every node process call.
#[derive(Clone, Debug, PartialEq, Eq)]
pub struct RenderNodeProcessState {
    pub current_node: Option<RenderNodeId>,
    pub node_generation: u64,
    pub active_global_binding_mod: RenderGlobalBindingMask,
    pub epilogue_count: u64,
}

/// `x + 1`, or `x` at the top of the range.
pub open spec fn saturating_succ(x: u64) -> u64 {
    if x == u64::MAX { x } else { (x + 1) as u64 }
}

impl RenderNodeProcessState {
    /// Empty process state for a graph execution walk.
    pub fn new() -> (r: Self)
        ensures
            r.current_node is None,
            r.node_generation == 0,
            r.active_global_binding_mod.0 == 0,
            r.epilogue_count == 0,
    {
        RenderNodeProcessState {
            current_node: None,
            node_generation: 0,
            active_global_binding_mod: RenderGlobalBindingMask::empty(),
            epilogue_count: 0,
        }
    }

    pub fn current_node(&self) -> (r: Option<RenderNodeId>)
        ensures
            r == self.current_node,
    {
        self.current_node
    }

    pub fn node_generation(&self) -> (r: u64)
        ensures
            r == self.node_generation,
    {
        self.node_generation
    }

    pub fn active_global_binding_mod(&self) -> (r: RenderGlobalBindingMask)
        ensures
            r == self.active_global_binding_mod,
    {
        self.active_global_binding_mod
    }

    pub fn epilogue_count(&self) -> (r: u64)
        ensures
            r == self.epilogue_count,
    {
        self.epilogue_count
    }

    /// Enters `node`: counts one more generation and starts an empty binding mask.
    pub fn begin_node(&mut self, node: RenderNodeId)
        ensures
            final(self).current_node == Some(node),
            final(self).node_generation == saturating_succ(old(self).node_generation),
            final(self).active_global_binding_mod.0 == 0,
            final(self).epilogue_count == old(self).epilogue_count,
    {
        self.current_node = Some(node);
        self.node_generation = self.node_generation.saturating_add(1);
        self.active_global_binding_mod = RenderGlobalBindingMask::empty();
    }

    /// Accumulates the binding slots an implementation modifies.
    pub fn note_global_binding_mod(&mut self, mask: RenderGlobalBindingMask)
        ensures
            final(self).active_global_binding_mod.0 == old(self).active_global_binding_mod.0 | mask.0,
            final(self).current_node == old(self).current_node,
            final(self).node_generation == old(self).node_generation,
            final(self).epilogue_count == old(self).epilogue_count,
    {
        self.active_global_binding_mod = self.active_global_binding_mod.union(mask);
    }

    /// Runs a command-list epilogue: counts it and clears the binding mask.
    pub fn run_epilogue(&mut self)
        ensures
            final(self).epilogue_count == saturating_succ(old(self).epilogue_count),
            final(self).active_global_binding_mod.0 == 0,
            final(self).current_node == old(self).current_node,
            final(self).node_generation == old(self).node_generation,
    {
        self.epilogue_count = self.epilogue_count.saturating_add(1);
        self.active_global_binding_mod = RenderGlobalBindingMask::empty();
    }

    /// Leaves the current node.
    pub fn end_node(&mut self)
        ensures
            final(self).current_node is None,
            final(self).node_generation == old(self).node_generation,
            final(self).active_global_binding_mod == old(self).active_global_binding_mod,
            final(self).epilogue_count == old(self).epilogue_count,
    {
        self.current_node = None;
    }
}

impl Default for RenderNodeProcessState {
    fn default() -> (r: Self)
        ensures
            r.current_node is None,
            r.node_generation == 0,
            r.active_global_binding_mod.0 == 0,
            r.epilogue_count == 0,
    {
        RenderNodeProcessState::new()
    }
}

/// Result metadata from processing one graph-visible node.
#[derive(Clone, Debug, PartialEq, Eq)]
pub struct RenderNodeProcessReport {
    pub node: RenderNodeId,
    pub phase: ResourceAllocatorPhase,
    pub flow_group: RenderFlowGroup,
    pub command_list_usage: RenderNodeCommandListUsage,
    pub executed_impls: usize,
    pub command_list_scope_opened: bool,
    pub epilogue_ran: bool,
    pub gpu_scope_allowed: bool,
    pub global_binding_mod: RenderGlobalBindingMask,
    pub global_binding_restore_ran: bool,
    pub state_generation: u64,
    pub worker_index: u32,
}

/// Report returned by dependency-counter consume execution.
#[derive(Clone, Debug, PartialEq, Eq)]
pub struct RenderGraphDependencyExecutionReport {
    pub scheduled_jobs: usize,
    pub completed_jobs: usize,
    pub terminal_nodes: usize,
    pub terminal_completed: bool,
    pub ready_batches: Vec<Vec<RenderNodeId>>,
    pub node_reports: Vec<RenderNodeProcessReport>,
}

impl Default for RenderGraphDependencyExecutionReport {
    /// An empty report: nothing scheduled, completed or batched.
    fn default() -> (r: Self)
        ensures
            r.scheduled_jobs == 0,
            r.completed_jobs == 0,
            r.terminal_nodes == 0,
            !r.terminal_completed,
            r.ready_batches@.len() == 0,
            r.node_reports@.len() == 0,
    {
        RenderGraphDependencyExecutionReport {
            scheduled_jobs: 0,
            completed_jobs: 0,
            terminal_nodes: 0,
            terminal_completed: false,
            ready_batches: Vec::new(),
            node_reports: Vec::new(),
        }
    }
}

/// Immutable payload carried by one graph execution job.
#[derive(Clone, Copy, Debug, PartialEq, Eq)]
pub struct RenderGraphJobPayload {
    pub node: RenderNodeId,
    pub metadata: RenderNodeExecutionMetadata,
    pub impl_id: Option<RenderNodeImplId>,
    pub worker_index: u32,
}

/// Runtime state for one dependency-counter graph job.
#[derive(Clone, Debug, PartialEq, Eq)]
pub struct RenderGraphJobNode {
    pub payload: RenderGraphJobPayload,
    pub cpu_parent_count: usize,
    pub pending_cpu_parents: usize,
    pub cpu_children: Vec<RenderNodeId>,
    pub scheduled: bool,
    pub started: bool,
    pub completed: bool,
    pub terminal: bool,
}

/// Number of jobs satisfying `p`.
pub open spec fn count_jobs(jobs: Seq<RenderGraphJobNode>, p: spec_fn(RenderGraphJobNode) -> bool) -> nat
    decreases jobs.len(),
{
    if jobs.len() == 0 {
        0
    } else {
        count_jobs(jobs.drop_last(), p) + if p(jobs.last()) { 1nat } else { 0nat }
    }
}

/// Counting is bounded by the length.
pub proof fn lemma_count_jobs_le_len(jobs: Seq<RenderGraphJobNode>, p: spec_fn(RenderGraphJobNode) -> bool)
    ensures
        count_jobs(jobs, p) <= jobs.len(),
    decreases jobs.len(),
{
    if jobs.len() > 0 {
        lemma_count_jobs_le_len(jobs.drop_last(), p);
    }
}

/// Replacing one job changes a count by the change of that job alone.
pub proof fn lemma_count_jobs_update(
    jobs: Seq<RenderGraphJobNode>,
    p: spec_fn(RenderGraphJobNode) -> bool,
    i: int,
    job: RenderGraphJobNode,
)
    requires
        0 <= i < jobs.len(),
    ensures
        count_jobs(jobs.update(i, job), p) + (if p(jobs[i]) { 1int } else { 0int }) == count_jobs(jobs, p) + (if p(job) {
            1int
        } else {
            0int
        }),
    decreases jobs.len(),
{
    if i == jobs.len() - 1 {
        assert(jobs.update(i, job).drop_last() =~= jobs.drop_last());
    } else {
        lemma_count_jobs_update(jobs.drop_last(), p, i, job);
        assert(jobs.update(i, job).drop_last() =~= jobs.drop_last().update(i, job));
    }
}

/// A count of all jobs equals the length exactly when every job satisfies `p`.
pub proof fn lemma_count_jobs_full(jobs: Seq<RenderGraphJobNode>, p: spec_fn(RenderGraphJobNode) -> bool)
    ensures
        count_jobs(jobs, p) == jobs.len() <==> forall|i: int| 0 <= i < jobs.len() ==> #[trigger] p(jobs[i]),
    decreases jobs.len(),
{
    if jobs.len() > 0 {
        lemma_count_jobs_full(jobs.drop_last(), p);
        lemma_count_jobs_le_len(jobs.drop_last(), p);
        if forall|i: int| 0 <= i < jobs.len() ==> #[trigger] p(jobs[i]) {
            assert forall|i: int| 0 <= i < jobs.drop_last().len() implies #[trigger] p(jobs.drop_last()[i]) by {
                assert(p(jobs[i]));
            }
            assert(p(jobs[jobs.len() - 1]));
        }
        if count_jobs(jobs, p) == jobs.len() {
            assert forall|i: int| 0 <= i < jobs.len() implies #[trigger] p(jobs[i]) by {
                if i < jobs.len() - 1 {
                    assert(p(jobs.drop_last()[i]));
                }
            }
        }
    }
}

/// The nodes of the jobs, in table order, that can run now: no pending CPU
/// parent, not started, not completed.
pub open spec fn runnable_nodes(jobs: Seq<RenderGraphJobNode>) -> Seq<RenderNodeId>
    decreases jobs.len(),
{
    if jobs.len() == 0 {
        Seq::empty()
    } else {
        let last = jobs.last();
        if last.pending_cpu_parents == 0 && !last.started && !last.completed {
            runnable_nodes(jobs.drop_last()).push(last.payload.node)
        } else {
            runnable_nodes(jobs.drop_last())
        }
    }
}

/// How many times `node` occurs in `nodes`.
pub open spec fn occurrences(nodes: Seq<RenderNodeId>, node: RenderNodeId) -> nat
    decreases nodes.len(),
{
    if nodes.len() == 0 {
        0
    } else {
        occurrences(nodes.drop_last(), node) + if nodes.last() == node { 1nat } else { 0nat }
    }
}

/// Jobs that have completed.
pub open spec fn completed_pred() -> spec_fn(RenderGraphJobNode) -> bool {
    |job: RenderGraphJobNode| job.completed
}

/// Terminal jobs that have completed.
pub open spec fn completed_terminal_pred() -> spec_fn(RenderGraphJobNode) -> bool {
    |job: RenderGraphJobNode| job.completed && job.terminal
}

/// Terminal jobs.
pub open spec fn terminal_pred() -> spec_fn(RenderGraphJobNode) -> bool {
    |job: RenderGraphJobNode| job.terminal
}

/// Jobs scheduled up front.
pub open spec fn scheduled_pred() -> spec_fn(RenderGraphJobNode) -> bool {
    |job: RenderGraphJobNode| job.scheduled
}

/// Whether some job of `jobs` runs `node`.
pub open spec fn has_job(jobs: Seq<RenderGraphJobNode>, node: RenderNodeId) -> bool {
    exists|i: int| 0 <= i < jobs.len() && (#[trigger] jobs[i]).payload.node == node
}

/// The pending CPU parent count of the job that runs `node`.
pub open spec fn job_pending(jobs: Seq<RenderGraphJobNode>, node: RenderNodeId) -> int {
    jobs[choose|i: int| 0 <= i < jobs.len() && (#[trigger] jobs[i]).payload.node == node].pending_cpu_parents as int
}

/// The `k`-th child can be released after the children before it: it has a
/// job, and its wait count covers every listing of it up to this one.
pub open spec fn child_releasable(jobs: Seq<RenderGraphJobNode>, children: Seq<RenderNodeId>, k: int) -> bool {
    has_job(jobs, children[k]) && occurrences(children.take(k + 1), children[k]) <= job_pending(jobs, children[k])
}

/// The first `k` children can be released one after the other.
pub open spec fn children_releasable(jobs: Seq<RenderGraphJobNode>, children: Seq<RenderNodeId>, k: int) -> bool {
    forall|m: int| 0 <= m < k ==> #[trigger] child_releasable(jobs, children, m)
}

/// The error of releasing `child` when it cannot be released.
pub open spec fn release_error(jobs: Seq<RenderGraphJobNode>, child: RenderNodeId) -> RenderGraphError {
    if !has_job(jobs, child) {
        RenderGraphError::InvalidId { kind: "dependency-counter graph job", raw: child.0 }
    } else {
        RenderGraphError::InvalidState { reason: "dependency-counter child wait count underflowed" }
    }
}

/// The children, in listing order, whose wait count reaches zero as they are
/// released one listing at a time.
pub open spec fn released_children(jobs: Seq<RenderGraphJobNode>, children: Seq<RenderNodeId>) -> Seq<RenderNodeId>
    decreases children.len(),
{
    if children.len() == 0 {
        Seq::empty()
    } else {
        let rest = released_children(jobs, children.drop_last());
        if occurrences(children, children.last()) == job_pending(jobs, children.last()) {
            rest.push(children.last())
        } else {
            rest
        }
    }
}

/// Listing one more child adds one to its own count only.
pub proof fn lemma_occurrences_step(children: Seq<RenderNodeId>, k: int)
    requires
        0 <= k < children.len(),
    ensures
        occurrences(children.take(k + 1), children[k]) == occurrences(children.take(k), children[k]) + 1,
        forall|n: RenderNodeId|
            n != children[k] ==> #[trigger] occurrences(children.take(k + 1), n) == occurrences(children.take(k), n),
{
    assert(children.take(k + 1).drop_last() =~= children.take(k));
}

/// With distinct job nodes, the pending count of `node` is read at its job.
pub proof fn lemma_job_pending_at(jobs: Seq<RenderGraphJobNode>, node: RenderNodeId, i: int)
    requires
        0 <= i < jobs.len(),
        jobs[i].payload.node == node,
        forall|a: int, b: int| 0 <= a < b < jobs.len() ==> (#[trigger] jobs[a]).payload.node != (#[trigger] jobs[b]).payload.node,
    ensures
        job_pending(jobs, node) == jobs[i].pending_cpu_parents,
{
    let w = choose|w: int| 0 <= w < jobs.len() && (#[trigger] jobs[w]).payload.node == node;
    assert(jobs[w].payload.node == node);
    if w < i {
        assert(jobs[w].payload.node != jobs[i].payload.node);
    } else if w > i {
        assert(jobs[i].payload.node != jobs[w].payload.node);
    }
}

/// CPU-dependency job table used by consume execution. Root nodes are gated
/// by an explicit external kickoff.
///
/// A job is found by a scan of `nodes`: the table's invariant keeps job nodes
/// distinct, so the first match is the only one. An id-to-index hash map would
/// be keyed by `RenderNodeId`, a struct whose derived `Hash` and `Eq` carry no
/// specification, so nothing about a lookup in it could be proved. The ready
/// queue is a `Vec`: it is only appended to and drained whole, in order, which
/// is all a double-ended queue would be asked for here.
#[derive(Clone, Debug)]
pub struct RenderGraphDependencyCounters {
    nodes: Vec<RenderGraphJobNode>,
    ready: Vec<RenderNodeId>,
    kickoff_released: bool,
    completed_jobs: usize,
    completed_terminal_nodes: usize,
    terminal_completion_marked: bool,
}

impl RenderGraphDependencyCounters {
    /// The jobs, one per live node in usage order.
    pub closed spec fn spec_nodes(&self) -> Seq<RenderGraphJobNode> {
        self.nodes@
    }

    /// The runnable nodes queued and not yet taken.
    pub closed spec fn spec_ready(&self) -> Seq<RenderNodeId> {
        self.ready@
    }

    /// Whether the external kickoff gate was released.
    pub closed spec fn spec_kickoff_released(&self) -> bool {
        self.kickoff_released
    }

    /// How many jobs completed.
    pub closed spec fn spec_completed_jobs(&self) -> nat {
        self.completed_jobs as nat
    }

    /// How many terminal jobs completed.
    pub closed spec fn spec_completed_terminal(&self) -> nat {
        self.completed_terminal_nodes as nat
    }

    /// Whether the terminal completion handle resolved.
    pub closed spec fn spec_terminal_marked(&self) -> bool {
        self.terminal_completion_marked
    }

    /// The table's invariant: distinct job nodes, counters that count, started
    /// jobs whose CPU parents all completed, and a terminal mark only once
    /// every job completed.
    pub open spec fn wf(&self) -> bool {
        &&& forall|i: int, j: int|
            0 <= i < j < self.spec_nodes().len() ==> (#[trigger] self.spec_nodes()[i]).payload.node != (#[trigger] self.spec_nodes()[j]).payload.node
        &&& self.spec_completed_jobs() == count_jobs(self.spec_nodes(), completed_pred())
        &&& self.spec_completed_terminal() == count_jobs(self.spec_nodes(), completed_terminal_pred())
        &&& forall|i: int|
            0 <= i < self.spec_nodes().len() ==> ((#[trigger] self.spec_nodes()[i]).started ==> self.spec_nodes()[i].pending_cpu_parents == 0)
                && (self.spec_nodes()[i].completed ==> self.spec_nodes()[i].started)
        &&& self.spec_terminal_marked() ==> self.spec_completed_jobs() == self.spec_nodes().len()
    }

    /// Index of the job for `node`, if any.
    pub open spec fn job_index(&self, node: RenderNodeId, i: int) -> bool {
        0 <= i < self.spec_nodes().len() && self.spec_nodes()[i].payload.node == node
    }

    /// Builds a job table over the CPU dependencies of a built graph, one job per
    /// live node in usage order.
    pub fn prepare(graph: &RenderNodeGraph) -> (r: RenderGraphResult<Self>)
        requires
            graph.wf(),
        ensures
            r is Ok <==> graph.built(),
            r is Err ==> r == Err::<Self, RenderGraphError>(
                RenderGraphError::InvalidState { reason: "render graph must be built before dependency-counter execution" },
            ),
            r is Ok ==> {
                let t = r->Ok_0;
                &&& t.wf()
                &&& t.spec_nodes().len() == graph.node_order().len()
                &&& !t.spec_kickoff_released()
                &&& t.spec_ready().len() == 0
                &&& t.spec_completed_jobs() == 0
                &&& !t.spec_terminal_marked()
                &&& forall|i: int|
                    0 <= i < t.spec_nodes().len() ==> {
                        let job = #[trigger] t.spec_nodes()[i];
                        let n = RenderNodeId(graph.node_order()[i]);
                        &&& job.payload.node == n
                        &&& job.payload.metadata == graph.node_data(n).metadata
                        &&& job.payload.impl_id == graph.node_data(n).params.impl_id
                        &&& job.payload.worker_index == i
                        &&& job.cpu_parent_count == graph.parent_deps(n, RenderNodeDependencyKind::Cpu).len()
                        &&& job.pending_cpu_parents == job.cpu_parent_count
                        &&& job.cpu_children@ == graph.child_node_seq(n, RenderNodeDependencyKind::Cpu)
                        &&& job.terminal == (job.cpu_children@.len() == 0)
                        &&& job.scheduled
                        &&& !job.started
                        &&& !job.completed
                    }
            },
    {
        if !graph.is_built() {
            return Err(RenderGraphError::InvalidState { reason: "render graph must be built before dependency-counter execution" });
        }
        let node_ids = graph.node_ids();
        proof {
            graph.lemma_node_order_distinct();
        }
        let mut nodes: Vec<RenderGraphJobNode> = Vec::new();
        let mut worker_index: usize = 0;
        while worker_index < node_ids.len()
            invariant
                graph.wf(),
                node_ids@.len() == graph.node_order().len(),
                node_ids@.len() <= 4294967295,
                graph.node_order().no_duplicates(),
                forall|i: int| 0 <= i < node_ids@.len() ==> #[trigger] node_ids@[i] == RenderNodeId(graph.node_order()[i]),
                forall|i: int| 0 <= i < node_ids@.len() ==> graph.node_live(#[trigger] node_ids@[i]),
                nodes@.len() == worker_index,
                worker_index <= node_ids@.len(),
                count_jobs(nodes@, completed_pred()) == 0,
                count_jobs(nodes@, completed_terminal_pred()) == 0,
                forall|i: int|
                    0 <= i < nodes@.len() ==> {
                        let job = #[trigger] nodes@[i];
                        let n = RenderNodeId(graph.node_order()[i]);
                        &&& job.payload.node == n
                        &&& job.payload.metadata == graph.node_data(n).metadata
                        &&& job.payload.impl_id == graph.node_data(n).params.impl_id
                        &&& job.payload.worker_index == i
                        &&& job.cpu_parent_count == graph.parent_deps(n, RenderNodeDependencyKind::Cpu).len()
                        &&& job.pending_cpu_parents == job.cpu_parent_count
                        &&& job.cpu_children@ == graph.child_node_seq(n, RenderNodeDependencyKind::Cpu)
                        &&& job.terminal == (job.cpu_children@.len() == 0)
                        &&& job.scheduled
                        &&& !job.started
                        &&& !job.completed
                    },
            decreases node_ids@.len() - worker_index,
        {
            let node = node_ids[worker_index];
            let view = match graph.node(node) {
                Ok(v) => v,
                Err(e) => return Err(e),
            };
            let parents = match graph.parent_nodes(node, RenderNodeDependencyKind::Cpu) {
                Ok(v) => v,
                Err(e) => return Err(e),
            };
            let cpu_children = match graph.child_nodes(node, RenderNodeDependencyKind::Cpu) {
                Ok(v) => v,
                Err(e) => return Err(e),
            };
            let cpu_parent_count = parents.len();
            let terminal = cpu_children.len() == 0;
            let job = RenderGraphJobNode {
                payload: RenderGraphJobPayload {
                    node,
                    metadata: view.metadata(),
                    impl_id: view.impl_id(),
                    worker_index: worker_index as u32,
                },
                cpu_parent_count,
                pending_cpu_parents: cpu_parent_count,
                cpu_children,
                scheduled: true,
                started: false,
                completed: false,
                terminal,
            };
            let ghost before = nodes@;
            nodes.push(job);
            proof {
                assert(nodes@.drop_last() =~= before);
            }
            worker_index = worker_index + 1;
        }
        let table = RenderGraphDependencyCounters {
            nodes,
            ready: Vec::new(),
            kickoff_released: false,
            completed_jobs: 0,
            completed_terminal_nodes: 0,
            terminal_completion_marked: false,
        };
        proof {
            assert forall|i: int, j: int|
                0 <= i < j < table.nodes@.len() implies (#[trigger] table.nodes@[i]).payload.node != (
                #[trigger] table.nodes@[j]).payload.node by {
                assert(graph.node_order()[i] != graph.node_order()[j]);
            }
        }
        Ok(table)
    }

    /// The upfront-scheduled job table.
    pub fn jobs(&self) -> (r: &[RenderGraphJobNode])
        ensures
            r@ == self.spec_nodes(),
    {
        self.nodes.as_slice()
    }

    fn count_where(&self, terminal: bool) -> (r: usize)
        ensures
            terminal ==> r == count_jobs(self.nodes@, terminal_pred()),
            !terminal ==> r == count_jobs(self.nodes@, scheduled_pred()),
    {
        let mut count: usize = 0;
        let mut i: usize = 0;
        while i < self.nodes.len()
            invariant
                i <= self.nodes@.len(),
                terminal ==> count == count_jobs(self.nodes@.subrange(0, i as int), terminal_pred()),
                !terminal ==> count == count_jobs(self.nodes@.subrange(0, i as int), scheduled_pred()),
            decreases self.nodes@.len() - i,
        {
            proof {
                let sub = self.nodes@.subrange(0, i as int + 1);
                assert(sub.drop_last() =~= self.nodes@.subrange(0, i as int));
                lemma_count_jobs_le_len(self.nodes@.subrange(0, i as int), terminal_pred());
                lemma_count_jobs_le_len(self.nodes@.subrange(0, i as int), scheduled_pred());
            }
            let flag = if terminal { self.nodes[i].terminal } else { self.nodes[i].scheduled };
            if flag {
                count = count + 1;
            }
            i = i + 1;
        }
        proof {
            assert(self.nodes@.subrange(0, i as int) =~= self.nodes@);
        }
        count
    }

    /// How many graph jobs were scheduled up front.
    pub fn scheduled_jobs(&self) -> (r: usize)
        ensures
            r == count_jobs(self.spec_nodes(), scheduled_pred()),
    {
        self.count_where(false)
    }

    /// How many jobs have completed.
    pub fn completed_jobs(&self) -> (r: usize)
        ensures
            r == self.spec_completed_jobs(),
    {
        self.completed_jobs
    }

    /// How many terminal graph jobs exist.
    pub fn terminal_nodes(&self) -> (r: usize)
        ensures
            r == count_jobs(self.spec_nodes(), terminal_pred()),
    {
        self.count_where(true)
    }

    /// Whether the terminal completion handle has resolved.
    pub fn terminal_completed(&self) -> (r: bool)
        ensures
            r == self.spec_terminal_marked(),
    {
        self.terminal_completion_marked
    }

    /// Resolves the terminal completion handle once every job completed and
    /// every terminal job completed.
    fn update_terminal_completion(&mut self)
        requires
            old(self).wf(),
        ensures
            final(self).wf(),
            final(self).nodes@ == old(self).nodes@,
            final(self).ready@ == old(self).ready@,
            final(self).kickoff_released == old(self).kickoff_released,
            final(self).completed_jobs == old(self).completed_jobs,
            final(self).completed_terminal_nodes == old(self).completed_terminal_nodes,
            final(self).terminal_completion_marked == (old(self).terminal_completion_marked || (
            old(self).completed_jobs == old(self).nodes@.len() && old(self).completed_terminal_nodes == count_jobs(
                old(self).nodes@,
                terminal_pred(),
            ))),
    {
        if self.completed_jobs == self.nodes.len() && self.completed_terminal_nodes == self.terminal_nodes() {
            self.terminal_completion_marked = true;
        }
    }

    /// Index of the job of `node`.
    fn find_job(&self, node: RenderNodeId) -> (r: Option<usize>)
        ensures
            r is Some ==> self.job_index(node, r->0 as int),
            r is None ==> forall|i: int| 0 <= i < self.nodes@.len() ==> (#[trigger] self.nodes@[i]).payload.node != node,
    {
        let mut i: usize = 0;
        while i < self.nodes.len()
            invariant
                i <= self.nodes@.len(),
                forall|j: int| 0 <= j < i ==> (#[trigger] self.nodes@[j]).payload.node != node,
            decreases self.nodes@.len() - i,
        {
            if self.nodes[i].payload.node == node {
                return Some(i);
            }
            i = i + 1;
        }
        None
    }

    /// Releases the external kickoff gate and queues every job with no pending
    /// CPU parent that has not started; a second release does nothing.
    pub fn release_external_kickoff(&mut self)
        requires
            old(self).wf(),
        ensures
            final(self).wf(),
            final(self).spec_kickoff_released(),
            final(self).spec_nodes() == old(self).spec_nodes(),
            final(self).spec_completed_jobs() == old(self).spec_completed_jobs(),
            final(self).spec_completed_terminal() == old(self).spec_completed_terminal(),
            old(self).spec_kickoff_released() ==> *final(self) == *old(self),
            !old(self).spec_kickoff_released() ==> final(self).spec_ready() == old(self).spec_ready() + runnable_nodes(old(self).spec_nodes()),
            !old(self).spec_kickoff_released() ==> final(self).spec_terminal_marked() == (old(
                self,
            ).spec_terminal_marked() || (old(self).spec_completed_jobs() == old(self).spec_nodes().len()
                && old(self).spec_completed_terminal() == count_jobs(old(self).spec_nodes(), terminal_pred()))),
    {
        if self.kickoff_released {
            return;
        }
        self.kickoff_released = true;
        let ghost start = self.ready@;
        let mut i: usize = 0;
        while i < self.nodes.len()
            invariant
                self.wf(),
                self.kickoff_released,
                i <= self.nodes@.len(),
                self.nodes@ == old(self).nodes@,
                self.completed_jobs == old(self).completed_jobs,
                self.completed_terminal_nodes == old(self).completed_terminal_nodes,
                self.terminal_completion_marked == old(self).terminal_completion_marked,
                start == old(self).ready@,
                self.ready@ == start + runnable_nodes(self.nodes@.subrange(0, i as int)),
            decreases self.nodes@.len() - i,
        {
            let pending = self.nodes[i].pending_cpu_parents;
            let started = self.nodes[i].started;
            let completed = self.nodes[i].completed;
            let node = self.nodes[i].payload.node;
            proof {
                let sub = self.nodes@.subrange(0, i as int + 1);
                assert(sub.drop_last() =~= self.nodes@.subrange(0, i as int));
                assert(sub.last() == self.nodes@[i as int]);
            }
            let ghost before = self.ready@;
            if pending == 0 && !started && !completed {
                self.ready.push(node);
            }
            proof {
                let sub = self.nodes@.subrange(0, i as int + 1);
                assert(self.ready@ =~= start + runnable_nodes(sub));
            }
            i = i + 1;
        }
        proof {
            assert(self.nodes@.subrange(0, i as int) =~= self.nodes@);
        }
        self.update_terminal_completion();
    }

    /// The currently runnable nodes, without consuming them.
    pub fn ready_nodes(&self) -> (r: Vec<RenderNodeId>)
        ensures
            r@ == self.spec_ready(),
    {
        let mut out: Vec<RenderNodeId> = Vec::new();
        let mut i: usize = 0;
        while i < self.ready.len()
            invariant
                i <= self.ready@.len(),
                out@ == self.ready@.subrange(0, i as int),
            decreases self.ready@.len() - i,
        {
            out.push(self.ready[i]);
            i = i + 1;
        }
        proof {
            assert(self.ready@.subrange(0, i as int) =~= self.ready@);
        }
        out
    }

    /// Takes every runnable node queued so far, in queue order.
    pub fn take_ready_batch(&mut self) -> (r: Vec<RenderNodeId>)
        requires
            old(self).wf(),
        ensures
            final(self).wf(),
            r@ == old(self).spec_ready(),
            final(self).spec_ready().len() == 0,
            final(self).spec_nodes() == old(self).spec_nodes(),
            final(self).spec_kickoff_released() == old(self).spec_kickoff_released(),
            final(self).spec_completed_jobs() == old(self).spec_completed_jobs(),
            final(self).spec_terminal_marked() == old(self).spec_terminal_marked(),
    {
        let batch = self.ready_nodes();
        self.ready = Vec::new();
        batch
    }

    /// Marks the job of `node` as started and returns its payload. The kickoff
    /// must have been released, the job must exist, have no pending CPU parent,
    /// and not have started before.
    pub fn begin_node(&mut self, node: RenderNodeId) -> (r: RenderGraphResult<RenderGraphJobPayload>)
        requires
            old(self).wf(),
        ensures
            final(self).wf(),
            r is Err ==> *final(self) == *old(self),
            !old(self).spec_kickoff_released() ==> r == Err::<RenderGraphJobPayload, RenderGraphError>(
                RenderGraphError::InvalidState { reason: "dependency-counter job started before external kickoff" },
            ),
            old(self).spec_kickoff_released() && (forall|i: int| !old(self).job_index(node, i)) ==> r == Err::<
                RenderGraphJobPayload,
                RenderGraphError,
            >(RenderGraphError::InvalidId { kind: "dependency-counter graph job", raw: node.0 }),
            forall|i: int|
                #![trigger old(self).job_index(node, i)]
                old(self).spec_kickoff_released() && old(self).job_index(node, i) ==> {
                    let job = old(self).spec_nodes()[i];
                    &&& job.pending_cpu_parents != 0 ==> r == Err::<RenderGraphJobPayload, RenderGraphError>(
                        RenderGraphError::InvalidState {
                            reason: "dependency-counter job started before CPU parents completed",
                        },
                    )
                    &&& job.pending_cpu_parents == 0 && (job.started || job.completed) ==> r == Err::<
                        RenderGraphJobPayload,
                        RenderGraphError,
                    >(RenderGraphError::InvalidState { reason: "dependency-counter job was started more than once" })
                    &&& job.pending_cpu_parents == 0 && !job.started && !job.completed ==> {
                        &&& r == Ok::<RenderGraphJobPayload, RenderGraphError>(job.payload)
                        &&& final(self).spec_nodes() == old(self).spec_nodes().update(i, RenderGraphJobNode { started: true, ..job })
                        &&& final(self).spec_ready() == old(self).spec_ready()
                        &&& final(self).spec_kickoff_released() == old(self).spec_kickoff_released()
                        &&& final(self).spec_completed_jobs() == old(self).spec_completed_jobs()
                        &&& final(self).spec_terminal_marked() == old(self).spec_terminal_marked()
                    }
                },
    {
        if !self.kickoff_released {
            return Err(RenderGraphError::InvalidState { reason: "dependency-counter job started before external kickoff" });
        }
        let index = match self.find_job(node) {
            Some(i) => i,
            None => return Err(RenderGraphError::InvalidId { kind: "dependency-counter graph job", raw: node.raw() }),
        };
        proof {
            assert forall|i: int| #[trigger] self.job_index(node, i) implies i == index by {
                if i != index {
                    if i < index {
                        assert(self.nodes@[i].payload.node != self.nodes@[index as int].payload.node);
                    } else {
                        assert(self.nodes@[index as int].payload.node != self.nodes@[i].payload.node);
                    }
                }
            }
        }
        if self.nodes[index].pending_cpu_parents != 0 {
            return Err(RenderGraphError::InvalidState { reason: "dependency-counter job started before CPU parents completed" });
        }
        if self.nodes[index].started || self.nodes[index].completed {
            return Err(RenderGraphError::InvalidState { reason: "dependency-counter job was started more than once" });
        }
        let ghost before = self.nodes@;
        self.nodes[index].started = true;
        proof {
            let job = before[index as int];
            assert(self.nodes@ =~= before.update(index as int, RenderGraphJobNode { started: true, ..job }));
            lemma_count_jobs_update(before, completed_pred(), index as int, self.nodes@[index as int]);
            lemma_count_jobs_update(before, completed_terminal_pred(), index as int, self.nodes@[index as int]);
            assert forall|i: int, j: int|
                0 <= i < j < self.nodes@.len() implies (#[trigger] self.nodes@[i]).payload.node != (
                #[trigger] self.nodes@[j]).payload.node by {
                assert(before[i].payload.node == self.nodes@[i].payload.node);
                assert(before[j].payload.node == self.nodes@[j].payload.node);
            }
        }
        Ok(self.nodes[index].payload)
    }

    /// Completes the started job of `node` and releases its CPU children: each
    /// child's pending parent count drops by one per listing, and a child whose
    /// count reaches zero is queued.
    pub fn complete_node(&mut self, node: RenderNodeId) -> (r: RenderGraphResult<()>)
        requires
            old(self).wf(),
        ensures
            final(self).wf(),
            (forall|i: int| !old(self).job_index(node, i)) ==> r == Err::<(), RenderGraphError>(
                RenderGraphError::InvalidId { kind: "dependency-counter graph job", raw: node.0 },
            ) && *final(self) == *old(self),
            forall|i: int|
                #![trigger old(self).job_index(node, i)]
                old(self).job_index(node, i) && (!old(self).spec_nodes()[i].started || old(self).spec_nodes()[i].completed) ==> r
                    == Err::<(), RenderGraphError>(
                    RenderGraphError::InvalidState { reason: "dependency-counter job completed without a matching start" },
                ) && *final(self) == *old(self),
            forall|i: int|
                #![trigger old(self).job_index(node, i)]
                old(self).job_index(node, i) && old(self).spec_nodes()[i].started && !old(self).spec_nodes()[i].completed ==> {
                    &&& final(self).spec_nodes()[i].completed
                    &&& final(self).spec_completed_jobs() == old(self).spec_completed_jobs() + 1
                    &&& final(self).spec_nodes().len() == old(self).spec_nodes().len()
                    &&& final(self).spec_kickoff_released() == old(self).spec_kickoff_released()
                    &&& final(self).spec_ready().subrange(0, old(self).spec_ready().len() as int) == old(self).spec_ready()
                    &&& (r is Ok <==> children_releasable(
                        old(self).spec_nodes(),
                        old(self).spec_nodes()[i].cpu_children@,
                        old(self).spec_nodes()[i].cpu_children@.len() as int,
                    ))
                    &&& r is Err ==> exists|k: int|
                        0 <= k < old(self).spec_nodes()[i].cpu_children@.len() && children_releasable(
                            old(self).spec_nodes(),
                            old(self).spec_nodes()[i].cpu_children@,
                            k,
                        ) && !#[trigger] child_releasable(old(self).spec_nodes(), old(self).spec_nodes()[i].cpu_children@, k) && r
                            == Err::<(), RenderGraphError>(
                            release_error(old(self).spec_nodes(), old(self).spec_nodes()[i].cpu_children@[k]),
                        )
                    &&& r is Ok ==> forall|j: int|
                        0 <= j < old(self).spec_nodes().len() ==> (#[trigger] final(self).spec_nodes()[j]).pending_cpu_parents
                            == old(self).spec_nodes()[j].pending_cpu_parents - occurrences(
                            old(self).spec_nodes()[i].cpu_children@,
                            old(self).spec_nodes()[j].payload.node,
                        ) && final(self).spec_nodes()[j].payload == old(self).spec_nodes()[j].payload && final(self).spec_nodes()[j].started
                            == old(self).spec_nodes()[j].started && final(self).spec_nodes()[j].terminal == old(self).spec_nodes()[j].terminal
                            && final(self).spec_nodes()[j].completed == (j == i || old(self).spec_nodes()[j].completed)
                            && final(self).spec_nodes()[j].scheduled == old(self).spec_nodes()[j].scheduled
                    &&& r is Ok ==> final(self).spec_ready() == old(self).spec_ready() + released_children(
                        old(self).spec_nodes(),
                        old(self).spec_nodes()[i].cpu_children@,
                    )
                    &&& r is Ok ==> final(self).spec_terminal_marked() == (old(self).spec_terminal_marked() || (
                    final(self).spec_completed_jobs() == final(self).spec_nodes().len() && final(self).spec_completed_terminal()
                        == count_jobs(final(self).spec_nodes(), terminal_pred())))
                },
    {
        let index = match self.find_job(node) {
            Some(i) => i,
            None => return Err(RenderGraphError::InvalidId { kind: "dependency-counter graph job", raw: node.raw() }),
        };
        proof {
            assert forall|i: int| #[trigger] self.job_index(node, i) implies i == index by {
                if i != index {
                    if i < index {
                        assert(self.nodes@[i].payload.node != self.nodes@[index as int].payload.node);
                    } else {
                        assert(self.nodes@[index as int].payload.node != self.nodes@[i].payload.node);
                    }
                }
            }
        }
        if !self.nodes[index].started || self.nodes[index].completed {
            return Err(RenderGraphError::InvalidState { reason: "dependency-counter job completed without a matching start" });
        }
        let ghost start = *self;
        let ghost before = self.nodes@;
        self.nodes[index].completed = true;
        proof {
            lemma_count_jobs_update(before, completed_pred(), index as int, self.nodes@[index as int]);
            lemma_count_jobs_update(before, completed_terminal_pred(), index as int, self.nodes@[index as int]);
            assert(self.nodes@ =~= before.update(index as int, self.nodes@[index as int]));
            lemma_count_jobs_le_len(self.nodes@, completed_pred());
            lemma_count_jobs_le_len(self.nodes@, completed_terminal_pred());
            assert(completed_pred()(self.nodes@[index as int]));
            assert(!completed_pred()(before[index as int]));
            assert(self.completed_jobs == count_jobs(before, completed_pred()));
            assert(count_jobs(self.nodes@, completed_pred()) == count_jobs(before, completed_pred()) + 1);
            assert(!completed_terminal_pred()(before[index as int]));
            assert(self.completed_terminal_nodes == count_jobs(before, completed_terminal_pred()));
        }
        let job_count = self.nodes.len();
        proof {
            assert(count_jobs(self.nodes@, completed_pred()) <= job_count);
            if self.nodes@[index as int].terminal {
                assert(completed_terminal_pred()(self.nodes@[index as int]));
                assert(count_jobs(self.nodes@, completed_terminal_pred()) == count_jobs(before, completed_terminal_pred()) + 1);
            }
        }
        self.completed_jobs = self.completed_jobs + 1;
        if self.nodes[index].terminal {
            self.completed_terminal_nodes = self.completed_terminal_nodes + 1;
        }
        let mut children: Vec<RenderNodeId> = Vec::new();
        let mut c: usize = 0;
        while c < self.nodes[index].cpu_children.len()
            invariant
                index < self.nodes@.len(),
                c <= self.nodes@[index as int].cpu_children@.len(),
                children@ == self.nodes@[index as int].cpu_children@.subrange(0, c as int),
            decreases self.nodes@[index as int].cpu_children@.len() - c,
        {
            children.push(self.nodes[index].cpu_children[c]);
            c = c + 1;
        }
        proof {
            assert(children@ =~= self.nodes@[index as int].cpu_children@);
            assert forall|i: int, j: int|
                0 <= i < j < self.nodes@.len() implies (#[trigger] self.nodes@[i]).payload.node != (
                #[trigger] self.nodes@[j]).payload.node by {
                assert(before[i].payload.node == self.nodes@[i].payload.node);
                assert(before[j].payload.node == self.nodes@[j].payload.node);
            }
        }
        let ghost marked = *self;
        let mut k: usize = 0;
        while k < children.len()
            invariant
                self.wf(),
                marked.wf(),
                old(self).job_index(node, index as int),
                forall|i: int| #[trigger] old(self).job_index(node, i) ==> i == index,
                old(self).nodes@[index as int].started,
                !old(self).nodes@[index as int].completed,
                marked.completed_jobs == old(self).completed_jobs + 1,
                marked.kickoff_released == old(self).kickoff_released,
                marked.ready@ == old(self).ready@,
                marked.nodes@.len() == old(self).nodes@.len(),
                children@ == old(self).nodes@[index as int].cpu_children@,
                forall|j: int|
                    0 <= j < marked.nodes@.len() ==> (#[trigger] marked.nodes@[j]).pending_cpu_parents
                        == old(self).nodes@[j].pending_cpu_parents && marked.nodes@[j].payload == old(self).nodes@[j].payload,
                index < self.nodes@.len(),
                self.nodes@.len() == marked.nodes@.len(),
                self.nodes@[index as int].completed,
                self.completed_jobs == marked.completed_jobs,
                self.kickoff_released == marked.kickoff_released,
                self.ready@.subrange(0, marked.ready@.len() as int) == marked.ready@,
                marked.ready@.len() <= self.ready@.len(),
                k <= children@.len(),
                forall|j: int|
                    0 <= j < self.nodes@.len() ==> (#[trigger] self.nodes@[j]).payload == marked.nodes@[j].payload
                        && self.nodes@[j].pending_cpu_parents == marked.nodes@[j].pending_cpu_parents - occurrences(
                        children@.subrange(0, k as int),
                        marked.nodes@[j].payload.node,
                    ) && self.nodes@[j].started == marked.nodes@[j].started && self.nodes@[j].completed
                        == marked.nodes@[j].completed && self.nodes@[j].terminal == marked.nodes@[j].terminal
                        && self.nodes@[j].scheduled == marked.nodes@[j].scheduled,
                forall|a: int, b: int|
                    0 <= a < b < old(self).nodes@.len() ==> (#[trigger] old(self).nodes@[a]).payload.node != (
                    #[trigger] old(self).nodes@[b]).payload.node,
                children_releasable(old(self).nodes@, children@, k as int),
                self.terminal_completion_marked == old(self).terminal_completion_marked,
                self.ready@ == marked.ready@ + released_children(old(self).nodes@, children@.take(k as int)),
            decreases children@.len() - k,
        {
            let child = children[k];
            proof {
                lemma_occurrences_step(children@, k as int);
            }
            let child_index = match self.find_job(child) {
                Some(i) => i,
                None => {
                    proof {
                        assert(!has_job(old(self).nodes@, child)) by {
                            if has_job(old(self).nodes@, child) {
                                let w = choose|w: int| 0 <= w < old(self).nodes@.len() && old(self).nodes@[w].payload.node == child;
                                assert(self.nodes@[w].payload == marked.nodes@[w].payload);
                            }
                        }
                        assert(!child_releasable(old(self).nodes@, children@, k as int));
                    }
                    return Err(RenderGraphError::InvalidId { kind: "dependency-counter graph job", raw: child.raw() });
                },
            };
            proof {
                assert(self.nodes@[child_index as int].payload == marked.nodes@[child_index as int].payload);
                assert(has_job(old(self).nodes@, child));
                lemma_job_pending_at(old(self).nodes@, child, child_index as int);
            }
            if self.nodes[child_index].pending_cpu_parents == 0 {
                proof {
                    assert(!child_releasable(old(self).nodes@, children@, k as int));
                }
                return Err(RenderGraphError::InvalidState { reason: "dependency-counter child wait count underflowed" });
            }
            let ghost prev = self.nodes@;
            let pending = self.nodes[child_index].pending_cpu_parents - 1;
            self.nodes[child_index].pending_cpu_parents = pending;
            proof {
                assert(self.nodes@ =~= prev.update(child_index as int, self.nodes@[child_index as int]));
                lemma_count_jobs_update(prev, completed_pred(), child_index as int, self.nodes@[child_index as int]);
                lemma_count_jobs_update(prev, completed_terminal_pred(), child_index as int, self.nodes@[child_index as int]);
                assert(children@.subrange(0, k as int + 1).drop_last() =~= children@.subrange(0, k as int));
                assert forall|i: int, j: int|
                    0 <= i < j < self.nodes@.len() implies (#[trigger] self.nodes@[i]).payload.node != (
                    #[trigger] self.nodes@[j]).payload.node by {
                    assert(prev[i].payload.node == self.nodes@[i].payload.node);
                    assert(prev[j].payload.node == self.nodes@[j].payload.node);
                }
                assert forall|j: int|
                    0 <= j < self.nodes@.len() implies (#[trigger] self.nodes@[j]).payload == marked.nodes@[j].payload
                        && self.nodes@[j].pending_cpu_parents == marked.nodes@[j].pending_cpu_parents - occurrences(
                        children@.subrange(0, k + 1),
                        marked.nodes@[j].payload.node,
                    ) && self.nodes@[j].started == marked.nodes@[j].started && self.nodes@[j].completed
                        == marked.nodes@[j].completed && self.nodes@[j].terminal == marked.nodes@[j].terminal
                        && self.nodes@[j].scheduled == marked.nodes@[j].scheduled by {
                    assert(prev[j].payload == marked.nodes@[j].payload);
                    if j != child_index {
                        assert(self.nodes@[j] == prev[j]);
                        assert(marked.nodes@[j].payload.node != child) by {
                            if j < child_index {
                                assert(prev[j].payload.node != prev[child_index as int].payload.node);
                            } else {
                                assert(prev[child_index as int].payload.node != prev[j].payload.node);
                            }
                        }
                    }
                }
            }
            let ghost ready_before = self.ready@;
            if pending == 0 {
                self.ready.push(child);
            }
            proof {
                assert(self.ready@.subrange(0, marked.ready@.len() as int) =~= marked.ready@);
                assert(children@.take(k as int + 1).drop_last() =~= children@.take(k as int));
                assert(children@.take(k as int + 1).last() == child);
                assert(child_releasable(old(self).nodes@, children@, k as int));
                assert forall|m: int| 0 <= m < k + 1 implies #[trigger] child_releasable(old(self).nodes@, children@, m) by {}
                assert(self.ready@ =~= marked.ready@ + released_children(old(self).nodes@, children@.take(k as int + 1)));
            }
            k = k + 1;
        }
        proof {
            assert(children@.subrange(0, k as int) =~= children@);
            assert(children@.take(k as int) =~= children@);
        }
        self.update_terminal_completion();
        Ok(())
    }

    /// Checks that the terminal completion handle resolved only after every job
    /// completed; the table's invariant makes this always succeed.
    pub fn debug_validate_terminal_completion(&self) -> (r: RenderGraphResult<()>)
        requires
            self.wf(),
        ensures
            r is Ok,
    {
        if self.terminal_completion_marked && self.completed_jobs != self.nodes.len() {
            return Err(RenderGraphError::InvalidState { reason: "terminal graph completion resolved before all jobs completed" });
        }
        Ok(())
    }
}

/// The implementation context a live node of `graph` gets when processed on
/// worker `worker_index`, or why it gets none.
pub open spec fn node_process_init(graph: RenderNodeGraph, node: RenderNodeId, worker_index: u32) -> RenderGraphResult<
    RenderNodeImplContextInit,
> {
    if !graph.node_live(node) {
        Err(RenderGraphError::InvalidId { kind: "graph storage item", raw: node.0 })
    } else {
        let metadata = graph.node_data(node).metadata;
        let group = metadata.spec_flow_group(RenderNodeDependencyKind::Gpu);
        if group is None {
            Err(
                RenderGraphError::InvalidState {
                    reason: "node is missing GPU flow group; build_flow_groups must run before execution",
                },
            )
        } else if metadata.camera_index is Some && metadata.camera_index->0 > 255 {
            Err(RenderGraphError::InvalidState { reason: "camera render-flow space exceeded u8 range" })
        } else if metadata.camera_index is None {
            Ok(
                RenderNodeImplContextInit {
                    dispatcher_thread_index: worker_index,
                    ..RenderNodeImplContextInit::spec_unique_node(group->0)
                },
            )
        } else {
            Ok(
                RenderNodeImplContextInit {
                    dispatcher_thread_index: worker_index,
                    ..RenderNodeImplContextInit::spec_camera_node(
                        group->0,
                        RenderFlowSpace(metadata.camera_index->0 as u8),
                    )
                },
            )
        }
    }
}

/// What processing the body of one node produced.
struct ProcessBodyReport {
    command_list_usage: RenderNodeCommandListUsage,
    executed_impls: usize,
    command_list_scope_opened: bool,
    gpu_scope_allowed: bool,
    global_binding_mod: RenderGlobalBindingMask,
}

/// Runs one implementation for a node.
fn process_single_impl<I: RenderNodeImpl>(
    implementation: &I,
    init: RenderNodeImplContextInit,
    state: &mut RenderNodeProcessState,
    allocator: &mut FrameResourceAllocator,
) -> (r: RenderGraphResult<ProcessBodyReport>)
    ensures
        final(state).current_node == old(state).current_node,
        final(state).node_generation == old(state).node_generation,
        final(state).epilogue_count == old(state).epilogue_count,
        r is Ok ==> r->Ok_0.executed_impls == 1 && !r->Ok_0.command_list_scope_opened,
{
    let global_binding_mod = implementation.global_binding_mod();
    state.note_global_binding_mod(global_binding_mod);
    match implementation.execute(allocator, init) {
        Ok(()) => {},
        Err(e) => return Err(e),
    }
    Ok(
        ProcessBodyReport {
            command_list_usage: implementation.command_list_usage(),
            executed_impls: 1,
            command_list_scope_opened: false,
            gpu_scope_allowed: implementation.allow_gpu_scope(),
            global_binding_mod,
        },
    )
}

/// Runs the subnodes of the command-list group of `node`, in order, inside one
/// queue scope that is closed even when a subnode fails.
fn process_command_list_group<I: RenderNodeImpl>(
    groups: &CommandListGroupStore,
    impls: &RenderNodeImplStore<I>,
    node: RenderNodeId,
    init: RenderNodeImplContextInit,
    state: &mut RenderNodeProcessState,
    allocator: &mut FrameResourceAllocator,
) -> (r: RenderGraphResult<ProcessBodyReport>)
    requires
        impls.wf(),
    ensures
        final(state).current_node == old(state).current_node,
        final(state).node_generation == old(state).node_generation,
        final(state).epilogue_count == old(state).epilogue_count,
        !groups.has_group(node) ==> r == Err::<ProcessBodyReport, RenderGraphError>(
            RenderGraphError::InvalidId { kind: "command-list group node", raw: node.0 },
        ) && *final(allocator) == *old(allocator),
        r is Ok ==> r->Ok_0.command_list_usage == RenderNodeCommandListUsage::Own && r->Ok_0.command_list_scope_opened,
{
    let group = match groups.get(node) {
        Ok(g) => g,
        Err(e) => return Err(e),
    };
    proof {
        assert(groups.has_group(node));
    }
    match allocator.record_request(init.flow_group, ResourceRequest::BeginQueue { queue: group.queue_kind() }) {
        Ok(_) => {},
        Err(e) => return Err(RenderGraphError::FrameResource(e)),
    }
    let subnodes = group.subnodes();
    let mut executed_impls: usize = 0;
    let mut global_binding_mod = RenderGlobalBindingMask::empty();
    let mut gpu_scope_allowed = true;
    let mut execution_error: Option<RenderGraphError> = None;
    let mut i: usize = 0;
    while i < subnodes.len() && execution_error.is_none()
        invariant
            impls.wf(),
            groups.has_group(node),
            i <= subnodes@.len(),
            executed_impls == i,
            state.current_node == old(state).current_node,
            state.node_generation == old(state).node_generation,
            state.epilogue_count == old(state).epilogue_count,
        decreases subnodes@.len() - i,
    {
        let implementation = match impls.get(subnodes[i]) {
            Ok(x) => x,
            Err(e) => return Err(e),
        };
        let subnode_binding_mod = implementation.global_binding_mod();
        state.note_global_binding_mod(subnode_binding_mod);
        global_binding_mod = global_binding_mod.union(subnode_binding_mod);
        gpu_scope_allowed = gpu_scope_allowed && implementation.allow_gpu_scope();
        executed_impls = executed_impls + 1;
        match implementation.execute(allocator, init) {
            Ok(()) => {},
            Err(e) => {
                execution_error = Some(e);
            },
        }
        i = i + 1;
    }
    let end_result = allocator.record_request(init.flow_group, ResourceRequest::EndQueue);
    match execution_error {
        Some(e) => return Err(e),
        None => {},
    }
    match end_result {
        Ok(_) => {},
        Err(e) => return Err(RenderGraphError::FrameResource(e)),
    }
    Ok(
        ProcessBodyReport {
            command_list_usage: RenderNodeCommandListUsage::Own,
            executed_impls,
            command_list_scope_opened: true,
            gpu_scope_allowed,
            global_binding_mod,
        },
    )
}

/// Processes one graph-visible node: derives its context from its metadata,
/// enters it, runs its command-list group or its implementation, runs the
/// command-list epilogue in the consume phase for a node that records, and
/// leaves it.
pub fn process_node_core<I: RenderNodeImpl>(
    graph: &RenderNodeGraph,
    impls: &RenderNodeImplStore<I>,
    groups: &CommandListGroupStore,
    node: RenderNodeId,
    state: &mut RenderNodeProcessState,
    allocator: &mut FrameResourceAllocator,
    worker_index: u32,
) -> (r: RenderGraphResult<RenderNodeProcessReport>)
    requires
        graph.wf(),
        impls.wf(),
    ensures
        node_process_init(*graph, node, worker_index) is Err ==> r == Err::<RenderNodeProcessReport, RenderGraphError>(
            node_process_init(*graph, node, worker_index)->Err_0,
        ) && *final(state) == *old(state) && *final(allocator) == *old(allocator),
        node_process_init(*graph, node, worker_index) is Ok ==> final(state).current_node is None
            && final(state).node_generation == saturating_succ(old(state).node_generation),
        r is Ok ==> {
            let report = r->Ok_0;
            let init = node_process_init(*graph, node, worker_index)->Ok_0;
            &&& node_process_init(*graph, node, worker_index) is Ok
            &&& report.node == node
            &&& report.phase == old(allocator).spec_phase()
            &&& report.flow_group == init.flow_group
            &&& report.worker_index == worker_index
            &&& report.state_generation == saturating_succ(old(state).node_generation)
            &&& report.epilogue_ran == (report.phase == ResourceAllocatorPhase::Consume && (report.command_list_usage
                is Require || report.command_list_usage is Own))
            &&& report.global_binding_restore_ran == (report.epilogue_ran && report.global_binding_mod.0 != 0)
            &&& final(state).epilogue_count == if report.epilogue_ran {
                saturating_succ(old(state).epilogue_count)
            } else {
                old(state).epilogue_count
            }
        },
        node_process_init(*graph, node, worker_index) is Ok && graph.node_data(node).params.role
            == RenderNodeRole::CommandListGroup ==> (!groups.has_group(node) ==> r == Err::<
            RenderNodeProcessReport,
            RenderGraphError,
        >(RenderGraphError::InvalidId { kind: "command-list group node", raw: node.0 })) && (r is Ok
            ==> r->Ok_0.command_list_usage == RenderNodeCommandListUsage::Own && r->Ok_0.command_list_scope_opened),
        node_process_init(*graph, node, worker_index) is Ok && graph.node_data(node).params.role
            != RenderNodeRole::CommandListGroup && graph.node_data(node).params.impl_id is Some ==> (!impls.has_impl(
            graph.node_data(node).params.impl_id->0,
        ) ==> r == Err::<RenderNodeProcessReport, RenderGraphError>(
            RenderGraphError::InvalidId { kind: "graph storage item", raw: (graph.node_data(node).params.impl_id->0).0 },
        )) && (r is Ok ==> r->Ok_0.executed_impls == 1 && !r->Ok_0.command_list_scope_opened),
        node_process_init(*graph, node, worker_index) is Ok && graph.node_data(node).params.role
            != RenderNodeRole::CommandListGroup && graph.node_data(node).params.impl_id is None ==> {
            &&& r is Ok
            &&& r->Ok_0.executed_impls == 0
            &&& r->Ok_0.command_list_usage == RenderNodeCommandListUsage::NoCommandList
            &&& !r->Ok_0.command_list_scope_opened
            &&& r->Ok_0.gpu_scope_allowed
            &&& r->Ok_0.global_binding_mod.0 == 0
            &&& *final(allocator) == *old(allocator)
        },
{
    let node_view = match graph.node(node) {
        Ok(v) => v,
        Err(e) => return Err(e),
    };
    let metadata = node_view.metadata();
    let flow_group = match execution_flow_group(metadata) {
        Ok(g) => g,
        Err(e) => return Err(e),
    };
    let init = match context_init_for_node(metadata, flow_group) {
        Ok(i) => i.with_dispatcher_thread_index(worker_index),
        Err(e) => return Err(e),
    };
    let phase = allocator.phase();
    state.begin_node(node);
    let body_result = if node_view.role() == RenderNodeRole::CommandListGroup {
        process_command_list_group(groups, impls, node, init, state, allocator)
    } else {
        match node_view.impl_id() {
            Some(impl_id) => {
                match impls.get(impl_id) {
                    Ok(implementation) => process_single_impl(implementation, init, state, allocator),
                    Err(e) => Err(e),
                }
            },
            None => Ok(
                ProcessBodyReport {
                    command_list_usage: RenderNodeCommandListUsage::NoCommandList,
                    executed_impls: 0,
                    command_list_scope_opened: false,
                    gpu_scope_allowed: true,
                    global_binding_mod: RenderGlobalBindingMask::empty(),
                },
            ),
        }
    };
    let report = match body_result {
        Ok(report) => report,
        Err(error) => {
            state.end_node();
            return Err(error);
        },
    };
    let epilogue_ran = phase == ResourceAllocatorPhase::Consume && report.command_list_usage.uses_command_list();
    let global_binding_restore_ran = epilogue_ran && !report.global_binding_mod.is_empty();
    if epilogue_ran {
        state.run_epilogue();
    }
    let result = RenderNodeProcessReport {
        node,
        phase,
        flow_group,
        command_list_usage: report.command_list_usage,
        executed_impls: report.executed_impls,
        command_list_scope_opened: report.command_list_scope_opened,
        epilogue_ran,
        gpu_scope_allowed: report.gpu_scope_allowed,
        global_binding_mod: report.global_binding_mod,
        global_binding_restore_ran,
        state_generation: state.node_generation(),
        worker_index,
    };
    state.end_node();
    Ok(result)
}

/// Counts agree for predicates that agree on every job.
proof fn lemma_count_jobs_same(
    jobs: Seq<RenderGraphJobNode>,
    p: spec_fn(RenderGraphJobNode) -> bool,
    q: spec_fn(RenderGraphJobNode) -> bool,
)
    requires
        forall|i: int| 0 <= i < jobs.len() ==> p(#[trigger] jobs[i]) == q(jobs[i]),
    ensures
        count_jobs(jobs, p) == count_jobs(jobs, q),
    decreases jobs.len(),
{
    if jobs.len() > 0 {
        assert forall|i: int| 0 <= i < jobs.drop_last().len() implies p(#[trigger] jobs.drop_last()[i]) == q(
            jobs.drop_last()[i],
        ) by {
            assert(jobs.drop_last()[i] == jobs[i]);
        }
        lemma_count_jobs_same(jobs.drop_last(), p, q);
        assert(p(jobs[jobs.len() - 1]) == q(jobs[jobs.len() - 1]));
    }
}

/// The nodes of `batches`, batch after batch.
pub open spec fn batch_nodes(batches: Seq<Vec<RenderNodeId>>) -> Seq<RenderNodeId>
    decreases batches.len(),
{
    if batches.len() == 0 {
        Seq::empty()
    } else {
        batch_nodes(batches.drop_last()) + batches.last()@
    }
}

/// The nodes the reports are about, in report order.
pub open spec fn reported_nodes(reports: Seq<RenderNodeProcessReport>) -> Seq<RenderNodeId> {
    reports.map_values(|report: RenderNodeProcessReport| report.node)
}

/// Runs consume over the CPU dependency counters of a built graph: after the
/// external kickoff, takes the runnable nodes batch by batch, processes each
/// node and releases its CPU children, until every job completed. A round
/// with nothing runnable before that is a stall.
pub fn execute_graph_dependency_counter_consume<I: RenderNodeImpl>(
    graph: &RenderNodeGraph,
    impls: &RenderNodeImplStore<I>,
    groups: &CommandListGroupStore,
    state: &mut RenderNodeProcessState,
    allocator: &mut FrameResourceAllocator,
) -> (r: RenderGraphResult<RenderGraphDependencyExecutionReport>)
    requires
        graph.wf(),
        impls.wf(),
    ensures
        old(allocator).spec_phase() != ResourceAllocatorPhase::Consume ==> r == Err::<
            RenderGraphDependencyExecutionReport,
            RenderGraphError,
        >(RenderGraphError::InvalidState { reason: "dependency-counter graph execution is a consume-phase operation" })
            && *final(state) == *old(state) && *final(allocator) == *old(allocator),
        old(allocator).spec_phase() == ResourceAllocatorPhase::Consume && !graph.built() ==> r == Err::<
            RenderGraphDependencyExecutionReport,
            RenderGraphError,
        >(RenderGraphError::InvalidState { reason: "render graph must be built before dependency-counter execution" })
            && *final(state) == *old(state) && *final(allocator) == *old(allocator),
        r is Ok ==> {
            let report = r->Ok_0;
            &&& old(allocator).spec_phase() == ResourceAllocatorPhase::Consume
            &&& graph.built()
            &&& report.scheduled_jobs == graph.node_order().len()
            &&& report.completed_jobs == report.scheduled_jobs
            &&& report.terminal_completed
            &&& report.node_reports@.len() == graph.node_order().len()
            &&& batch_nodes(report.ready_batches@) == reported_nodes(report.node_reports@)
        },
{
    if allocator.phase() != ResourceAllocatorPhase::Consume {
        return Err(RenderGraphError::InvalidState { reason: "dependency-counter graph execution is a consume-phase operation" });
    }
    let mut counters = match RenderGraphDependencyCounters::prepare(graph) {
        Ok(c) => c,
        Err(e) => return Err(e),
    };
    counters.release_external_kickoff();
    let scheduled_jobs = counters.scheduled_jobs();
    let terminal_nodes = counters.terminal_nodes();
    proof {
        lemma_count_jobs_full(counters.nodes@, scheduled_pred());
        lemma_count_jobs_le_len(counters.nodes@, completed_pred());
        if counters.completed_jobs == counters.nodes@.len() {
            lemma_count_jobs_full(counters.nodes@, completed_pred());
            lemma_count_jobs_same(counters.nodes@, completed_terminal_pred(), terminal_pred());
        }
    }
    let mut ready_batches: Vec<Vec<RenderNodeId>> = Vec::new();
    let mut node_reports: Vec<RenderNodeProcessReport> = Vec::new();
    while counters.completed_jobs() < scheduled_jobs
        invariant
            graph.wf(),
            graph.built(),
            impls.wf(),
            counters.wf(),
            counters.kickoff_released,
            scheduled_jobs == counters.nodes@.len(),
            scheduled_jobs == graph.node_order().len(),
            forall|i: int| 0 <= i < counters.nodes@.len() ==> (#[trigger] counters.nodes@[i]).scheduled,
            counters.completed_jobs == counters.nodes@.len() ==> counters.terminal_completion_marked,
            node_reports@.len() == counters.completed_jobs,
            batch_nodes(ready_batches@) == reported_nodes(node_reports@),
            old(allocator).spec_phase() == ResourceAllocatorPhase::Consume,
        decreases scheduled_jobs - counters.completed_jobs,
    {
        let batch = counters.take_ready_batch();
        if batch.len() == 0 {
            return Err(
                RenderGraphError::InvalidState { reason: "dependency-counter graph execution stalled before terminal completion" },
            );
        }
        let ghost start_completed = counters.completed_jobs;
        let ghost start_reports = node_reports@;
        let mut j: usize = 0;
        while j < batch.len()
            invariant
                graph.wf(),
                impls.wf(),
                counters.wf(),
                counters.kickoff_released,
                scheduled_jobs == counters.nodes@.len(),
                forall|i: int| 0 <= i < counters.nodes@.len() ==> (#[trigger] counters.nodes@[i]).scheduled,
                counters.completed_jobs == counters.nodes@.len() ==> counters.terminal_completion_marked,
                j <= batch@.len(),
                counters.completed_jobs == start_completed + j,
                node_reports@.len() == start_reports.len() + j,
                reported_nodes(node_reports@) == reported_nodes(start_reports) + batch@.take(j as int),
                old(allocator).spec_phase() == ResourceAllocatorPhase::Consume,
                graph.built(),
                scheduled_jobs == graph.node_order().len(),
            decreases batch@.len() - j,
        {
            let node = batch[j];
            let ghost pre = counters;
            let payload = match counters.begin_node(node) {
                Ok(p) => p,
                Err(e) => return Err(e),
            };
            proof {
                assert(exists|i: int| pre.job_index(node, i));
            }
            let ghost index = choose|i: int| pre.job_index(node, i);
            proof {
                assert(pre.job_index(node, index));
                assert(counters.nodes@[index].payload == pre.nodes@[index].payload);
                assert(counters.job_index(node, index));
                assert(payload.node == node);
            }
            let ghost begun = counters;
            let report = match process_node_core(graph, impls, groups, payload.node, state, allocator, payload.worker_index) {
                Ok(rep) => rep,
                Err(e) => return Err(e),
            };
            let ghost before_push = node_reports@;
            node_reports.push(report);
            proof {
                assert(reported_nodes(node_reports@) =~= reported_nodes(before_push).push(node));
                assert(batch@.take(j as int + 1) =~= batch@.take(j as int).push(node));
            }
            match counters.complete_node(node) {
                Ok(()) => {},
                Err(e) => return Err(e),
            }
            proof {
                assert(begun.job_index(node, index));
                assert(counters.completed_jobs == begun.completed_jobs + 1);
                lemma_count_jobs_le_len(counters.nodes@, completed_pred());
                if counters.completed_jobs == counters.nodes@.len() {
                    lemma_count_jobs_full(counters.nodes@, completed_pred());
                    assert forall|i: int| 0 <= i < counters.nodes@.len() implies completed_terminal_pred()(
                        #[trigger] counters.nodes@[i],
                    ) == terminal_pred()(counters.nodes@[i]) by {
                        assert(completed_pred()(counters.nodes@[i]));
                    }
                    lemma_count_jobs_same(counters.nodes@, completed_terminal_pred(), terminal_pred());
                }
            }
            j = j + 1;
        }
        let ghost before_batches = ready_batches@;
        proof {
            assert(batch@.take(j as int) =~= batch@);
        }
        ready_batches.push(batch);
        proof {
            assert(ready_batches@.drop_last() =~= before_batches);
            lemma_count_jobs_le_len(counters.nodes@, completed_pred());
        }
    }
    proof {
        lemma_count_jobs_le_len(counters.nodes@, completed_pred());
    }
    match counters.debug_validate_terminal_completion() {
        Ok(()) => {},
        Err(e) => return Err(e),
    }
    Ok(
        RenderGraphDependencyExecutionReport {
            scheduled_jobs,
            completed_jobs: counters.completed_jobs(),
            terminal_nodes,
            terminal_completed: counters.terminal_completed(),
            ready_batches,
            node_reports,
        },
    )
}

/// Processes every node of a built graph once, in its GPU order, on no
/// particular worker.
pub fn execute_graph_sequential_gpu_order<I: RenderNodeImpl>(
    graph: &RenderNodeGraph,
    impls: &RenderNodeImplStore<I>,
    groups: &CommandListGroupStore,
    state: &mut RenderNodeProcessState,
    allocator: &mut FrameResourceAllocator,
) -> (r: RenderGraphResult<Vec<RenderNodeProcessReport>>)
    requires
        graph.wf(),
        impls.wf(),
    ensures
        !graph.built() ==> r == Err::<Vec<RenderNodeProcessReport>, RenderGraphError>(
            RenderGraphError::InvalidState { reason: "render graph must be built before execution" },
        ) && *final(state) == *old(state) && *final(allocator) == *old(allocator),
        r is Ok ==> graph.built() && reported_nodes(r->Ok_0@) == graph.flattened(RenderNodeDependencyKind::Gpu),
{
    if !graph.is_built() {
        return Err(RenderGraphError::InvalidState { reason: "render graph must be built before execution" });
    }
    let order = graph.flattened_nodes(RenderNodeDependencyKind::Gpu);
    let mut reports: Vec<RenderNodeProcessReport> = Vec::new();
    let mut i: usize = 0;
    while i < order.len()
        invariant
            graph.wf(),
            graph.built(),
            impls.wf(),
            order@ == graph.flattened(RenderNodeDependencyKind::Gpu),
            i <= order@.len(),
            reported_nodes(reports@) == order@.take(i as int),
        decreases order@.len() - i,
    {
        let node = order[i];
        let report = match process_node_core(graph, impls, groups, node, state, allocator, u32::MAX) {
            Ok(rep) => rep,
            Err(e) => return Err(e),
        };
        let ghost before = reports@;
        reports.push(report);
        proof {
            assert(reported_nodes(reports@) =~= reported_nodes(before).push(node));
            assert(order@.take(i as int + 1) =~= order@.take(i as int).push(node));
        }
        i = i + 1;
    }
    proof {
        assert(order@.take(i as int) =~= order@);
    }
    Ok(reports)
}

} // verus!
