//! Frame command recording state used by graph execution: one recorder slot per
//! flow group, each moving Empty -> Recording -> Finished -> Submitted.
use vstd::prelude::*;

use crate::error::{RenderGraphError, RenderGraphResult};
use crate::ids::RenderNodeId;
use crate::metadata::RenderNodeDependencyKind;
use crate::render_node_graph::RenderNodeGraph;
use crate::request::{QueueSyncKind, RenderQueueKind};
use crate::tags::RenderFlowGroup;
use crate::viewport::RenderViewportRect;

verus! {

/// Stable command recording slot addressed by render flow group.
#[derive(Clone, Copy, Debug, PartialEq, Eq, PartialOrd, Ord, Hash, Structural)]
pub struct FrameCommandRecorderSlot(pub usize);

impl FrameCommandRecorderSlot {
    pub fn new(index: usize) -> (r: Self)
        ensures
            r.0 == index,
    {
        FrameCommandRecorderSlot(index)
    }

    pub fn get(self) -> (r: usize)
        ensures
            r == self.0,
    {
        self.0
    }
}

/// State of one prepared command recording slot.
#[derive(Clone, Copy, Debug, PartialEq, Eq, Structural)]
pub enum FrameCommandRecorderState {
    Empty,
    Recording,
    Finished,
    Submitted,
}

impl Default for FrameCommandRecorderState {
    fn default() -> (r: Self)
        ensures
            r == FrameCommandRecorderState::Empty,
    {
        FrameCommandRecorderState::Empty
    }
}

/// Kind of pass currently active in a command recorder.
#[derive(Clone, Copy, Debug, PartialEq, Eq, Structural)]
pub enum FrameCommandPassKind {
    Render,
    Compute,
}

/// Queue sync recorded by the command runtime.
#[derive(Clone, Debug, PartialEq, Eq)]
pub struct FrameCommandSyncEvent {
    pub flow_group: RenderFlowGroup,
    pub sync: QueueSyncKind,
    pub label: String,
}

/// Submission metadata produced in GPU graph order.
#[derive(Clone, Debug, PartialEq, Eq)]
pub struct FrameCommandSubmission {
    pub slot: FrameCommandRecorderSlot,
    pub flow_group: RenderFlowGroup,
    pub queue: RenderQueueKind,
    pub label: String,
}

/// Recording state of one slot.
#[derive(Clone, Debug)]
pub struct FrameCommandRecorderSlotData {
    pub flow_group: RenderFlowGroup,
    pub queue: Option<RenderQueueKind>,
    pub label: Option<String>,
    pub state: FrameCommandRecorderState,
    pub active_pass: Option<FrameCommandPassKind>,
    pub viewport: Option<RenderViewportRect>,
    pub debug_markers: Vec<String>,
    pub sync_events: Vec<FrameCommandSyncEvent>,
}

impl FrameCommandRecorderSlotData {
    /// An empty slot for `flow_group`.
    pub open spec fn is_fresh(&self, flow_group: RenderFlowGroup) -> bool {
        &&& self.flow_group == flow_group
        &&& self.queue is None
        &&& self.label is None
        &&& self.state == FrameCommandRecorderState::Empty
        &&& self.active_pass is None
        &&& self.viewport is None
        &&& self.debug_markers@.len() == 0
        &&& self.sync_events@.len() == 0
    }

    fn new(flow_group: RenderFlowGroup) -> (r: Self)
        ensures
            r.is_fresh(flow_group),
    {
        FrameCommandRecorderSlotData {
            flow_group,
            queue: None,
            label: None,
            state: FrameCommandRecorderState::Empty,
            active_pass: None,
            viewport: None,
            debug_markers: Vec::new(),
            sync_events: Vec::new(),
        }
    }
}

/// Frame-scoped command recorder registry.
#[derive(Clone, Debug)]
pub struct FrameCommandRecorders {
    slots: Vec<FrameCommandRecorderSlotData>,
    submissions: Vec<FrameCommandSubmission>,
}

/// The error of an out-of-range flow group.
pub open spec fn slot_error(flow_group: RenderFlowGroup) -> RenderGraphError {
    RenderGraphError::InvalidId { kind: "frame command recorder slot", raw: flow_group.0 as u32 }
}

/// A misuse of the recorder API.
pub open spec fn usage_error(operation: &'static str, reason: &'static str) -> RenderGraphError {
    RenderGraphError::InvalidCommandRecorderUsage { operation, reason }
}

/// The GPU flow groups of the nodes of `order`, with a placeholder for a node
/// without one.
pub open spec fn gpu_groups(graph: RenderNodeGraph, order: Seq<RenderNodeId>) -> Seq<Option<RenderFlowGroup>> {
    order.map_values(|n: RenderNodeId| graph.node_data(n).metadata.spec_flow_group(RenderNodeDependencyKind::Gpu))
}

/// Visiting the `i`-th node of `order` during submission succeeds over slots
/// that started as `slots`: the node is live with a GPU flow group that has a
/// slot, the slot is not recording, and a finished slot carries its queue and
/// label.
pub open spec fn submit_step_ok(
    graph: RenderNodeGraph,
    slots: Seq<FrameCommandRecorderSlotData>,
    order: Seq<RenderNodeId>,
    i: int,
) -> bool {
    let g = graph.node_data(order[i]).metadata.spec_flow_group(RenderNodeDependencyKind::Gpu);
    &&& graph.node_live(order[i])
    &&& g is Some
    &&& ((g->0).0 as int) < slots.len()
    &&& slots[(g->0).0 as int].state != FrameCommandRecorderState::Recording
    &&& slots[(g->0).0 as int].state == FrameCommandRecorderState::Finished ==> slots[(g->0).0 as int].queue is Some
        && slots[(g->0).0 as int].label is Some
}

/// The first `k` visits of the submission walk succeed.
pub open spec fn submit_ok_upto(
    graph: RenderNodeGraph,
    slots: Seq<FrameCommandRecorderSlotData>,
    order: Seq<RenderNodeId>,
    k: int,
) -> bool {
    forall|m: int| 0 <= m < k ==> #[trigger] submit_step_ok(graph, slots, order, m)
}

/// The error with which the `i`-th visit of the submission walk fails.
pub open spec fn submit_step_error(
    graph: RenderNodeGraph,
    slots: Seq<FrameCommandRecorderSlotData>,
    order: Seq<RenderNodeId>,
    i: int,
) -> RenderGraphError {
    let g = graph.node_data(order[i]).metadata.spec_flow_group(RenderNodeDependencyKind::Gpu);
    if !graph.node_live(order[i]) {
        RenderGraphError::InvalidId { kind: "graph storage item", raw: order[i].0 }
    } else if g is None {
        RenderGraphError::InvalidState { reason: "node is missing GPU flow group during command submission" }
    } else if ((g->0).0 as int) >= slots.len() {
        slot_error(g->0)
    } else if slots[(g->0).0 as int].state == FrameCommandRecorderState::Recording {
        RenderGraphError::InvalidCommandRecorderUsage {
            operation: "submit_finished_in_gpu_order",
            reason: "cannot submit an unfinished command recorder",
        }
    } else if slots[(g->0).0 as int].queue is None {
        RenderGraphError::InvalidCommandRecorderUsage {
            operation: "submit_finished_in_gpu_order",
            reason: "finished command recorder is missing queue metadata",
        }
    } else {
        RenderGraphError::InvalidCommandRecorderUsage {
            operation: "submit_finished_in_gpu_order",
            reason: "finished command recorder is missing debug label",
        }
    }
}

/// The submission of a finished slot.
pub open spec fn submission_of(slot: FrameCommandRecorderSlotData, flow_group: RenderFlowGroup) -> FrameCommandSubmission {
    FrameCommandSubmission {
        slot: FrameCommandRecorderSlot(flow_group.0 as usize),
        flow_group,
        queue: slot.queue->0,
        label: slot.label->0,
    }
}

/// The submissions made while walking `groups` over slots that start as `slots`:
/// each finished slot is submitted at its first visit.
pub open spec fn expected_submissions(slots: Seq<FrameCommandRecorderSlotData>, groups: Seq<RenderFlowGroup>) -> Seq<
    FrameCommandSubmission,
>
    decreases groups.len(),
{
    if groups.len() == 0 {
        Seq::empty()
    } else {
        let g = groups.last();
        let before = expected_submissions(slots, groups.drop_last());
        if slots[g.0 as int].state == FrameCommandRecorderState::Finished && !groups.drop_last().contains(g) {
            before.push(submission_of(slots[g.0 as int], g))
        } else {
            before
        }
    }
}

impl Default for FrameCommandRecorders {
    /// A registry with no slots and no submissions.
    fn default() -> (r: Self)
        ensures
            r.wf(),
            r.spec_slots().len() == 0,
            r.spec_submissions().len() == 0,
    {
        FrameCommandRecorders { slots: Vec::new(), submissions: Vec::new() }
    }
}

impl FrameCommandRecorders {
    /// The recorder slots, one per GPU flow group.
    pub closed spec fn spec_slots(&self) -> Seq<FrameCommandRecorderSlotData> {
        self.slots@
    }

    /// The submissions made by the last submission walk.
    pub closed spec fn spec_submissions(&self) -> Seq<FrameCommandSubmission> {
        self.submissions@
    }

    /// Slot `i` serves flow group `i`, and there are at most 65536 slots.
    pub open spec fn wf(&self) -> bool {
        &&& self.spec_slots().len() <= 65536
        &&& forall|i: int| 0 <= i < self.spec_slots().len() ==> (#[trigger] self.spec_slots()[i]).flow_group == RenderFlowGroup(i as u16)
    }

    /// Whether `flow_group` addresses a slot.
    pub open spec fn has_slot(&self, flow_group: RenderFlowGroup) -> bool {
        (flow_group.0 as int) < self.spec_slots().len()
    }

    /// The slot of `flow_group`.
    pub open spec fn slot_of(&self, flow_group: RenderFlowGroup) -> FrameCommandRecorderSlotData {
        self.spec_slots()[flow_group.0 as int]
    }

    /// Every slot but the one of `flow_group`, and the submissions, are unchanged.
    pub open spec fn others_kept(&self, prev: FrameCommandRecorders, flow_group: RenderFlowGroup) -> bool {
        &&& self.spec_slots().len() == prev.spec_slots().len()
        &&& forall|j: int| 0 <= j < self.spec_slots().len() && j != flow_group.0 ==> #[trigger] self.spec_slots()[j] == prev.spec_slots()[j]
        &&& self.spec_submissions() == prev.spec_submissions()
        &&& self.slot_of(flow_group).flow_group == prev.slot_of(flow_group).flow_group
    }

    /// A table of `slot_count` empty slots; more than 65536 slots are refused.
    pub fn prepare(slot_count: usize) -> (r: RenderGraphResult<Self>)
        ensures
            r is Ok <==> slot_count <= 65536,
            r is Err ==> r == Err::<Self, RenderGraphError>(
                RenderGraphError::InvalidState { reason: "frame command recorder slot count exceeded u16 flow group range" },
            ),
            r is Ok ==> {
                &&& r->Ok_0.wf()
                &&& r->Ok_0.spec_slots().len() == slot_count
                &&& r->Ok_0.spec_submissions().len() == 0
                &&& forall|i: int| 0 <= i < slot_count ==> (#[trigger] r->Ok_0.spec_slots()[i]).is_fresh(RenderFlowGroup(i as u16))
            },
    {
        if slot_count > 65536 {
            return Err(RenderGraphError::InvalidState { reason: "frame command recorder slot count exceeded u16 flow group range" });
        }
        let mut slots: Vec<FrameCommandRecorderSlotData> = Vec::new();
        let mut index: usize = 0;
        while index < slot_count
            invariant
                slot_count <= 65536,
                index <= slot_count,
                slots@.len() == index,
                forall|i: int| 0 <= i < index ==> (#[trigger] slots@[i]).is_fresh(RenderFlowGroup(i as u16)),
            decreases slot_count - index,
        {
            slots.push(FrameCommandRecorderSlotData::new(RenderFlowGroup::new(index as u16)));
            index = index + 1;
        }
        Ok(FrameCommandRecorders { slots, submissions: Vec::new() })
    }

    /// A table with one empty slot per node of a built graph.
    pub fn prepare_for_graph(graph: &RenderNodeGraph) -> (r: RenderGraphResult<Self>)
        requires
            graph.wf(),
        ensures
            r is Ok <==> graph.built() && graph.node_order().len() <= 65536,
            !graph.built() ==> r == Err::<Self, RenderGraphError>(
                RenderGraphError::InvalidState { reason: "render graph must be built before preparing command recorders" },
            ),
            r is Ok ==> {
                &&& r->Ok_0.wf()
                &&& r->Ok_0.spec_slots().len() == graph.node_order().len()
                &&& r->Ok_0.spec_submissions().len() == 0
                &&& forall|i: int|
                    0 <= i < r->Ok_0.spec_slots().len() ==> (#[trigger] r->Ok_0.spec_slots()[i]).is_fresh(RenderFlowGroup(i as u16))
            },
    {
        if !graph.is_built() {
            return Err(RenderGraphError::InvalidState { reason: "render graph must be built before preparing command recorders" });
        }
        FrameCommandRecorders::prepare(graph.node_count())
    }

    pub fn len(&self) -> (r: usize)
        ensures
            r == self.spec_slots().len(),
    {
        self.slots.len()
    }

    pub fn is_empty(&self) -> (r: bool)
        ensures
            r == (self.spec_slots().len() == 0),
    {
        self.slots.len() == 0
    }

    pub fn submissions(&self) -> (r: &[FrameCommandSubmission])
        ensures
            r@ == self.spec_submissions(),
    {
        self.submissions.as_slice()
    }

    fn slot(&self, flow_group: RenderFlowGroup) -> (r: RenderGraphResult<FrameCommandRecorderSlot>)
        ensures
            r is Ok <==> self.has_slot(flow_group),
            r is Ok ==> r->Ok_0.0 == flow_group.0,
            r is Err ==> r == Err::<FrameCommandRecorderSlot, RenderGraphError>(slot_error(flow_group)),
    {
        let index = flow_group.get() as usize;
        if index >= self.slots.len() {
            return Err(RenderGraphError::InvalidId { kind: "frame command recorder slot", raw: flow_group.get() as u32 });
        }
        Ok(FrameCommandRecorderSlot::new(index))
    }

    pub fn state(&self, flow_group: RenderFlowGroup) -> (r: RenderGraphResult<FrameCommandRecorderState>)
        ensures
            r is Ok <==> self.has_slot(flow_group),
            r is Ok ==> r->Ok_0 == self.slot_of(flow_group).state,
            r is Err ==> r == Err::<FrameCommandRecorderState, RenderGraphError>(slot_error(flow_group)),
    {
        let slot = match self.slot(flow_group) {
            Ok(s) => s,
            Err(e) => return Err(e),
        };
        Ok(self.slots[slot.get()].state)
    }

    pub fn active_pass(&self, flow_group: RenderFlowGroup) -> (r: RenderGraphResult<Option<FrameCommandPassKind>>)
        ensures
            r is Ok <==> self.has_slot(flow_group),
            r is Ok ==> r->Ok_0 == self.slot_of(flow_group).active_pass,
            r is Err ==> r == Err::<Option<FrameCommandPassKind>, RenderGraphError>(slot_error(flow_group)),
    {
        let slot = match self.slot(flow_group) {
            Ok(s) => s,
            Err(e) => return Err(e),
        };
        Ok(self.slots[slot.get()].active_pass)
    }

    pub fn viewport(&self, flow_group: RenderFlowGroup) -> (r: RenderGraphResult<Option<RenderViewportRect>>)
        ensures
            r is Ok <==> self.has_slot(flow_group),
            r is Ok ==> r->Ok_0 == self.slot_of(flow_group).viewport,
            r is Err ==> r == Err::<Option<RenderViewportRect>, RenderGraphError>(slot_error(flow_group)),
    {
        let slot = match self.slot(flow_group) {
            Ok(s) => s,
            Err(e) => return Err(e),
        };
        Ok(self.slots[slot.get()].viewport)
    }

    pub fn debug_markers(&self, flow_group: RenderFlowGroup) -> (r: RenderGraphResult<&[String]>)
        ensures
            r is Ok <==> self.has_slot(flow_group),
            r is Ok ==> r->Ok_0@ == self.slot_of(flow_group).debug_markers@,
            r is Err ==> r == Err::<&[String], RenderGraphError>(slot_error(flow_group)),
    {
        let slot = match self.slot(flow_group) {
            Ok(s) => s,
            Err(e) => return Err(e),
        };
        Ok(self.slots[slot.get()].debug_markers.as_slice())
    }

    pub fn sync_events(&self, flow_group: RenderFlowGroup) -> (r: RenderGraphResult<&[FrameCommandSyncEvent]>)
        ensures
            r is Ok <==> self.has_slot(flow_group),
            r is Ok ==> r->Ok_0@ == self.slot_of(flow_group).sync_events@,
            r is Err ==> r == Err::<&[FrameCommandSyncEvent], RenderGraphError>(slot_error(flow_group)),
    {
        let slot = match self.slot(flow_group) {
            Ok(s) => s,
            Err(e) => return Err(e),
        };
        Ok(self.slots[slot.get()].sync_events.as_slice())
    }

    /// Opens an owned recorder on a graphics or compute queue in an empty slot.
    pub fn create_own_recorder(&mut self, flow_group: RenderFlowGroup, queue: RenderQueueKind, label: &str) -> (r:
        RenderGraphResult<FrameCommandRecorderSlot>)
        ensures
            r is Err ==> *final(self) == *old(self),
            queue == RenderQueueKind::Copy ==> r == Err::<FrameCommandRecorderSlot, RenderGraphError>(
                usage_error("create_own_recorder", "frame command recorders support graphics or compute queues only"),
            ),
            queue != RenderQueueKind::Copy && !old(self).has_slot(flow_group) ==> r == Err::<
                FrameCommandRecorderSlot,
                RenderGraphError,
            >(slot_error(flow_group)),
            queue != RenderQueueKind::Copy && old(self).has_slot(flow_group) && old(self).slot_of(flow_group).state
                != FrameCommandRecorderState::Empty ==> r == Err::<FrameCommandRecorderSlot, RenderGraphError>(
                usage_error("create_own_recorder", "command recorder slot is already owned"),
            ),
            r is Ok <==> queue != RenderQueueKind::Copy && old(self).has_slot(flow_group) && old(self).slot_of(
                flow_group,
            ).state == FrameCommandRecorderState::Empty,
            r is Ok ==> {
                &&& r->Ok_0.0 == flow_group.0
                &&& final(self).others_kept(*old(self), flow_group)
                &&& final(self).slot_of(flow_group).queue == Some(queue)
                &&& final(self).slot_of(flow_group).label is Some
                &&& final(self).slot_of(flow_group).label->0@ == label@
                &&& final(self).slot_of(flow_group).state == FrameCommandRecorderState::Recording
                &&& final(self).slot_of(flow_group).active_pass == old(self).slot_of(flow_group).active_pass
                &&& final(self).slot_of(flow_group).viewport == old(self).slot_of(flow_group).viewport
                &&& final(self).slot_of(flow_group).debug_markers@ == old(self).slot_of(flow_group).debug_markers@
                &&& final(self).slot_of(flow_group).sync_events@ == old(self).slot_of(flow_group).sync_events@
            },
    {
        if matches!(queue, RenderQueueKind::Copy) {
            return Err(
                RenderGraphError::InvalidCommandRecorderUsage {
                    operation: "create_own_recorder",
                    reason: "frame command recorders support graphics or compute queues only",
                },
            );
        }
        let slot = match self.slot(flow_group) {
            Ok(s) => s,
            Err(e) => return Err(e),
        };
        let index = slot.get();
        if self.slots[index].state != FrameCommandRecorderState::Empty {
            return Err(
                RenderGraphError::InvalidCommandRecorderUsage {
                    operation: "create_own_recorder",
                    reason: "command recorder slot is already owned",
                },
            );
        }
        self.slots[index].queue = Some(queue);
        self.slots[index].label = Some(label.to_owned());
        self.slots[index].state = FrameCommandRecorderState::Recording;
        Ok(slot)
    }

    /// Requires the recorder of `flow_group` to be recording.
    pub fn require_recorder(&self, flow_group: RenderFlowGroup) -> (r: RenderGraphResult<FrameCommandRecorderSlot>)
        ensures
            r is Ok <==> self.has_slot(flow_group) && self.slot_of(flow_group).state == FrameCommandRecorderState::Recording,
            r is Ok ==> r->Ok_0.0 == flow_group.0,
            !self.has_slot(flow_group) ==> r == Err::<FrameCommandRecorderSlot, RenderGraphError>(slot_error(flow_group)),
            self.has_slot(flow_group) && self.slot_of(flow_group).state != FrameCommandRecorderState::Recording ==> r
                == Err::<FrameCommandRecorderSlot, RenderGraphError>(
                usage_error("require_recorder", "command recorder slot is not active"),
            ),
    {
        let slot = match self.slot(flow_group) {
            Ok(s) => s,
            Err(e) => return Err(e),
        };
        if self.slots[slot.get()].state != FrameCommandRecorderState::Recording {
            return Err(
                RenderGraphError::InvalidCommandRecorderUsage {
                    operation: "require_recorder",
                    reason: "command recorder slot is not active",
                },
            );
        }
        Ok(slot)
    }

    /// Whether the slot holds a recorder that is recording or finished.
    pub fn has_command_recorder(&self, flow_group: RenderFlowGroup) -> (r: RenderGraphResult<bool>)
        ensures
            r is Ok <==> self.has_slot(flow_group),
            r is Ok ==> r->Ok_0 == (self.slot_of(flow_group).state == FrameCommandRecorderState::Recording
                || self.slot_of(flow_group).state == FrameCommandRecorderState::Finished),
            r is Err ==> r == Err::<bool, RenderGraphError>(slot_error(flow_group)),
    {
        let slot = match self.slot(flow_group) {
            Ok(s) => s,
            Err(e) => return Err(e),
        };
        let state = self.slots[slot.get()].state;
        Ok(matches!(state, FrameCommandRecorderState::Recording | FrameCommandRecorderState::Finished))
    }

    /// Opens a pass on a recording recorder that has no active pass, and logs its label.
    fn begin_pass(&mut self, flow_group: RenderFlowGroup, pass: FrameCommandPassKind, label: &str) -> (r:
        RenderGraphResult<()>)
        ensures
            r is Err ==> *final(self) == *old(self),
            r is Ok <==> old(self).has_slot(flow_group) && old(self).slot_of(flow_group).state
                == FrameCommandRecorderState::Recording && old(self).slot_of(flow_group).active_pass is None,
            !old(self).has_slot(flow_group) ==> r == Err::<(), RenderGraphError>(slot_error(flow_group)),
            old(self).has_slot(flow_group) && old(self).slot_of(flow_group).state != FrameCommandRecorderState::Recording
                ==> r == Err::<(), RenderGraphError>(usage_error("begin_pass", "passes require an active command recorder")),
            old(self).has_slot(flow_group) && old(self).slot_of(flow_group).state == FrameCommandRecorderState::Recording
                && old(self).slot_of(flow_group).active_pass is Some ==> r == Err::<(), RenderGraphError>(
                usage_error("begin_pass", "a command recorder pass is already active"),
            ),
            r is Ok ==> {
                &&& final(self).others_kept(*old(self), flow_group)
                &&& final(self).slot_of(flow_group).active_pass == Some(pass)
                &&& final(self).slot_of(flow_group).debug_markers@.len() == old(self).slot_of(flow_group).debug_markers@.len() + 1
                &&& final(self).slot_of(flow_group).debug_markers@.drop_last() == old(self).slot_of(flow_group).debug_markers@
                &&& final(self).slot_of(flow_group).debug_markers@.last()@ == label@
                &&& final(self).slot_of(flow_group).state == old(self).slot_of(flow_group).state
                &&& final(self).slot_of(flow_group).queue == old(self).slot_of(flow_group).queue
                &&& final(self).slot_of(flow_group).label == old(self).slot_of(flow_group).label
                &&& final(self).slot_of(flow_group).viewport == old(self).slot_of(flow_group).viewport
                &&& final(self).slot_of(flow_group).sync_events@ == old(self).slot_of(flow_group).sync_events@
            },
    {
        let slot = match self.slot(flow_group) {
            Ok(s) => s,
            Err(e) => return Err(e),
        };
        let index = slot.get();
        if self.slots[index].state != FrameCommandRecorderState::Recording {
            return Err(
                RenderGraphError::InvalidCommandRecorderUsage {
                    operation: "begin_pass",
                    reason: "passes require an active command recorder",
                },
            );
        }
        if self.slots[index].active_pass.is_some() {
            return Err(
                RenderGraphError::InvalidCommandRecorderUsage {
                    operation: "begin_pass",
                    reason: "a command recorder pass is already active",
                },
            );
        }
        self.slots[index].active_pass = Some(pass);
        self.slots[index].debug_markers.push(label.to_owned());
        Ok(())
    }

    pub fn begin_render_pass(&mut self, flow_group: RenderFlowGroup, label: &str) -> (r: RenderGraphResult<()>)
        ensures
            r is Err ==> *final(self) == *old(self),
            r is Ok <==> old(self).has_slot(flow_group) && old(self).slot_of(flow_group).state
                == FrameCommandRecorderState::Recording && old(self).slot_of(flow_group).active_pass is None,
            r is Ok ==> final(self).others_kept(*old(self), flow_group) && final(self).slot_of(flow_group).active_pass
                == Some(FrameCommandPassKind::Render) && final(self).slot_of(flow_group).debug_markers@.last()@ == label@,
    {
        self.begin_pass(flow_group, FrameCommandPassKind::Render, label)
    }

    pub fn begin_compute_pass(&mut self, flow_group: RenderFlowGroup, label: &str) -> (r: RenderGraphResult<()>)
        ensures
            r is Err ==> *final(self) == *old(self),
            r is Ok <==> old(self).has_slot(flow_group) && old(self).slot_of(flow_group).state
                == FrameCommandRecorderState::Recording && old(self).slot_of(flow_group).active_pass is None,
            r is Ok ==> final(self).others_kept(*old(self), flow_group) && final(self).slot_of(flow_group).active_pass
                == Some(FrameCommandPassKind::Compute) && final(self).slot_of(flow_group).debug_markers@.last()@ == label@,
    {
        self.begin_pass(flow_group, FrameCommandPassKind::Compute, label)
    }

    /// Closes the active pass.
    pub fn end_pass(&mut self, flow_group: RenderFlowGroup) -> (r: RenderGraphResult<()>)
        ensures
            r is Err ==> *final(self) == *old(self),
            r is Ok <==> old(self).has_slot(flow_group) && old(self).slot_of(flow_group).active_pass is Some,
            !old(self).has_slot(flow_group) ==> r == Err::<(), RenderGraphError>(slot_error(flow_group)),
            old(self).has_slot(flow_group) && old(self).slot_of(flow_group).active_pass is None ==> r == Err::<
                (),
                RenderGraphError,
            >(usage_error("end_pass", "no command recorder pass is active")),
            r is Ok ==> final(self).others_kept(*old(self), flow_group) && final(self).slot_of(flow_group)
                == (FrameCommandRecorderSlotData { active_pass: None, ..old(self).slot_of(flow_group) }),
    {
        let slot = match self.slot(flow_group) {
            Ok(s) => s,
            Err(e) => return Err(e),
        };
        let index = slot.get();
        if self.slots[index].active_pass.is_none() {
            return Err(
                RenderGraphError::InvalidCommandRecorderUsage {
                    operation: "end_pass",
                    reason: "no command recorder pass is active",
                },
            );
        }
        self.slots[index].active_pass = None;
        Ok(())
    }

    /// Sets the viewport of an active render pass.
    pub fn set_viewport(&mut self, flow_group: RenderFlowGroup, viewport: RenderViewportRect) -> (r: RenderGraphResult<()>)
        ensures
            r is Err ==> *final(self) == *old(self),
            r is Ok <==> old(self).has_slot(flow_group) && old(self).slot_of(flow_group).active_pass == Some(
                FrameCommandPassKind::Render,
            ),
            !old(self).has_slot(flow_group) ==> r == Err::<(), RenderGraphError>(slot_error(flow_group)),
            old(self).has_slot(flow_group) && old(self).slot_of(flow_group).active_pass != Some(
                FrameCommandPassKind::Render,
            ) ==> r == Err::<(), RenderGraphError>(usage_error("set_viewport", "viewport requires an active render pass")),
            r is Ok ==> final(self).others_kept(*old(self), flow_group) && final(self).slot_of(flow_group)
                == (FrameCommandRecorderSlotData { viewport: Some(viewport), ..old(self).slot_of(flow_group) }),
    {
        let slot = match self.slot(flow_group) {
            Ok(s) => s,
            Err(e) => return Err(e),
        };
        let index = slot.get();
        if self.slots[index].active_pass != Some(FrameCommandPassKind::Render) {
            return Err(
                RenderGraphError::InvalidCommandRecorderUsage {
                    operation: "set_viewport",
                    reason: "viewport requires an active render pass",
                },
            );
        }
        self.slots[index].viewport = Some(viewport);
        Ok(())
    }

    /// Logs a debug marker on a recording recorder.
    pub fn push_debug_marker(&mut self, flow_group: RenderFlowGroup, label: &str) -> (r: RenderGraphResult<()>)
        ensures
            r is Err ==> *final(self) == *old(self),
            r is Ok <==> old(self).has_slot(flow_group) && old(self).slot_of(flow_group).state
                == FrameCommandRecorderState::Recording,
            !old(self).has_slot(flow_group) ==> r == Err::<(), RenderGraphError>(slot_error(flow_group)),
            old(self).has_slot(flow_group) && old(self).slot_of(flow_group).state != FrameCommandRecorderState::Recording
                ==> r == Err::<(), RenderGraphError>(
                usage_error("push_debug_marker", "debug markers require an active command recorder"),
            ),
            r is Ok ==> {
                &&& final(self).others_kept(*old(self), flow_group)
                &&& final(self).slot_of(flow_group).debug_markers@.len() == old(self).slot_of(flow_group).debug_markers@.len() + 1
                &&& final(self).slot_of(flow_group).debug_markers@.drop_last() == old(self).slot_of(flow_group).debug_markers@
                &&& final(self).slot_of(flow_group).debug_markers@.last()@ == label@
                &&& final(self).slot_of(flow_group).state == old(self).slot_of(flow_group).state
                &&& final(self).slot_of(flow_group).active_pass == old(self).slot_of(flow_group).active_pass
            },
    {
        let slot = match self.slot(flow_group) {
            Ok(s) => s,
            Err(e) => return Err(e),
        };
        let index = slot.get();
        if self.slots[index].state != FrameCommandRecorderState::Recording {
            return Err(
                RenderGraphError::InvalidCommandRecorderUsage {
                    operation: "push_debug_marker",
                    reason: "debug markers require an active command recorder",
                },
            );
        }
        self.slots[index].debug_markers.push(label.to_owned());
        Ok(())
    }

    /// Records a queue sync event in any slot.
    pub fn record_sync(&mut self, flow_group: RenderFlowGroup, sync: QueueSyncKind, label: &str) -> (r: RenderGraphResult<()>)
        ensures
            r is Err ==> *final(self) == *old(self),
            r is Ok <==> old(self).has_slot(flow_group),
            r is Err ==> r == Err::<(), RenderGraphError>(slot_error(flow_group)),
            r is Ok ==> {
                &&& final(self).others_kept(*old(self), flow_group)
                &&& final(self).slot_of(flow_group).sync_events@.len() == old(self).slot_of(flow_group).sync_events@.len() + 1
                &&& final(self).slot_of(flow_group).sync_events@.drop_last() == old(self).slot_of(flow_group).sync_events@
                &&& final(self).slot_of(flow_group).sync_events@.last().flow_group == flow_group
                &&& final(self).slot_of(flow_group).sync_events@.last().sync == sync
                &&& final(self).slot_of(flow_group).sync_events@.last().label@ == label@
                &&& final(self).slot_of(flow_group).state == old(self).slot_of(flow_group).state
            },
    {
        let slot = match self.slot(flow_group) {
            Ok(s) => s,
            Err(e) => return Err(e),
        };
        let index = slot.get();
        self.slots[index].sync_events.push(FrameCommandSyncEvent { flow_group, sync, label: label.to_owned() });
        Ok(())
    }

    /// Finishes a recording recorder that has no active pass.
    pub fn finish_recorder(&mut self, flow_group: RenderFlowGroup) -> (r: RenderGraphResult<()>)
        ensures
            r is Err ==> *final(self) == *old(self),
            r is Ok <==> old(self).has_slot(flow_group) && old(self).slot_of(flow_group).state
                == FrameCommandRecorderState::Recording && old(self).slot_of(flow_group).active_pass is None,
            !old(self).has_slot(flow_group) ==> r == Err::<(), RenderGraphError>(slot_error(flow_group)),
            old(self).has_slot(flow_group) && old(self).slot_of(flow_group).state != FrameCommandRecorderState::Recording
                ==> r == Err::<(), RenderGraphError>(usage_error("finish_recorder", "command recorder slot is not recording")),
            old(self).has_slot(flow_group) && old(self).slot_of(flow_group).state == FrameCommandRecorderState::Recording
                && old(self).slot_of(flow_group).active_pass is Some ==> r == Err::<(), RenderGraphError>(
                usage_error("finish_recorder", "cannot finish a command recorder while a pass is active"),
            ),
            r is Ok ==> final(self).others_kept(*old(self), flow_group) && final(self).slot_of(flow_group)
                == (FrameCommandRecorderSlotData { state: FrameCommandRecorderState::Finished, ..old(self).slot_of(flow_group) }),
    {
        let slot = match self.slot(flow_group) {
            Ok(s) => s,
            Err(e) => return Err(e),
        };
        let index = slot.get();
        if self.slots[index].state != FrameCommandRecorderState::Recording {
            return Err(
                RenderGraphError::InvalidCommandRecorderUsage {
                    operation: "finish_recorder",
                    reason: "command recorder slot is not recording",
                },
            );
        }
        if self.slots[index].active_pass.is_some() {
            return Err(
                RenderGraphError::InvalidCommandRecorderUsage {
                    operation: "finish_recorder",
                    reason: "cannot finish a command recorder while a pass is active",
                },
            );
        }
        self.slots[index].state = FrameCommandRecorderState::Finished;
        Ok(())
    }

    /// Clears every slot back to empty and drops the submissions.
    pub fn cleanup(&mut self)
        requires
            old(self).wf(),
        ensures
            final(self).wf(),
            final(self).spec_slots().len() == old(self).spec_slots().len(),
            final(self).spec_submissions().len() == 0,
            forall|i: int| 0 <= i < final(self).spec_slots().len() ==> (#[trigger] final(self).spec_slots()[i]).is_fresh(RenderFlowGroup(i as u16)),
    {
        let mut i: usize = 0;
        while i < self.slots.len()
            invariant
                self.spec_slots().len() == old(self).spec_slots().len(),
                self.spec_slots().len() <= 65536,
                i <= self.spec_slots().len(),
                forall|j: int| 0 <= j < i ==> (#[trigger] self.spec_slots()[j]).is_fresh(RenderFlowGroup(j as u16)),
                forall|j: int| i <= j < self.spec_slots().len() ==> (#[trigger] self.spec_slots()[j]).flow_group == RenderFlowGroup(j as u16),
            decreases self.spec_slots().len() - i,
        {
            let flow_group = self.slots[i].flow_group;
            self.slots.set(i, FrameCommandRecorderSlotData::new(flow_group));
            i = i + 1;
        }
        self.submissions = Vec::new();
    }

    /// Submits finished recorders in the GPU order of a built graph: each
    /// finished slot visited becomes submitted and is listed once, at its first
    /// visit. A recorder still recording stops the walk with an error.
    pub fn submit_finished_in_gpu_order(&mut self, graph: &RenderNodeGraph) -> (r: RenderGraphResult<Vec<FrameCommandSubmission>>)
        requires
            graph.wf(),
            old(self).wf(),
        ensures
            !graph.built() ==> r == Err::<Vec<FrameCommandSubmission>, RenderGraphError>(
                RenderGraphError::InvalidState { reason: "render graph must be built before command submission" },
            ) && *final(self) == *old(self),
            final(self).spec_slots().len() == old(self).spec_slots().len(),
            graph.built() ==> (r is Ok <==> submit_ok_upto(
                *graph,
                old(self).spec_slots(),
                graph.flattened(RenderNodeDependencyKind::Gpu),
                graph.flattened(RenderNodeDependencyKind::Gpu).len() as int,
            )),
            graph.built() && r is Err ==> exists|k: int|
                0 <= k < graph.flattened(RenderNodeDependencyKind::Gpu).len() && submit_ok_upto(
                    *graph,
                    old(self).spec_slots(),
                    graph.flattened(RenderNodeDependencyKind::Gpu),
                    k,
                ) && !#[trigger] submit_step_ok(*graph, old(self).spec_slots(), graph.flattened(RenderNodeDependencyKind::Gpu), k)
                    && r == Err::<Vec<FrameCommandSubmission>, RenderGraphError>(
                    submit_step_error(*graph, old(self).spec_slots(), graph.flattened(RenderNodeDependencyKind::Gpu), k),
                ),
            r is Ok ==> {
                let order = graph.flattened(RenderNodeDependencyKind::Gpu);
                let groups = gpu_groups(*graph, order).map_values(|g: Option<RenderFlowGroup>| g->0);
                &&& graph.built()
                &&& forall|i: int| 0 <= i < order.len() ==> graph.node_live(#[trigger] order[i])
                &&& forall|i: int| 0 <= i < order.len() ==> (#[trigger] gpu_groups(*graph, order)[i]) is Some
                &&& forall|i: int| 0 <= i < groups.len() ==> old(self).has_slot(#[trigger] groups[i])
                &&& forall|i: int|
                    0 <= i < groups.len() ==> old(self).slot_of(#[trigger] groups[i]).state != FrameCommandRecorderState::Recording
                &&& final(self).spec_submissions() == expected_submissions(old(self).spec_slots(), groups)
                &&& r->Ok_0@ == final(self).spec_submissions()
                &&& forall|j: int|
                    0 <= j < final(self).spec_slots().len() ==> #[trigger] final(self).spec_slots()[j] == if old(self).spec_slots()[j].state
                        == FrameCommandRecorderState::Finished && groups.contains(RenderFlowGroup(j as u16)) {
                        FrameCommandRecorderSlotData { state: FrameCommandRecorderState::Submitted, ..old(self).spec_slots()[j] }
                    } else {
                        old(self).spec_slots()[j]
                    }
            },
    {
        if !graph.is_built() {
            return Err(RenderGraphError::InvalidState { reason: "render graph must be built before command submission" });
        }
        self.submissions = Vec::new();
        let order = graph.flattened_nodes(RenderNodeDependencyKind::Gpu);
        let ghost start = old(self).spec_slots();
        let ghost all_groups = gpu_groups(*graph, order@).map_values(|g: Option<RenderFlowGroup>| g->0);
        let mut i: usize = 0;
        while i < order.len()
            invariant
                graph.wf(),
                graph.built(),
                order@ == graph.flattened(RenderNodeDependencyKind::Gpu),
                all_groups == gpu_groups(*graph, order@).map_values(|g: Option<RenderFlowGroup>| g->0),
                start == old(self).spec_slots(),
                start.len() <= 65536,
                self.spec_slots().len() == start.len(),
                i <= order@.len(),
                forall|k: int| 0 <= k < i ==> graph.node_live(#[trigger] order@[k]),
                forall|k: int| 0 <= k < i ==> (#[trigger] gpu_groups(*graph, order@)[k]) is Some,
                forall|k: int| 0 <= k < i ==> (#[trigger] all_groups[k].0 as int) < start.len(),
                forall|k: int| 0 <= k < i ==> start[#[trigger] all_groups[k].0 as int].state != FrameCommandRecorderState::Recording,
                submit_ok_upto(*graph, start, order@, i as int),
                self.spec_submissions() == expected_submissions(start, all_groups.subrange(0, i as int)),
                forall|j: int|
                    0 <= j < self.spec_slots().len() ==> #[trigger] self.spec_slots()[j] == if start[j].state
                        == FrameCommandRecorderState::Finished && all_groups.subrange(0, i as int).contains(
                        RenderFlowGroup(j as u16),
                    ) {
                        FrameCommandRecorderSlotData { state: FrameCommandRecorderState::Submitted, ..start[j] }
                    } else {
                        start[j]
                    },
            decreases order@.len() - i,
        {
            let node = order[i];
            let view = match graph.node(node) {
                Ok(v) => v,
                Err(e) => {
                    proof {
                        assert(!submit_step_ok(*graph, start, order@, i as int));
                    }
                    return Err(e);
                },
            };
            let flow_group = match view.metadata().flow_group(RenderNodeDependencyKind::Gpu) {
                Some(g) => g,
                None => {
                    proof {
                        assert(!submit_step_ok(*graph, start, order@, i as int));
                    }
                    return Err(
                        RenderGraphError::InvalidState { reason: "node is missing GPU flow group during command submission" },
                    )
                },
            };
            proof {
                assert(gpu_groups(*graph, order@)[i as int] == Some(flow_group));
                assert(all_groups[i as int] == flow_group);
            }
            let slot = match self.slot(flow_group) {
                Ok(s) => s,
                Err(e) => {
                    proof {
                        assert(!submit_step_ok(*graph, start, order@, i as int));
                    }
                    return Err(e);
                },
            };
            let index = slot.get();
            let ghost seen = all_groups.subrange(0, i as int);
            let ghost next = all_groups.subrange(0, i as int + 1);
            proof {
                assert(next.drop_last() =~= seen);
                assert(next.last() == flow_group);
                assert forall|g: RenderFlowGroup| #[trigger] next.contains(g) <==> (seen.contains(g) || g == flow_group) by {
                    if next.contains(g) {
                        let k = choose|k: int| 0 <= k < next.len() && next[k] == g;
                        if k < i {
                            assert(seen[k] == g);
                        }
                    }
                    if seen.contains(g) {
                        let k = choose|k: int| 0 <= k < seen.len() && seen[k] == g;
                        assert(next[k] == g);
                    }
                    if g == flow_group {
                        assert(next[i as int] == g);
                    }
                }
                assert(self.spec_slots()[index as int].flow_group == start[index as int].flow_group);
            }
            let state = self.slots[index].state;
            match state {
                FrameCommandRecorderState::Recording => {
                    proof {
                        assert(!submit_step_ok(*graph, start, order@, i as int));
                    }
                    return Err(
                        RenderGraphError::InvalidCommandRecorderUsage {
                            operation: "submit_finished_in_gpu_order",
                            reason: "cannot submit an unfinished command recorder",
                        },
                    );
                },
                FrameCommandRecorderState::Finished => {
                    proof {
                        assert(start[index as int].state == FrameCommandRecorderState::Finished);
                        assert(!seen.contains(flow_group));
                        assert(self.spec_slots()[index as int] == start[index as int]);
                    }
                    let queue = match self.slots[index].queue {
                        Some(q) => q,
                        None => {
                            proof {
                                assert(!submit_step_ok(*graph, start, order@, i as int));
                            }
                            return Err(
                                RenderGraphError::InvalidCommandRecorderUsage {
                                    operation: "submit_finished_in_gpu_order",
                                    reason: "finished command recorder is missing queue metadata",
                                },
                            )
                        },
                    };
                    let label = match &self.slots[index].label {
                        Some(l) => l.clone(),
                        None => {
                            proof {
                                assert(!submit_step_ok(*graph, start, order@, i as int));
                            }
                            return Err(
                                RenderGraphError::InvalidCommandRecorderUsage {
                                    operation: "submit_finished_in_gpu_order",
                                    reason: "finished command recorder is missing debug label",
                                },
                            )
                        },
                    };
                    self.slots[index].state = FrameCommandRecorderState::Submitted;
                    self.submissions.push(
                        FrameCommandSubmission {
                            slot: FrameCommandRecorderSlot::new(flow_group.get() as usize),
                            flow_group,
                            queue,
                            label,
                        },
                    );
                },
                _ => {
                    proof {
                        if start[index as int].state == FrameCommandRecorderState::Finished {
                            assert(seen.contains(flow_group));
                            let k = choose|k: int| 0 <= k < seen.len() && seen[k] == flow_group;
                            assert(submit_step_ok(*graph, start, order@, k));
                            assert(gpu_groups(*graph, order@)[k] is Some);
                            assert(all_groups[k] == flow_group);
                        }
                    }
                },
            }
            proof {
                assert(submit_step_ok(*graph, start, order@, i as int));
                assert forall|m: int| 0 <= m < i + 1 implies #[trigger] submit_step_ok(*graph, start, order@, m) by {}
            }
            proof {
                assert forall|j: int|
                    0 <= j < self.spec_slots().len() implies #[trigger] self.spec_slots()[j] == if start[j].state
                        == FrameCommandRecorderState::Finished && next.contains(RenderFlowGroup(j as u16)) {
                        FrameCommandRecorderSlotData { state: FrameCommandRecorderState::Submitted, ..start[j] }
                    } else {
                        start[j]
                    } by {
                    assert((j as u16) as int == j);
                    if j != index {
                        assert(RenderFlowGroup(j as u16) != flow_group);
                    } else {
                        assert(RenderFlowGroup(j as u16) == flow_group);
                    }
                }
            }
            i = i + 1;
        }
        proof {
            assert(all_groups.subrange(0, i as int) =~= all_groups);
        }
        let mut out: Vec<FrameCommandSubmission> = Vec::new();
        let mut k: usize = 0;
        while k < self.submissions.len()
            invariant
                k <= self.spec_submissions().len(),
                out@ == self.spec_submissions().subrange(0, k as int),
            decreases self.spec_submissions().len() - k,
        {
            let item = &self.submissions[k];
            out.push(
                FrameCommandSubmission {
                    slot: item.slot,
                    flow_group: item.flow_group,
                    queue: item.queue,
                    label: item.label.clone(),
                },
            );
            proof {
                assert(out@.last() == self.spec_submissions()[k as int]);
            }
            k = k + 1;
        }
        proof {
            assert(out@ =~= self.spec_submissions());
        }
        Ok(out)
    }
}

} // verus!
