//! Stored node topology data.
use vstd::prelude::*;

use crate::ids::{NodeGroupId, RenderDependencyId, RenderNodeId, RenderNodeImplId};
use crate::metadata::{
    RenderNodeDebugName, RenderNodeDependencyKind, RenderNodeKind, RenderNodeRole,
    RenderNodeSubtype,
};
use crate::tags::RenderFlowGroup;

verus! {

/// Static identity for a graph node.
#[derive(Clone, Debug, PartialEq, Eq)]
pub struct RenderNodeParameters {
    pub kind: RenderNodeKind,
    pub role: RenderNodeRole,
    pub subtype: RenderNodeSubtype,
    pub impl_id: Option<RenderNodeImplId>,
    pub debug_name: RenderNodeDebugName,
}

impl RenderNodeParameters {
    pub fn new(
        kind: RenderNodeKind,
        role: RenderNodeRole,
        subtype: RenderNodeSubtype,
        impl_id: Option<RenderNodeImplId>,
        debug_name: RenderNodeDebugName,
    ) -> (r: Self)
        ensures
            r == (RenderNodeParameters { kind, role, subtype, impl_id, debug_name }),
    {
        RenderNodeParameters { kind, role, subtype, impl_id, debug_name }
    }

    /// Parameters of an ordinary stage node without an implementation.
    pub fn stage(debug_name: &str) -> (r: Self)
        ensures
            r.kind == RenderNodeKind::Stage,
            r.role == RenderNodeRole::Normal,
            r.subtype.0 == 0,
            r.impl_id is None,
            r.debug_name.0@ == debug_name@,
    {
        RenderNodeParameters {
            kind: RenderNodeKind::Stage,
            role: RenderNodeRole::Normal,
            subtype: RenderNodeSubtype(0),
            impl_id: None,
            debug_name: RenderNodeDebugName::new(debug_name),
        }
    }
}

impl Default for RenderNodeParameters {
    fn default() -> (r: Self)
        ensures
            r.kind == RenderNodeKind::Stage,
            r.role == RenderNodeRole::Normal,
            r.subtype.0 == 0,
            r.impl_id is None,
            r.debug_name.0@ == Seq::<char>::empty(),
    {
        RenderNodeParameters {
            kind: RenderNodeKind::Stage,
            role: RenderNodeRole::Normal,
            subtype: RenderNodeSubtype(0),
            impl_id: None,
            debug_name: RenderNodeDebugName::default(),
        }
    }
}

/// Graph-owned per-node execution metadata.
#[derive(Clone, Copy, Debug, PartialEq, Eq, Structural)]
pub struct RenderNodeExecutionMetadata {
    pub camera_index: Option<u32>,
    pub group_id: Option<NodeGroupId>,
    pub cpu_flow_group: Option<RenderFlowGroup>,
    pub gpu_flow_group: Option<RenderFlowGroup>,
}

impl RenderNodeExecutionMetadata {
    /// The flow group stored for a dependency track.
    pub closed spec fn spec_flow_group(self, kind: RenderNodeDependencyKind) -> Option<RenderFlowGroup> {
        match kind {
            RenderNodeDependencyKind::Cpu => self.cpu_flow_group,
            RenderNodeDependencyKind::Gpu => self.gpu_flow_group,
        }
    }

    pub fn new(camera_index: Option<u32>, group_id: Option<NodeGroupId>) -> (r: Self)
        ensures
            r.camera_index == camera_index,
            r.group_id == group_id,
            r.spec_flow_group(RenderNodeDependencyKind::Cpu) is None,
            r.spec_flow_group(RenderNodeDependencyKind::Gpu) is None,
    {
        RenderNodeExecutionMetadata { camera_index, group_id, cpu_flow_group: None, gpu_flow_group: None }
    }

    pub fn flow_group(self, kind: RenderNodeDependencyKind) -> (r: Option<RenderFlowGroup>)
        ensures
            r == self.spec_flow_group(kind),
    {
        match kind {
            RenderNodeDependencyKind::Cpu => self.cpu_flow_group,
            RenderNodeDependencyKind::Gpu => self.gpu_flow_group,
        }
    }

    pub fn set_flow_group(&mut self, kind: RenderNodeDependencyKind, flow_group: RenderFlowGroup)
        ensures
            final(self).camera_index == old(self).camera_index,
            final(self).group_id == old(self).group_id,
            final(self).spec_flow_group(kind) == Some(flow_group),
            forall|other: RenderNodeDependencyKind|
                other != kind ==> final(self).spec_flow_group(other) == old(self).spec_flow_group(other),
    {
        match kind {
            RenderNodeDependencyKind::Cpu => self.cpu_flow_group = Some(flow_group),
            RenderNodeDependencyKind::Gpu => self.gpu_flow_group = Some(flow_group),
        }
    }

    pub fn clear_flow_groups(&mut self)
        ensures
            *final(self) == (RenderNodeExecutionMetadata { cpu_flow_group: None, gpu_flow_group: None, ..*old(self) }),
            final(self).camera_index == old(self).camera_index,
            final(self).group_id == old(self).group_id,
            forall|kind: RenderNodeDependencyKind| final(self).spec_flow_group(kind) is None,
    {
        self.cpu_flow_group = None;
        self.gpu_flow_group = None;
    }
}

impl Default for RenderNodeExecutionMetadata {
    fn default() -> (r: Self)
        ensures
            r.camera_index is None,
            r.group_id is None,
            forall|kind: RenderNodeDependencyKind| r.spec_flow_group(kind) is None,
    {
        RenderNodeExecutionMetadata::new(None, None)
    }
}

/// Stored graph node topology entry.
#[derive(Clone, Debug, PartialEq, Eq)]
pub struct RenderNodeData {
    pub params: RenderNodeParameters,
    pub metadata: RenderNodeExecutionMetadata,
    pub first_parent_cpu: Option<RenderDependencyId>,
    pub first_parent_gpu: Option<RenderDependencyId>,
    pub first_child_cpu: Option<RenderDependencyId>,
    pub first_child_gpu: Option<RenderDependencyId>,
}

impl RenderNodeData {
    /// Head of the list of dependencies in which this node is the child.
    /// Replacing the execution metadata keeps the dependency heads.
    pub proof fn lemma_heads_ignore_metadata(data: RenderNodeData, metadata: RenderNodeExecutionMetadata, kind: RenderNodeDependencyKind)
        ensures
            (RenderNodeData { metadata, ..data }).spec_first_parent(kind) == data.spec_first_parent(kind),
            (RenderNodeData { metadata, ..data }).spec_first_child(kind) == data.spec_first_child(kind),
    {
    }

    pub closed spec fn spec_first_parent(self, kind: RenderNodeDependencyKind) -> Option<RenderDependencyId> {
        match kind {
            RenderNodeDependencyKind::Cpu => self.first_parent_cpu,
            RenderNodeDependencyKind::Gpu => self.first_parent_gpu,
        }
    }

    /// Head of the list of dependencies in which this node is the parent.
    pub closed spec fn spec_first_child(self, kind: RenderNodeDependencyKind) -> Option<RenderDependencyId> {
        match kind {
            RenderNodeDependencyKind::Cpu => self.first_child_cpu,
            RenderNodeDependencyKind::Gpu => self.first_child_gpu,
        }
    }

    /// Whether every dependency head is empty.
    pub open spec fn spec_heads_empty(self) -> bool {
        forall|kind: RenderNodeDependencyKind|
            self.spec_first_parent(kind) is None && self.spec_first_child(kind) is None
    }

    pub fn new(params: RenderNodeParameters, metadata: RenderNodeExecutionMetadata) -> (r: Self)
        ensures
            r.params == params,
            r.metadata == metadata,
            r.spec_heads_empty(),
    {
        RenderNodeData {
            params,
            metadata,
            first_parent_cpu: None,
            first_parent_gpu: None,
            first_child_cpu: None,
            first_child_gpu: None,
        }
    }

    pub fn first_parent_dependency(&self, kind: RenderNodeDependencyKind) -> (r: Option<RenderDependencyId>)
        ensures
            r == self.spec_first_parent(kind),
    {
        match kind {
            RenderNodeDependencyKind::Cpu => self.first_parent_cpu,
            RenderNodeDependencyKind::Gpu => self.first_parent_gpu,
        }
    }

    pub fn set_first_parent_dependency(
        &mut self,
        kind: RenderNodeDependencyKind,
        dependency: Option<RenderDependencyId>,
    )
        ensures
            final(self).params == old(self).params,
            final(self).metadata == old(self).metadata,
            final(self).spec_first_parent(kind) == dependency,
            forall|k: RenderNodeDependencyKind|
                #![trigger final(self).spec_first_parent(k)]
                k != kind ==> final(self).spec_first_parent(k) == old(self).spec_first_parent(k),
            forall|k: RenderNodeDependencyKind|
                #![trigger final(self).spec_first_child(k)]
                final(self).spec_first_child(k) == old(self).spec_first_child(k),
    {
        match kind {
            RenderNodeDependencyKind::Cpu => self.first_parent_cpu = dependency,
            RenderNodeDependencyKind::Gpu => self.first_parent_gpu = dependency,
        }
    }

    pub fn first_child_dependency(&self, kind: RenderNodeDependencyKind) -> (r: Option<RenderDependencyId>)
        ensures
            r == self.spec_first_child(kind),
    {
        match kind {
            RenderNodeDependencyKind::Cpu => self.first_child_cpu,
            RenderNodeDependencyKind::Gpu => self.first_child_gpu,
        }
    }

    pub fn set_first_child_dependency(
        &mut self,
        kind: RenderNodeDependencyKind,
        dependency: Option<RenderDependencyId>,
    )
        ensures
            final(self).params == old(self).params,
            final(self).metadata == old(self).metadata,
            final(self).spec_first_child(kind) == dependency,
            forall|k: RenderNodeDependencyKind|
                #![trigger final(self).spec_first_child(k)]
                k != kind ==> final(self).spec_first_child(k) == old(self).spec_first_child(k),
            forall|k: RenderNodeDependencyKind|
                #![trigger final(self).spec_first_parent(k)]
                final(self).spec_first_parent(k) == old(self).spec_first_parent(k),
    {
        match kind {
            RenderNodeDependencyKind::Cpu => self.first_child_cpu = dependency,
            RenderNodeDependencyKind::Gpu => self.first_child_gpu = dependency,
        }
    }

    pub fn clear_dependency_heads(&mut self)
        ensures
            final(self).params == old(self).params,
            final(self).metadata == old(self).metadata,
            final(self).spec_heads_empty(),
    {
        self.first_parent_cpu = None;
        self.first_parent_gpu = None;
        self.first_child_cpu = None;
        self.first_child_gpu = None;
    }
}

impl Default for RenderNodeData {
    fn default() -> (r: Self)
        ensures
            r.params.kind == RenderNodeKind::Stage,
            r.params.role == RenderNodeRole::Normal,
            r.params.subtype.0 == 0,
            r.params.impl_id is None,
            r.metadata.camera_index is None,
            r.metadata.group_id is None,
            forall|kind: RenderNodeDependencyKind| r.metadata.spec_flow_group(kind) is None,
            r.spec_heads_empty(),
    {
        RenderNodeData::new(RenderNodeParameters::default(), RenderNodeExecutionMetadata::default())
    }
}

/// Stored dependency edge topology entry.
#[derive(Clone, Copy, Debug, PartialEq, Eq, Structural)]
pub struct RenderDependencyData {
    pub kind: RenderNodeDependencyKind,
    pub parent: RenderNodeId,
    pub child: RenderNodeId,
    pub next_from_parent: Option<RenderDependencyId>,
    pub next_from_child: Option<RenderDependencyId>,
}

impl RenderDependencyData {
    pub fn new(kind: RenderNodeDependencyKind, parent: RenderNodeId, child: RenderNodeId) -> (r: Self)
        ensures
            r == (RenderDependencyData {
                kind,
                parent,
                child,
                next_from_parent: None,
                next_from_child: None,
            }),
    {
        RenderDependencyData { kind, parent, child, next_from_parent: None, next_from_child: None }
    }
}

/// Read-only view over graph node topology data.
#[derive(Clone, Copy, Debug)]
pub struct RenderNodeView<'a> {
    pub id: RenderNodeId,
    pub data: &'a RenderNodeData,
}

impl<'a> RenderNodeView<'a> {
    /// The viewed node id.
    pub closed spec fn spec_id(self) -> RenderNodeId {
        self.id
    }

    /// The viewed node data.
    pub closed spec fn spec_data(self) -> RenderNodeData {
        *self.data
    }

    pub fn new(id: RenderNodeId, data: &'a RenderNodeData) -> (r: Self)
        ensures
            r.spec_id() == id,
            r.spec_data() == *data,
    {
        RenderNodeView { id, data }
    }

    pub fn id(self) -> (r: RenderNodeId)
        ensures
            r == self.spec_id(),
    {
        self.id
    }

    pub fn params(self) -> (r: &'a RenderNodeParameters)
        ensures
            *r == self.spec_data().params,
    {
        &self.data.params
    }

    pub fn metadata(self) -> (r: RenderNodeExecutionMetadata)
        ensures
            r == self.spec_data().metadata,
    {
        self.data.metadata
    }

    pub fn kind(self) -> (r: RenderNodeKind)
        ensures
            r == self.spec_data().params.kind,
    {
        self.data.params.kind
    }

    pub fn role(self) -> (r: RenderNodeRole)
        ensures
            r == self.spec_data().params.role,
    {
        self.data.params.role
    }

    pub fn subtype(self) -> (r: RenderNodeSubtype)
        ensures
            r == self.spec_data().params.subtype,
    {
        self.data.params.subtype
    }

    pub fn impl_id(self) -> (r: Option<RenderNodeImplId>)
        ensures
            r == self.spec_data().params.impl_id,
    {
        self.data.params.impl_id
    }

    pub fn debug_name(self) -> (r: &'a RenderNodeDebugName)
        ensures
            *r == self.spec_data().params.debug_name,
    {
        &self.data.params.debug_name
    }

    pub fn first_parent_dependency(self, kind: RenderNodeDependencyKind) -> (r: Option<RenderDependencyId>)
        ensures
            r == self.spec_data().spec_first_parent(kind),
    {
        self.data.first_parent_dependency(kind)
    }

    pub fn first_child_dependency(self, kind: RenderNodeDependencyKind) -> (r: Option<RenderDependencyId>)
        ensures
            r == self.spec_data().spec_first_child(kind),
    {
        self.data.first_child_dependency(kind)
    }
}

} // verus!
