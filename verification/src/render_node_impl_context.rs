//! Per-node setup data copied into node implementation contexts.
use vstd::prelude::*;

use crate::tags::{RenderFlowGroup, RenderFlowSpace, SHARED_FLOW_SPACE_RAW};

verus! {

/// Camera access permission granted by the node context.
#[derive(Clone, Copy, Debug, PartialEq, Eq, Structural)]
pub enum RenderCameraAccess {
    Current { camera_index: u32 },
    Indexed { camera_index: u32 },
    All,
}

/// Node scoping mode used to choose render-flow tag scope.
#[derive(Clone, Copy, Debug, PartialEq, Eq, Structural)]
pub enum RenderNodeImplKind {
    /// A unique/global node; ordinary names resolve in shared flow space.
    Unique,
    /// A camera/view node; ordinary names resolve in the assigned flow space.
    Camera,
}

/// Immutable per-node setup copied into a node implementation context.
///
/// `flow_group` orders resource requests; `flow_space` scopes resource names.
#[derive(Clone, Copy, Debug, PartialEq, Eq, Structural)]
pub struct RenderNodeImplContextInit {
    pub flow_group: RenderFlowGroup,
    pub flow_space: RenderFlowSpace,
    pub camera_index: Option<u32>,
    pub node_kind: RenderNodeImplKind,
    pub dispatcher_thread_index: u32,
}

impl RenderNodeImplContextInit {
    /// Init data for a unique/global node.
    pub open spec fn spec_unique_node(flow_group: RenderFlowGroup) -> Self {
        RenderNodeImplContextInit {
            flow_group,
            flow_space: RenderFlowSpace(SHARED_FLOW_SPACE_RAW),
            camera_index: None,
            node_kind: RenderNodeImplKind::Unique,
            dispatcher_thread_index: u32::MAX,
        }
    }

    /// Init data for a camera node in `flow_space`.
    pub open spec fn spec_camera_node(flow_group: RenderFlowGroup, flow_space: RenderFlowSpace) -> Self {
        RenderNodeImplContextInit {
            flow_group,
            flow_space,
            camera_index: Some(flow_space.0 as u32),
            node_kind: RenderNodeImplKind::Camera,
            dispatcher_thread_index: u32::MAX,
        }
    }

    /// Init data for a unique/global node: shared flow space, no camera, no thread yet.
    pub fn unique_node(flow_group: RenderFlowGroup) -> (r: Self)
        ensures
            r == (RenderNodeImplContextInit {
                flow_group,
                flow_space: RenderFlowSpace(SHARED_FLOW_SPACE_RAW),
                camera_index: None,
                node_kind: RenderNodeImplKind::Unique,
                dispatcher_thread_index: u32::MAX,
            }),
    {
        RenderNodeImplContextInit {
            flow_group,
            flow_space: RenderFlowSpace::shared(),
            camera_index: None,
            node_kind: RenderNodeImplKind::Unique,
            dispatcher_thread_index: u32::MAX,
        }
    }

    /// Init data for a camera node whose camera index is its flow space index.
    pub fn camera_node(flow_group: RenderFlowGroup, flow_space: RenderFlowSpace) -> (r: Self)
        ensures
            r == (RenderNodeImplContextInit {
                flow_group,
                flow_space,
                camera_index: Some(flow_space.0 as u32),
                node_kind: RenderNodeImplKind::Camera,
                dispatcher_thread_index: u32::MAX,
            }),
    {
        RenderNodeImplContextInit {
            flow_group,
            flow_space,
            camera_index: Some(flow_space.get() as u32),
            node_kind: RenderNodeImplKind::Camera,
            dispatcher_thread_index: u32::MAX,
        }
    }

    /// Init data for a camera node with an explicit camera index.
    pub fn camera_node_with_index(flow_group: RenderFlowGroup, flow_space: RenderFlowSpace, camera_index: u32) -> (r:
        Self)
        ensures
            r == (RenderNodeImplContextInit {
                flow_group,
                flow_space,
                camera_index: Some(camera_index),
                node_kind: RenderNodeImplKind::Camera,
                dispatcher_thread_index: u32::MAX,
            }),
    {
        RenderNodeImplContextInit {
            flow_group,
            flow_space,
            camera_index: Some(camera_index),
            node_kind: RenderNodeImplKind::Camera,
            dispatcher_thread_index: u32::MAX,
        }
    }

    /// The same init data carrying the given dispatcher thread index.
    pub fn with_dispatcher_thread_index(self, dispatcher_thread_index: u32) -> (r: Self)
        ensures
            r == (RenderNodeImplContextInit { dispatcher_thread_index, ..self }),
    {
        RenderNodeImplContextInit { dispatcher_thread_index, ..self }
    }

    pub fn flow_group(self) -> (r: RenderFlowGroup)
        ensures
            r == self.flow_group,
    {
        self.flow_group
    }

    pub fn flow_space(self) -> (r: RenderFlowSpace)
        ensures
            r == self.flow_space,
    {
        self.flow_space
    }

    pub fn camera_index(self) -> (r: Option<u32>)
        ensures
            r == self.camera_index,
    {
        self.camera_index
    }

    pub fn node_kind(self) -> (r: RenderNodeImplKind)
        ensures
            r == self.node_kind,
    {
        self.node_kind
    }

    pub fn dispatcher_thread_index(self) -> (r: u32)
        ensures
            r == self.dispatcher_thread_index,
    {
        self.dispatcher_thread_index
    }
}

} // verus!
