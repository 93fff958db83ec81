//! Small tag types for render-flow ordering and resource request streams.
use vstd::prelude::*;

verus! {

/// Render-flow group: the position of a node in a flattened execution order.
#[derive(Clone, Copy, Debug, PartialEq, Eq, Structural, Hash, PartialOrd, Ord)]
pub struct RenderFlowGroup(pub u16);

impl RenderFlowGroup {
    pub fn new(index: u16) -> (r: Self)
        ensures
            r.0 == index,
    {
        RenderFlowGroup(index)
    }

    pub fn get(self) -> (r: u16)
        ensures
            r == self.0,
    {
        self.0
    }
}

/// Render-flow space: the logical resource-name scope of a camera or of shared nodes.
#[derive(Clone, Copy, Debug, PartialEq, Eq, Structural, Hash, PartialOrd, Ord)]
pub struct RenderFlowSpace(pub u8);

/// Raw value of the shared (non-camera) render-flow space.
pub const SHARED_FLOW_SPACE_RAW: u8 = 255u8;

impl RenderFlowSpace {
    pub fn new(index: u8) -> (r: Self)
        ensures
            r.0 == index,
    {
        RenderFlowSpace(index)
    }

    /// The shared render-flow space used by unique/global nodes.
    pub fn shared() -> (r: Self)
        ensures
            r.0 == SHARED_FLOW_SPACE_RAW,
    {
        RenderFlowSpace(SHARED_FLOW_SPACE_RAW)
    }

    pub fn get(self) -> (r: u8)
        ensures
            r == self.0,
    {
        self.0
    }
}

/// Id of one request inside a request group.
#[derive(Clone, Copy, Debug, PartialEq, Eq, Structural, Hash, PartialOrd, Ord)]
pub struct ResourceRequestId(pub u32);

impl ResourceRequestId {
    pub fn new(index: u32) -> (r: Self)
        ensures
            r.0 == index,
    {
        ResourceRequestId(index)
    }

    pub fn get(self) -> (r: u32)
        ensures
            r == self.0,
    {
        self.0
    }
}

/// Id of an allocation request produced by lifetime solving.
#[derive(Clone, Copy, Debug, PartialEq, Eq, Structural, Hash, PartialOrd, Ord)]
pub struct AllocationRequestId(pub u32);

impl AllocationRequestId {
    pub fn new(index: u32) -> (r: Self)
        ensures
            r.0 == index,
    {
        AllocationRequestId(index)
    }

    pub fn get(self) -> (r: u32)
        ensures
            r == self.0,
    {
        self.0
    }
}

/// Id of a concrete frame resource allocation held by the pool.
#[derive(Clone, Copy, Debug, PartialEq, Eq, Structural, Hash, PartialOrd, Ord)]
pub struct FrameResourceAllocationId(pub u32);

impl FrameResourceAllocationId {
    pub fn new(index: u32) -> (r: Self)
        ensures
            r.0 == index,
    {
        FrameResourceAllocationId(index)
    }

    pub fn get(self) -> (r: u32)
        ensures
            r == self.0,
    {
        self.0
    }
}

/// Global position of a request in the frame request stream.
#[derive(Clone, Copy, Debug, PartialEq, Eq, Structural, Hash, PartialOrd, Ord)]
pub struct RequestTime(pub u64);

impl RequestTime {
    /// The time of request `index` of flow group `flow_group`; times order by
    /// flow group first, then by index.
    pub fn new(flow_group: RenderFlowGroup, index: u32) -> (r: Self)
        ensures
            r.0 == flow_group.0 * 0x1_0000_0000 + index,
    {
        RequestTime((flow_group.0 as u64) * 0x1_0000_0000u64 + (index as u64))
    }

    /// The flow group of the time.
    pub fn flow_group(self) -> (r: RenderFlowGroup)
        ensures
            r.0 == (self.0 / 0x1_0000_0000) as u16,
    {
        RenderFlowGroup((self.0 / 0x1_0000_0000u64) as u16)
    }

    /// The position of the request inside its flow group.
    pub fn index(self) -> (r: u32)
        ensures
            r == self.0 % 0x1_0000_0000,
    {
        (self.0 % 0x1_0000_0000u64) as u32
    }

    pub fn get(self) -> (r: u64)
        ensures
            r == self.0,
    {
        self.0
    }
}

/// Interned name of a render-flow resource, scoped to a render-flow space.
#[derive(Clone, Copy, Debug, PartialEq, Eq, Structural, Hash, PartialOrd, Ord)]
pub struct RenderFlowNameTag(pub u64);

impl RenderFlowNameTag {
    /// The tag that names no resource; its raw value is zero.
    pub fn invalid() -> (r: Self)
        ensures
            r.0 == 0,
    {
        RenderFlowNameTag(0)
    }

    /// Whether the tag names a resource.
    pub fn is_valid(self) -> (r: bool)
        ensures
            r == (self.0 != 0),
    {
        self.0 != 0
    }

    pub fn new(raw: u64) -> (r: Self)
        ensures
            r.0 == raw,
    {
        RenderFlowNameTag(raw)
    }

    pub fn get(self) -> (r: u64)
        ensures
            r == self.0,
    {
        self.0
    }
}

} // verus!
