//! Typed ids used by render graph storage.
//!
//! Node, dependency, implementation, and group ids are separate newtypes so
//! APIs cannot accidentally accept a dependency id where a node id is required.
use vstd::prelude::*;

verus! {

/// Raw value reserved for invalid/null ids.
pub const INVALID_ID_RAW: u32 = 4294967295u32;

/// Id behavior required by graph storage.
pub trait GraphStorageId: Copy + Sized {
    /// The raw value carried by the id.
    spec fn id_raw(self) -> u32;

    /// The id that carries a raw value.
    spec fn id_of(raw: u32) -> Self;

    proof fn lemma_id_roundtrip(raw: u32, id: Self)
        ensures
            Self::id_of(raw).id_raw() == raw,
            Self::id_of(id.id_raw()) == id,
    ;

    fn from_index(index: u32) -> (r: Self)
        ensures
            r == Self::id_of(index),
    ;

    fn index(self) -> (r: Option<u32>)
        ensures
            r == (if self.id_raw() == INVALID_ID_RAW { None } else { Some(self.id_raw()) }),
    ;

    fn raw(self) -> (r: u32)
        ensures
            r == self.id_raw(),
    ;
}

/// Typed id for a render graph node.
#[derive(Clone, Copy, Debug, PartialEq, Eq, Structural, Hash, PartialOrd, Ord)]
pub struct RenderNodeId(pub u32);

impl View for RenderNodeId {
    type V = u32;

    open spec fn view(&self) -> u32 {
        self.0
    }
}

impl RenderNodeId {
    /// Raw value reserved for invalid/null ids.
    pub const INVALID_RAW: u32 = 4294967295u32;

    /// Invalid/null id sentinel.
    pub fn invalid() -> (r: Self)
        ensures
            r@ == INVALID_ID_RAW,
    {
        RenderNodeId(INVALID_ID_RAW)
    }

    /// Creates an id from a storage slot index.
    pub fn from_index(index: u32) -> (r: Self)
        ensures
            r@ == index,
    {
        RenderNodeId(index)
    }

    /// Creates an id from a raw value.
    pub fn from_raw(raw: u32) -> (r: Self)
        ensures
            r@ == raw,
    {
        RenderNodeId(raw)
    }

    /// Returns the raw id value.
    pub fn raw(self) -> (r: u32)
        ensures
            r == self@,
    {
        self.0
    }

    /// Returns the storage slot index, or `None` for the invalid id.
    pub fn index(self) -> (r: Option<u32>)
        ensures
            r == (if self@ == INVALID_ID_RAW { None } else { Some(self@) }),
    {
        if self.is_valid() {
            Some(self.0)
        } else {
            None
        }
    }

    /// Returns whether this id is not the invalid/null sentinel.
    pub fn is_valid(self) -> (r: bool)
        ensures
            r == (self@ != INVALID_ID_RAW),
    {
        self.0 != INVALID_ID_RAW
    }
}

impl Default for RenderNodeId {
    fn default() -> (r: Self)
        ensures
            r@ == INVALID_ID_RAW,
    {
        RenderNodeId(INVALID_ID_RAW)
    }
}

impl GraphStorageId for RenderNodeId {
    open spec fn id_raw(self) -> u32 {
        self.0
    }

    open spec fn id_of(raw: u32) -> Self {
        RenderNodeId(raw)
    }

    proof fn lemma_id_roundtrip(raw: u32, id: Self) {
    }

    fn from_index(index: u32) -> (r: Self) {
        RenderNodeId(index)
    }

    fn index(self) -> (r: Option<u32>) {
        RenderNodeId::index(self)
    }

    fn raw(self) -> (r: u32) {
        self.0
    }
}

/// Typed id for a render graph dependency.
#[derive(Clone, Copy, Debug, PartialEq, Eq, Structural, Hash, PartialOrd, Ord)]
pub struct RenderDependencyId(pub u32);

impl View for RenderDependencyId {
    type V = u32;

    open spec fn view(&self) -> u32 {
        self.0
    }
}

impl RenderDependencyId {
    /// Raw value reserved for invalid/null ids.
    pub const INVALID_RAW: u32 = 4294967295u32;

    /// Invalid/null id sentinel.
    pub fn invalid() -> (r: Self)
        ensures
            r@ == INVALID_ID_RAW,
    {
        RenderDependencyId(INVALID_ID_RAW)
    }

    /// Creates an id from a storage slot index.
    pub fn from_index(index: u32) -> (r: Self)
        ensures
            r@ == index,
    {
        RenderDependencyId(index)
    }

    /// Creates an id from a raw value.
    pub fn from_raw(raw: u32) -> (r: Self)
        ensures
            r@ == raw,
    {
        RenderDependencyId(raw)
    }

    /// Returns the raw id value.
    pub fn raw(self) -> (r: u32)
        ensures
            r == self@,
    {
        self.0
    }

    /// Returns the storage slot index, or `None` for the invalid id.
    pub fn index(self) -> (r: Option<u32>)
        ensures
            r == (if self@ == INVALID_ID_RAW { None } else { Some(self@) }),
    {
        if self.is_valid() {
            Some(self.0)
        } else {
            None
        }
    }

    /// Returns whether this id is not the invalid/null sentinel.
    pub fn is_valid(self) -> (r: bool)
        ensures
            r == (self@ != INVALID_ID_RAW),
    {
        self.0 != INVALID_ID_RAW
    }
}

impl Default for RenderDependencyId {
    fn default() -> (r: Self)
        ensures
            r@ == INVALID_ID_RAW,
    {
        RenderDependencyId(INVALID_ID_RAW)
    }
}

impl GraphStorageId for RenderDependencyId {
    open spec fn id_raw(self) -> u32 {
        self.0
    }

    open spec fn id_of(raw: u32) -> Self {
        RenderDependencyId(raw)
    }

    proof fn lemma_id_roundtrip(raw: u32, id: Self) {
    }

    fn from_index(index: u32) -> (r: Self) {
        RenderDependencyId(index)
    }

    fn index(self) -> (r: Option<u32>) {
        RenderDependencyId::index(self)
    }

    fn raw(self) -> (r: u32) {
        self.0
    }
}

/// Typed id for a render graph node implementation.
#[derive(Clone, Copy, Debug, PartialEq, Eq, Structural, Hash, PartialOrd, Ord)]
pub struct RenderNodeImplId(pub u32);

impl View for RenderNodeImplId {
    type V = u32;

    open spec fn view(&self) -> u32 {
        self.0
    }
}

impl RenderNodeImplId {
    /// Raw value reserved for invalid/null ids.
    pub const INVALID_RAW: u32 = 4294967295u32;

    /// Invalid/null id sentinel.
    pub fn invalid() -> (r: Self)
        ensures
            r@ == INVALID_ID_RAW,
    {
        RenderNodeImplId(INVALID_ID_RAW)
    }

    /// Creates an id from a storage slot index.
    pub fn from_index(index: u32) -> (r: Self)
        ensures
            r@ == index,
    {
        RenderNodeImplId(index)
    }

    /// Creates an id from a raw value.
    pub fn from_raw(raw: u32) -> (r: Self)
        ensures
            r@ == raw,
    {
        RenderNodeImplId(raw)
    }

    /// Returns the raw id value.
    pub fn raw(self) -> (r: u32)
        ensures
            r == self@,
    {
        self.0
    }

    /// Returns the storage slot index, or `None` for the invalid id.
    pub fn index(self) -> (r: Option<u32>)
        ensures
            r == (if self@ == INVALID_ID_RAW { None } else { Some(self@) }),
    {
        if self.is_valid() {
            Some(self.0)
        } else {
            None
        }
    }

    /// Returns whether this id is not the invalid/null sentinel.
    pub fn is_valid(self) -> (r: bool)
        ensures
            r == (self@ != INVALID_ID_RAW),
    {
        self.0 != INVALID_ID_RAW
    }
}

impl Default for RenderNodeImplId {
    fn default() -> (r: Self)
        ensures
            r@ == INVALID_ID_RAW,
    {
        RenderNodeImplId(INVALID_ID_RAW)
    }
}

impl GraphStorageId for RenderNodeImplId {
    open spec fn id_raw(self) -> u32 {
        self.0
    }

    open spec fn id_of(raw: u32) -> Self {
        RenderNodeImplId(raw)
    }

    proof fn lemma_id_roundtrip(raw: u32, id: Self) {
    }

    fn from_index(index: u32) -> (r: Self) {
        RenderNodeImplId(index)
    }

    fn index(self) -> (r: Option<u32>) {
        RenderNodeImplId::index(self)
    }

    fn raw(self) -> (r: u32) {
        self.0
    }
}

/// Typed id for a render graph node group.
#[derive(Clone, Copy, Debug, PartialEq, Eq, Structural, Hash, PartialOrd, Ord)]
pub struct NodeGroupId(pub u32);

impl View for NodeGroupId {
    type V = u32;

    open spec fn view(&self) -> u32 {
        self.0
    }
}

impl NodeGroupId {
    /// Raw value reserved for invalid/null ids.
    pub const INVALID_RAW: u32 = 4294967295u32;

    /// Invalid/null id sentinel.
    pub fn invalid() -> (r: Self)
        ensures
            r@ == INVALID_ID_RAW,
    {
        NodeGroupId(INVALID_ID_RAW)
    }

    /// Creates an id from a storage slot index.
    pub fn from_index(index: u32) -> (r: Self)
        ensures
            r@ == index,
    {
        NodeGroupId(index)
    }

    /// Creates an id from a raw value.
    pub fn from_raw(raw: u32) -> (r: Self)
        ensures
            r@ == raw,
    {
        NodeGroupId(raw)
    }

    /// Returns the raw id value.
    pub fn raw(self) -> (r: u32)
        ensures
            r == self@,
    {
        self.0
    }

    /// Returns the storage slot index, or `None` for the invalid id.
    pub fn index(self) -> (r: Option<u32>)
        ensures
            r == (if self@ == INVALID_ID_RAW { None } else { Some(self@) }),
    {
        if self.is_valid() {
            Some(self.0)
        } else {
            None
        }
    }

    /// Returns whether this id is not the invalid/null sentinel.
    pub fn is_valid(self) -> (r: bool)
        ensures
            r == (self@ != INVALID_ID_RAW),
    {
        self.0 != INVALID_ID_RAW
    }
}

impl Default for NodeGroupId {
    fn default() -> (r: Self)
        ensures
            r@ == INVALID_ID_RAW,
    {
        NodeGroupId(INVALID_ID_RAW)
    }
}

impl GraphStorageId for NodeGroupId {
    open spec fn id_raw(self) -> u32 {
        self.0
    }

    open spec fn id_of(raw: u32) -> Self {
        NodeGroupId(raw)
    }

    proof fn lemma_id_roundtrip(raw: u32, id: Self) {
    }

    fn from_index(index: u32) -> (r: Self) {
        NodeGroupId(index)
    }

    fn index(self) -> (r: Option<u32>) {
        NodeGroupId::index(self)
    }

    fn raw(self) -> (r: u32) {
        self.0
    }
}

} // verus!
