//! Static render graph vocabulary.
use vstd::prelude::*;

use crate::ids::NodeGroupId;

verus! {

/// Render node kind.
///
/// `Stage` is the ordinary executable graph node. The other variants carry
/// graph-merge semantics.
#[derive(Clone, Copy, Debug, PartialEq, Eq, Structural, Hash)]
pub enum RenderNodeKind {
    Stage,
    Unique,
    SequenceBegin,
    SequenceEnd,
    Temporary,
}

impl Default for RenderNodeKind {
    fn default() -> (r: Self)
        ensures
            r == RenderNodeKind::Stage,
    {
        RenderNodeKind::Stage
    }
}

/// Helper kinds are construction-only nodes removed by graph finalization.
pub open spec fn spec_is_helper_kind(kind: RenderNodeKind) -> bool {
    kind is SequenceBegin || kind is SequenceEnd || kind is Temporary
}

/// Returns whether a node kind is a removable construction helper.
pub fn is_helper_kind(kind: RenderNodeKind) -> (r: bool)
    ensures
        r == spec_is_helper_kind(kind),
{
    match kind {
        RenderNodeKind::SequenceBegin | RenderNodeKind::SequenceEnd | RenderNodeKind::Temporary => true,
        _ => false,
    }
}

/// Structural role of a graph node.
///
/// This is independent from `RenderNodeKind`: group entry/exit anchors are
/// `Stage` nodes by kind but have explicit roles.
#[derive(Clone, Copy, Debug, PartialEq, Eq, Structural, Hash)]
pub enum RenderNodeRole {
    Normal,
    GroupEntry(NodeGroupId),
    GroupExit(NodeGroupId),
    CommandListGroup,
    LifecycleSystem,
}

impl Default for RenderNodeRole {
    fn default() -> (r: Self)
        ensures
            r == RenderNodeRole::Normal,
    {
        RenderNodeRole::Normal
    }
}

/// CPU or GPU dependency track.
#[derive(Clone, Copy, Debug, PartialEq, Eq, Structural, Hash)]
pub enum RenderNodeDependencyKind {
    Cpu,
    Gpu,
}

/// Number of dependency tracks.
pub const DEPENDENCY_KIND_COUNT: usize = 2usize;

impl RenderNodeDependencyKind {
    pub const COUNT: usize = 2usize;

    /// Spec-level compact index of a dependency track.
    pub open spec fn spec_index(self) -> int {
        match self {
            RenderNodeDependencyKind::Cpu => 0,
            RenderNodeDependencyKind::Gpu => 1,
        }
    }

    /// Both dependency tracks, CPU first.
    pub fn all() -> (r: [RenderNodeDependencyKind; 2])
        ensures
            r@ == seq![RenderNodeDependencyKind::Cpu, RenderNodeDependencyKind::Gpu],
    {
        [RenderNodeDependencyKind::Cpu, RenderNodeDependencyKind::Gpu]
    }

    /// Stable compact index for arrays that store one value per dependency kind.
    pub fn as_index(self) -> (r: usize)
        ensures
            r == self.spec_index(),
    {
        match self {
            RenderNodeDependencyKind::Cpu => 0,
            RenderNodeDependencyKind::Gpu => 1,
        }
    }

    /// Diagnostic name of the dependency track.
    pub fn name(self) -> (r: &'static str)
        ensures
            r@ == spec_dependency_kind_name(self),
    {
        match self {
            RenderNodeDependencyKind::Cpu => "CPU",
            RenderNodeDependencyKind::Gpu => "GPU",
        }
    }
}

/// Diagnostic name of a dependency track, as it appears in graph errors.
pub closed spec fn spec_dependency_kind_name(kind: RenderNodeDependencyKind) -> Seq<char> {
    match kind {
        RenderNodeDependencyKind::Cpu => "CPU"@,
        RenderNodeDependencyKind::Gpu => "GPU"@,
    }
}

/// How a node relates to command recording.
#[derive(Clone, Copy, Debug, PartialEq, Eq, Structural, Hash)]
pub enum RenderNodeCommandListUsage {
    NoCommandList,
    Require,
    Own,
    Sync,
}

impl Default for RenderNodeCommandListUsage {
    fn default() -> (r: Self)
        ensures
            r == RenderNodeCommandListUsage::NoCommandList,
    {
        RenderNodeCommandListUsage::NoCommandList
    }
}

impl RenderNodeCommandListUsage {
    /// Returns true for nodes that bind/use a normal command-list slot.
    pub fn uses_command_list(self) -> (r: bool)
        ensures
            r == (self is Require || self is Own),
    {
        match self {
            RenderNodeCommandListUsage::Require | RenderNodeCommandListUsage::Own => true,
            _ => false,
        }
    }

    /// Returns true when a node expects an existing command list from its owner.
    pub fn requires_command_list(self) -> (r: bool)
        ensures
            r == (self is Require),
    {
        match self {
            RenderNodeCommandListUsage::Require => true,
            _ => false,
        }
    }

    /// Returns true when a node creates/owns a command list for child work.
    pub fn owns_command_list(self) -> (r: bool)
        ensures
            r == (self is Own),
    {
        match self {
            RenderNodeCommandListUsage::Own => true,
            _ => false,
        }
    }

    /// Returns true for sync nodes handled by the graph runtime.
    pub fn is_sync(self) -> (r: bool)
        ensures
            r == (self is Sync),
    {
        match self {
            RenderNodeCommandListUsage::Sync => true,
            _ => false,
        }
    }
}

/// Stable subtype used for unique/sequence merge rules and diagnostics.
#[derive(Clone, Copy, Debug, PartialEq, Eq, Structural, Hash, PartialOrd, Ord)]
pub struct RenderNodeSubtype(pub u32);

impl RenderNodeSubtype {
    pub fn new(value: u32) -> (r: Self)
        ensures
            r.0 == value,
    {
        RenderNodeSubtype(value)
    }

    pub fn get(self) -> (r: u32)
        ensures
            r == self.0,
    {
        self.0
    }
}

impl Default for RenderNodeSubtype {
    fn default() -> (r: Self)
        ensures
            r.0 == 0,
    {
        RenderNodeSubtype(0)
    }
}

/// Human-readable node label used for diagnostics.
///
/// This is not graph identity. Graph identity comes from ids, kind, subtype,
/// role, and implementation/storage state.
#[derive(Clone, Debug, PartialEq, Eq, Hash)]
pub struct RenderNodeDebugName(pub String);

impl RenderNodeDebugName {
    pub fn new(name: &str) -> (r: Self)
        ensures
            r.0@ == name@,
    {
        RenderNodeDebugName(name.to_owned())
    }

    pub fn as_str(&self) -> (r: &str)
        ensures
            r@ == self.0@,
    {
        self.0.as_str()
    }
}

impl Default for RenderNodeDebugName {
    fn default() -> (r: Self)
        ensures
            r.0@ == Seq::<char>::empty(),
    {
        RenderNodeDebugName(String::new())
    }
}

} // verus!
