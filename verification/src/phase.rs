//! Allocator phases.
use vstd::prelude::*;

verus! {

#[derive(Clone, Copy, Debug, PartialEq, Eq, Hash, Structural)]
pub enum ResourceAllocatorPhase {
    Startup,
    PreConsume,
    Resolve,
    Consume,
    Cleanup,
}

impl ResourceAllocatorPhase {
    pub fn is_consume(self) -> (r: bool)
        ensures
            r == (self == ResourceAllocatorPhase::Consume),
    {
        matches!(self, ResourceAllocatorPhase::Consume)
    }
}

} // verus!
