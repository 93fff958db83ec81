//! Global binding slot masks of node implementations.
use vstd::prelude::*;

use crate::allocator::FrameResourceAllocator;
use crate::error::{RenderGraphError, RenderGraphResult};
use crate::ids::RenderNodeImplId;
use crate::metadata::RenderNodeCommandListUsage;
use crate::render_node_impl_context::RenderNodeImplContextInit;
use crate::storage::GraphStorage;

verus! {

/// Whether slot `slot` is set in `bits`; slots past the mask width are never set.
pub open spec fn mask_has_slot(bits: u64, slot: u8) -> bool {
    slot < 64 && bits & (1u64 << slot) != 0
}

/// Bit mask of global binding slots modified by a node implementation.
#[derive(Clone, Copy, Debug, PartialEq, Eq, Hash, Structural)]
pub struct RenderGlobalBindingMask(pub u64);

impl RenderGlobalBindingMask {
    pub fn empty() -> (r: Self)
        ensures
            r.0 == 0,
    {
        RenderGlobalBindingMask(0)
    }

    pub fn from_bits(bits: u64) -> (r: Self)
        ensures
            r.0 == bits,
    {
        RenderGlobalBindingMask(bits)
    }

    pub fn bits(self) -> (r: u64)
        ensures
            r == self.0,
    {
        self.0
    }

    pub fn is_empty(self) -> (r: bool)
        ensures
            r == (self.0 == 0),
    {
        self.0 == 0
    }

    /// Whether the slot is set; slots 64 and above are never set.
    pub fn contains_slot(self, slot: u8) -> (r: bool)
        ensures
            r == mask_has_slot(self.0, slot),
    {
        if slot >= 64 {
            false
        } else {
            (self.0 & (1u64 << slot)) != 0
        }
    }

    /// Sets one slot; slots 64 and above are refused and leave the mask unchanged.
    pub fn insert_slot(&mut self, slot: u8) -> (r: RenderGraphResult<()>)
        ensures
            slot >= 64 ==> r == Err::<(), RenderGraphError>(
                RenderGraphError::InvalidState { reason: "global binding slot index exceeded u64 mask range" },
            ) && *final(self) == *old(self),
            slot < 64 ==> r is Ok && final(self).0 == old(self).0 | (1u64 << slot),
    {
        if slot >= 64 {
            return Err(RenderGraphError::InvalidState { reason: "global binding slot index exceeded u64 mask range" });
        }
        self.0 = self.0 | (1u64 << slot);
        Ok(())
    }

    /// The slots set in either mask.
    pub fn union(self, other: Self) -> (r: Self)
        ensures
            r.0 == self.0 | other.0,
    {
        RenderGlobalBindingMask(self.0 | other.0)
    }
}

impl Default for RenderGlobalBindingMask {
    fn default() -> (r: Self)
        ensures
            r.0 == 0,
    {
        RenderGlobalBindingMask(0)
    }
}

/// After inserting slot `slot` (below 64) into `bits`, slot `other` is set exactly
/// when it was set before or is the inserted slot.
pub proof fn lemma_insert_slot_sets_exactly(bits: u64, slot: u8, other: u8)
    requires
        slot < 64,
    ensures
        mask_has_slot(bits | (1u64 << slot), other) == (mask_has_slot(bits, other) || other == slot),
{
    if other < 64 {
        assert((bits | (1u64 << slot)) & (1u64 << other) != 0 <==> (bits & (1u64 << other) != 0 || other == slot))
            by (bit_vector)
            requires
                slot < 64,
                other < 64,
        ;
    }
}

/// A slot is set in a union exactly when it is set in one of the operands.
pub proof fn lemma_union_slots(a: u64, b: u64, slot: u8)
    ensures
        mask_has_slot(a | b, slot) == (mask_has_slot(a, slot) || mask_has_slot(b, slot)),
{
    if slot < 64 {
        assert((a | b) & (1u64 << slot) != 0 <==> (a & (1u64 << slot) != 0 || b & (1u64 << slot) != 0))
            by (bit_vector)
            requires
                slot < 64,
        ;
    }
}

/// A render node implementation, written by users of the graph. Its answers
/// and the work it does are its own; node processing passes them on.
///
/// `execute` receives the frame allocator and the node's context init; the job
/// builder of the outside job system is the caller's to hand to its nodes.
pub trait RenderNodeImpl {
    /// How this node interacts with command recording.
    fn command_list_usage(&self) -> RenderNodeCommandListUsage;

    /// Whether the process wrapper may open an outer GPU debug scope.
    fn allow_gpu_scope(&self) -> bool;

    /// The global binding slots this node modifies.
    fn global_binding_mod(&self) -> RenderGlobalBindingMask;

    /// Does the node's work.
    fn execute(&self, allocator: &mut FrameResourceAllocator, init: RenderNodeImplContextInit) -> RenderGraphResult<()>;
}

/// Shared arena of render node implementations, addressed by stable ids.
pub struct RenderNodeImplStore<I> {
    nodes: GraphStorage<I, RenderNodeImplId>,
}

impl<I> RenderNodeImplStore<I> {
    pub closed spec fn wf(&self) -> bool {
        self.nodes.wf()
    }

    /// Whether `id` names a live implementation.
    pub closed spec fn has_impl(&self, id: RenderNodeImplId) -> bool {
        self.nodes.id_live(id)
    }

    /// The implementation `id` names.
    pub closed spec fn impl_at(&self, id: RenderNodeImplId) -> I {
        self.nodes.value_at(id.0 as int)
    }

    /// Number of ids handed out so far.
    pub closed spec fn slot_count(&self) -> nat {
        self.nodes.slot_count()
    }

    /// Number of live implementations.
    pub closed spec fn count(&self) -> nat {
        self.nodes.order().len()
    }

    /// An empty store.
    pub fn new() -> (r: Self)
        ensures
            r.wf(),
            r.slot_count() == 0,
            r.count() == 0,
            forall|id: RenderNodeImplId| !r.has_impl(id),
    {
        let r = RenderNodeImplStore { nodes: GraphStorage::new() };
        proof {
            r.nodes.lemma_wf_facts();
        }
        r
    }

    /// Number of live implementations.
    pub fn len(&self) -> (r: usize)
        requires
            self.wf(),
        ensures
            r == self.count(),
    {
        self.nodes.len()
    }

    /// Whether no implementation is stored.
    pub fn is_empty(&self) -> (r: bool)
        requires
            self.wf(),
        ensures
            r == (self.count() == 0),
    {
        self.nodes.is_empty()
    }

    /// Stores an implementation under the next id.
    pub fn insert(&mut self, node: I) -> (r: RenderGraphResult<RenderNodeImplId>)
        requires
            old(self).wf(),
        ensures
            final(self).wf(),
            r is Ok <==> old(self).slot_count() < 4294967295,
            r is Err ==> *final(self) == *old(self) && r == Err::<RenderNodeImplId, RenderGraphError>(
                RenderGraphError::InvalidState { reason: "render graph storage exceeded u32 slot id range" },
            ),
            r is Ok ==> {
                &&& r->Ok_0.0 == old(self).slot_count()
                &&& final(self).has_impl(r->Ok_0)
                &&& final(self).impl_at(r->Ok_0) == node
                &&& final(self).count() == old(self).count() + 1
                &&& forall|id: RenderNodeImplId|
                    old(self).has_impl(id) ==> #[trigger] final(self).has_impl(id) && final(self).impl_at(id)
                        == old(self).impl_at(id)
            },
    {
        let r = self.nodes.allocate(node);
        proof {
            if r is Ok {
                assert forall|id: RenderNodeImplId|
                    old(self).has_impl(id) implies #[trigger] self.has_impl(id) && self.impl_at(id) == old(self).impl_at(id) by {
                    old(self).nodes.lemma_wf_facts();
                }
            }
        }
        r
    }

    /// The implementation `id` names.
    pub fn get(&self, id: RenderNodeImplId) -> (r: RenderGraphResult<&I>)
        requires
            self.wf(),
        ensures
            r is Ok <==> self.has_impl(id),
            r is Ok ==> *r->Ok_0 == self.impl_at(id),
            r is Err ==> r == Err::<&I, RenderGraphError>(
                RenderGraphError::InvalidId { kind: "graph storage item", raw: id.0 },
            ),
    {
        self.nodes.get(id)
    }
}

} // verus!
