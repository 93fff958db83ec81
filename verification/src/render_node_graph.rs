//! Mutable render graph topology.
//!
//! Each node heads, per dependency track, a linked list of the dependencies in
//! which it is the parent (linked through `next_from_parent`) and a linked list of
//! the dependencies in which it is the child (linked through `next_from_child`).
//! Ghost sequences record each list so the linked structure can be reasoned about.
use vstd::prelude::*;

use crate::error::{RenderGraphError, RenderGraphResult};
use crate::ids::{RenderDependencyId, RenderNodeId, INVALID_ID_RAW};
use crate::metadata::{RenderNodeDependencyKind, RenderNodeKind};
use crate::node_topology::{RenderDependencyData, RenderNodeData, RenderNodeExecutionMetadata,
    RenderNodeParameters, RenderNodeView};
use crate::storage::GraphStorage;

pub mod add;
pub mod combine;
pub mod edit;
pub mod flow;
pub mod import;
pub mod kahn;
pub mod merge;
pub mod remove;

verus! {

/// `order` with `x` taken out the way graph storage frees a slot: the last
/// entry moves into the freed position.
pub open spec fn swap_removed(order: Seq<u32>, x: u32) -> Seq<u32> {
    let i = choose|i: int| 0 <= i < order.len() && order[i] == x;
    order.update(i, order.last()).drop_last()
}

/// In a sequence without duplicates, taking out the entry at `p` is the swap
/// removal of its value.
pub proof fn lemma_swap_removed_at(order: Seq<u32>, p: int)
    requires
        order.no_duplicates(),
        0 <= p < order.len(),
    ensures
        swap_removed(order, order[p]) == order.update(p, order.last()).drop_last(),
{
    let i = choose|i: int| 0 <= i < order.len() && order[i] == order[p];
    assert(order[i] == order[p]);
}

/// Head of a dependency list recorded as a sequence of raw dependency ids.
pub open spec fn list_head(l: Seq<u32>) -> Option<RenderDependencyId> {
    if l.len() > 0 { Some(RenderDependencyId(l[0])) } else { None }
}

/// Link stored after position `i` of a dependency list.
pub open spec fn list_next(l: Seq<u32>, i: int) -> Option<RenderDependencyId> {
    if i + 1 < l.len() { Some(RenderDependencyId(l[i + 1])) } else { None }
}

/// Node and dependency topology for a render graph.
pub struct RenderNodeGraph {
    nodes: GraphStorage<RenderNodeData, RenderNodeId>,
    dependencies: GraphStorage<RenderDependencyData, RenderDependencyId>,
    flattened_cpu: Vec<RenderNodeId>,
    flattened_gpu: Vec<RenderNodeId>,
    topology_frozen: bool,
    flow_groups_built: bool,
    out_lists: Ghost<spec_fn(u32, RenderNodeDependencyKind) -> Seq<u32>>,
    in_lists: Ghost<spec_fn(u32, RenderNodeDependencyKind) -> Seq<u32>>,
}

impl RenderNodeGraph {
    // ----- abstract view -----

    /// Whether a node id is live in this graph.
    pub closed spec fn node_live(&self, n: RenderNodeId) -> bool {
        self.nodes.id_live(n)
    }

    /// Whether a dependency id is live in this graph.
    pub closed spec fn dep_live(&self, d: RenderDependencyId) -> bool {
        self.dependencies.id_live(d)
    }

    /// Stored data of a node.
    pub closed spec fn node_data(&self, n: RenderNodeId) -> RenderNodeData {
        self.nodes.value_at(n.0 as int)
    }

    /// Stored data of a dependency.
    pub closed spec fn dep_data(&self, d: RenderDependencyId) -> RenderDependencyData {
        self.dependencies.value_at(d.0 as int)
    }

    /// Live node ids in usage order.
    pub closed spec fn node_order(&self) -> Seq<u32> {
        self.nodes.order()
    }

    /// Live dependency ids in usage order.
    pub closed spec fn dep_order(&self) -> Seq<u32> {
        self.dependencies.order()
    }

    /// Number of node slots ever allocated (ids handed out so far).
    pub closed spec fn node_slot_count(&self) -> nat {
        self.nodes.slot_count()
    }

    /// Number of dependency slots ever allocated.
    pub closed spec fn dep_slot_count(&self) -> nat {
        self.dependencies.slot_count()
    }

    /// Dependencies in which node `n` is the parent, in list order.
    pub closed spec fn child_deps(&self, n: RenderNodeId, k: RenderNodeDependencyKind) -> Seq<u32> {
        (self.out_lists@)(n.0, k)
    }

    /// Dependencies in which node `n` is the child, in list order.
    pub closed spec fn parent_deps(&self, n: RenderNodeId, k: RenderNodeDependencyKind) -> Seq<u32> {
        (self.in_lists@)(n.0, k)
    }

    /// Whether topology mutation is locked.
    pub closed spec fn frozen(&self) -> bool {
        self.topology_frozen
    }

    /// Whether flow groups were built.
    pub closed spec fn built(&self) -> bool {
        self.flow_groups_built
    }

    /// Flattened order of one dependency track.
    pub closed spec fn flattened(&self, k: RenderNodeDependencyKind) -> Seq<RenderNodeId> {
        match k {
            RenderNodeDependencyKind::Cpu => self.flattened_cpu@,
            RenderNodeDependencyKind::Gpu => self.flattened_gpu@,
        }
    }

    /// Whether a live dependency of track `k` runs from `p` to `c`.
    pub open spec fn has_edge(&self, k: RenderNodeDependencyKind, p: RenderNodeId, c: RenderNodeId) -> bool {
        exists|d: RenderDependencyId|
            #![trigger self.dep_data(d)]
            self.dep_live(d) && self.dep_data(d).kind == k && self.dep_data(d).parent == p
                && self.dep_data(d).child == c
    }

    /// Child nodes of `n` on track `k`, in list order.
    pub open spec fn child_node_seq(&self, n: RenderNodeId, k: RenderNodeDependencyKind) -> Seq<RenderNodeId> {
        self.child_deps(n, k).map_values(|d: u32| self.dep_data(RenderDependencyId(d)).child)
    }

    /// Parent nodes of `n` on track `k`, in list order.
    pub open spec fn parent_node_seq(&self, n: RenderNodeId, k: RenderNodeDependencyKind) -> Seq<RenderNodeId> {
        self.parent_deps(n, k).map_values(|d: u32| self.dep_data(RenderDependencyId(d)).parent)
    }

    // ----- invariant -----

    /// The linked list headed at node `n` for children of track `k` matches its ghost sequence.
    pub closed spec fn out_list_ok(&self, n: u32, k: RenderNodeDependencyKind) -> bool {
        let l = (self.out_lists@)(n, k);
        &&& self.nodes.value_at(n as int).spec_first_child(k) == list_head(l)
        &&& l.no_duplicates()
        &&& forall|i: int|
            #![trigger self.dependencies.value_at(l[i] as int)]
            0 <= i < l.len() ==> {
                &&& self.dependencies.id_live(RenderDependencyId(l[i]))
                &&& self.dependencies.value_at(l[i] as int).kind == k
                &&& self.dependencies.value_at(l[i] as int).parent == RenderNodeId(n)
                &&& self.dependencies.value_at(l[i] as int).next_from_parent == list_next(l, i)
            }
    }

    /// The linked list headed at node `n` for parents of track `k` matches its ghost sequence.
    pub closed spec fn in_list_ok(&self, n: u32, k: RenderNodeDependencyKind) -> bool {
        let l = (self.in_lists@)(n, k);
        &&& self.nodes.value_at(n as int).spec_first_parent(k) == list_head(l)
        &&& l.no_duplicates()
        &&& forall|i: int|
            #![trigger self.dependencies.value_at(l[i] as int)]
            0 <= i < l.len() ==> {
                &&& self.dependencies.id_live(RenderDependencyId(l[i]))
                &&& self.dependencies.value_at(l[i] as int).kind == k
                &&& self.dependencies.value_at(l[i] as int).child == RenderNodeId(n)
                &&& self.dependencies.value_at(l[i] as int).next_from_child == list_next(l, i)
            }
    }

    /// A live dependency joins two distinct live nodes and is linked from both of them.
    pub closed spec fn dep_ok(&self, d: u32) -> bool {
        let data = self.dependencies.value_at(d as int);
        &&& self.nodes.id_live(data.parent)
        &&& self.nodes.id_live(data.child)
        &&& data.parent != data.child
        &&& (self.out_lists@)(data.parent.0, data.kind).contains(d)
        &&& (self.in_lists@)(data.child.0, data.kind).contains(d)
    }

    /// No two live dependencies share track and endpoints.
    pub closed spec fn edges_unique(&self) -> bool {
        forall|a: u32, b: u32|
            #![trigger self.dependencies.value_at(a as int), self.dependencies.value_at(b as int)]
            self.dependencies.id_live(RenderDependencyId(a)) && self.dependencies.id_live(RenderDependencyId(b))
                && self.dependencies.value_at(a as int).kind == self.dependencies.value_at(b as int).kind
                && self.dependencies.value_at(a as int).parent == self.dependencies.value_at(b as int).parent
                && self.dependencies.value_at(a as int).child == self.dependencies.value_at(b as int).child
                ==> a == b
    }

    /// Well-formedness of the graph topology.
    #[verifier::opaque]
    pub closed spec fn wf(&self) -> bool {
        &&& self.nodes.wf()
        &&& self.dependencies.wf()
        &&& forall|n: u32, k: RenderNodeDependencyKind|
            #![trigger (self.out_lists@)(n, k)]
            self.nodes.id_live(RenderNodeId(n)) ==> self.out_list_ok(n, k)
        &&& forall|n: u32, k: RenderNodeDependencyKind|
            #![trigger (self.in_lists@)(n, k)]
            self.nodes.id_live(RenderNodeId(n)) ==> self.in_list_ok(n, k)
        &&& forall|d: u32|
            #![trigger self.dependencies.value_at(d as int)]
            self.dependencies.id_live(RenderDependencyId(d)) ==> self.dep_ok(d)
        &&& self.edges_unique()
        &&& self.flow_groups_built ==> self.topology_frozen
    }

    // ----- construction and queries -----

    /// Creates an empty mutable graph.
    pub fn new() -> (r: Self)
        ensures
            r.wf(),
            r.node_order() == Seq::<u32>::empty(),
            r.dep_order() == Seq::<u32>::empty(),
            r.node_slot_count() == 0,
            r.dep_slot_count() == 0,
            !r.frozen(),
            !r.built(),
            r.flattened(RenderNodeDependencyKind::Cpu) == Seq::<RenderNodeId>::empty(),
            r.flattened(RenderNodeDependencyKind::Gpu) == Seq::<RenderNodeId>::empty(),
    {
        let r = RenderNodeGraph {
            nodes: GraphStorage::new(),
            dependencies: GraphStorage::new(),
            flattened_cpu: Vec::new(),
            flattened_gpu: Vec::new(),
            topology_frozen: false,
            flow_groups_built: false,
            out_lists: Ghost(|n: u32, k: RenderNodeDependencyKind| Seq::<u32>::empty()),
            in_lists: Ghost(|n: u32, k: RenderNodeDependencyKind| Seq::<u32>::empty()),
        };
        proof {
            reveal(RenderNodeGraph::wf);
            r.nodes.lemma_wf_facts();
            r.dependencies.lemma_wf_facts();
        }
        r
    }

    /// Storage-level facts that follow from the graph invariant.
    proof fn lemma_wf_storage(&self)
        requires
            self.wf(),
        ensures
            self.nodes.wf(),
            self.dependencies.wf(),
            forall|d: RenderDependencyId|
                #![trigger self.dependencies.id_live(d)]
                self.dependencies.id_live(d) ==> self.dependencies.live(d.0 as int),
            forall|n: RenderNodeId|
                #![trigger self.nodes.id_live(n)]
                self.nodes.id_live(n) ==> self.nodes.live(n.0 as int),
    {
        reveal(RenderNodeGraph::wf);
    }

    /// The usage orders list exactly the live nodes and the live dependencies,
    /// each once; so the node and dependency counts are the numbers of live ids.
    pub proof fn lemma_orders_list_live(&self)
        requires
            self.wf(),
        ensures
            self.node_order().no_duplicates(),
            self.dep_order().no_duplicates(),
            forall|i: int| 0 <= i < self.node_order().len() ==> self.node_live(RenderNodeId(#[trigger] self.node_order()[i])),
            forall|i: int| 0 <= i < self.dep_order().len() ==> self.dep_live(RenderDependencyId(#[trigger] self.dep_order()[i])),
            forall|n: RenderNodeId| #[trigger] self.node_live(n) ==> self.node_order().contains(n.0),
            forall|d: RenderDependencyId| #[trigger] self.dep_live(d) ==> self.dep_order().contains(d.0),
    {
        self.lemma_wf_storage();
        self.nodes.lemma_wf_facts();
        self.dependencies.lemma_wf_facts();
        assert forall|i: int| 0 <= i < self.node_order().len() implies self.node_live(
            RenderNodeId(#[trigger] self.node_order()[i]),
        ) by {
            assert(self.nodes.live(self.node_order()[i] as int));
        }
        assert forall|i: int| 0 <= i < self.dep_order().len() implies self.dep_live(
            RenderDependencyId(#[trigger] self.dep_order()[i]),
        ) by {
            assert(self.dependencies.live(self.dep_order()[i] as int));
        }
        assert forall|n: RenderNodeId| #[trigger] self.node_live(n) implies self.node_order().contains(n.0) by {
            assert(self.nodes.live(n.0 as int));
            assert(self.node_order()[self.nodes.position(n.0 as int)] == n.0);
        }
        assert forall|d: RenderDependencyId| #[trigger] self.dep_live(d) implies self.dep_order().contains(d.0) by {
            assert(self.dependencies.live(d.0 as int));
            assert(self.dep_order()[self.dependencies.position(d.0 as int)] == d.0);
        }
    }

    /// Returns whether topology mutation is locked.
    pub fn is_topology_frozen(&self) -> (r: bool)
        ensures
            r == self.frozen(),
    {
        self.topology_frozen
    }

    /// Returns whether flow groups were built and topology is frozen for execution.
    pub fn is_built(&self) -> (r: bool)
        ensures
            r == self.built(),
    {
        self.flow_groups_built
    }

    /// Freezes topology mutation without computing execution flow groups.
    pub fn freeze_topology(&mut self)
        requires
            old(self).wf(),
        ensures
            final(self).wf(),
            final(self).frozen(),
            final(self).built() == old(self).built(),
            final(self).same_topology(*old(self)),
            final(self).flattened(RenderNodeDependencyKind::Cpu) == old(self).flattened(RenderNodeDependencyKind::Cpu),
            final(self).flattened(RenderNodeDependencyKind::Gpu) == old(self).flattened(RenderNodeDependencyKind::Gpu),
    {
        proof {
            reveal(RenderNodeGraph::wf);
        }
        self.topology_frozen = true;
    }

    /// Both graphs hold exactly the same nodes and dependencies.
    pub closed spec fn same_topology(&self, other: RenderNodeGraph) -> bool {
        &&& self.nodes == other.nodes
        &&& self.dependencies == other.dependencies
        &&& self.out_lists == other.out_lists
        &&& self.in_lists == other.in_lists
    }

    /// Returns the number of live graph nodes.
    pub fn node_count(&self) -> (r: usize)
        requires
            self.wf(),
        ensures
            r == self.node_order().len(),
    {
        proof {
            self.lemma_wf_storage();
        }
        self.nodes.len()
    }

    /// Returns the number of live dependency edges.
    pub fn dependency_count(&self) -> (r: usize)
        requires
            self.wf(),
        ensures
            r == self.dep_order().len(),
    {
        proof {
            self.lemma_wf_storage();
        }
        self.dependencies.len()
    }

    /// Every node other than the ones in `changed` keeps its liveness and data, and
    /// every dependency keeps its liveness and endpoints.
    pub open spec fn frame_nodes(&self, other: RenderNodeGraph) -> bool {
        &&& forall|n: RenderNodeId|
            #![trigger self.node_live(n)]
            #![trigger self.node_data(n)]
            other.node_live(n) ==> self.node_live(n) && self.node_data(n) == other.node_data(n)
        &&& forall|n: RenderNodeId, k: RenderNodeDependencyKind|
            #![trigger self.child_deps(n, k)]
            #![trigger self.parent_deps(n, k)]
            other.node_live(n) ==> self.child_deps(n, k) == other.child_deps(n, k)
                && self.parent_deps(n, k) == other.parent_deps(n, k)
    }

    /// The dependency storage is untouched.
    pub closed spec fn same_dependencies(&self, other: RenderNodeGraph) -> bool {
        self.dependencies == other.dependencies
    }

    proof fn lemma_same_dependencies(&self, other: RenderNodeGraph)
        requires
            self.same_dependencies(other),
        ensures
            forall|d: RenderDependencyId|
                #![trigger self.dep_live(d)]
                self.dep_live(d) == other.dep_live(d) && self.dep_data(d) == other.dep_data(d),
            self.dep_order() == other.dep_order(),
            self.dep_slot_count() == other.dep_slot_count(),
            forall|k: RenderNodeDependencyKind, p: RenderNodeId, c: RenderNodeId|
                #![trigger self.has_edge(k, p, c)]
                self.has_edge(k, p, c) == other.has_edge(k, p, c),
    {
        assert forall|k: RenderNodeDependencyKind, p: RenderNodeId, c: RenderNodeId|
            #![trigger self.has_edge(k, p, c)]
            self.has_edge(k, p, c) == other.has_edge(k, p, c) by {
            if self.has_edge(k, p, c) {
                let d = choose|d: RenderDependencyId|
                    #![trigger self.dep_data(d)]
                    self.dep_live(d) && self.dep_data(d).kind == k && self.dep_data(d).parent == p
                        && self.dep_data(d).child == c;
                assert(other.dep_data(d) == self.dep_data(d));
            }
            if other.has_edge(k, p, c) {
                let d = choose|d: RenderDependencyId|
                    #![trigger other.dep_data(d)]
                    other.dep_live(d) && other.dep_data(d).kind == k && other.dep_data(d).parent == p
                        && other.dep_data(d).child == c;
                assert(other.dep_data(d) == self.dep_data(d));
            }
        }
    }

    /// Inserts node data whose dependency heads are empty.
    fn insert_node(&mut self, node: RenderNodeData) -> (r: RenderGraphResult<RenderNodeId>)
        requires
            old(self).wf(),
            node.spec_heads_empty(),
        ensures
            final(self).wf(),
            final(self).frozen() == old(self).frozen(),
            final(self).built() == old(self).built(),
            final(self).flattened(RenderNodeDependencyKind::Cpu) == old(self).flattened(RenderNodeDependencyKind::Cpu),
            final(self).flattened(RenderNodeDependencyKind::Gpu) == old(self).flattened(RenderNodeDependencyKind::Gpu),
            final(self).same_dependencies(*old(self)),
            old(self).node_slot_count() < 4294967295 <==> r is Ok,
            r is Err ==> *final(self) == *old(self) && r == Err::<RenderNodeId, RenderGraphError>(
                RenderGraphError::InvalidState {
                    reason: "render graph storage exceeded u32 slot id range",
                },
            ),
            r is Ok ==> {
                let id = r->Ok_0;
                &&& id.0 == old(self).node_slot_count()
                &&& final(self).node_slot_count() == old(self).node_slot_count() + 1
                &&& final(self).node_order() == old(self).node_order().push(id.0)
                &&& final(self).node_data(id) == node
                &&& final(self).frame_nodes(*old(self))
                &&& final(self).node_live(id)
                &&& forall|k: RenderNodeDependencyKind|
                    final(self).child_deps(id, k) == Seq::<u32>::empty()
                        && final(self).parent_deps(id, k) == Seq::<u32>::empty()
            },
    {
        proof {
            reveal(RenderNodeGraph::wf);
            self.nodes.lemma_wf_facts();
        }
        let ghost prev = *self;
        let slot = self.nodes.slot_count_exec();
        let r = self.nodes.allocate(node);
        match r {
            Ok(id) => {
                proof {
                    self.nodes.lemma_wf_facts();
                    let fresh = id.0;
                    self.out_lists = Ghost(|n: u32, k: RenderNodeDependencyKind|
                        if n == fresh { Seq::<u32>::empty() } else { (prev.out_lists@)(n, k) });
                    self.in_lists = Ghost(|n: u32, k: RenderNodeDependencyKind|
                        if n == fresh { Seq::<u32>::empty() } else { (prev.in_lists@)(n, k) });
                    assert forall|n: u32, k: RenderNodeDependencyKind|
                        #![trigger (self.out_lists@)(n, k)]
                        self.nodes.id_live(RenderNodeId(n)) implies self.out_list_ok(n, k) by {
                        if n != fresh {
                            assert(prev.nodes.id_live(RenderNodeId(n)));
                            assert(prev.out_list_ok(n, k));
                        }
                    }
                    assert forall|n: u32, k: RenderNodeDependencyKind|
                        #![trigger (self.in_lists@)(n, k)]
                        self.nodes.id_live(RenderNodeId(n)) implies self.in_list_ok(n, k) by {
                        if n != fresh {
                            assert(prev.nodes.id_live(RenderNodeId(n)));
                            assert(prev.in_list_ok(n, k));
                        }
                    }
                    assert forall|d: u32|
                        #![trigger self.dependencies.value_at(d as int)]
                        self.dependencies.id_live(RenderDependencyId(d)) implies self.dep_ok(d) by {
                        assert(prev.dep_ok(d));
                        let data = self.dependencies.value_at(d as int);
                        assert(prev.nodes.id_live(data.parent));
                        assert(prev.nodes.id_live(data.child));
                    }
                    assert(self.edges_unique() == prev.edges_unique());
                    assert forall|n: RenderNodeId|
                        #![trigger self.node_live(n)]
                        #![trigger self.node_data(n)]
                        prev.node_live(n) implies self.node_live(n) && self.node_data(n) == prev.node_data(n) by {
                        assert(n.0 < prev.nodes.slot_count());
                    }
                    assert forall|n: RenderNodeId, k: RenderNodeDependencyKind|
                        #![trigger self.child_deps(n, k)]
                        #![trigger self.parent_deps(n, k)]
                        prev.node_live(n) implies self.child_deps(n, k) == prev.child_deps(n, k)
                            && self.parent_deps(n, k) == prev.parent_deps(n, k) by {
                        assert(n.0 < prev.nodes.slot_count());
                        assert(n.0 != fresh);
                    }
                }
                Ok(id)
            },
            Err(e) => Err(e),
        }
    }

    /// Adds a graph node from static parameters and graph-owned execution metadata.
    pub fn add_node(
        &mut self,
        params: RenderNodeParameters,
        metadata: RenderNodeExecutionMetadata,
    ) -> (r: RenderGraphResult<RenderNodeId>)
        requires
            old(self).wf(),
        ensures
            final(self).wf(),
            final(self).frozen() == old(self).frozen(),
            final(self).built() == old(self).built(),
            final(self).flattened(RenderNodeDependencyKind::Cpu) == old(self).flattened(RenderNodeDependencyKind::Cpu),
            final(self).flattened(RenderNodeDependencyKind::Gpu) == old(self).flattened(RenderNodeDependencyKind::Gpu),
            final(self).same_dependencies(*old(self)),
            r is Ok <==> !old(self).frozen() && old(self).node_slot_count() < 4294967295,
            r is Err ==> *final(self) == *old(self),
            old(self).frozen() ==> r == Err::<RenderNodeId, RenderGraphError>(
                RenderGraphError::GraphAlreadyBuilt { operation: "add_node" },
            ),
            r is Ok ==> {
                let id = r->Ok_0;
                &&& id.0 == old(self).node_slot_count()
                &&& final(self).node_order() == old(self).node_order().push(id.0)
                &&& final(self).node_data(id).params == params
                &&& final(self).node_data(id).metadata == metadata
                &&& final(self).node_data(id).spec_heads_empty()
                &&& final(self).frame_nodes(*old(self))
                &&& final(self).node_live(id)
                &&& forall|k: RenderNodeDependencyKind|
                    final(self).child_deps(id, k) == Seq::<u32>::empty()
                        && final(self).parent_deps(id, k) == Seq::<u32>::empty()
            },
    {
        if self.topology_frozen {
            return Err(RenderGraphError::GraphAlreadyBuilt { operation: "add_node" });
        }
        self.insert_node(RenderNodeData::new(params, metadata))
    }

    /// Adds a fully constructed node topology entry.
    ///
    /// Dependency heads are cleared before insertion; edges must be added through
    /// graph mutation so the parent and child lists stay paired.
    pub fn add_node_data(&mut self, node: RenderNodeData) -> (r: RenderGraphResult<RenderNodeId>)
        requires
            old(self).wf(),
        ensures
            final(self).wf(),
            final(self).frozen() == old(self).frozen(),
            final(self).built() == old(self).built(),
            final(self).flattened(RenderNodeDependencyKind::Cpu) == old(self).flattened(RenderNodeDependencyKind::Cpu),
            final(self).flattened(RenderNodeDependencyKind::Gpu) == old(self).flattened(RenderNodeDependencyKind::Gpu),
            final(self).same_dependencies(*old(self)),
            r is Ok <==> !old(self).frozen() && old(self).node_slot_count() < 4294967295,
            r is Err ==> *final(self) == *old(self),
            old(self).frozen() ==> r == Err::<RenderNodeId, RenderGraphError>(
                RenderGraphError::GraphAlreadyBuilt { operation: "add_node_data" },
            ),
            r is Ok ==> {
                let id = r->Ok_0;
                &&& id.0 == old(self).node_slot_count()
                &&& final(self).node_order() == old(self).node_order().push(id.0)
                &&& final(self).node_data(id).params == node.params
                &&& final(self).node_data(id).metadata == node.metadata
                &&& final(self).node_data(id).spec_heads_empty()
                &&& final(self).frame_nodes(*old(self))
                &&& final(self).node_live(id)
                &&& forall|k: RenderNodeDependencyKind|
                    final(self).child_deps(id, k) == Seq::<u32>::empty()
                        && final(self).parent_deps(id, k) == Seq::<u32>::empty()
            },
    {
        if self.topology_frozen {
            return Err(RenderGraphError::GraphAlreadyBuilt { operation: "add_node_data" });
        }
        let mut node = node;
        node.clear_dependency_heads();
        self.insert_node(node)
    }

    /// Returns a read-only node view.
    pub fn node(&self, id: RenderNodeId) -> (r: RenderGraphResult<RenderNodeView<'_>>)
        requires
            self.wf(),
        ensures
            r is Ok <==> self.node_live(id),
            r is Ok ==> r->Ok_0.spec_id() == id && r->Ok_0.spec_data() == self.node_data(id),
            r is Err ==> r == Err::<RenderNodeView<'_>, RenderGraphError>(
                RenderGraphError::InvalidId { kind: "graph storage item", raw: id.0 },
            ),
    {
        proof {
            self.lemma_wf_storage();
        }
        match self.nodes.get(id) {
            Ok(data) => Ok(RenderNodeView::new(id, data)),
            Err(e) => Err(e),
        }
    }

    /// Returns dependency topology data by id.
    pub fn dependency(&self, id: RenderDependencyId) -> (r: RenderGraphResult<&RenderDependencyData>)
        requires
            self.wf(),
        ensures
            r is Ok <==> self.dep_live(id),
            r is Ok ==> *r->Ok_0 == self.dep_data(id),
            r is Err ==> r == Err::<&RenderDependencyData, RenderGraphError>(
                RenderGraphError::InvalidId { kind: "graph storage item", raw: id.0 },
            ),
    {
        proof {
            self.lemma_wf_storage();
        }
        self.dependencies.get(id)
    }

    /// Returns live node ids in deterministic usage order.
    pub fn node_ids(&self) -> (r: Vec<RenderNodeId>)
        requires
            self.wf(),
        ensures
            r@.len() == self.node_order().len(),
            forall|i: int| 0 <= i < r@.len() ==> #[trigger] r@[i] == RenderNodeId(self.node_order()[i]),
    {
        proof {
            self.lemma_wf_storage();
        }
        self.nodes.ids_in_usage_order()
    }

    /// Returns live dependency ids in deterministic usage order.
    pub fn dependency_ids(&self) -> (r: Vec<RenderDependencyId>)
        requires
            self.wf(),
        ensures
            r@.len() == self.dep_order().len(),
            forall|i: int| 0 <= i < r@.len() ==> #[trigger] r@[i] == RenderDependencyId(self.dep_order()[i]),
    {
        proof {
            self.lemma_wf_storage();
        }
        self.dependencies.ids_in_usage_order()
    }

    /// Returns graph nodes flattened for one dependency kind.
    pub fn flattened_nodes(&self, kind: RenderNodeDependencyKind) -> (r: &[RenderNodeId])
        ensures
            r@ == self.flattened(kind),
    {
        match kind {
            RenderNodeDependencyKind::Cpu => self.flattened_cpu.as_slice(),
            RenderNodeDependencyKind::Gpu => self.flattened_gpu.as_slice(),
        }
    }

    fn ensure_node_exists(&self, node: RenderNodeId) -> (r: RenderGraphResult<()>)
        requires
            self.wf(),
        ensures
            r is Ok <==> self.node_live(node),
            r is Err ==> r == Err::<(), RenderGraphError>(
                RenderGraphError::InvalidId { kind: "node", raw: node.0 },
            ),
    {
        proof {
            self.lemma_wf_storage();
        }
        if self.nodes.is_allocated(node) {
            Ok(())
        } else {
            Err(RenderGraphError::InvalidId { kind: "node", raw: node.raw() })
        }
    }

    /// Under the invariant, the live dependencies from `p` on track `k` are exactly
    /// the elements of its child list.
    proof fn lemma_out_list_complete(&self, p: RenderNodeId, k: RenderNodeDependencyKind)
        requires
            self.wf(),
            self.node_live(p),
        ensures
            forall|d: RenderDependencyId|
                #![trigger self.dep_data(d)]
                self.dep_live(d) && self.dep_data(d).kind == k && self.dep_data(d).parent == p
                    ==> self.child_deps(p, k).contains(d.0),
            forall|i: int|
                #![trigger self.dep_data(RenderDependencyId(self.child_deps(p, k)[i]))]
                0 <= i < self.child_deps(p, k).len() ==> {
                    let d = RenderDependencyId(self.child_deps(p, k)[i]);
                    &&& self.dep_live(d)
                    &&& self.dep_data(d).kind == k
                    &&& self.dep_data(d).parent == p
                    &&& self.dep_data(d).next_from_parent == list_next(self.child_deps(p, k), i)
                },
            self.child_deps(p, k).no_duplicates(),
            self.node_data(p).spec_first_child(k) == list_head(self.child_deps(p, k)),
    {
        reveal(RenderNodeGraph::wf);
        assert(self.out_list_ok(p.0, k));
        assert forall|d: RenderDependencyId|
            #![trigger self.dep_data(d)]
            self.dep_live(d) && self.dep_data(d).kind == k && self.dep_data(d).parent == p
                implies self.child_deps(p, k).contains(d.0) by {
            assert(self.dep_ok(d.0));
        }
    }

    /// Under the invariant, the live dependencies into `c` on track `k` are exactly
    /// the elements of its parent list.
    proof fn lemma_in_list_complete(&self, c: RenderNodeId, k: RenderNodeDependencyKind)
        requires
            self.wf(),
            self.node_live(c),
        ensures
            forall|d: RenderDependencyId|
                #![trigger self.dep_data(d)]
                self.dep_live(d) && self.dep_data(d).kind == k && self.dep_data(d).child == c
                    ==> self.parent_deps(c, k).contains(d.0),
            forall|i: int|
                #![trigger self.dep_data(RenderDependencyId(self.parent_deps(c, k)[i]))]
                0 <= i < self.parent_deps(c, k).len() ==> {
                    let d = RenderDependencyId(self.parent_deps(c, k)[i]);
                    &&& self.dep_live(d)
                    &&& self.dep_data(d).kind == k
                    &&& self.dep_data(d).child == c
                    &&& self.dep_data(d).next_from_child == list_next(self.parent_deps(c, k), i)
                },
            self.parent_deps(c, k).no_duplicates(),
            self.node_data(c).spec_first_parent(k) == list_head(self.parent_deps(c, k)),
    {
        reveal(RenderNodeGraph::wf);
        assert(self.in_list_ok(c.0, k));
        assert forall|d: RenderDependencyId|
            #![trigger self.dep_data(d)]
            self.dep_live(d) && self.dep_data(d).kind == k && self.dep_data(d).child == c
                implies self.parent_deps(c, k).contains(d.0) by {
            assert(self.dep_ok(d.0));
        }
    }

    /// Returns the dependency from `parent` to `child` on track `kind`, if any.
    fn find_dependency(
        &self,
        kind: RenderNodeDependencyKind,
        parent: RenderNodeId,
        child: RenderNodeId,
    ) -> (r: Option<RenderDependencyId>)
        requires
            self.wf(),
            self.node_live(parent),
        ensures
            r is Some <==> self.has_edge(kind, parent, child),
            r is Some ==> {
                let d = r->0;
                &&& self.dep_live(d)
                &&& self.dep_data(d).kind == kind
                &&& self.dep_data(d).parent == parent
                &&& self.dep_data(d).child == child
            },
    {
        proof {
            self.lemma_out_list_complete(parent, kind);
            self.lemma_wf_storage();
        }
        let ghost l = self.child_deps(parent, kind);
        let data = self.nodes.get(parent).unwrap();
        let mut cursor = data.first_child_dependency(kind);
        let ghost mut i: int = 0;
        #[verifier::loop_isolation(false)]
        loop
            invariant
                0 <= i <= l.len(),
                cursor == (if i < l.len() { Some(RenderDependencyId(l[i])) } else { None::<RenderDependencyId> }),
                forall|j: int| 0 <= j < i ==> #[trigger] self.dep_data(RenderDependencyId(l[j])).child != child,
            decreases l.len() - i,
        {
            match cursor {
                None => {
                    proof {
                        assert forall|d: RenderDependencyId|
                            #![trigger self.dep_data(d)]
                            !(self.dep_live(d) && self.dep_data(d).kind == kind
                                && self.dep_data(d).parent == parent && self.dep_data(d).child == child) by {
                            if self.dep_live(d) && self.dep_data(d).kind == kind
                                && self.dep_data(d).parent == parent && self.dep_data(d).child == child {
                                let j = choose|j: int| 0 <= j < l.len() && l[j] == d.0;
                                assert(self.dep_data(RenderDependencyId(l[j])).child != child);
                            }
                        }
                    }
                    return None;
                },
                Some(dependency_id) => {
                    assert(self.dep_data(RenderDependencyId(self.child_deps(parent, kind)[i])).kind == kind);
                    let dependency = self.dependencies.get(dependency_id).unwrap();
                    if dependency.child == child {
                        return Some(dependency_id);
                    }
                    cursor = dependency.next_from_parent;
                    proof {
                        i = i + 1;
                    }
                },
            }
        }
    }

    /// Returns whether an exact dependency edge already exists.
    pub fn has_dependency(
        &self,
        kind: RenderNodeDependencyKind,
        parent: RenderNodeId,
        child: RenderNodeId,
    ) -> (r: RenderGraphResult<bool>)
        requires
            self.wf(),
        ensures
            r is Ok <==> self.node_live(parent) && self.node_live(child),
            r is Ok ==> r->Ok_0 == self.has_edge(kind, parent, child),
            !self.node_live(parent) ==> r == Err::<bool, RenderGraphError>(
                RenderGraphError::InvalidId { kind: "node", raw: parent.0 },
            ),
            self.node_live(parent) && !self.node_live(child) ==> r == Err::<bool, RenderGraphError>(
                RenderGraphError::InvalidId { kind: "node", raw: child.0 },
            ),
    {
        match self.ensure_node_exists(parent) {
            Ok(()) => {},
            Err(e) => return Err(e),
        }
        match self.ensure_node_exists(child) {
            Ok(()) => {},
            Err(e) => return Err(e),
        }
        Ok(self.find_dependency(kind, parent, child).is_some())
    }

    fn ensure_mutable(&self, operation: &'static str) -> (r: RenderGraphResult<()>)
        ensures
            r is Ok <==> !self.frozen(),
            r is Err ==> r == Err::<(), RenderGraphError>(RenderGraphError::GraphAlreadyBuilt { operation }),
    {
        if self.topology_frozen {
            return Err(RenderGraphError::GraphAlreadyBuilt { operation });
        }
        Ok(())
    }

    /// Returns child nodes for one dependency kind, in list order.
    #[verifier::rlimit(30)]
    pub fn child_nodes(&self, node: RenderNodeId, kind: RenderNodeDependencyKind) -> (r: RenderGraphResult<
        Vec<RenderNodeId>,
    >)
        requires
            self.wf(),
        ensures
            r is Ok <==> self.node_live(node),
            r is Ok ==> r->Ok_0@ == self.child_node_seq(node, kind),
            r is Err ==> r == Err::<Vec<RenderNodeId>, RenderGraphError>(
                RenderGraphError::InvalidId { kind: "node", raw: node.0 },
            ),
    {
        match self.ensure_node_exists(node) {
            Ok(()) => {},
            Err(e) => return Err(e),
        }
        proof {
            self.lemma_out_list_complete(node, kind);
            self.lemma_wf_storage();
        }
        let ghost l = self.child_deps(node, kind);
        let mut children: Vec<RenderNodeId> = Vec::new();
        let data = self.nodes.get(node).unwrap();
        let mut cursor = data.first_child_dependency(kind);
        let ghost mut i: int = 0;
        #[verifier::loop_isolation(false)]
        loop
            invariant
                0 <= i <= l.len(),
                cursor == (if i < l.len() { Some(RenderDependencyId(l[i])) } else { None::<RenderDependencyId> }),
                children@ == l.subrange(0, i).map_values(|d: u32| self.dep_data(RenderDependencyId(d)).child),
            decreases l.len() - i,
        {
            match cursor {
                None => {
                    assert(l.subrange(0, i) == l);
                    return Ok(children);
                },
                Some(dependency_id) => {
                    assert(self.dep_data(RenderDependencyId(self.child_deps(node, kind)[i])).kind == kind);
                    let dependency = self.dependencies.get(dependency_id).unwrap();
                    children.push(dependency.child);
                    cursor = dependency.next_from_parent;
                    proof {
                        assert(l.subrange(0, i + 1).map_values(|d: u32| self.dep_data(RenderDependencyId(d)).child)
                            == l.subrange(0, i).map_values(|d: u32| self.dep_data(RenderDependencyId(d)).child).push(
                            dependency.child));
                        i = i + 1;
                    }
                },
            }
        }
    }

    /// Returns parent nodes for one dependency kind, in list order.
    #[verifier::rlimit(30)]
    pub fn parent_nodes(&self, node: RenderNodeId, kind: RenderNodeDependencyKind) -> (r: RenderGraphResult<
        Vec<RenderNodeId>,
    >)
        requires
            self.wf(),
        ensures
            r is Ok <==> self.node_live(node),
            r is Ok ==> r->Ok_0@ == self.parent_node_seq(node, kind),
            r is Err ==> r == Err::<Vec<RenderNodeId>, RenderGraphError>(
                RenderGraphError::InvalidId { kind: "node", raw: node.0 },
            ),
    {
        match self.ensure_node_exists(node) {
            Ok(()) => {},
            Err(e) => return Err(e),
        }
        proof {
            self.lemma_in_list_complete(node, kind);
            self.lemma_wf_storage();
        }
        let ghost l = self.parent_deps(node, kind);
        let mut parents: Vec<RenderNodeId> = Vec::new();
        let data = self.nodes.get(node).unwrap();
        let mut cursor = data.first_parent_dependency(kind);
        let ghost mut i: int = 0;
        #[verifier::loop_isolation(false)]
        loop
            invariant
                0 <= i <= l.len(),
                cursor == (if i < l.len() { Some(RenderDependencyId(l[i])) } else { None::<RenderDependencyId> }),
                parents@ == l.subrange(0, i).map_values(|d: u32| self.dep_data(RenderDependencyId(d)).parent),
            decreases l.len() - i,
        {
            match cursor {
                None => {
                    assert(l.subrange(0, i) == l);
                    return Ok(parents);
                },
                Some(dependency_id) => {
                    assert(self.dep_data(RenderDependencyId(self.parent_deps(node, kind)[i])).kind == kind);
                    let dependency = self.dependencies.get(dependency_id).unwrap();
                    parents.push(dependency.parent);
                    cursor = dependency.next_from_child;
                    proof {
                        assert(l.subrange(0, i + 1).map_values(|d: u32| self.dep_data(RenderDependencyId(d)).parent)
                            == l.subrange(0, i).map_values(|d: u32| self.dep_data(RenderDependencyId(d)).parent).push(
                            dependency.parent));
                        i = i + 1;
                    }
                },
            }
        }
    }
    proof fn lemma_out_elem(&self, n: u32, k: RenderNodeDependencyKind, i: int)
        requires
            self.out_list_ok(n, k),
            0 <= i < (self.out_lists@)(n, k).len(),
        ensures
            ({
                let l = (self.out_lists@)(n, k);
                &&& self.dependencies.id_live(RenderDependencyId(l[i]))
                &&& self.dependencies.value_at(l[i] as int).kind == k
                &&& self.dependencies.value_at(l[i] as int).parent == RenderNodeId(n)
                &&& self.dependencies.value_at(l[i] as int).next_from_parent == list_next(l, i)
            }),
    {
        let l = (self.out_lists@)(n, k);
        assert(self.dependencies.value_at(l[i] as int).kind == k);
    }
    proof fn lemma_in_elem(&self, n: u32, k: RenderNodeDependencyKind, i: int)
        requires
            self.in_list_ok(n, k),
            0 <= i < (self.in_lists@)(n, k).len(),
        ensures
            ({
                let l = (self.in_lists@)(n, k);
                &&& self.dependencies.id_live(RenderDependencyId(l[i]))
                &&& self.dependencies.value_at(l[i] as int).kind == k
                &&& self.dependencies.value_at(l[i] as int).child == RenderNodeId(n)
                &&& self.dependencies.value_at(l[i] as int).next_from_child == list_next(l, i)
            }),
    {
        let l = (self.in_lists@)(n, k);
        assert(self.dependencies.value_at(l[i] as int).kind == k);
    }
}

} // verus!
