//! Flattening the graph into executable order and assigning flow groups.
use vstd::prelude::*;

use crate::error::{RenderGraphError, RenderGraphResult};
use crate::ids::{RenderDependencyId, RenderNodeId};
use crate::metadata::{spec_dependency_kind_name, spec_is_helper_kind, is_helper_kind, RenderNodeDependencyKind};
use crate::node_topology::{RenderNodeData, RenderNodeExecutionMetadata};
use crate::render_node_graph::RenderNodeGraph;
use crate::tags::RenderFlowGroup;
use crate::render_node_graph::kahn::{kahn_levels, lemma_distinct_cover, order_by_level, sorted_by_level};

verus! {

impl RenderNodeGraph {
    /// The invariant survives a change of node values that keeps every node's
    /// liveness and dependency heads.
    proof fn lemma_node_values_kept_wf(&self, prev: RenderNodeGraph)
        requires
            prev.wf(),
            self.nodes.wf(),
            self.dependencies == prev.dependencies,
            self.out_lists == prev.out_lists,
            self.in_lists == prev.in_lists,
            self.flow_groups_built ==> self.topology_frozen,
            self.nodes.slot_count() == prev.nodes.slot_count(),
            forall|s: int| #![trigger self.nodes.live(s)] self.nodes.live(s) == prev.nodes.live(s),
            forall|s: int, k: RenderNodeDependencyKind|
                #![trigger self.nodes.value_at(s).spec_first_child(k)]
                #![trigger self.nodes.value_at(s).spec_first_parent(k)]
                prev.nodes.live(s) ==> self.nodes.value_at(s).spec_first_child(k) == prev.nodes.value_at(
                    s,
                ).spec_first_child(k) && self.nodes.value_at(s).spec_first_parent(k) == prev.nodes.value_at(
                    s,
                ).spec_first_parent(k),
        ensures
            self.wf(),
    {
        reveal(RenderNodeGraph::wf);
        assert forall|n: u32, k: RenderNodeDependencyKind|
            #![trigger (self.out_lists@)(n, k)]
            self.nodes.id_live(RenderNodeId(n)) implies self.out_list_ok(n, k) by {
            assert(prev.nodes.id_live(RenderNodeId(n)));
            assert(prev.out_list_ok(n, k));
            assert(self.nodes.value_at(n as int).spec_first_child(k) == prev.nodes.value_at(n as int).spec_first_child(k));
        }
        assert forall|n: u32, k: RenderNodeDependencyKind|
            #![trigger (self.in_lists@)(n, k)]
            self.nodes.id_live(RenderNodeId(n)) implies self.in_list_ok(n, k) by {
            assert(prev.nodes.id_live(RenderNodeId(n)));
            assert(prev.in_list_ok(n, k));
            assert(self.nodes.value_at(n as int).spec_first_parent(k) == prev.nodes.value_at(n as int).spec_first_parent(k));
        }
        assert forall|d: u32|
            #![trigger self.dependencies.value_at(d as int)]
            self.dependencies.id_live(RenderDependencyId(d)) implies self.dep_ok(d) by {
            assert(prev.dep_ok(d));
            let data = self.dependencies.value_at(d as int);
            assert(self.nodes.live(data.parent.0 as int) == prev.nodes.live(data.parent.0 as int));
            assert(self.nodes.live(data.child.0 as int) == prev.nodes.live(data.child.0 as int));
        }
    }

    /// Replaces the execution metadata of a live node.
    pub(crate) fn set_node_metadata(&mut self, node: RenderNodeId, metadata: RenderNodeExecutionMetadata)
        requires
            old(self).wf(),
            old(self).node_live(node),
        ensures
            final(self).wf(),
            final(self).node_data(node) == (RenderNodeData { metadata, ..old(self).node_data(node) }),
            final(self).metadata_change_only(*old(self)),
            forall|n: RenderNodeId|
                #![trigger final(self).node_data(n)]
                old(self).node_live(n) && n != node ==> final(self).node_data(n) == old(self).node_data(n),
    {
        proof {
            self.lemma_wf_storage();
            self.nodes.lemma_wf_facts();
        }
        let ghost prev = *self;
        match self.nodes.get_mut(node) {
            Ok(data) => {
                data.metadata = metadata;
            },
            Err(_) => {},
        }
        proof {
            assert forall|s: int| #![trigger self.nodes.live(s)] self.nodes.live(s) == prev.nodes.live(s) by {
                if self.nodes.live(s) || prev.nodes.live(s) {
                    prev.nodes.lemma_wf_facts();
                    self.nodes.lemma_wf_facts();
                }
            }
            assert forall|s: int, k: RenderNodeDependencyKind|
                #![trigger self.nodes.value_at(s).spec_first_child(k)]
                #![trigger self.nodes.value_at(s).spec_first_parent(k)]
                prev.nodes.live(s) implies self.nodes.value_at(s).spec_first_child(k) == prev.nodes.value_at(
                    s,
                ).spec_first_child(k) && self.nodes.value_at(s).spec_first_parent(k) == prev.nodes.value_at(
                    s,
                ).spec_first_parent(k) by {
                prev.nodes.lemma_wf_facts();
                if s != node.0 {
                    assert(self.nodes.value_at(s) == prev.nodes.value_at(s));
                } else {
                    RenderNodeData::lemma_heads_ignore_metadata(prev.nodes.value_at(s), metadata, k);
                }
            }
            assert(prev.flow_groups_built ==> prev.topology_frozen) by {
                reveal(RenderNodeGraph::wf);
            }
            self.lemma_node_values_kept_wf(prev);
        }
    }

    /// Only node execution metadata differs between the two graphs.
    pub open spec fn metadata_change_only(&self, prev: RenderNodeGraph) -> bool {
        &&& self.topology_kept(prev)
        &&& self.frozen() == prev.frozen()
        &&& self.built() == prev.built()
        &&& self.flattened(RenderNodeDependencyKind::Cpu) == prev.flattened(RenderNodeDependencyKind::Cpu)
        &&& self.flattened(RenderNodeDependencyKind::Gpu) == prev.flattened(RenderNodeDependencyKind::Gpu)
    }

    /// The two graphs hold the same nodes, with the same parameters and
    /// dependency lists, and the same dependencies.
    pub open spec fn topology_kept(&self, prev: RenderNodeGraph) -> bool {
        &&& self.node_order() == prev.node_order()
        &&& self.node_slot_count() == prev.node_slot_count()
        &&& self.dep_order() == prev.dep_order()
        &&& self.dep_slot_count() == prev.dep_slot_count()
        &&& forall|n: RenderNodeId| #[trigger] self.node_live(n) == prev.node_live(n)
        &&& forall|n: RenderNodeId|
            #![trigger self.node_data(n)]
            prev.node_live(n) ==> self.node_data(n).params == prev.node_data(n).params
        &&& forall|n: RenderNodeId, k: RenderNodeDependencyKind|
            #![trigger self.child_deps(n, k)]
            #![trigger self.parent_deps(n, k)]
            self.child_deps(n, k) == prev.child_deps(n, k) && self.parent_deps(n, k) == prev.parent_deps(n, k)
        &&& forall|d: RenderDependencyId|
            #![trigger self.dep_live(d)]
            #![trigger self.dep_data(d)]
            self.dep_live(d) == prev.dep_live(d) && self.dep_data(d) == prev.dep_data(d)
    }


    /// Whether some live node is a helper node (sequence begin/end or temporary).
    pub open spec fn has_helper_node(&self) -> bool {
        exists|i: int|
            #![trigger self.node_order()[i]]
            0 <= i < self.node_order().len() && spec_is_helper_kind(
                self.node_data(RenderNodeId(self.node_order()[i])).params.kind,
            )
    }

    /// Validates that helper nodes have been removed.
    pub fn validate_no_helper_nodes(&self) -> (r: RenderGraphResult<()>)
        requires
            self.wf(),
        ensures
            r is Ok <==> !self.has_helper_node(),
            r is Err ==> r == Err::<(), RenderGraphError>(
                RenderGraphError::InvalidMerge { reason: "helper nodes remain after graph finalization" },
            ),
    {
        proof {
            self.lemma_wf_storage();
            self.nodes.lemma_wf_facts();
        }
        let ids = self.node_ids();
        let mut i: usize = 0;
        while i < ids.len()
            invariant
                self.wf(),
                self.nodes.wf(),
                ids@.len() == self.node_order().len(),
                forall|j: int| 0 <= j < ids@.len() ==> #[trigger] ids@[j] == RenderNodeId(self.node_order()[j]),
                i <= ids@.len(),
                forall|j: int|
                    #![trigger self.node_order()[j]]
                    0 <= j < i ==> !spec_is_helper_kind(self.node_data(RenderNodeId(self.node_order()[j])).params.kind),
            decreases ids@.len() - i,
        {
            let node = ids[i];
            proof {
                self.nodes.lemma_wf_facts();
                assert(self.node_order()[i as int] == node.0);
                assert(self.nodes.live(node.0 as int));
            }
            match self.nodes.get(node) {
                Ok(data) => {
                    if is_helper_kind(data.params.kind) {
                        proof {
                            assert(spec_is_helper_kind(self.node_data(RenderNodeId(self.node_order()[i as int])).params.kind));
                        }
                        return Err(RenderGraphError::InvalidMerge { reason: "helper nodes remain after graph finalization" });
                    }
                },
                Err(_) => {},
            }
            i = i + 1;
        }
        Ok(())
    }

    /// Whether `f` lists every live node exactly once and places every parent of
    /// a track-`k` dependency before its child.
    pub open spec fn is_topological_order(&self, k: RenderNodeDependencyKind, f: Seq<RenderNodeId>) -> bool {
        &&& f.len() == self.node_order().len()
        &&& f.no_duplicates()
        &&& forall|i: int| 0 <= i < f.len() ==> self.node_live(#[trigger] f[i])
        &&& forall|u: int|
            #![trigger self.node_order()[u]]
            0 <= u < self.node_order().len() ==> f.contains(RenderNodeId(self.node_order()[u]))
        &&& forall|i: int, j: int|
            #![trigger self.has_edge(k, f[i], f[j])]
            0 <= i < f.len() && 0 <= j < f.len() && self.has_edge(k, f[i], f[j]) ==> i < j
    }

    /// Whether the live nodes can be ordered so that every track-`k` dependency
    /// runs forward, that is, whether track `k` has no dependency cycle.
    pub open spec fn has_topological_order(&self, k: RenderNodeDependencyKind) -> bool {
        exists|f: Seq<RenderNodeId>| self.is_topological_order(k, f)
    }

    /// Whether the stored order of track `k` is a topological order.
    pub open spec fn valid_flattening(&self, k: RenderNodeDependencyKind) -> bool {
        self.is_topological_order(k, self.flattened(k))
    }

    /// A live dependency joins two distinct live nodes.
    pub(crate) proof fn lemma_live_dep_endpoints(&self, d: RenderDependencyId)
        requires
            self.wf(),
            self.dep_live(d),
        ensures
            self.node_live(self.dep_data(d).parent),
            self.node_live(self.dep_data(d).child),
            self.dep_data(d).parent != self.dep_data(d).child,
    {
        reveal(RenderNodeGraph::wf);
        assert(self.dep_ok(d.0));
    }

    /// Validates that the built flattened order of one track lists every live node
    /// once and respects every dependency of that track.
    ///
    /// This checks the result of `build_flow_groups`: before the graph is built
    /// no executable order exists, and the call fails.
    pub fn validate_flattening(&self, kind: RenderNodeDependencyKind) -> (r: RenderGraphResult<()>)
        requires
            self.wf(),
        ensures
            r is Ok <==> self.built() && self.valid_flattening(kind),
            !self.built() ==> r == Err::<(), RenderGraphError>(
                RenderGraphError::InvalidState { reason: "flattened graph order exists only after build_flow_groups" },
            ),
            self.built() && self.flattened(kind).len() != self.node_order().len() ==> r == Err::<(), RenderGraphError>(
                RenderGraphError::InvalidState { reason: "flattened graph order does not contain every live node" },
            ),
            r is Err ==> (r->Err_0 is InvalidState || r->Err_0 is InvalidId),
    {
        if !self.flow_groups_built {
            return Err(
                RenderGraphError::InvalidState { reason: "flattened graph order exists only after build_flow_groups" },
            );
        }
        self.check_flattening(kind)
    }

    /// Checks that the stored order of one track lists every live node once and
    /// respects every dependency of that track.
    fn check_flattening(&self, kind: RenderNodeDependencyKind) -> (r: RenderGraphResult<()>)
        requires
            self.wf(),
        ensures
            r is Ok <==> self.valid_flattening(kind),
            self.flattened(kind).len() != self.node_order().len() ==> r == Err::<(), RenderGraphError>(
                RenderGraphError::InvalidState { reason: "flattened graph order does not contain every live node" },
            ),
            r is Err ==> (r->Err_0 is InvalidState || r->Err_0 is InvalidId),
    {
        proof {
            self.lemma_wf_storage();
            self.nodes.lemma_wf_facts();
            self.dependencies.lemma_wf_facts();
        }
        let flattened = self.flattened_nodes(kind);
        let n = self.nodes.len();
        if flattened.len() != n {
            return Err(RenderGraphError::InvalidState { reason: "flattened graph order does not contain every live node" });
        }
        let ghost f = self.flattened(kind);
        let ghost order = self.nodes.order();
        let mut positions: Vec<usize> = Vec::new();
        let mut u: usize = 0;
        while u < n
            invariant
                positions@.len() == u,
                u <= n,
                forall|j: int| 0 <= j < u ==> positions@[j] == usize::MAX,
            decreases n - u,
        {
            positions.push(usize::MAX);
            u = u + 1;
        }
        let mut position: usize = 0;
        while position < flattened.len()
            invariant
                self.wf(),
                self.nodes.wf(),
                order == self.nodes.order(),
                n == order.len(),
                f == flattened@,
                f == self.flattened(kind),
                f.len() == n,
                positions@.len() == n,
                position <= n,
                forall|j: int|
                    0 <= j < position ==> self.node_live(#[trigger] f[j]) && positions@[self.nodes.position(
                        f[j].0 as int,
                    )] == j,
                forall|w: int|
                    0 <= w < n ==> (#[trigger] positions@[w] == usize::MAX || (positions@[w] < position && f[positions@[w] as int]
                        == RenderNodeId(order[w]))),
                forall|a: int, b: int| 0 <= a < b < position ==> #[trigger] f[a] != #[trigger] f[b],
            decreases n - position,
        {
            let node = flattened[position];
            proof {
                self.nodes.lemma_wf_facts();
            }
            let ui = match self.nodes.usage_index(node) {
                Some(x) => x,
                None => {
                    proof {
                        assert(!self.node_live(f[position as int]));
                    }
                    return Err(RenderGraphError::InvalidId { kind: "node", raw: node.raw() });
                },
            };
            proof {
                assert(order[ui as int] == node.0);
            }
            if positions[ui] != usize::MAX {
                proof {
                    let j = positions@[ui as int] as int;
                    assert(f[j] == RenderNodeId(order[ui as int]));
                    assert(f[j] == f[position as int]);
                    assert(!f.no_duplicates());
                }
                return Err(RenderGraphError::InvalidState { reason: "flattened graph order contains a duplicate node" });
            }
            positions.set(ui, position);
            proof {
                assert forall|j: int|
                    0 <= j < position + 1 implies self.node_live(#[trigger] f[j]) && positions@[self.nodes.position(
                        f[j].0 as int,
                    )] == j by {
                    if j < position {
                        assert(self.nodes.position(f[j].0 as int) != ui) by {
                            if self.nodes.position(f[j].0 as int) == ui {
                                assert(order[ui as int] == f[j].0);
                            }
                        }
                    }
                }
            }
            position = position + 1;
        }
        proof {
            assert(f.no_duplicates());
        }
        let mut w: usize = 0;
        while w < n
            invariant
                self.wf(),
                self.nodes.wf(),
                order == self.nodes.order(),
                n == order.len(),
                f == flattened@,
                f == self.flattened(kind),
                f.len() == n,
                positions@.len() == n,
                forall|j: int|
                    0 <= j < n ==> self.node_live(#[trigger] f[j]) && positions@[self.nodes.position(f[j].0 as int)] == j,
                forall|x: int| 0 <= x < n ==> (#[trigger] positions@[x] == usize::MAX || (positions@[x] < n && f[positions@[x] as int]
                    == RenderNodeId(order[x]))),
                forall|x: int| 0 <= x < w ==> #[trigger] positions@[x] != usize::MAX,
                w <= n,
            decreases n - w,
        {
            if positions[w] == usize::MAX {
                proof {
                    self.nodes.lemma_wf_facts();
                    if f.contains(RenderNodeId(order[w as int])) {
                        let j = choose|j: int| 0 <= j < f.len() && f[j] == RenderNodeId(order[w as int]);
                        assert(self.nodes.position(order[w as int] as int) == w);
                    }
                    assert(!f.contains(RenderNodeId(self.node_order()[w as int])));
                }
                return Err(RenderGraphError::InvalidState { reason: "flattened graph order omitted a live node" });
            }
            w = w + 1;
        }
        let deps = self.dependencies.iter();
        let ghost dorder = self.dependencies.order();
        let mut e: usize = 0;
        while e < deps.len()
            invariant
                self.wf(),
                self.nodes.wf(),
                self.dependencies.wf(),
                order == self.nodes.order(),
                dorder == self.dependencies.order(),
                n == order.len(),
                f == flattened@,
                f == self.flattened(kind),
                f.len() == n,
                positions@.len() == n,
                deps@.len() == dorder.len(),
                forall|i: int|
                    0 <= i < deps@.len() ==> (#[trigger] deps@[i]).0 == RenderDependencyId(dorder[i])
                        && *deps@[i].1 == self.dependencies.value_at(dorder[i] as int),
                forall|j: int|
                    0 <= j < n ==> self.node_live(#[trigger] f[j]) && positions@[self.nodes.position(f[j].0 as int)] == j,
                forall|x: int| 0 <= x < n ==> (#[trigger] positions@[x] != usize::MAX && positions@[x] < n && f[positions@[x] as int]
                    == RenderNodeId(order[x])),
                forall|x: int|
                    #![trigger dorder[x]]
                    0 <= x < e ==> self.dependencies.value_at(dorder[x] as int).kind == kind ==> positions@[self.nodes.position(
                        self.dependencies.value_at(dorder[x] as int).parent.0 as int,
                    )] < positions@[self.nodes.position(self.dependencies.value_at(dorder[x] as int).child.0 as int)],
                e <= deps@.len(),
            decreases deps@.len() - e,
        {
            let item = deps[e];
            let dep = item.1;
            proof {
                self.dependencies.lemma_wf_facts();
                assert(self.dependencies.live(dorder[e as int] as int));
                assert(self.dep_live(RenderDependencyId(dorder[e as int])));
                self.lemma_live_dep_endpoints(RenderDependencyId(dorder[e as int]));
            }
            if dep.kind == kind {
                let pu = match self.nodes.usage_index(dep.parent) {
                    Some(x) => x,
                    None => return Err(RenderGraphError::InvalidId { kind: "node", raw: dep.parent.raw() }),
                };
                let cu = match self.nodes.usage_index(dep.child) {
                    Some(x) => x,
                    None => return Err(RenderGraphError::InvalidId { kind: "node", raw: dep.child.raw() }),
                };
                proof {
                    self.nodes.lemma_wf_facts();
                    assert(self.nodes.live(dep.parent.0 as int));
                    assert(self.nodes.live(dep.child.0 as int));
                    assert(pu as int == self.nodes.position(dep.parent.0 as int));
                    assert(pu < n);
                    assert(cu < n);
                }
                if positions[pu] >= positions[cu] {
                    proof {
                        self.nodes.lemma_wf_facts();
                        let i = positions@[pu as int] as int;
                        let j = positions@[cu as int] as int;
                        assert(order[pu as int] == dep.parent.0);
                        assert(order[cu as int] == dep.child.0);
                        assert(f[i] == dep.parent);
                        assert(f[j] == dep.child);
                        let d = RenderDependencyId(dorder[e as int]);
                        assert(self.dep_data(d) == *dep);
                        assert(self.has_edge(kind, f[i], f[j]));
                    }
                    return Err(RenderGraphError::InvalidState { reason: "flattened graph order violates dependency direction" });
                }
            }
            e = e + 1;
        }
        proof {
            assert forall|i: int, j: int|
                #![trigger self.has_edge(kind, f[i], f[j])]
                0 <= i < f.len() && 0 <= j < f.len() && self.has_edge(kind, f[i], f[j]) implies i < j by {
                let d = choose|d: RenderDependencyId|
                    #![trigger self.dep_data(d)]
                    self.dep_live(d) && self.dep_data(d).kind == kind && self.dep_data(d).parent == f[i]
                        && self.dep_data(d).child == f[j];
                self.dependencies.lemma_wf_facts();
                assert(self.dependencies.live(d.0 as int));
                let x = self.dependencies.position(d.0 as int);
                assert(dorder[x] == d.0);
            }
            assert forall|u: int|
                #![trigger self.node_order()[u]]
                0 <= u < self.node_order().len() implies f.contains(RenderNodeId(self.node_order()[u])) by {
                assert(f[positions@[u] as int] == RenderNodeId(order[u]));
            }
        }
        Ok(())
    }

    /// The live node at usage index `u`.
    pub open spec fn node_at(&self, u: int) -> RenderNodeId {
        RenderNodeId(self.node_order()[u])
    }

    /// Among the indices below `bound` satisfying `s`, one has the least weight.
    #[verifier::spinoff_prover]
    #[verifier::rlimit(40)]
    proof fn lemma_min_weight(s: spec_fn(usize) -> bool, w: spec_fn(usize) -> int, bound: usize, witness: usize)
        requires
            witness < bound,
            s(witness),
        ensures
            exists|m: usize|
                #![trigger s(m)]
                m < bound && s(m) && forall|v: usize| v < bound && #[trigger] s(v) ==> w(m) <= w(v),
        decreases bound,
    {
        if witness + 1 == bound {
            if exists|v: usize| v < witness && #[trigger] s(v) {
                let v = choose|v: usize| v < witness && #[trigger] s(v);
                Self::lemma_min_weight(s, w, witness, v);
                let m = choose|m: usize|
                    #![trigger s(m)]
                    m < witness && s(m) && forall|v: usize| v < witness && #[trigger] s(v) ==> w(m) <= w(v);
                if w(witness) < w(m) {
                    assert forall|v: usize| v < bound && #[trigger] s(v) implies w(witness) <= w(v) by {
                        if v < witness {
                            assert(w(m) <= w(v));
                        }
                    }
                } else {
                    assert forall|v: usize| v < bound && #[trigger] s(v) implies w(m) <= w(v) by {}
                }
            } else {
                assert forall|v: usize| v < bound && #[trigger] s(v) implies w(witness) <= w(v) by {}
            }
        } else {
            Self::lemma_min_weight(s, w, (bound - 1) as usize, witness);
            let m = choose|m: usize|
                #![trigger s(m)]
                m < bound - 1 && s(m) && forall|v: usize| v < bound - 1 && #[trigger] s(v) ==> w(m) <= w(v);
            let last = (bound - 1) as usize;
            if s(last) && w(last) < w(m) {
                assert forall|v: usize| v < bound && #[trigger] s(v) implies w(last) <= w(v) by {
                    if v < last {
                        assert(w(m) <= w(v));
                    }
                }
            } else {
                assert forall|v: usize| v < bound && #[trigger] s(v) implies w(m) <= w(v) by {}
            }
        }
    }

    /// When Kahn's pass leaves some node unready, and every unready node has an
    /// edge from an unready parent, no order of the live nodes respects track `k`:
    /// the unready node placed first would follow its unready parent.
    #[verifier::spinoff_prover]
    #[verifier::rlimit(40)]
    proof fn lemma_stuck_nodes_block_every_order(
        &self,
        k: RenderNodeDependencyKind,
        edges: Seq<(usize, usize)>,
        ready: Seq<usize>,
        levels: Seq<usize>,
    )
        requires
            self.node_order().len() <= usize::MAX,
            forall|j: int|
                0 <= j < edges.len() ==> (#[trigger] edges[j]).0 < self.node_order().len() && edges[j].1
                    < self.node_order().len() && self.has_edge(k, self.node_at(edges[j].0 as int), self.node_at(edges[j].1 as int)),
            ready.no_duplicates(),
            forall|i: int| 0 <= i < ready.len() ==> (#[trigger] ready[i] as int) < self.node_order().len(),
            ready.len() < self.node_order().len(),
            forall|u: usize|
                #![trigger levels[u as int]]
                (u as int) < self.node_order().len() && !ready.contains(u) ==> exists|j: int|
                    0 <= j < edges.len() && (#[trigger] edges[j]).1 == u && !ready.contains(edges[j].0),
        ensures
            !self.has_topological_order(k),
    {
        let n = self.node_order().len() as int;
        lemma_distinct_cover(ready, n);
        let u0 = choose|u: usize| (u as int) < n && !#[trigger] ready.contains(u);
        if self.has_topological_order(k) {
            let f = choose|f: Seq<RenderNodeId>| self.is_topological_order(k, f);
            let s = |u: usize| (u as int) < n && !ready.contains(u);
            let w = |u: usize| f.index_of(self.node_at(u as int));
            assert(s(u0));
            Self::lemma_min_weight(s, w, n as usize, u0);
            let m = choose|m: usize|
                #![trigger s(m)]
                m < n as usize && s(m) && forall|v: usize| v < n as usize && #[trigger] s(v) ==> w(m) <= w(v);
            assert(!ready.contains(m));
            // Naming `levels[m]` brings the requirement on unready nodes to bear on `m`.
            let lm = levels[m as int];
            assert(exists|j: int| 0 <= j < edges.len() && (#[trigger] edges[j]).1 == m && !ready.contains(edges[j].0));
            let j = choose|j: int| 0 <= j < edges.len() && (#[trigger] edges[j]).1 == m && !ready.contains(edges[j].0);
            let p = edges[j].0;
            assert(s(p));
            assert(w(m) <= w(p));
            let ip = w(p);
            let im = w(m);
            assert(0 <= ip < f.len() && f[ip] == self.node_at(p as int)) by {
                assert(f.contains(RenderNodeId(self.node_order()[p as int])));
            }
            assert(0 <= im < f.len() && f[im] == self.node_at(m as int)) by {
                assert(f.contains(RenderNodeId(self.node_order()[m as int])));
            }
            assert(self.has_edge(k, f[ip], f[im])) by {
                assert(self.has_edge(k, self.node_at(edges[j].0 as int), self.node_at(edges[j].1 as int)));
            }
        }
    }

    /// When every node became ready, listing the nodes by level (ties by usage
    /// index) gives a topological order of track `k`.
    proof fn lemma_level_order_is_topological(
        &self,
        k: RenderNodeDependencyKind,
        edges: Seq<(usize, usize)>,
        ready: Seq<usize>,
        levels: Seq<usize>,
        sorted: Seq<usize>,
        flattened: Seq<RenderNodeId>,
    )
        requires
            self.wf(),
            self.node_order().len() <= usize::MAX,
            forall|x: int|
                #![trigger self.dependencies.order()[x]]
                0 <= x < self.dependencies.order().len() && self.dependencies.value_at(self.dependencies.order()[x] as int).kind
                    == k ==> edges.contains(
                    (
                        self.nodes.position(self.dependencies.value_at(self.dependencies.order()[x] as int).parent.0 as int) as usize,
                        self.nodes.position(self.dependencies.value_at(self.dependencies.order()[x] as int).child.0 as int) as usize,
                    ),
                ),
            ready.no_duplicates(),
            forall|i: int| 0 <= i < ready.len() ==> (#[trigger] ready[i] as int) < self.node_order().len(),
            ready.len() == self.node_order().len(),
            levels.len() == self.node_order().len(),
            forall|j: int|
                0 <= j < edges.len() && ready.contains((#[trigger] edges[j]).0) ==> levels[edges[j].1 as int]
                    > levels[edges[j].0 as int],
            sorted.len() == self.node_order().len(),
            sorted.no_duplicates(),
            forall|i: int| 0 <= i < sorted.len() ==> (#[trigger] sorted[i] as int) < self.node_order().len(),
            forall|u: usize| (u as int) < self.node_order().len() ==> #[trigger] sorted.contains(u),
            sorted_by_level(sorted, levels),
            flattened.len() == sorted.len(),
            forall|x: int| 0 <= x < flattened.len() ==> #[trigger] flattened[x] == self.node_at(sorted[x] as int),
        ensures
            self.is_topological_order(k, flattened),
    {
        let n = self.node_order().len() as int;
        self.lemma_wf_storage();
        self.nodes.lemma_wf_facts();
        self.dependencies.lemma_wf_facts();
        self.lemma_node_order_distinct();
        lemma_distinct_cover(ready, n);
        let order = self.node_order();
        assert forall|x: int, y: int|
            0 <= x < flattened.len() && 0 <= y < flattened.len() && x != y implies flattened[x] != flattened[y] by {
            assert(flattened[x] == self.node_at(sorted[x] as int));
            assert(flattened[y] == self.node_at(sorted[y] as int));
            assert(sorted[x] != sorted[y]);
            assert(order[sorted[x] as int] != order[sorted[y] as int]);
        }
        assert forall|i: int| 0 <= i < flattened.len() implies self.node_live(#[trigger] flattened[i]) by {
            assert(flattened[i] == self.node_at(sorted[i] as int));
            assert(self.node_live(RenderNodeId(order[sorted[i] as int])));
        }
        assert forall|u: int|
            #![trigger self.node_order()[u]]
            0 <= u < self.node_order().len() implies flattened.contains(RenderNodeId(self.node_order()[u])) by {
            assert(sorted.contains(u as usize));
            let x = choose|x: int| 0 <= x < sorted.len() && sorted[x] == u as usize;
            assert(flattened[x] == self.node_at(u));
        }
        assert forall|i: int, j: int|
            #![trigger self.has_edge(k, flattened[i], flattened[j])]
            0 <= i < flattened.len() && 0 <= j < flattened.len() && self.has_edge(k, flattened[i], flattened[j]) implies i
                < j by {
            let d = choose|d: RenderDependencyId|
                #![trigger self.dep_data(d)]
                self.dep_live(d) && self.dep_data(d).kind == k && self.dep_data(d).parent == flattened[i]
                    && self.dep_data(d).child == flattened[j];
            assert(self.dependencies.id_live(d));
            assert(self.dependencies.live(d.0 as int));
            let x = self.dependencies.position(d.0 as int);
            assert(self.dependencies.order()[x] == d.0);
            assert(self.dependencies.value_at(self.dependencies.order()[x] as int) == self.dep_data(d));
            let si = sorted[i];
            let sj = sorted[j];
            assert(flattened[i] == self.node_at(si as int));
            assert(flattened[j] == self.node_at(sj as int));
            assert(self.nodes.position(order[si as int] as int) == si as int);
            assert(self.nodes.position(order[sj as int] as int) == sj as int);
            let pair = (si, sj);
            assert(edges.contains(pair));
            let q = choose|q: int| 0 <= q < edges.len() && edges[q] == pair;
            assert(ready.contains(si));
            assert(levels[sj as int] > levels[si as int]);
            if j < i {
                assert(levels[sorted[j] as int] < levels[sorted[i] as int] || (levels[sorted[j] as int]
                    == levels[sorted[i] as int] && sorted[j] < sorted[i]));
            }
        }
    }

    /// Position of a live node in the usage order.
    pub open spec fn usage_rank(&self, n: RenderNodeId) -> int {
        choose|u: int| 0 <= u < self.node_order().len() && self.node_order()[u] == n.0
    }

    /// `lv` gives the node at each usage position its dependency level on track
    /// `k`: every track-`k` dependency leads to a higher level, and a node above
    /// level zero sits exactly one above some parent. On a track without cycles
    /// this is the length of the longest chain of dependencies ending at the node.
    pub open spec fn is_level_seq(&self, k: RenderNodeDependencyKind, lv: Seq<int>) -> bool {
        let n = self.node_order().len() as int;
        &&& lv.len() == n
        &&& forall|a: int, b: int|
            0 <= a < n && 0 <= b < n && #[trigger] self.has_edge(k, self.node_at(a), self.node_at(b)) ==> lv[a] < lv[b]
        &&& forall|b: int| 0 <= b < n ==> 0 <= #[trigger] lv[b]
        &&& forall|b: int|
            0 <= b < n && #[trigger] lv[b] > 0 ==> exists|a: int|
                0 <= a < n && #[trigger] self.has_edge(k, self.node_at(a), self.node_at(b)) && lv[b] == lv[a] + 1
    }

    /// `f` lists nodes by dependency level on track `k`, nodes of one level in
    /// usage order.
    pub open spec fn is_level_order(&self, k: RenderNodeDependencyKind, f: Seq<RenderNodeId>) -> bool {
        exists|lv: Seq<int>|
            #[trigger] self.is_level_seq(k, lv) && forall|i: int, j: int|
                0 <= i < j < f.len() ==> lv[self.usage_rank(#[trigger] f[i])] < lv[self.usage_rank(#[trigger] f[j])] || (
                lv[self.usage_rank(f[i])] == lv[self.usage_rank(f[j])] && self.usage_rank(f[i]) < self.usage_rank(f[j]))
    }

    /// The usage rank of the node at position `u` is `u`.
    proof fn lemma_usage_rank_at(&self, u: int)
        requires
            self.wf(),
            0 <= u < self.node_order().len(),
        ensures
            self.usage_rank(self.node_at(u)) == u,
    {
        self.lemma_node_order_distinct();
        let w = self.usage_rank(self.node_at(u));
        assert(0 <= w < self.node_order().len() && self.node_order()[w] == self.node_order()[u]);
    }

    /// Along a topological order, two level assignments agree on the first `i`
    /// nodes.
    proof fn lemma_levels_agree_upto(
        &self,
        k: RenderNodeDependencyKind,
        f: Seq<RenderNodeId>,
        lv1: Seq<int>,
        lv2: Seq<int>,
        i: int,
    )
        requires
            self.wf(),
            self.is_topological_order(k, f),
            self.is_level_seq(k, lv1),
            self.is_level_seq(k, lv2),
            0 <= i <= f.len(),
        ensures
            forall|m: int| 0 <= m < i ==> lv1[self.usage_rank(#[trigger] f[m])] == lv2[self.usage_rank(f[m])],
        decreases i,
    {
        if i > 0 {
            self.lemma_levels_agree_upto(k, f, lv1, lv2, i - 1);
            self.lemma_orders_list_live();
            let n = self.node_order().len() as int;
            let x = f[i - 1];
            assert(self.node_live(x));
            assert(self.node_order().contains(x.0));
            let b = self.usage_rank(x);
            assert(0 <= b < n && self.node_order()[b] == x.0);
            assert(self.node_at(b) == x);
            assert forall|lv: Seq<int>, other: Seq<int>|
                (lv == lv1 && other == lv2) || (lv == lv2 && other == lv1) implies lv[b] <= other[b] by {
                if lv[b] > 0 {
                    let a = choose|a: int|
                        0 <= a < n && #[trigger] self.has_edge(k, self.node_at(a), self.node_at(b)) && lv[b] == lv[a] + 1;
                    assert(f.contains(RenderNodeId(self.node_order()[a])));
                    let m = choose|m: int| 0 <= m < f.len() && f[m] == RenderNodeId(self.node_order()[a]);
                    assert(f[m] == self.node_at(a));
                    assert(self.has_edge(k, f[m], f[i - 1]));
                    assert(m < i - 1);
                    self.lemma_usage_rank_at(a);
                    assert(lv1[a] == lv2[a]);
                    assert(other[a] < other[b]);
                }
            }
        }
    }

    /// A track without dependency cycles has exactly one level assignment.
    pub proof fn lemma_level_seq_unique(&self, k: RenderNodeDependencyKind, lv1: Seq<int>, lv2: Seq<int>)
        requires
            self.wf(),
            self.has_topological_order(k),
            self.is_level_seq(k, lv1),
            self.is_level_seq(k, lv2),
        ensures
            lv1 == lv2,
    {
        let f = choose|f: Seq<RenderNodeId>| self.is_topological_order(k, f);
        self.lemma_levels_agree_upto(k, f, lv1, lv2, f.len() as int);
        let n = self.node_order().len() as int;
        assert forall|b: int| 0 <= b < n implies lv1[b] == lv2[b] by {
            assert(f.contains(RenderNodeId(self.node_order()[b])));
            let m = choose|m: int| 0 <= m < f.len() && f[m] == RenderNodeId(self.node_order()[b]);
            self.lemma_usage_rank_at(b);
            assert(f[m] == self.node_at(b));
        }
        assert(lv1 =~= lv2);
    }

    /// The levels Kahn's algorithm computed over every node of the track are the
    /// track's dependency levels, and the level-sorted order is a level order.
    proof fn lemma_kahn_levels_are_levels(
        &self,
        k: RenderNodeDependencyKind,
        edges: Seq<(usize, usize)>,
        ready: Seq<usize>,
        levels: Seq<usize>,
        sorted: Seq<usize>,
        flattened: Seq<RenderNodeId>,
    )
        requires
            self.wf(),
            forall|x: int|
                #![trigger self.dependencies.order()[x]]
                0 <= x < self.dependencies.order().len() && self.dependencies.value_at(self.dependencies.order()[x] as int).kind
                    == k ==> edges.contains(
                    (
                        self.nodes.position(self.dependencies.value_at(self.dependencies.order()[x] as int).parent.0 as int) as usize,
                        self.nodes.position(self.dependencies.value_at(self.dependencies.order()[x] as int).child.0 as int) as usize,
                    ),
                ),
            forall|j: int|
                0 <= j < edges.len() ==> (#[trigger] edges[j]).0 < self.node_order().len() && edges[j].1
                    < self.node_order().len() && self.has_edge(k, self.node_at(edges[j].0 as int), self.node_at(edges[j].1 as int)),
            ready.no_duplicates(),
            forall|i: int| 0 <= i < ready.len() ==> (#[trigger] ready[i] as int) < self.node_order().len(),
            ready.len() == self.node_order().len(),
            levels.len() == self.node_order().len(),
            forall|j: int|
                0 <= j < edges.len() && ready.contains((#[trigger] edges[j]).0) ==> levels[edges[j].1 as int]
                    > levels[edges[j].0 as int],
            forall|c: int|
                0 <= c < levels.len() && #[trigger] levels[c] > 0 ==> exists|j: int|
                    0 <= j < edges.len() && (#[trigger] edges[j]).1 == c && ready.contains(edges[j].0) && levels[c]
                        == levels[edges[j].0 as int] + 1,
            sorted.len() == self.node_order().len(),
            forall|i: int| 0 <= i < sorted.len() ==> (#[trigger] sorted[i] as int) < self.node_order().len(),
            sorted_by_level(sorted, levels),
            flattened.len() == sorted.len(),
            forall|x: int| 0 <= x < flattened.len() ==> #[trigger] flattened[x] == self.node_at(sorted[x] as int),
        ensures
            self.is_level_order(k, flattened),
    {
        let n = self.node_order().len() as int;
        self.lemma_wf_storage();
        self.nodes.lemma_wf_facts();
        self.dependencies.lemma_wf_facts();
        self.lemma_node_order_distinct();
        lemma_distinct_cover(ready, n);
        let order = self.node_order();
        let lv = Seq::new(levels.len(), |i: int| levels[i] as int);
        assert forall|a: int, b: int|
            0 <= a < n && 0 <= b < n && #[trigger] self.has_edge(k, self.node_at(a), self.node_at(b)) implies lv[a]
                < lv[b] by {
            let d = choose|d: RenderDependencyId|
                #![trigger self.dep_data(d)]
                self.dep_live(d) && self.dep_data(d).kind == k && self.dep_data(d).parent == self.node_at(a)
                    && self.dep_data(d).child == self.node_at(b);
            assert(self.dependencies.id_live(d));
            assert(self.dependencies.live(d.0 as int));
            let x = self.dependencies.position(d.0 as int);
            assert(self.dependencies.order()[x] == d.0);
            assert(self.dependencies.value_at(self.dependencies.order()[x] as int) == self.dep_data(d));
            assert(self.nodes.position(order[a] as int) == a);
            assert(self.nodes.position(order[b] as int) == b);
            let pair = (a as usize, b as usize);
            assert(edges.contains(pair));
            let q = choose|q: int| 0 <= q < edges.len() && edges[q] == pair;
            assert(ready.contains(a as usize));
            assert(levels[b] > levels[a]);
        }
        assert forall|b: int| 0 <= b < n && #[trigger] lv[b] > 0 implies exists|a: int|
            0 <= a < n && #[trigger] self.has_edge(k, self.node_at(a), self.node_at(b)) && lv[b] == lv[a] + 1 by {
            assert(levels[b] > 0);
            let j = choose|j: int|
                0 <= j < edges.len() && (#[trigger] edges[j]).1 == b && ready.contains(edges[j].0) && levels[b]
                    == levels[edges[j].0 as int] + 1;
            let a = edges[j].0 as int;
            assert(self.has_edge(k, self.node_at(a), self.node_at(b)));
        }
        assert(self.is_level_seq(k, lv));
        assert forall|u: int| 0 <= u < n implies #[trigger] self.usage_rank(self.node_at(u)) == u by {
            let w = self.usage_rank(self.node_at(u));
            assert(0 <= w < n && order[w] == order[u]);
        }
        assert forall|i: int, j: int|
            0 <= i < j < flattened.len() implies lv[self.usage_rank(#[trigger] flattened[i])] < lv[self.usage_rank(
                #[trigger] flattened[j],
            )] || (lv[self.usage_rank(flattened[i])] == lv[self.usage_rank(flattened[j])] && self.usage_rank(flattened[i])
                < self.usage_rank(flattened[j])) by {
            assert(self.usage_rank(self.node_at(sorted[i] as int)) == sorted[i] as int);
            assert(self.usage_rank(self.node_at(sorted[j] as int)) == sorted[j] as int);
        }
    }

    /// Orders the live nodes of one track by dependency level (the longest chain
    /// of track-`kind` parents above them), ties broken by usage order. Fails
    /// with `CycleDetected`, counting the nodes that never became ready, exactly
    /// when the track has a dependency cycle.
    fn build_flattening_for_kind(&self, kind: RenderNodeDependencyKind) -> (r: RenderGraphResult<Vec<RenderNodeId>>)
        requires
            self.wf(),
        ensures
            r is Ok <==> self.has_topological_order(kind),
            r is Ok ==> self.is_topological_order(kind, r->Ok_0@),
            r is Ok ==> self.is_level_order(kind, r->Ok_0@),
            r is Err ==> (match r->Err_0 {
                RenderGraphError::CycleDetected { dependency_kind, remaining_nodes } =>
                    dependency_kind@ == spec_dependency_kind_name(kind) && remaining_nodes > 0
                        && remaining_nodes <= self.node_order().len(),
                _ => false,
            }),
    {
        proof {
            self.lemma_wf_storage();
            self.nodes.lemma_wf_facts();
            self.dependencies.lemma_wf_facts();
        }
        let node_ids = self.node_ids();
        let node_count = node_ids.len();
        let ghost order = self.nodes.order();
        // Edges of this track as (parent usage index, child usage index), in dependency order.
        let mut edges: Vec<(usize, usize)> = Vec::new();
        let deps = self.dependencies.iter();
        let ghost dorder = self.dependencies.order();
        let mut e: usize = 0;
        while e < deps.len()
            invariant
                self.wf(),
                self.nodes.wf(),
                self.dependencies.wf(),
                order == self.nodes.order(),
                dorder == self.dependencies.order(),
                node_count == order.len(),
                deps@.len() == dorder.len(),
                forall|i: int|
                    0 <= i < deps@.len() ==> (#[trigger] deps@[i]).0 == RenderDependencyId(dorder[i])
                        && *deps@[i].1 == self.dependencies.value_at(dorder[i] as int),
                forall|j: int|
                    0 <= j < edges@.len() ==> (#[trigger] edges@[j]).0 < node_count && edges@[j].1 < node_count
                        && edges@[j].0 != edges@[j].1 && self.has_edge(kind, self.node_at(edges@[j].0 as int), self.node_at(edges@[j].1 as int)),
                forall|x: int|
                    #![trigger dorder[x]]
                    0 <= x < e && self.dependencies.value_at(dorder[x] as int).kind == kind ==> edges@.contains(
                        (
                            self.nodes.position(self.dependencies.value_at(dorder[x] as int).parent.0 as int) as usize,
                            self.nodes.position(self.dependencies.value_at(dorder[x] as int).child.0 as int) as usize,
                        ),
                    ),
                e <= deps@.len(),
            decreases deps@.len() - e,
        {
            let item = deps[e];
            let dep = item.1;
            let ghost before = edges@;
            if dep.kind == kind {
                proof {
                    self.dependencies.lemma_wf_facts();
                    self.nodes.lemma_wf_facts();
                    assert(self.dependencies.live(dorder[e as int] as int));
                    assert(self.dep_live(RenderDependencyId(dorder[e as int])));
                    self.lemma_live_dep_endpoints(RenderDependencyId(dorder[e as int]));
                    assert(self.nodes.live(dep.parent.0 as int));
                    assert(self.nodes.live(dep.child.0 as int));
                }
                let parent_index = match self.nodes.usage_index(dep.parent) {
                    Some(x) => x,
                    None => return Err(RenderGraphError::InvalidId { kind: "node", raw: dep.parent.raw() }),
                };
                let child_index = match self.nodes.usage_index(dep.child) {
                    Some(x) => x,
                    None => return Err(RenderGraphError::InvalidId { kind: "node", raw: dep.child.raw() }),
                };
                edges.push((parent_index, child_index));
                proof {
                    let d = RenderDependencyId(dorder[e as int]);
                    assert(self.dep_data(d) == *dep);
                    assert(order[parent_index as int] == dep.parent.0);
                    assert(order[child_index as int] == dep.child.0);
                    assert(self.node_at(parent_index as int) == dep.parent);
                    assert(self.node_at(child_index as int) == dep.child);
                    assert(parent_index != child_index);
                    assert(edges@[edges@.len() - 1] == (parent_index, child_index));
                }
            }
            proof {
                assert forall|j: int| 0 <= j < before.len() implies edges@[j] == before[j] by {}
                assert forall|x: int|
                    #![trigger dorder[x]]
                    0 <= x < e + 1 && self.dependencies.value_at(dorder[x] as int).kind == kind implies edges@.contains(
                        (
                            self.nodes.position(self.dependencies.value_at(dorder[x] as int).parent.0 as int) as usize,
                            self.nodes.position(self.dependencies.value_at(dorder[x] as int).child.0 as int) as usize,
                        ),
                    ) by {
                    if x < e {
                        let pair = (
                            self.nodes.position(self.dependencies.value_at(dorder[x] as int).parent.0 as int) as usize,
                            self.nodes.position(self.dependencies.value_at(dorder[x] as int).child.0 as int) as usize,
                        );
                        assert(before.contains(pair));
                        let j = choose|j: int| 0 <= j < before.len() && before[j] == pair;
                        assert(edges@[j] == pair);
                    } else {
                        assert(edges@[edges@.len() - 1] == (
                            self.nodes.position(self.dependencies.value_at(dorder[x] as int).parent.0 as int) as usize,
                            self.nodes.position(self.dependencies.value_at(dorder[x] as int).child.0 as int) as usize,
                        ));
                    }
                }
            }
            e = e + 1;
        }
        let (ready, levels) = kahn_levels(node_count, &edges);
        let processed = ready.len();
        if processed != node_count {
            proof {
                self.lemma_stuck_nodes_block_every_order(kind, edges@, ready@, levels@);
            }
            return Err(RenderGraphError::CycleDetected { dependency_kind: kind.name(), remaining_nodes: node_count - processed });
        }
        let sorted = order_by_level(&levels);
        let mut flattened: Vec<RenderNodeId> = Vec::new();
        let mut i: usize = 0;
        while i < sorted.len()
            invariant
                self.wf(),
                node_ids@.len() == node_count,
                order == self.nodes.order(),
                node_count == order.len(),
                sorted@.len() == node_count,
                forall|x: int| 0 <= x < sorted@.len() ==> (#[trigger] sorted@[x]) < node_count,
                forall|x: int| 0 <= x < node_ids@.len() ==> #[trigger] node_ids@[x] == RenderNodeId(self.node_order()[x]),
                i <= sorted@.len(),
                flattened@.len() == i,
                forall|x: int| 0 <= x < i ==> #[trigger] flattened@[x] == self.node_at(sorted@[x] as int),
            decreases sorted@.len() - i,
        {
            flattened.push(node_ids[sorted[i]]);
            i = i + 1;
        }
        proof {
            self.lemma_level_order_is_topological(kind, edges@, ready@, levels@, sorted@, flattened@);
            self.lemma_kahn_levels_are_levels(kind, edges@, ready@, levels@, sorted@, flattened@);
        }
        Ok(flattened)
    }

    /// The flattening predicates read only nodes, dependencies and flattened orders.
    proof fn lemma_flattening_facts_same(&self, other: RenderNodeGraph, k: RenderNodeDependencyKind)
        requires
            self.nodes == other.nodes,
            self.dependencies == other.dependencies,
            self.flattened(k) == other.flattened(k),
        ensures
            self.valid_flattening(k) == other.valid_flattening(k),
            self.flow_groups_match(k) == other.flow_groups_match(k),
    {
        let f = self.flattened(k);
        assert(self.node_order() == other.node_order());
        assert forall|p: RenderNodeId, c: RenderNodeId| #[trigger] self.has_edge(k, p, c) == other.has_edge(k, p, c) by {
            if self.has_edge(k, p, c) {
                let d = choose|d: RenderDependencyId|
                    #![trigger self.dep_data(d)]
                    self.dep_live(d) && self.dep_data(d).kind == k && self.dep_data(d).parent == p
                        && self.dep_data(d).child == c;
                assert(other.dep_data(d) == self.dep_data(d));
            }
            if other.has_edge(k, p, c) {
                let d = choose|d: RenderDependencyId|
                    #![trigger other.dep_data(d)]
                    other.dep_live(d) && other.dep_data(d).kind == k && other.dep_data(d).parent == p
                        && other.dep_data(d).child == c;
                assert(other.dep_data(d) == self.dep_data(d));
            }
        }
        if self.valid_flattening(k) {
            assert forall|i: int| 0 <= i < f.len() implies other.node_live(#[trigger] f[i]) by {
                assert(self.node_live(f[i]));
            }
            assert forall|i: int, j: int|
                #![trigger other.has_edge(k, f[i], f[j])]
                0 <= i < f.len() && 0 <= j < f.len() && other.has_edge(k, f[i], f[j]) implies i < j by {
                assert(self.has_edge(k, f[i], f[j]));
            }
        }
        if other.valid_flattening(k) {
            assert forall|i: int| 0 <= i < f.len() implies self.node_live(#[trigger] f[i]) by {
                assert(other.node_live(f[i]));
            }
            assert forall|i: int, j: int|
                #![trigger self.has_edge(k, f[i], f[j])]
                0 <= i < f.len() && 0 <= j < f.len() && self.has_edge(k, f[i], f[j]) implies i < j by {
                assert(other.has_edge(k, f[i], f[j]));
            }
        }
        if self.flow_groups_match(k) {
            assert forall|i: int| 0 <= i < f.len() implies (#[trigger] other.node_data(f[i])).metadata.spec_flow_group(k)
                == Some(RenderFlowGroup(i as u16)) by {
                assert(self.node_data(f[i]) == other.node_data(f[i]));
            }
        }
        if other.flow_groups_match(k) {
            assert forall|i: int| 0 <= i < f.len() implies (#[trigger] self.node_data(f[i])).metadata.spec_flow_group(k)
                == Some(RenderFlowGroup(i as u16)) by {
                assert(self.node_data(f[i]) == other.node_data(f[i]));
            }
        }
    }

    /// Keeping the topology, and changing at most flow groups, compose.
    proof fn lemma_kept_trans(a: RenderNodeGraph, b: RenderNodeGraph, c: RenderNodeGraph)
        requires
            b.topology_kept(a),
            c.topology_kept(b),
            b.only_flow_groups_changed(a),
            c.only_flow_groups_changed(b),
        ensures
            c.topology_kept(a),
            c.only_flow_groups_changed(a),
    {
        assert forall|n: RenderNodeId| #![trigger c.node_data(n)] a.node_live(n) implies c.node_data(n).params
            == a.node_data(n).params && c.node_data(n).metadata.camera_index == a.node_data(n).metadata.camera_index
            && c.node_data(n).metadata.group_id == a.node_data(n).metadata.group_id by {
            assert(b.node_live(n));
            assert(b.node_data(n).params == a.node_data(n).params);
        }
        assert forall|n: RenderNodeId| #[trigger] c.node_live(n) == a.node_live(n) by {
            assert(b.node_live(n) == a.node_live(n));
        }
        assert forall|n: RenderNodeId, k: RenderNodeDependencyKind|
            #![trigger c.child_deps(n, k)]
            #![trigger c.parent_deps(n, k)]
            c.child_deps(n, k) == a.child_deps(n, k) && c.parent_deps(n, k) == a.parent_deps(n, k) by {
            assert(b.child_deps(n, k) == a.child_deps(n, k));
            assert(b.parent_deps(n, k) == a.parent_deps(n, k));
        }
        assert forall|d: RenderDependencyId|
            #![trigger c.dep_live(d)]
            #![trigger c.dep_data(d)]
            c.dep_live(d) == a.dep_live(d) && c.dep_data(d) == a.dep_data(d) by {
            assert(b.dep_live(d) == a.dep_live(d));
            assert(b.dep_data(d) == a.dep_data(d));
        }
    }

    /// Equal storage and lists keep the topology and all node data.
    /// A topological order stays one when liveness, usage order and dependencies
    /// are unchanged.
    proof fn lemma_topological_order_kept(
        &self,
        prev: RenderNodeGraph,
        k: RenderNodeDependencyKind,
        f: Seq<RenderNodeId>,
    )
        requires
            self.topology_kept(prev),
            prev.is_topological_order(k, f),
        ensures
            self.is_topological_order(k, f),
    {
        assert forall|p: RenderNodeId, c: RenderNodeId| #[trigger] self.has_edge(k, p, c) implies prev.has_edge(k, p, c) by {
            let d = choose|d: RenderDependencyId|
                #![trigger self.dep_data(d)]
                self.dep_live(d) && self.dep_data(d).kind == k && self.dep_data(d).parent == p
                    && self.dep_data(d).child == c;
            assert(prev.dep_data(d) == self.dep_data(d));
        }
        assert forall|i: int| 0 <= i < f.len() implies self.node_live(#[trigger] f[i]) by {
            assert(prev.node_live(f[i]));
        }
    }

    proof fn lemma_kept_same_fields(&self, other: RenderNodeGraph)
        requires
            self.nodes == other.nodes,
            self.dependencies == other.dependencies,
            self.out_lists == other.out_lists,
            self.in_lists == other.in_lists,
        ensures
            self.topology_kept(other),
            self.only_flow_groups_changed(other),
    {
    }

    /// Refuses more nodes than 16-bit flow group indices can number.
    fn validate_flow_group_capacity(node_count: usize) -> (r: RenderGraphResult<()>)
        ensures
            r is Ok <==> node_count <= 65536,
            r is Err ==> r == Err::<(), RenderGraphError>(
                RenderGraphError::InvalidState { reason: "render graph flow group index exceeded u16 range" },
            ),
    {
        if node_count > 65536 {
            return Err(RenderGraphError::InvalidState { reason: "render graph flow group index exceeded u16 range" });
        }
        Ok(())
    }

    /// Every node of the flattened order of track `k` carries its position as its
    /// track-`k` flow group.
    pub open spec fn flow_groups_match(&self, k: RenderNodeDependencyKind) -> bool {
        forall|i: int|
            0 <= i < self.flattened(k).len() ==> (#[trigger] self.node_data(self.flattened(k)[i])).metadata.spec_flow_group(k)
                == Some(RenderFlowGroup(i as u16))
    }

    /// The execution metadata of every node differs at most in its flow groups.
    pub open spec fn only_flow_groups_changed(&self, prev: RenderNodeGraph) -> bool {
        forall|n: RenderNodeId|
            #![trigger self.node_data(n)]
            prev.node_live(n) ==> self.node_data(n).metadata.camera_index == prev.node_data(n).metadata.camera_index
                && self.node_data(n).metadata.group_id == prev.node_data(n).metadata.group_id
    }

    /// Writes position-numbered flow groups of track `kind` on the nodes of `order`.
    fn assign_flow_groups(&mut self, kind: RenderNodeDependencyKind, order: &Vec<RenderNodeId>)
        requires
            old(self).wf(),
            order@.len() <= 65536,
            forall|i: int| 0 <= i < order@.len() ==> old(self).node_live(#[trigger] order@[i]),
        ensures
            final(self).wf(),
            final(self).metadata_change_only(*old(self)),
            final(self).only_flow_groups_changed(*old(self)),
            forall|i: int|
                0 <= i < order@.len() ==> (forall|j: int| i < j < order@.len() ==> order@[j] != order@[i]) ==> (
                #[trigger] final(self).node_data(order@[i])).metadata.spec_flow_group(kind) == Some(
                    RenderFlowGroup(i as u16),
                ),
            forall|n: RenderNodeId, k: RenderNodeDependencyKind|
                #![trigger final(self).node_data(n).metadata.spec_flow_group(k)]
                old(self).node_live(n) && k != kind ==> final(self).node_data(n).metadata.spec_flow_group(k)
                    == old(self).node_data(n).metadata.spec_flow_group(k),
    {
        let ghost start = *self;
        let mut position: usize = 0;
        while position < order.len()
            invariant
                self.wf(),
                start.wf(),
                order@.len() <= 65536,
                forall|i: int| 0 <= i < order@.len() ==> start.node_live(#[trigger] order@[i]),
                self.metadata_change_only(start),
                self.only_flow_groups_changed(start),
                position <= order@.len(),
                forall|i: int|
                    0 <= i < position ==> (forall|j: int| i < j < position ==> order@[j] != order@[i]) ==> (
                    #[trigger] self.node_data(order@[i])).metadata.spec_flow_group(kind) == Some(
                        RenderFlowGroup(i as u16),
                    ),
                forall|n: RenderNodeId, k: RenderNodeDependencyKind|
                    #![trigger self.node_data(n).metadata.spec_flow_group(k)]
                    start.node_live(n) && k != kind ==> self.node_data(n).metadata.spec_flow_group(k)
                        == start.node_data(n).metadata.spec_flow_group(k),
            decreases order@.len() - position,
        {
            let node = order[position];
            proof {
                self.lemma_wf_storage();
                assert(self.node_live(node));
            }
            let mut metadata = match self.nodes.get(node) {
                Ok(data) => data.metadata,
                Err(_) => RenderNodeExecutionMetadata::default(),
            };
            let ghost old_metadata = metadata;
            proof {
                assert(old_metadata == self.node_data(node).metadata);
            }
            metadata.set_flow_group(kind, RenderFlowGroup::new(position as u16));
            let ghost before = *self;
            self.set_node_metadata(node, metadata);
            proof {
                assert forall|n: RenderNodeId, k: RenderNodeDependencyKind|
                    #![trigger self.node_data(n).metadata.spec_flow_group(k)]
                    start.node_live(n) && k != kind implies self.node_data(n).metadata.spec_flow_group(k)
                        == start.node_data(n).metadata.spec_flow_group(k) by {
                    assert(before.node_live(n));
                    assert(before.node_data(n).metadata.spec_flow_group(k) == start.node_data(n).metadata.spec_flow_group(k));
                    if n == node {
                        assert(metadata.spec_flow_group(k) == old_metadata.spec_flow_group(k));
                    }
                }
                assert forall|i: int|
                    0 <= i < position + 1 implies (forall|j: int| i < j < position + 1 ==> order@[j] != order@[i]) ==> (
                    #[trigger] self.node_data(order@[i])).metadata.spec_flow_group(kind) == Some(
                        RenderFlowGroup(i as u16),
                    ) by {
                    if i < position && (forall|j: int| i < j < position + 1 ==> order@[j] != order@[i]) {
                        assert(order@[position as int] != order@[i]);
                        assert(before.node_data(order@[i]).metadata.spec_flow_group(kind) == Some(RenderFlowGroup(i as u16)));
                    }
                }
                assert forall|n: RenderNodeId|
                    #![trigger self.node_data(n)]
                    start.node_live(n) implies self.node_data(n).metadata.camera_index == start.node_data(n).metadata.camera_index
                        && self.node_data(n).metadata.group_id == start.node_data(n).metadata.group_id by {
                    assert(before.node_live(n));
                    assert(before.node_data(n).metadata.camera_index == start.node_data(n).metadata.camera_index);
                }
            }
            position = position + 1;
        }
    }

    /// Builds per-track flattened orders and flow groups, then freezes topology.
    ///
    /// Each track's order lists nodes by dependency level, ties broken by
    /// insertion order, and every node's flow group on a track is its position in
    /// that track's order.
    pub fn build_flow_groups(&mut self) -> (r: RenderGraphResult<()>)
        requires
            old(self).wf(),
        ensures
            final(self).wf(),
            old(self).frozen() ==> r == Err::<(), RenderGraphError>(
                RenderGraphError::GraphAlreadyBuilt { operation: "build_flow_groups" },
            ) && *final(self) == *old(self),
            !old(self).frozen() && old(self).has_helper_node() ==> r == Err::<(), RenderGraphError>(
                RenderGraphError::InvalidMerge { reason: "helper nodes remain after graph finalization" },
            ) && *final(self) == *old(self),
            r is Ok ==> {
                &&& !old(self).frozen()
                &&& !old(self).has_helper_node()
                &&& final(self).frozen()
                &&& final(self).built()
                &&& final(self).valid_flattening(RenderNodeDependencyKind::Cpu)
                &&& final(self).valid_flattening(RenderNodeDependencyKind::Gpu)
                &&& final(self).flow_groups_match(RenderNodeDependencyKind::Cpu)
                &&& final(self).flow_groups_match(RenderNodeDependencyKind::Gpu)
                &&& old(self).is_level_order(RenderNodeDependencyKind::Cpu, final(self).flattened(RenderNodeDependencyKind::Cpu))
                &&& old(self).is_level_order(RenderNodeDependencyKind::Gpu, final(self).flattened(RenderNodeDependencyKind::Gpu))
                &&& final(self).topology_kept(*old(self))
                &&& final(self).only_flow_groups_changed(*old(self))
                &&& final(self).node_order().len() <= 65536
            },
            !old(self).frozen() && !old(self).has_helper_node() && old(self).has_topological_order(
                RenderNodeDependencyKind::Cpu,
            ) && old(self).has_topological_order(RenderNodeDependencyKind::Gpu) ==> (if old(self).node_order().len()
                <= 65536 {
                r is Ok
            } else {
                r == Err::<(), RenderGraphError>(
                    RenderGraphError::InvalidState { reason: "render graph flow group index exceeded u16 range" },
                ) && *final(self) == *old(self)
            }),
            r is Err ==> match r->Err_0 {
                RenderGraphError::CycleDetected { dependency_kind, remaining_nodes } => {
                    &&& *final(self) == *old(self)
                    &&& !old(self).frozen()
                    &&& !old(self).has_helper_node()
                    &&& ((dependency_kind@ == spec_dependency_kind_name(RenderNodeDependencyKind::Cpu)
                        && !old(self).has_topological_order(RenderNodeDependencyKind::Cpu))
                        || (dependency_kind@ == spec_dependency_kind_name(RenderNodeDependencyKind::Gpu)
                        && old(self).has_topological_order(RenderNodeDependencyKind::Cpu)
                        && !old(self).has_topological_order(RenderNodeDependencyKind::Gpu)))
                    &&& 0 < remaining_nodes <= old(self).node_order().len()
                },
                _ => true,
            },
    {
        match self.ensure_mutable("build_flow_groups") {
            Ok(()) => {},
            Err(e) => return Err(e),
        }
        match self.validate_no_helper_nodes() {
            Ok(()) => {},
            Err(e) => return Err(e),
        }
        match self.validate_dependency_links() {
            Ok(()) => {},
            Err(e) => return Err(e),
        }
        let cpu_flattened = match self.build_flattening_for_kind(RenderNodeDependencyKind::Cpu) {
            Ok(v) => v,
            Err(e) => return Err(e),
        };
        let gpu_flattened = match self.build_flattening_for_kind(RenderNodeDependencyKind::Gpu) {
            Ok(v) => v,
            Err(e) => return Err(e),
        };
        match Self::validate_flow_group_capacity(cpu_flattened.len()) {
            Ok(()) => {},
            Err(e) => return Err(e),
        }
        match Self::validate_flow_group_capacity(gpu_flattened.len()) {
            Ok(()) => {},
            Err(e) => return Err(e),
        }
        let ghost start = *self;
        let ids = self.node_ids();
        let mut i: usize = 0;
        while i < ids.len()
            invariant
                self.wf(),
                start.wf(),
                !self.frozen(),
                ids@.len() == start.node_order().len(),
                forall|j: int| 0 <= j < ids@.len() ==> #[trigger] ids@[j] == RenderNodeId(start.node_order()[j]),
                self.metadata_change_only(start),
                self.only_flow_groups_changed(start),
                forall|j: int| 0 <= j < cpu_flattened@.len() ==> start.node_live(#[trigger] cpu_flattened@[j]),
                forall|j: int| 0 <= j < gpu_flattened@.len() ==> start.node_live(#[trigger] gpu_flattened@[j]),
                i <= ids@.len(),
            decreases ids@.len() - i,
        {
            let node = ids[i];
            proof {
                self.lemma_wf_storage();
                start.lemma_wf_storage();
                start.nodes.lemma_wf_facts();
                assert(start.nodes.live(start.node_order()[i as int] as int));
                assert(self.node_live(node));
            }
            let mut metadata = match self.nodes.get(node) {
                Ok(data) => data.metadata,
                Err(_) => RenderNodeExecutionMetadata::default(),
            };
            let ghost old_metadata = metadata;
            proof {
                assert(old_metadata == self.node_data(node).metadata);
            }
            metadata.clear_flow_groups();
            let ghost before = *self;
            self.set_node_metadata(node, metadata);
            proof {
                assert forall|n: RenderNodeId|
                    #![trigger self.node_data(n)]
                    start.node_live(n) implies self.node_data(n).metadata.camera_index == start.node_data(n).metadata.camera_index
                        && self.node_data(n).metadata.group_id == start.node_data(n).metadata.group_id by {
                    assert(before.node_live(n));
                    assert(before.node_data(n).metadata.camera_index == start.node_data(n).metadata.camera_index);
                }
            }
            i = i + 1;
        }
        let ghost cleared = *self;
        self.assign_flow_groups(RenderNodeDependencyKind::Cpu, &cpu_flattened);
        let ghost after_cpu = *self;
        self.assign_flow_groups(RenderNodeDependencyKind::Gpu, &gpu_flattened);
        let ghost after_gpu = *self;
        self.flattened_cpu = cpu_flattened;
        self.flattened_gpu = gpu_flattened;
        proof {
            assert(self.nodes == after_gpu.nodes);
            assert(self.dependencies == after_gpu.dependencies);
            reveal(RenderNodeGraph::wf);
            Self::lemma_kept_trans(start, cleared, after_cpu);
            Self::lemma_kept_trans(start, after_cpu, after_gpu);
            self.lemma_kept_same_fields(after_gpu);
            Self::lemma_kept_trans(start, after_gpu, *self);
            self.lemma_topological_order_kept(start, RenderNodeDependencyKind::Cpu, cpu_flattened@);
            self.lemma_topological_order_kept(start, RenderNodeDependencyKind::Gpu, gpu_flattened@);
        }
        match self.check_flattening(RenderNodeDependencyKind::Cpu) {
            Ok(()) => {},
            Err(e) => return Err(e),
        }
        match self.check_flattening(RenderNodeDependencyKind::Gpu) {
            Ok(()) => {},
            Err(e) => return Err(e),
        }
        let ghost validated = *self;
        self.freeze_topology();
        self.flow_groups_built = true;
        proof {
            reveal(RenderNodeGraph::wf);
            self.lemma_flattening_facts_same(validated, RenderNodeDependencyKind::Cpu);
            self.lemma_flattening_facts_same(validated, RenderNodeDependencyKind::Gpu);
            let f = self.flattened(RenderNodeDependencyKind::Cpu);
            let g = self.flattened(RenderNodeDependencyKind::Gpu);
            assert(f == cpu_flattened@);
            assert(g == gpu_flattened@);
            assert forall|i: int|
                0 <= i < f.len() implies (#[trigger] self.node_data(f[i])).metadata.spec_flow_group(
                    RenderNodeDependencyKind::Cpu,
                ) == Some(RenderFlowGroup(i as u16)) by {
                assert(forall|j: int| i < j < f.len() ==> f[j] != f[i]);
                assert(after_cpu.node_data(f[i]).metadata.spec_flow_group(RenderNodeDependencyKind::Cpu) == Some(
                    RenderFlowGroup(i as u16),
                ));
                assert(after_cpu.node_live(f[i]));
                assert(self.node_data(f[i]) == after_gpu.node_data(f[i]));
            }
            assert forall|i: int|
                0 <= i < g.len() implies (#[trigger] self.node_data(g[i])).metadata.spec_flow_group(
                    RenderNodeDependencyKind::Gpu,
                ) == Some(RenderFlowGroup(i as u16)) by {
                assert(forall|j: int| i < j < g.len() ==> g[j] != g[i]);
                assert(self.node_data(g[i]) == after_gpu.node_data(g[i]));
            }
            Self::lemma_kept_trans(start, cleared, after_cpu);
            Self::lemma_kept_trans(start, after_cpu, after_gpu);
            self.lemma_kept_same_fields(after_gpu);
            Self::lemma_kept_trans(start, after_gpu, *self);
        }
        Ok(())
    }

    /// Along a chain of track-`k` edges through a valid flattening, positions
    /// strictly increase.
    proof fn lemma_chain_positions_increase(
        &self,
        k: RenderNodeDependencyKind,
        chain: Seq<RenderNodeId>,
        pos: Seq<int>,
    )
        requires
            self.valid_flattening(k),
            chain.len() >= 1,
            pos.len() == chain.len(),
            forall|i: int| 0 <= i < chain.len() ==> 0 <= #[trigger] pos[i] < self.flattened(k).len() && self.flattened(k)[pos[i]] == chain[i],
            forall|i: int| 0 <= i < chain.len() - 1 ==> #[trigger] self.has_edge(k, chain[i], chain[i + 1]),
        ensures
            pos[0] <= pos[chain.len() - 1],
            chain.len() >= 2 ==> pos[0] < pos[chain.len() - 1],
        decreases chain.len(),
    {
        if chain.len() >= 2 {
            let shorter = chain.drop_last();
            let spos = pos.drop_last();
            assert forall|i: int| 0 <= i < shorter.len() - 1 implies #[trigger] self.has_edge(k, shorter[i], shorter[i + 1]) by {
                assert(self.has_edge(k, chain[i], chain[i + 1]));
            }
            assert forall|i: int| 0 <= i < shorter.len() implies 0 <= #[trigger] spos[i] < self.flattened(k).len()
                && self.flattened(k)[spos[i]] == shorter[i] by {
                assert(pos[i] == spos[i]);
            }
            self.lemma_chain_positions_increase(k, shorter, spos);
            let n = chain.len();
            let f = self.flattened(k);
            let m = n - 2;
            assert(self.has_edge(k, chain[m], chain[m + 1]));
            assert(self.has_edge(k, f[pos[m]], f[pos[m + 1]]));
        }
    }

    /// A graph whose track-`k` order is valid has no track-`k` dependency cycle:
    /// no chain of edges leads from a node back to itself.
    pub proof fn lemma_valid_flattening_is_acyclic(&self, k: RenderNodeDependencyKind, chain: Seq<RenderNodeId>)
        requires
            self.wf(),
            self.valid_flattening(k),
            chain.len() >= 1,
            forall|i: int| 0 <= i < chain.len() ==> self.node_live(#[trigger] chain[i]),
            forall|i: int| 0 <= i < chain.len() - 1 ==> #[trigger] self.has_edge(k, chain[i], chain[i + 1]),
        ensures
            !self.has_edge(k, chain[chain.len() - 1], chain[0]),
    {
        let f = self.flattened(k);
        let pos = Seq::new(chain.len(), |i: int| choose|j: int| 0 <= j < f.len() && f[j] == chain[i]);
        assert forall|i: int| 0 <= i < chain.len() implies 0 <= #[trigger] pos[i] < f.len() && f[pos[i]] == chain[i] by {
            assert(self.node_live(chain[i]));
            self.lemma_live_node_in_flattening(k, chain[i]);
        }
        self.lemma_chain_positions_increase(k, chain, pos);
        let n = chain.len();
        if self.has_edge(k, chain[n - 1], chain[0]) {
            assert(self.has_edge(k, f[pos[n - 1]], f[pos[0]]));
        }
    }

    /// Every live node occurs in a valid flattening.
    proof fn lemma_live_node_in_flattening(&self, k: RenderNodeDependencyKind, n: RenderNodeId)
        requires
            self.wf(),
            self.valid_flattening(k),
            self.node_live(n),
        ensures
            exists|j: int| 0 <= j < self.flattened(k).len() && self.flattened(k)[j] == n,
    {
        self.lemma_wf_storage();
        self.nodes.lemma_wf_facts();
        assert(self.nodes.live(n.0 as int));
        let u = self.nodes.position(n.0 as int);
        assert(self.node_order()[u] == n.0);
        assert(self.flattened(k).contains(RenderNodeId(self.node_order()[u])));
    }

    /// After a successful build, flow groups number the live nodes of each track
    /// densely: distinct live nodes carry distinct groups, all below the node count.
    pub proof fn lemma_built_flow_groups_dense_unique(&self, k: RenderNodeDependencyKind, a: RenderNodeId, b: RenderNodeId)
        requires
            self.wf(),
            self.node_order().len() <= 65536,
            self.valid_flattening(k),
            self.flow_groups_match(k),
            self.node_live(a),
            self.node_live(b),
        ensures
            self.node_data(a).metadata.spec_flow_group(k) is Some,
            (self.node_data(a).metadata.spec_flow_group(k)->0).0 < self.node_order().len(),
            a != b ==> self.node_data(a).metadata.spec_flow_group(k) != self.node_data(b).metadata.spec_flow_group(k),
    {
        let f = self.flattened(k);
        self.lemma_live_node_in_flattening(k, a);
        self.lemma_live_node_in_flattening(k, b);
        let i = choose|j: int| 0 <= j < f.len() && f[j] == a;
        let j = choose|j: int| 0 <= j < f.len() && f[j] == b;
        assert(self.node_data(f[i]).metadata.spec_flow_group(k) == Some(RenderFlowGroup(i as u16)));
        assert(self.node_data(f[j]).metadata.spec_flow_group(k) == Some(RenderFlowGroup(j as u16)));
        assert(f.len() == self.node_order().len());
        if a != b {
            assert(i != j);
            assert((i as u16) != (j as u16));
        }
    }

    /// The live nodes are listed once each, in a sequence that fits 32-bit indices.
    pub proof fn lemma_node_order_distinct(&self)
        requires
            self.wf(),
        ensures
            self.node_order().no_duplicates(),
            self.node_order().len() <= 4294967295,
            forall|i: int|
                0 <= i < self.node_order().len() ==> self.node_live(RenderNodeId(#[trigger] self.node_order()[i])),
    {
        self.lemma_wf_storage();
        self.nodes.lemma_wf_facts();
        assert forall|i: int|
            0 <= i < self.node_order().len() implies self.node_live(RenderNodeId(#[trigger] self.node_order()[i])) by {
            assert(self.nodes.live(self.node_order()[i] as int));
        }
    }
}

} // verus!
