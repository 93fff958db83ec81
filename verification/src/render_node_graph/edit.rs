//! Node removal, dependency bridging and dependency copying.
use vstd::prelude::*;

use crate::error::{RenderGraphError, RenderGraphResult};
use crate::ids::{RenderDependencyId, RenderNodeId};
use crate::metadata::RenderNodeDependencyKind;
use crate::node_topology::{RenderDependencyData, RenderNodeData};
use crate::render_node_graph::{lemma_swap_removed_at, list_head, list_next, swap_removed, RenderNodeGraph};

verus! {

/// Dependency ids in strictly increasing raw order.
pub open spec fn ids_sorted(s: Seq<RenderDependencyId>) -> bool {
    forall|a: int, b: int| 0 <= a < b < s.len() ==> (#[trigger] s[a]).0 < (#[trigger] s[b]).0
}

/// Inserts `d` into a strictly increasing id list unless it is already there.
fn insert_sorted_unique(v: &mut Vec<RenderDependencyId>, d: RenderDependencyId)
    requires
        ids_sorted(old(v)@),
    ensures
        ids_sorted(final(v)@),
        forall|x: RenderDependencyId| #[trigger] final(v)@.contains(x) <==> (old(v)@.contains(x) || x == d),
{
    let mut i: usize = 0;
    while i < v.len() && v[i].0 < d.0
        invariant
            i <= v@.len(),
            ids_sorted(v@),
            forall|j: int| 0 <= j < i ==> (#[trigger] v@[j]).0 < d.0,
        decreases v@.len() - i,
    {
        i = i + 1;
    }
    if i < v.len() && v[i].0 == d.0 {
        proof {
            assert(v@[i as int] == d);
        }
        return;
    }
    let ghost before = v@;
    v.insert(i, d);
    proof {
        assert(v@ == before.insert(i as int, d));
        assert forall|x: RenderDependencyId| #[trigger] v@.contains(x) <==> (before.contains(x) || x == d) by {
            if v@.contains(x) {
                let j = choose|j: int| 0 <= j < v@.len() && v@[j] == x;
                if j < i {
                    assert(before[j] == x);
                } else if j > i {
                    assert(before[j - 1] == x);
                }
            }
            if before.contains(x) {
                let j = choose|j: int| 0 <= j < before.len() && before[j] == x;
                if j < i {
                    assert(v@[j] == x);
                } else {
                    assert(v@[j + 1] == x);
                }
            }
            if x == d {
                assert(v@[i as int] == d);
            }
        }
    }
}

impl RenderNodeGraph {
    /// A dependency that is live and touches `node` as parent or child.
    pub open spec fn attached(&self, node: RenderNodeId, d: RenderDependencyId) -> bool {
        self.dep_live(d) && (self.dep_data(d).parent == node || self.dep_data(d).child == node)
    }

    /// Two live dependencies with the same track and endpoints are the same one.
    proof fn lemma_edges_unique_at(&self, a: RenderDependencyId, b: RenderDependencyId)
        requires
            self.wf(),
            self.dep_live(a),
            self.dep_live(b),
            self.dep_data(a).kind == self.dep_data(b).kind,
            self.dep_data(a).parent == self.dep_data(b).parent,
            self.dep_data(a).child == self.dep_data(b).child,
        ensures
            a == b,
    {
        reveal(RenderNodeGraph::wf);
        assert(self.edges_unique());
        assert(self.dependencies.value_at(a.0 as int) == self.dep_data(a));
        assert(self.dependencies.value_at(b.0 as int) == self.dep_data(b));
    }

    /// A live dependency is linked from both of its endpoints.
    proof fn lemma_dep_linked(&self, d: RenderDependencyId)
        requires
            self.wf(),
            self.dep_live(d),
        ensures
            self.node_live(self.dep_data(d).parent),
            self.node_live(self.dep_data(d).child),
            self.dep_data(d).parent != self.dep_data(d).child,
            self.child_deps(self.dep_data(d).parent, self.dep_data(d).kind).contains(d.0),
            self.parent_deps(self.dep_data(d).child, self.dep_data(d).kind).contains(d.0),
    {
        reveal(RenderNodeGraph::wf);
        assert(self.dep_ok(d.0));
    }

    /// Walks the child list of `node` on track `kind`, inserting each dependency into `out`.
    fn collect_child_list(&self, node: RenderNodeId, kind: RenderNodeDependencyKind, out: &mut Vec<RenderDependencyId>)
        requires
            self.wf(),
            self.node_live(node),
            ids_sorted(old(out)@),
        ensures
            ids_sorted(final(out)@),
            forall|x: RenderDependencyId|
                #[trigger] final(out)@.contains(x) <==> (old(out)@.contains(x) || self.child_deps(node, kind).contains(x.0)),
    {
        proof {
            self.lemma_out_list_complete(node, kind);
            self.lemma_wf_storage();
        }
        let ghost l = self.child_deps(node, kind);
        let ghost start = out@;
        let data = self.nodes.get(node).unwrap();
        let mut cursor = data.first_child_dependency(kind);
        let ghost mut i: int = 0;
        while cursor.is_some()
            invariant
                self.wf(),
                self.dependencies.wf(),
                0 <= i <= l.len(),
                l == self.child_deps(node, kind),
                forall|j: int|
                    #![trigger self.dep_data(RenderDependencyId(l[j]))]
                    0 <= j < l.len() ==> {
                        let d = RenderDependencyId(l[j]);
                        &&& self.dep_live(d)
                        &&& self.dep_data(d).next_from_parent == list_next(l, j)
                    },
                cursor == (if i < l.len() { Some(RenderDependencyId(l[i])) } else { None::<RenderDependencyId> }),
                ids_sorted(out@),
                forall|x: RenderDependencyId|
                    #[trigger] out@.contains(x) <==> (start.contains(x) || exists|j: int| 0 <= j < i && l[j] == x.0),
            decreases l.len() - i,
        {
            let dependency_id = cursor.unwrap();
            proof {
                assert(self.dep_live(RenderDependencyId(l[i])));
            }
            let dependency = self.dependencies.get(dependency_id).unwrap();
            let ghost before = out@;
            insert_sorted_unique(out, dependency_id);
            cursor = dependency.next_from_parent;
            proof {
                assert(self.dep_data(RenderDependencyId(l[i])).next_from_parent == list_next(l, i));
                assert forall|x: RenderDependencyId|
                    #[trigger] out@.contains(x) <==> (start.contains(x) || exists|j: int| 0 <= j < i + 1 && l[j] == x.0) by {
                    if x == dependency_id {
                        assert(l[i] == x.0);
                    }
                    if exists|j: int| 0 <= j < i + 1 && l[j] == x.0 {
                        let j = choose|j: int| 0 <= j < i + 1 && l[j] == x.0;
                        if j == i {
                            assert(x == dependency_id);
                        }
                    }
                }
                i = i + 1;
            }
        }
        proof {
            assert forall|x: RenderDependencyId|
                #[trigger] out@.contains(x) <==> (start.contains(x) || l.contains(x.0)) by {
                if l.contains(x.0) {
                    let j = choose|j: int| 0 <= j < l.len() && l[j] == x.0;
                    assert(exists|j: int| 0 <= j < i && l[j] == x.0);
                }
            }
        }
    }

    /// Walks the parent list of `node` on track `kind`, inserting each dependency into `out`.
    fn collect_parent_list(&self, node: RenderNodeId, kind: RenderNodeDependencyKind, out: &mut Vec<RenderDependencyId>)
        requires
            self.wf(),
            self.node_live(node),
            ids_sorted(old(out)@),
        ensures
            ids_sorted(final(out)@),
            forall|x: RenderDependencyId|
                #[trigger] final(out)@.contains(x) <==> (old(out)@.contains(x) || self.parent_deps(node, kind).contains(x.0)),
    {
        proof {
            self.lemma_in_list_complete(node, kind);
            self.lemma_wf_storage();
        }
        let ghost l = self.parent_deps(node, kind);
        let ghost start = out@;
        let data = self.nodes.get(node).unwrap();
        let mut cursor = data.first_parent_dependency(kind);
        let ghost mut i: int = 0;
        while cursor.is_some()
            invariant
                self.wf(),
                self.dependencies.wf(),
                0 <= i <= l.len(),
                l == self.parent_deps(node, kind),
                forall|j: int|
                    #![trigger self.dep_data(RenderDependencyId(l[j]))]
                    0 <= j < l.len() ==> {
                        let d = RenderDependencyId(l[j]);
                        &&& self.dep_live(d)
                        &&& self.dep_data(d).next_from_child == list_next(l, j)
                    },
                cursor == (if i < l.len() { Some(RenderDependencyId(l[i])) } else { None::<RenderDependencyId> }),
                ids_sorted(out@),
                forall|x: RenderDependencyId|
                    #[trigger] out@.contains(x) <==> (start.contains(x) || exists|j: int| 0 <= j < i && l[j] == x.0),
            decreases l.len() - i,
        {
            let dependency_id = cursor.unwrap();
            proof {
                assert(self.dep_live(RenderDependencyId(l[i])));
            }
            let dependency = self.dependencies.get(dependency_id).unwrap();
            insert_sorted_unique(out, dependency_id);
            cursor = dependency.next_from_child;
            proof {
                assert(self.dep_data(RenderDependencyId(l[i])).next_from_child == list_next(l, i));
                assert forall|x: RenderDependencyId|
                    #[trigger] out@.contains(x) <==> (start.contains(x) || exists|j: int| 0 <= j < i + 1 && l[j] == x.0) by {
                    if x == dependency_id {
                        assert(l[i] == x.0);
                    }
                    if exists|j: int| 0 <= j < i + 1 && l[j] == x.0 {
                        let j = choose|j: int| 0 <= j < i + 1 && l[j] == x.0;
                        if j == i {
                            assert(x == dependency_id);
                        }
                    }
                }
                i = i + 1;
            }
        }
        proof {
            assert forall|x: RenderDependencyId|
                #[trigger] out@.contains(x) <==> (start.contains(x) || l.contains(x.0)) by {
                if l.contains(x.0) {
                    let j = choose|j: int| 0 <= j < l.len() && l[j] == x.0;
                    assert(exists|j: int| 0 <= j < i && l[j] == x.0);
                }
            }
        }
    }

    /// The dependencies attached to a live node, in increasing id order.
    fn attached_dependencies(&self, node: RenderNodeId) -> (r: Vec<RenderDependencyId>)
        requires
            self.wf(),
            self.node_live(node),
        ensures
            ids_sorted(r@),
            forall|x: RenderDependencyId| #[trigger] r@.contains(x) <==> self.attached(node, x),
    {
        let mut attached: Vec<RenderDependencyId> = Vec::new();
        self.collect_parent_list(node, RenderNodeDependencyKind::Cpu, &mut attached);
        self.collect_child_list(node, RenderNodeDependencyKind::Cpu, &mut attached);
        self.collect_parent_list(node, RenderNodeDependencyKind::Gpu, &mut attached);
        self.collect_child_list(node, RenderNodeDependencyKind::Gpu, &mut attached);
        proof {
            self.lemma_out_list_complete(node, RenderNodeDependencyKind::Cpu);
            self.lemma_out_list_complete(node, RenderNodeDependencyKind::Gpu);
            self.lemma_in_list_complete(node, RenderNodeDependencyKind::Cpu);
            self.lemma_in_list_complete(node, RenderNodeDependencyKind::Gpu);
            assert forall|x: RenderDependencyId| #[trigger] attached@.contains(x) <==> self.attached(node, x) by {
                let pc = self.parent_deps(node, RenderNodeDependencyKind::Cpu);
                let cc = self.child_deps(node, RenderNodeDependencyKind::Cpu);
                let pg = self.parent_deps(node, RenderNodeDependencyKind::Gpu);
                let cg = self.child_deps(node, RenderNodeDependencyKind::Gpu);
                if pc.contains(x.0) {
                    let j = choose|j: int| 0 <= j < pc.len() && pc[j] == x.0;
                    assert(self.dep_data(RenderDependencyId(pc[j])).child == node);
                }
                if cc.contains(x.0) {
                    let j = choose|j: int| 0 <= j < cc.len() && cc[j] == x.0;
                    assert(self.dep_data(RenderDependencyId(cc[j])).parent == node);
                }
                if pg.contains(x.0) {
                    let j = choose|j: int| 0 <= j < pg.len() && pg[j] == x.0;
                    assert(self.dep_data(RenderDependencyId(pg[j])).child == node);
                }
                if cg.contains(x.0) {
                    let j = choose|j: int| 0 <= j < cg.len() && cg[j] == x.0;
                    assert(self.dep_data(RenderDependencyId(cg[j])).parent == node);
                }
                if self.attached(node, x) {
                    assert(self.dep_data(x) == self.dep_data(x));
                    match self.dep_data(x).kind {
                        RenderNodeDependencyKind::Cpu => {},
                        RenderNodeDependencyKind::Gpu => {},
                    }
                }
            }
        }
        attached
    }

    /// What `remove_node` keeps and changes, stated over the public view.
    pub open spec fn frame_after_node_removal(&self, prev: RenderNodeGraph, node: RenderNodeId) -> bool {
        &&& forall|n: RenderNodeId| #[trigger] self.node_live(n) == (prev.node_live(n) && n != node)
        &&& forall|n: RenderNodeId|
            #![trigger self.node_data(n)]
            self.node_live(n) ==> self.node_data(n).params == prev.node_data(n).params
                && self.node_data(n).metadata == prev.node_data(n).metadata
        &&& forall|d: RenderDependencyId|
            #![trigger self.dep_live(d)]
            self.dep_live(d) == (prev.dep_live(d) && !prev.attached(node, d))
        &&& forall|d: RenderDependencyId|
            #![trigger self.dep_data(d)]
            self.dep_live(d) ==> self.dep_data(d).kind == prev.dep_data(d).kind && self.dep_data(d).parent
                == prev.dep_data(d).parent && self.dep_data(d).child == prev.dep_data(d).child
        &&& forall|k: RenderNodeDependencyKind, p: RenderNodeId, c: RenderNodeId|
            #![trigger self.has_edge(k, p, c)]
            self.has_edge(k, p, c) == (prev.has_edge(k, p, c) && p != node && c != node)
        &&& self.frozen() == prev.frozen()
        &&& self.built() == prev.built()
    }

    /// Freeing a node that no live dependency touches keeps the invariant.
    proof fn lemma_free_isolated_node_wf(&self, prev: RenderNodeGraph, node: RenderNodeId)
        requires
            prev.wf(),
            self.nodes.wf(),
            self.dependencies == prev.dependencies,
            self.out_lists == prev.out_lists,
            self.in_lists == prev.in_lists,
            self.flow_groups_built == prev.flow_groups_built,
            self.topology_frozen == prev.topology_frozen,
            self.nodes.slot_count() == prev.nodes.slot_count(),
            !self.nodes.live(node.0 as int),
            forall|t: int|
                #![trigger self.nodes.live(t)]
                #![trigger self.nodes.value_at(t)]
                0 <= t < prev.nodes.slot_count() && t != node.0 ==> self.nodes.live(t) == prev.nodes.live(t)
                    && self.nodes.value_at(t) == prev.nodes.value_at(t),
            forall|d: RenderDependencyId| #![trigger prev.dep_data(d)] !prev.attached(node, d),
        ensures
            self.wf(),
    {
        reveal(RenderNodeGraph::wf);
        prev.nodes.lemma_wf_facts();
        self.nodes.lemma_wf_facts();
        assert forall|n: u32, k: RenderNodeDependencyKind|
            #![trigger (self.out_lists@)(n, k)]
            self.nodes.id_live(RenderNodeId(n)) implies self.out_list_ok(n, k) by {
            assert(n < prev.nodes.slot_count());
            assert(prev.nodes.id_live(RenderNodeId(n)));
            assert(prev.out_list_ok(n, k));
            assert(self.nodes.value_at(n as int) == prev.nodes.value_at(n as int));
        }
        assert forall|n: u32, k: RenderNodeDependencyKind|
            #![trigger (self.in_lists@)(n, k)]
            self.nodes.id_live(RenderNodeId(n)) implies self.in_list_ok(n, k) by {
            assert(n < prev.nodes.slot_count());
            assert(prev.nodes.id_live(RenderNodeId(n)));
            assert(prev.in_list_ok(n, k));
            assert(self.nodes.value_at(n as int) == prev.nodes.value_at(n as int));
        }
        assert forall|d: u32|
            #![trigger self.dependencies.value_at(d as int)]
            self.dependencies.id_live(RenderDependencyId(d)) implies self.dep_ok(d) by {
            assert(prev.dep_ok(d));
            let data = self.dependencies.value_at(d as int);
            assert(prev.dep_data(RenderDependencyId(d)) == data);
            assert(!prev.attached(node, RenderDependencyId(d)));
            assert(data.parent.0 < prev.nodes.slot_count());
            assert(data.child.0 < prev.nodes.slot_count());
        }
    }

    /// Removes a node and all dependencies attached to it, returning its data.
    pub fn remove_node(&mut self, node: RenderNodeId) -> (r: RenderGraphResult<RenderNodeData>)
        requires
            old(self).wf(),
        ensures
            final(self).wf(),
            r is Ok <==> !old(self).frozen() && old(self).node_live(node),
            r is Err ==> *final(self) == *old(self),
            old(self).frozen() ==> r == Err::<RenderNodeData, RenderGraphError>(
                RenderGraphError::GraphAlreadyBuilt { operation: "remove_node" },
            ),
            !old(self).frozen() && !old(self).node_live(node) ==> r == Err::<RenderNodeData, RenderGraphError>(
                RenderGraphError::InvalidId { kind: "node", raw: node.0 },
            ),
            r is Ok ==> {
                &&& final(self).frame_after_node_removal(*old(self), node)
                &&& final(self).node_order() == swap_removed(old(self).node_order(), node.0)
                &&& r->Ok_0.params == old(self).node_data(node).params
                &&& r->Ok_0.metadata == old(self).node_data(node).metadata
                &&& forall|k: RenderNodeDependencyKind|
                    r->Ok_0.spec_first_parent(k) is None && r->Ok_0.spec_first_child(k) is None
            },
    {
        match self.ensure_mutable("remove_node") {
            Ok(()) => {},
            Err(e) => return Err(e),
        }
        match self.ensure_node_exists(node) {
            Ok(()) => {},
            Err(e) => return Err(e),
        }
        let dependencies = self.attached_dependencies(node);
        let ghost start = *self;
        let mut i: usize = 0;
        while i < dependencies.len()
            invariant
                self.wf(),
                !self.frozen(),
                start.wf(),
                !start.frozen(),
                start.node_live(node),
                self.built() == start.built(),
                self.node_order() == start.node_order(),
                forall|x: RenderDependencyId| #[trigger] dependencies@.contains(x) <==> start.attached(node, x),
                forall|n: RenderNodeId| #[trigger] self.node_live(n) == start.node_live(n),
                forall|n: RenderNodeId|
                    #![trigger self.node_data(n)]
                    start.node_live(n) ==> self.node_data(n).params == start.node_data(n).params
                        && self.node_data(n).metadata == start.node_data(n).metadata,
                forall|d: RenderDependencyId|
                    #![trigger self.dep_live(d)]
                    self.dep_live(d) == (start.dep_live(d) && !(exists|j: int|
                        0 <= j < i && dependencies@[j] == d)),
                forall|d: RenderDependencyId|
                    #![trigger self.dep_data(d)]
                    self.dep_live(d) ==> self.dep_data(d).kind == start.dep_data(d).kind && self.dep_data(d).parent
                        == start.dep_data(d).parent && self.dep_data(d).child == start.dep_data(d).child,
                i <= dependencies@.len(),
            decreases dependencies@.len() - i,
        {
            let dependency = dependencies[i];
            proof {
                self.lemma_wf_storage();
            }
            let ghost before = *self;
            if self.dependencies.is_allocated(dependency) {
                let _ = self.remove_dependency(dependency);
            }
            proof {
                assert forall|d: RenderDependencyId|
                    #![trigger self.dep_live(d)]
                    self.dep_live(d) == (start.dep_live(d) && !(exists|j: int|
                        0 <= j < i + 1 && dependencies@[j] == d)) by {
                    assert(before.dep_live(d) == (start.dep_live(d) && !(exists|j: int| 0 <= j < i && dependencies@[j] == d)));
                    if exists|j: int| 0 <= j < i + 1 && dependencies@[j] == d {
                        let j = choose|j: int| 0 <= j < i + 1 && dependencies@[j] == d;
                        if j < i {
                            assert(exists|j: int| 0 <= j < i && dependencies@[j] == d);
                        }
                    }
                }
                assert forall|n: RenderNodeId|
                    #![trigger self.node_data(n)]
                    start.node_live(n) implies self.node_data(n).params == start.node_data(n).params
                        && self.node_data(n).metadata == start.node_data(n).metadata by {
                    assert(before.node_live(n));
                }
                assert forall|d: RenderDependencyId|
                    #![trigger self.dep_data(d)]
                    self.dep_live(d) implies self.dep_data(d).kind == start.dep_data(d).kind && self.dep_data(d).parent
                        == start.dep_data(d).parent && self.dep_data(d).child == start.dep_data(d).child by {
                    assert(before.dep_live(d));
                }
            }
            i = i + 1;
        }
        proof {
            assert forall|d: RenderDependencyId| #![trigger self.dep_data(d)] !self.attached(node, d) by {
                if self.attached(node, d) {
                    assert(start.dep_live(d));
                    assert(start.attached(node, d));
                    assert(dependencies@.contains(d));
                    let j = choose|j: int| 0 <= j < dependencies@.len() && dependencies@[j] == d;
                    assert(exists|j2: int| 0 <= j2 < i && dependencies@[j2] == d);
                }
            }
            self.lemma_out_list_complete(node, RenderNodeDependencyKind::Cpu);
            self.lemma_out_list_complete(node, RenderNodeDependencyKind::Gpu);
            self.lemma_in_list_complete(node, RenderNodeDependencyKind::Cpu);
            self.lemma_in_list_complete(node, RenderNodeDependencyKind::Gpu);
            assert forall|k: RenderNodeDependencyKind|
                self.child_deps(node, k).len() == 0 && self.parent_deps(node, k).len() == 0 by {
                self.lemma_out_list_complete(node, k);
                self.lemma_in_list_complete(node, k);
                if self.child_deps(node, k).len() > 0 {
                    assert(self.dep_data(RenderDependencyId(self.child_deps(node, k)[0])).parent == node);
                    assert(self.dep_live(RenderDependencyId(self.child_deps(node, k)[0])));
                    assert(self.attached(node, RenderDependencyId(self.child_deps(node, k)[0])));
                }
                if self.parent_deps(node, k).len() > 0 {
                    assert(self.dep_data(RenderDependencyId(self.parent_deps(node, k)[0])).child == node);
                    assert(self.dep_live(RenderDependencyId(self.parent_deps(node, k)[0])));
                    assert(self.attached(node, RenderDependencyId(self.parent_deps(node, k)[0])));
                }
            }
            self.lemma_wf_storage();
            self.nodes.lemma_wf_facts();
        }
        let ghost before_free = *self;
        proof {
            assert(self.node_live(node));
        }
        let removed = match self.nodes.free(node) {
            Ok(data) => data,
            Err(e) => return Err(e),
        };
        proof {
            self.lemma_free_isolated_node_wf(before_free, node);
            assert forall|k: RenderNodeDependencyKind|
                removed.spec_first_parent(k) is None && removed.spec_first_child(k) is None by {
                before_free.lemma_out_list_complete(node, k);
                before_free.lemma_in_list_complete(node, k);
                assert(before_free.child_deps(node, k).len() == 0);
            }
            before_free.nodes.lemma_wf_facts();
            self.nodes.lemma_wf_facts();
            assert forall|n: RenderNodeId| #[trigger] self.node_live(n) == (start.node_live(n) && n != node) by {
                assert(before_free.node_live(n) == start.node_live(n));
                if before_free.nodes.live(n.0 as int) || self.nodes.live(n.0 as int) {
                    assert(n.0 < before_free.nodes.slot_count());
                }
            }
            assert forall|n: RenderNodeId|
                #![trigger self.node_data(n)]
                self.node_live(n) implies self.node_data(n).params == start.node_data(n).params
                    && self.node_data(n).metadata == start.node_data(n).metadata by {
                assert(n.0 < before_free.nodes.slot_count());
                assert(n.0 != node.0);
                assert(self.nodes.value_at(n.0 as int) == before_free.nodes.value_at(n.0 as int));
                assert(before_free.node_live(n));
                assert(start.node_live(n));
                assert(before_free.node_data(n).params == start.node_data(n).params);
            }
            assert forall|d: RenderDependencyId|
                #![trigger self.dep_live(d)]
                self.dep_live(d) == (start.dep_live(d) && !start.attached(node, d)) by {
                assert(before_free.dep_live(d) == self.dep_live(d));
                assert(before_free.dep_live(d) == (start.dep_live(d) && !(exists|j: int|
                    0 <= j < i && dependencies@[j] == d)));
                if start.attached(node, d) {
                    assert(dependencies@.contains(d));
                    let j = choose|j: int| 0 <= j < dependencies@.len() && dependencies@[j] == d;
                    assert(exists|j2: int| 0 <= j2 < i && dependencies@[j2] == d);
                } else {
                    if exists|j: int| 0 <= j < i && dependencies@[j] == d {
                        let j = choose|j: int| 0 <= j < i && dependencies@[j] == d;
                        assert(dependencies@.contains(d));
                    }
                }
            }
            assert forall|k: RenderNodeDependencyKind, p: RenderNodeId, c: RenderNodeId|
                #![trigger self.has_edge(k, p, c)]
                self.has_edge(k, p, c) == (start.has_edge(k, p, c) && p != node && c != node) by {
                if self.has_edge(k, p, c) {
                    let d = choose|d: RenderDependencyId|
                        #![trigger self.dep_data(d)]
                        self.dep_live(d) && self.dep_data(d).kind == k && self.dep_data(d).parent == p
                            && self.dep_data(d).child == c;
                    assert(before_free.dep_data(d) == self.dep_data(d));
                    assert(start.dep_data(d).kind == k);
                    assert(!start.attached(node, d));
                }
                if start.has_edge(k, p, c) && p != node && c != node {
                    let d = choose|d: RenderDependencyId|
                        #![trigger start.dep_data(d)]
                        start.dep_live(d) && start.dep_data(d).kind == k && start.dep_data(d).parent == p
                            && start.dep_data(d).child == c;
                    assert(!start.attached(node, d));
                    assert(self.dep_live(d));
                    assert(self.dep_data(d) == before_free.dep_data(d));
                    assert(before_free.dep_data(d).kind == k);
                }
            }
        }
        proof {
            assert(removed == before_free.node_data(node));
            assert(before_free.node_data(node).params == start.node_data(node).params);
            assert(before_free.node_data(node).metadata == start.node_data(node).metadata);
            assert forall|d: RenderDependencyId|
                #![trigger self.dep_data(d)]
                self.dep_live(d) implies self.dep_data(d).kind == start.dep_data(d).kind && self.dep_data(d).parent
                    == start.dep_data(d).parent && self.dep_data(d).child == start.dep_data(d).child by {
                assert(before_free.dep_live(d));
                assert(before_free.dep_data(d) == self.dep_data(d));
            }
            assert(self.frozen() == start.frozen());
            assert(self.built() == start.built());
            before_free.lemma_wf_storage();
            before_free.nodes.lemma_wf_facts();
            assert(before_free.nodes.live(node.0 as int));
            lemma_swap_removed_at(before_free.nodes.order(), before_free.nodes.position(node.0 as int));
        }
        Ok(removed)
    }

    /// Both graphs hold the same live nodes with the same parameters and metadata.
    pub open spec fn nodes_kept(&self, prev: RenderNodeGraph) -> bool {
        &&& forall|n: RenderNodeId| #[trigger] self.node_live(n) == prev.node_live(n)
        &&& forall|n: RenderNodeId|
            #![trigger self.node_data(n)]
            prev.node_live(n) ==> self.node_data(n).params == prev.node_data(n).params
                && self.node_data(n).metadata == prev.node_data(n).metadata
    }

    /// The parents listed for a live node are exactly the parents of its edges.
    pub(crate) proof fn lemma_parent_seq_edges(&self, c: RenderNodeId, k: RenderNodeDependencyKind)
        requires
            self.wf(),
            self.node_live(c),
        ensures
            forall|p: RenderNodeId| #[trigger] self.parent_node_seq(c, k).contains(p) <==> self.has_edge(k, p, c),
            forall|i: int|
                0 <= i < self.parent_node_seq(c, k).len() ==> self.node_live(#[trigger] self.parent_node_seq(c, k)[i]),
            self.parent_node_seq(c, k).len() == self.parent_deps(c, k).len(),
    {
        self.lemma_in_list_complete(c, k);
        let l = self.parent_deps(c, k);
        let s = self.parent_node_seq(c, k);
        assert forall|i: int| 0 <= i < s.len() implies self.node_live(#[trigger] s[i]) && self.has_edge(k, s[i], c) by {
            let d = RenderDependencyId(l[i]);
            assert(self.dep_data(d).child == c);
            self.lemma_dep_linked(d);
        }
        assert forall|p: RenderNodeId| #[trigger] s.contains(p) <==> self.has_edge(k, p, c) by {
            if s.contains(p) {
                let i = choose|i: int| 0 <= i < s.len() && s[i] == p;
                assert(self.has_edge(k, s[i], c));
            }
            if self.has_edge(k, p, c) {
                let d = choose|d: RenderDependencyId|
                    #![trigger self.dep_data(d)]
                    self.dep_live(d) && self.dep_data(d).kind == k && self.dep_data(d).parent == p
                        && self.dep_data(d).child == c;
                assert(l.contains(d.0));
                let i = choose|i: int| 0 <= i < l.len() && l[i] == d.0;
                assert(s[i] == p);
            }
        }
    }

    /// The children listed for a live node are exactly the children of its edges.
    pub(crate) proof fn lemma_child_seq_edges(&self, p: RenderNodeId, k: RenderNodeDependencyKind)
        requires
            self.wf(),
            self.node_live(p),
        ensures
            forall|c: RenderNodeId| #[trigger] self.child_node_seq(p, k).contains(c) <==> self.has_edge(k, p, c),
            forall|i: int|
                0 <= i < self.child_node_seq(p, k).len() ==> self.node_live(#[trigger] self.child_node_seq(p, k)[i]),
            self.child_node_seq(p, k).len() == self.child_deps(p, k).len(),
    {
        self.lemma_out_list_complete(p, k);
        let l = self.child_deps(p, k);
        let s = self.child_node_seq(p, k);
        assert forall|i: int| 0 <= i < s.len() implies self.node_live(#[trigger] s[i]) && self.has_edge(k, p, s[i]) by {
            let d = RenderDependencyId(l[i]);
            assert(self.dep_data(d).parent == p);
            self.lemma_dep_linked(d);
        }
        assert forall|c: RenderNodeId| #[trigger] s.contains(c) <==> self.has_edge(k, p, c) by {
            if s.contains(c) {
                let i = choose|i: int| 0 <= i < s.len() && s[i] == c;
                assert(self.has_edge(k, p, s[i]));
            }
            if self.has_edge(k, p, c) {
                let d = choose|d: RenderDependencyId|
                    #![trigger self.dep_data(d)]
                    self.dep_live(d) && self.dep_data(d).kind == k && self.dep_data(d).parent == p
                        && self.dep_data(d).child == c;
                assert(l.contains(d.0));
                let i = choose|i: int| 0 <= i < l.len() && l[i] == d.0;
                assert(s[i] == c);
            }
        }
    }

    /// Adds the edge unless it exists or would be a self-edge; both nodes must be live.
    fn add_missing_dependency(&mut self, kind: RenderNodeDependencyKind, parent: RenderNodeId, child: RenderNodeId) -> (r:
        RenderGraphResult<()>)
        requires
            old(self).wf(),
            !old(self).frozen(),
            old(self).node_live(parent),
            old(self).node_live(child),
        ensures
            final(self).wf(),
            !final(self).frozen(),
            final(self).built() == old(self).built(),
            final(self).nodes_kept(*old(self)),
            final(self).dep_slot_count() <= old(self).dep_slot_count() + 1,
            final(self).dep_slot_count() >= old(self).dep_slot_count(),
            r is Err ==> *final(self) == *old(self) && old(self).dep_slot_count() >= 4294967295,
            r is Ok ==> forall|k: RenderNodeDependencyKind, p: RenderNodeId, c: RenderNodeId|
                #![trigger final(self).has_edge(k, p, c)]
                final(self).has_edge(k, p, c) == (old(self).has_edge(k, p, c) || (k == kind && p == parent && c == child
                    && parent != child)),
            parent == child || old(self).has_edge(kind, parent, child) ==> r is Ok && *final(self) == *old(self),
    {
        if parent == child {
            return Ok(());
        }
        let exists = match self.has_dependency(kind, parent, child) {
            Ok(b) => b,
            Err(e) => return Err(e),
        };
        if !exists {
            match self.add_dependency(kind, parent, child) {
                Ok(_) => {},
                Err(e) => return Err(e),
            }
        }
        Ok(())
    }

    /// Every track-`kind` parent of `source` already has an edge to
    /// `destination`, or is `destination` itself: copying adds nothing.
    pub open spec fn parents_covered(self, kind: RenderNodeDependencyKind, source: RenderNodeId, destination: RenderNodeId) -> bool {
        forall|p: RenderNodeId|
            #[trigger] self.has_edge(kind, p, source) ==> p == destination || self.has_edge(kind, p, destination)
    }

    /// Every track-`kind` child of `source` already has an edge from
    /// `destination`, or is `destination` itself: copying adds nothing.
    pub open spec fn children_covered(self, kind: RenderNodeDependencyKind, source: RenderNodeId, destination: RenderNodeId) -> bool {
        forall|c: RenderNodeId|
            #[trigger] self.has_edge(kind, source, c) ==> c == destination || self.has_edge(kind, destination, c)
    }

    /// Copies incoming dependencies of `source` on track `kind` so they also
    /// target `destination`; existing edges and self-edges are skipped.
    pub fn copy_parent_dependencies(
        &mut self,
        source: RenderNodeId,
        destination: RenderNodeId,
        kind: RenderNodeDependencyKind,
    ) -> (r: RenderGraphResult<()>)
        requires
            old(self).wf(),
        ensures
            final(self).wf(),
            final(self).frozen() == old(self).frozen(),
            final(self).built() == old(self).built(),
            final(self).nodes_kept(*old(self)),
            old(self).frozen() ==> r == Err::<(), RenderGraphError>(
                RenderGraphError::GraphAlreadyBuilt { operation: "copy_parent_dependencies" },
            ) && *final(self) == *old(self),
            !old(self).frozen() && !old(self).node_live(source) ==> r == Err::<(), RenderGraphError>(
                RenderGraphError::InvalidId { kind: "node", raw: source.0 },
            ) && *final(self) == *old(self),
            !old(self).frozen() && old(self).node_live(source) && !old(self).node_live(destination) ==> r == Err::<
                (),
                RenderGraphError,
            >(RenderGraphError::InvalidId { kind: "node", raw: destination.0 }) && *final(self) == *old(self),
            !old(self).frozen() && old(self).node_live(source) && old(self).node_live(destination)
                && old(self).dep_slot_count() + old(self).parent_deps(source, kind).len() < 4294967295 ==> r is Ok,
            r is Ok ==> forall|k: RenderNodeDependencyKind, p: RenderNodeId, c: RenderNodeId|
                #![trigger final(self).has_edge(k, p, c)]
                final(self).has_edge(k, p, c) == (old(self).has_edge(k, p, c) || (k == kind && c == destination
                    && p != destination && old(self).has_edge(kind, p, source))),
            r is Err && !old(self).frozen() && old(self).node_live(source) && old(self).node_live(destination)
                ==> final(self).dep_slot_count() >= 4294967295,
            final(self).dep_slot_count() >= old(self).dep_slot_count(),
            forall|k: RenderNodeDependencyKind, p: RenderNodeId, c: RenderNodeId|
                #![trigger old(self).has_edge(k, p, c)]
                old(self).has_edge(k, p, c) ==> final(self).has_edge(k, p, c),
            !old(self).frozen() && old(self).node_live(source) && old(self).node_live(destination)
                && old(self).parents_covered(kind, source, destination) ==> r is Ok && *final(self) == *old(self),
    {
        match self.ensure_mutable("copy_parent_dependencies") {
            Ok(()) => {},
            Err(e) => return Err(e),
        }
        match self.ensure_node_exists(source) {
            Ok(()) => {},
            Err(e) => return Err(e),
        }
        match self.ensure_node_exists(destination) {
            Ok(()) => {},
            Err(e) => return Err(e),
        }
        let parents = match self.parent_nodes(source, kind) {
            Ok(v) => v,
            Err(e) => return Err(e),
        };
        proof {
            self.lemma_parent_seq_edges(source, kind);
        }
        let ghost start = *self;
        let mut i: usize = 0;
        while i < parents.len()
            invariant
                self.wf(),
                start.wf(),
                start == *old(self),
                !self.frozen(),
                !start.frozen(),
                self.built() == start.built(),
                self.nodes_kept(start),
                start.node_live(source),
                start.node_live(destination),
                parents@ == start.parent_node_seq(source, kind),
                forall|j: int| 0 <= j < parents@.len() ==> start.node_live(#[trigger] parents@[j]),
                forall|p: RenderNodeId| #[trigger] parents@.contains(p) <==> start.has_edge(kind, p, source),
                parents@.len() == start.parent_deps(source, kind).len(),
                self.dep_slot_count() <= start.dep_slot_count() + i,
                self.dep_slot_count() >= start.dep_slot_count(),
                i <= parents@.len(),
                forall|k: RenderNodeDependencyKind, p: RenderNodeId, c: RenderNodeId|
                    #![trigger self.has_edge(k, p, c)]
                    self.has_edge(k, p, c) == (start.has_edge(k, p, c) || (k == kind && c == destination
                        && p != destination && parents@.subrange(0, i as int).contains(p))),
                start.parents_covered(kind, source, destination) ==> *self == start,
            decreases parents@.len() - i,
        {
            let parent = parents[i];
            proof {
                assert(self.node_live(parent));
                assert(self.node_live(destination));
                assert(parents@[i as int] == parent);
                assert(parents@.contains(parent));
            }
            let ghost before = *self;
            match self.add_missing_dependency(kind, parent, destination) {
                Ok(()) => {},
                Err(e) => {
                    proof {
                        assert forall|k: RenderNodeDependencyKind, p: RenderNodeId, c: RenderNodeId|
                            #![trigger start.has_edge(k, p, c)]
                            start.has_edge(k, p, c) implies self.has_edge(k, p, c) by {
                            assert(before.has_edge(k, p, c));
                        }
                    }
                    return Err(e);
                },
            }
            proof {
                assert forall|k: RenderNodeDependencyKind, p: RenderNodeId, c: RenderNodeId|
                    #![trigger self.has_edge(k, p, c)]
                    self.has_edge(k, p, c) == (start.has_edge(k, p, c) || (k == kind && c == destination
                        && p != destination && parents@.subrange(0, i + 1).contains(p))) by {
                    assert(before.has_edge(k, p, c) == (start.has_edge(k, p, c) || (k == kind && c == destination
                        && p != destination && parents@.subrange(0, i as int).contains(p))));
                    let longer = parents@.subrange(0, i + 1);
                    let shorter = parents@.subrange(0, i as int);
                    if longer.contains(p) {
                        let j = choose|j: int| 0 <= j < longer.len() && longer[j] == p;
                        if j < i {
                            assert(shorter[j] == p);
                        }
                    }
                    if shorter.contains(p) {
                        let j = choose|j: int| 0 <= j < shorter.len() && shorter[j] == p;
                        assert(longer[j] == p);
                    }
                    if p == parent {
                        assert(parents@.subrange(0, i + 1)[i as int] == p);
                    }
                }
                assert forall|n: RenderNodeId|
                    #![trigger self.node_data(n)]
                    start.node_live(n) implies self.node_data(n).params == start.node_data(n).params
                        && self.node_data(n).metadata == start.node_data(n).metadata by {
                    assert(before.node_live(n));
                }
            }
            i = i + 1;
        }
        proof {
            assert(parents@.subrange(0, i as int) =~= parents@);
            assert forall|k: RenderNodeDependencyKind, p: RenderNodeId, c: RenderNodeId|
                #![trigger start.has_edge(k, p, c)]
                start.has_edge(k, p, c) implies self.has_edge(k, p, c) by {}
        }
        Ok(())
    }

    /// Copies outgoing dependencies of `source` on track `kind` so they also
    /// start at `destination`; existing edges and self-edges are skipped.
    pub fn copy_child_dependencies(
        &mut self,
        source: RenderNodeId,
        destination: RenderNodeId,
        kind: RenderNodeDependencyKind,
    ) -> (r: RenderGraphResult<()>)
        requires
            old(self).wf(),
        ensures
            final(self).wf(),
            final(self).frozen() == old(self).frozen(),
            final(self).built() == old(self).built(),
            final(self).nodes_kept(*old(self)),
            old(self).frozen() ==> r == Err::<(), RenderGraphError>(
                RenderGraphError::GraphAlreadyBuilt { operation: "copy_child_dependencies" },
            ) && *final(self) == *old(self),
            !old(self).frozen() && !old(self).node_live(source) ==> r == Err::<(), RenderGraphError>(
                RenderGraphError::InvalidId { kind: "node", raw: source.0 },
            ) && *final(self) == *old(self),
            !old(self).frozen() && old(self).node_live(source) && !old(self).node_live(destination) ==> r == Err::<
                (),
                RenderGraphError,
            >(RenderGraphError::InvalidId { kind: "node", raw: destination.0 }) && *final(self) == *old(self),
            !old(self).frozen() && old(self).node_live(source) && old(self).node_live(destination)
                && old(self).dep_slot_count() + old(self).child_deps(source, kind).len() < 4294967295 ==> r is Ok,
            r is Ok ==> forall|k: RenderNodeDependencyKind, p: RenderNodeId, c: RenderNodeId|
                #![trigger final(self).has_edge(k, p, c)]
                final(self).has_edge(k, p, c) == (old(self).has_edge(k, p, c) || (k == kind && p == destination
                    && c != destination && old(self).has_edge(kind, source, c))),
            r is Err && !old(self).frozen() && old(self).node_live(source) && old(self).node_live(destination)
                ==> final(self).dep_slot_count() >= 4294967295,
            final(self).dep_slot_count() >= old(self).dep_slot_count(),
            forall|k: RenderNodeDependencyKind, p: RenderNodeId, c: RenderNodeId|
                #![trigger old(self).has_edge(k, p, c)]
                old(self).has_edge(k, p, c) ==> final(self).has_edge(k, p, c),
            !old(self).frozen() && old(self).node_live(source) && old(self).node_live(destination)
                && old(self).children_covered(kind, source, destination) ==> r is Ok && *final(self) == *old(self),
    {
        match self.ensure_mutable("copy_child_dependencies") {
            Ok(()) => {},
            Err(e) => return Err(e),
        }
        match self.ensure_node_exists(source) {
            Ok(()) => {},
            Err(e) => return Err(e),
        }
        match self.ensure_node_exists(destination) {
            Ok(()) => {},
            Err(e) => return Err(e),
        }
        let children = match self.child_nodes(source, kind) {
            Ok(v) => v,
            Err(e) => return Err(e),
        };
        proof {
            self.lemma_child_seq_edges(source, kind);
        }
        let ghost start = *self;
        let mut i: usize = 0;
        while i < children.len()
            invariant
                self.wf(),
                start.wf(),
                start == *old(self),
                !self.frozen(),
                !start.frozen(),
                self.built() == start.built(),
                self.nodes_kept(start),
                start.node_live(source),
                start.node_live(destination),
                children@ == start.child_node_seq(source, kind),
                forall|j: int| 0 <= j < children@.len() ==> start.node_live(#[trigger] children@[j]),
                forall|c: RenderNodeId| #[trigger] children@.contains(c) <==> start.has_edge(kind, source, c),
                children@.len() == start.child_deps(source, kind).len(),
                self.dep_slot_count() <= start.dep_slot_count() + i,
                self.dep_slot_count() >= start.dep_slot_count(),
                i <= children@.len(),
                forall|k: RenderNodeDependencyKind, p: RenderNodeId, c: RenderNodeId|
                    #![trigger self.has_edge(k, p, c)]
                    self.has_edge(k, p, c) == (start.has_edge(k, p, c) || (k == kind && p == destination
                        && c != destination && children@.subrange(0, i as int).contains(c))),
                start.children_covered(kind, source, destination) ==> *self == start,
            decreases children@.len() - i,
        {
            let child = children[i];
            proof {
                assert(self.node_live(child));
                assert(self.node_live(destination));
                assert(children@[i as int] == child);
                assert(children@.contains(child));
            }
            let ghost before = *self;
            match self.add_missing_dependency(kind, destination, child) {
                Ok(()) => {},
                Err(e) => {
                    proof {
                        assert forall|k: RenderNodeDependencyKind, p: RenderNodeId, c: RenderNodeId|
                            #![trigger start.has_edge(k, p, c)]
                            start.has_edge(k, p, c) implies self.has_edge(k, p, c) by {
                            assert(before.has_edge(k, p, c));
                        }
                    }
                    return Err(e);
                },
            }
            proof {
                assert forall|k: RenderNodeDependencyKind, p: RenderNodeId, c: RenderNodeId|
                    #![trigger self.has_edge(k, p, c)]
                    self.has_edge(k, p, c) == (start.has_edge(k, p, c) || (k == kind && p == destination
                        && c != destination && children@.subrange(0, i + 1).contains(c))) by {
                    assert(before.has_edge(k, p, c) == (start.has_edge(k, p, c) || (k == kind && p == destination
                        && c != destination && children@.subrange(0, i as int).contains(c))));
                    let longer = children@.subrange(0, i + 1);
                    let shorter = children@.subrange(0, i as int);
                    if longer.contains(c) {
                        let j = choose|j: int| 0 <= j < longer.len() && longer[j] == c;
                        if j < i {
                            assert(shorter[j] == c);
                        }
                    }
                    if shorter.contains(c) {
                        let j = choose|j: int| 0 <= j < shorter.len() && shorter[j] == c;
                        assert(longer[j] == c);
                    }
                    if c == child {
                        assert(children@.subrange(0, i + 1)[i as int] == c);
                    }
                }
                assert forall|n: RenderNodeId|
                    #![trigger self.node_data(n)]
                    start.node_live(n) implies self.node_data(n).params == start.node_data(n).params
                        && self.node_data(n).metadata == start.node_data(n).metadata by {
                    assert(before.node_live(n));
                }
            }
            i = i + 1;
        }
        proof {
            assert(children@.subrange(0, i as int) =~= children@);
            assert forall|k: RenderNodeDependencyKind, p: RenderNodeId, c: RenderNodeId|
                #![trigger start.has_edge(k, p, c)]
                start.has_edge(k, p, c) implies self.has_edge(k, p, c) by {}
        }
        Ok(())
    }

    /// The invariant rules out self-edges.
    pub(crate) proof fn lemma_no_self_edge(&self, k: RenderNodeDependencyKind, n: RenderNodeId)
        requires
            self.wf(),
        ensures
            !self.has_edge(k, n, n),
    {
        if self.has_edge(k, n, n) {
            let d = choose|d: RenderDependencyId|
                #![trigger self.dep_data(d)]
                self.dep_live(d) && self.dep_data(d).kind == k && self.dep_data(d).parent == n
                    && self.dep_data(d).child == n;
            self.lemma_dep_linked(d);
        }
    }

    /// Copies all incoming and outgoing dependencies of `source`, on both tracks,
    /// to `destination`.
    pub fn copy_all_dependencies(&mut self, source: RenderNodeId, destination: RenderNodeId) -> (r: RenderGraphResult<()>)
        requires
            old(self).wf(),
        ensures
            final(self).wf(),
            final(self).frozen() == old(self).frozen(),
            final(self).built() == old(self).built(),
            final(self).nodes_kept(*old(self)),
            old(self).frozen() ==> r == Err::<(), RenderGraphError>(
                RenderGraphError::GraphAlreadyBuilt { operation: "copy_parent_dependencies" },
            ) && *final(self) == *old(self),
            !old(self).frozen() && !old(self).node_live(source) ==> r == Err::<(), RenderGraphError>(
                RenderGraphError::InvalidId { kind: "node", raw: source.0 },
            ) && *final(self) == *old(self),
            !old(self).frozen() && old(self).node_live(source) && !old(self).node_live(destination) ==> r == Err::<
                (),
                RenderGraphError,
            >(RenderGraphError::InvalidId { kind: "node", raw: destination.0 }) && *final(self) == *old(self),
            r is Err && !old(self).frozen() && old(self).node_live(source) && old(self).node_live(destination)
                ==> final(self).dep_slot_count() >= 4294967295,
            r is Ok ==> forall|k: RenderNodeDependencyKind, p: RenderNodeId, c: RenderNodeId|
                #![trigger final(self).has_edge(k, p, c)]
                final(self).has_edge(k, p, c) == (old(self).has_edge(k, p, c) || (c == destination && p != destination
                    && old(self).has_edge(k, p, source)) || (p == destination && c != destination && old(self).has_edge(
                    k,
                    source,
                    c,
                ))),
            forall|k: RenderNodeDependencyKind, p: RenderNodeId, c: RenderNodeId|
                #![trigger old(self).has_edge(k, p, c)]
                old(self).has_edge(k, p, c) ==> final(self).has_edge(k, p, c),
            !old(self).frozen() && old(self).node_live(source) && old(self).node_live(destination)
                && old(self).parents_covered(RenderNodeDependencyKind::Cpu, source, destination)
                && old(self).children_covered(RenderNodeDependencyKind::Cpu, source, destination)
                && old(self).parents_covered(RenderNodeDependencyKind::Gpu, source, destination)
                && old(self).children_covered(RenderNodeDependencyKind::Gpu, source, destination)
                ==> r is Ok && *final(self) == *old(self),
    {
        let ghost s0 = *self;
        match self.copy_parent_dependencies(source, destination, RenderNodeDependencyKind::Cpu) {
            Ok(()) => {},
            Err(e) => return Err(e),
        }
        let ghost s1 = *self;
        proof {
            s0.lemma_no_self_edge(RenderNodeDependencyKind::Cpu, source);
            assert(s1.node_live(source) && s1.node_live(destination));
        }
        match self.copy_child_dependencies(source, destination, RenderNodeDependencyKind::Cpu) {
            Ok(()) => {},
            Err(e) => {
                proof {
                    assert forall|k: RenderNodeDependencyKind, p: RenderNodeId, c: RenderNodeId|
                        #![trigger s0.has_edge(k, p, c)]
                        s0.has_edge(k, p, c) implies self.has_edge(k, p, c) by {
                        assert(s1.has_edge(k, p, c));
                    }
                }
                return Err(e);
            },
        }
        let ghost s2 = *self;
        proof {
            assert(s2.node_live(source) && s2.node_live(destination));
        }
        match self.copy_parent_dependencies(source, destination, RenderNodeDependencyKind::Gpu) {
            Ok(()) => {},
            Err(e) => {
                proof {
                    assert forall|k: RenderNodeDependencyKind, p: RenderNodeId, c: RenderNodeId|
                        #![trigger s0.has_edge(k, p, c)]
                        s0.has_edge(k, p, c) implies self.has_edge(k, p, c) by {
                        assert(s1.has_edge(k, p, c));
                        assert(s2.has_edge(k, p, c));
                    }
                }
                return Err(e);
            },
        }
        let ghost s3 = *self;
        proof {
            s0.lemma_no_self_edge(RenderNodeDependencyKind::Gpu, source);
            assert(s3.node_live(source) && s3.node_live(destination));
        }
        match self.copy_child_dependencies(source, destination, RenderNodeDependencyKind::Gpu) {
            Ok(()) => {},
            Err(e) => {
                proof {
                    assert forall|k: RenderNodeDependencyKind, p: RenderNodeId, c: RenderNodeId|
                        #![trigger s0.has_edge(k, p, c)]
                        s0.has_edge(k, p, c) implies self.has_edge(k, p, c) by {
                        assert(s1.has_edge(k, p, c));
                        assert(s2.has_edge(k, p, c));
                        assert(s3.has_edge(k, p, c));
                    }
                }
                return Err(e);
            },
        }
        proof {
            assert forall|k: RenderNodeDependencyKind, p: RenderNodeId, c: RenderNodeId|
                #![trigger self.has_edge(k, p, c)]
                self.has_edge(k, p, c) == (s0.has_edge(k, p, c) || (c == destination && p != destination
                    && s0.has_edge(k, p, source)) || (p == destination && c != destination && s0.has_edge(
                    k,
                    source,
                    c,
                ))) by {
                assert(s1.has_edge(k, p, c) == (s0.has_edge(k, p, c) || (k == RenderNodeDependencyKind::Cpu
                    && c == destination && p != destination && s0.has_edge(RenderNodeDependencyKind::Cpu, p, source))));
                assert(s1.has_edge(RenderNodeDependencyKind::Cpu, source, c) == s0.has_edge(
                    RenderNodeDependencyKind::Cpu,
                    source,
                    c,
                ));
                assert(s2.has_edge(k, p, c) == (s1.has_edge(k, p, c) || (k == RenderNodeDependencyKind::Cpu
                    && p == destination && c != destination && s1.has_edge(RenderNodeDependencyKind::Cpu, source, c))));
                assert(s2.has_edge(RenderNodeDependencyKind::Gpu, p, source) == s0.has_edge(
                    RenderNodeDependencyKind::Gpu,
                    p,
                    source,
                ));
                assert(s3.has_edge(k, p, c) == (s2.has_edge(k, p, c) || (k == RenderNodeDependencyKind::Gpu
                    && c == destination && p != destination && s2.has_edge(RenderNodeDependencyKind::Gpu, p, source))));
                assert(s3.has_edge(RenderNodeDependencyKind::Gpu, source, c) == s0.has_edge(
                    RenderNodeDependencyKind::Gpu,
                    source,
                    c,
                ));
                assert(self.has_edge(k, p, c) == (s3.has_edge(k, p, c) || (k == RenderNodeDependencyKind::Gpu
                    && p == destination && c != destination && s3.has_edge(RenderNodeDependencyKind::Gpu, source, c))));
            }
            assert forall|n: RenderNodeId|
                #![trigger self.node_data(n)]
                s0.node_live(n) implies self.node_data(n).params == s0.node_data(n).params
                    && self.node_data(n).metadata == s0.node_data(n).metadata by {
                assert(s1.node_live(n));
                assert(s2.node_live(n));
                assert(s3.node_live(n));
            }
        }
        Ok(())
    }

    /// Adds every missing edge from a live listed parent to a live listed child
    /// on track `kind`, skipping self-edges.
    fn bridge_kind(&mut self, kind: RenderNodeDependencyKind, parents: &Vec<RenderNodeId>, children: &Vec<RenderNodeId>) -> (r:
        RenderGraphResult<()>)
        requires
            old(self).wf(),
            !old(self).frozen(),
        ensures
            final(self).wf(),
            !final(self).frozen(),
            final(self).built() == old(self).built(),
            final(self).nodes_kept(*old(self)),
            final(self).dep_slot_count() >= old(self).dep_slot_count(),
            r is Err ==> final(self).dep_slot_count() >= 4294967295,
            r is Ok ==> forall|k: RenderNodeDependencyKind, p: RenderNodeId, c: RenderNodeId|
                #![trigger final(self).has_edge(k, p, c)]
                final(self).has_edge(k, p, c) == (old(self).has_edge(k, p, c) || (k == kind && parents@.contains(p)
                    && children@.contains(c) && old(self).node_live(p) && old(self).node_live(c) && p != c)),
            forall|k: RenderNodeDependencyKind, p: RenderNodeId, c: RenderNodeId|
                #![trigger old(self).has_edge(k, p, c)]
                old(self).has_edge(k, p, c) ==> final(self).has_edge(k, p, c),
    {
        let ghost start = *self;
        let mut i: usize = 0;
        while i < parents.len()
            invariant
                self.wf(),
                start.wf(),
                start == *old(self),
                !self.frozen(),
                self.built() == start.built(),
                self.nodes_kept(start),
                self.dep_slot_count() >= start.dep_slot_count(),
                i <= parents@.len(),
                forall|k: RenderNodeDependencyKind, p: RenderNodeId, c: RenderNodeId|
                    #![trigger self.has_edge(k, p, c)]
                    self.has_edge(k, p, c) == (start.has_edge(k, p, c) || (k == kind && parents@.subrange(
                        0,
                        i as int,
                    ).contains(p) && children@.contains(c) && start.node_live(p) && start.node_live(c) && p != c)),
            decreases parents@.len() - i,
        {
            let parent = parents[i];
            let ghost row_start = *self;
            proof {
                self.lemma_wf_storage();
            }
            if self.nodes.is_allocated(parent) {
                let mut j: usize = 0;
                while j < children.len()
                    invariant
                        self.wf(),
                        start.wf(),
                        start == *old(self),
                        !self.frozen(),
                        self.built() == start.built(),
                        self.nodes_kept(start),
                        self.dep_slot_count() >= start.dep_slot_count(),
                        self.node_live(parent),
                        parent == parents@[i as int],
                        i < parents@.len(),
                        j <= children@.len(),
                        forall|k: RenderNodeDependencyKind, p: RenderNodeId, c: RenderNodeId|
                            #![trigger self.has_edge(k, p, c)]
                            self.has_edge(k, p, c) == (row_start.has_edge(k, p, c) || (k == kind && p == parent
                                && children@.subrange(0, j as int).contains(c) && start.node_live(c) && p != c)),
                        forall|k: RenderNodeDependencyKind, p: RenderNodeId, c: RenderNodeId|
                            #![trigger row_start.has_edge(k, p, c)]
                            row_start.has_edge(k, p, c) == (start.has_edge(k, p, c) || (k == kind && parents@.subrange(
                                0,
                                i as int,
                            ).contains(p) && children@.contains(c) && start.node_live(p) && start.node_live(c) && p != c)),
                    decreases children@.len() - j,
                {
                    let child = children[j];
                    proof {
                        self.lemma_wf_storage();
                    }
                    let ghost before = *self;
                    if self.nodes.is_allocated(child) && parent != child {
                        match self.add_missing_dependency(kind, parent, child) {
                            Ok(()) => {},
                            Err(e) => {
                                proof {
                                    assert forall|k: RenderNodeDependencyKind, p: RenderNodeId, c: RenderNodeId|
                                        #![trigger start.has_edge(k, p, c)]
                                        start.has_edge(k, p, c) implies self.has_edge(k, p, c) by {
                                        assert(row_start.has_edge(k, p, c));
                                        assert(before.has_edge(k, p, c));
                                    }
                                }
                                return Err(e);
                            },
                        }
                    }
                    proof {
                        assert(self.node_live(child) == start.node_live(child));
                        assert forall|k: RenderNodeDependencyKind, p: RenderNodeId, c: RenderNodeId|
                            #![trigger self.has_edge(k, p, c)]
                            self.has_edge(k, p, c) == (row_start.has_edge(k, p, c) || (k == kind && p == parent
                                && children@.subrange(0, j + 1).contains(c) && start.node_live(c) && p != c)) by {
                            assert(before.has_edge(k, p, c) == (row_start.has_edge(k, p, c) || (k == kind && p == parent
                                && children@.subrange(0, j as int).contains(c) && start.node_live(c) && p != c)));
                            let longer = children@.subrange(0, j + 1);
                            let shorter = children@.subrange(0, j as int);
                            if longer.contains(c) {
                                let x = choose|x: int| 0 <= x < longer.len() && longer[x] == c;
                                if x < j {
                                    assert(shorter[x] == c);
                                }
                            }
                            if shorter.contains(c) {
                                let x = choose|x: int| 0 <= x < shorter.len() && shorter[x] == c;
                                assert(longer[x] == c);
                            }
                            if c == child {
                                assert(longer[j as int] == c);
                            }
                        }
                        assert forall|n: RenderNodeId|
                            #![trigger self.node_data(n)]
                            start.node_live(n) implies self.node_data(n).params == start.node_data(n).params
                                && self.node_data(n).metadata == start.node_data(n).metadata by {
                            assert(before.node_live(n));
                        }
                    }
                    j = j + 1;
                }
                proof {
                    assert(children@.subrange(0, j as int) =~= children@);
                }
            }
            proof {
                assert(self.node_live(parent) == start.node_live(parent));
                assert forall|k: RenderNodeDependencyKind, p: RenderNodeId, c: RenderNodeId|
                    #![trigger self.has_edge(k, p, c)]
                    self.has_edge(k, p, c) == (start.has_edge(k, p, c) || (k == kind && parents@.subrange(0, i + 1).contains(p)
                        && children@.contains(c) && start.node_live(p) && start.node_live(c) && p != c)) by {
                    assert(row_start.has_edge(k, p, c) == (start.has_edge(k, p, c) || (k == kind && parents@.subrange(
                        0,
                        i as int,
                    ).contains(p) && children@.contains(c) && start.node_live(p) && start.node_live(c) && p != c)));
                    let longer = parents@.subrange(0, i + 1);
                    let shorter = parents@.subrange(0, i as int);
                    if longer.contains(p) {
                        let x = choose|x: int| 0 <= x < longer.len() && longer[x] == p;
                        if x < i {
                            assert(shorter[x] == p);
                        }
                    }
                    if shorter.contains(p) {
                        let x = choose|x: int| 0 <= x < shorter.len() && shorter[x] == p;
                        assert(longer[x] == p);
                    }
                    if p == parent {
                        assert(longer[i as int] == p);
                    }
                }
            }
            i = i + 1;
        }
        proof {
            assert(parents@.subrange(0, i as int) =~= parents@);
        }
        Ok(())
    }

    /// Removes a node and connects each of its parents to each of its children,
    /// track by track. Existing edges are kept and not duplicated; would-be
    /// self-edges are skipped.
    pub fn remove_node_and_bridge_dependencies(&mut self, node: RenderNodeId) -> (r: RenderGraphResult<RenderNodeData>)
        requires
            old(self).wf(),
        ensures
            final(self).wf(),
            final(self).frozen() == old(self).frozen(),
            final(self).built() == old(self).built(),
            old(self).frozen() ==> r == Err::<RenderNodeData, RenderGraphError>(
                RenderGraphError::GraphAlreadyBuilt { operation: "remove_node_and_bridge_dependencies" },
            ) && *final(self) == *old(self),
            !old(self).frozen() && !old(self).node_live(node) ==> r == Err::<RenderNodeData, RenderGraphError>(
                RenderGraphError::InvalidId { kind: "node", raw: node.0 },
            ) && *final(self) == *old(self),
            r is Err && !old(self).frozen() && old(self).node_live(node) ==> final(self).dep_slot_count() >= 4294967295,
            !old(self).frozen() && old(self).node_live(node) ==> {
                &&& forall|n: RenderNodeId| #[trigger] final(self).node_live(n) == (old(self).node_live(n) && n != node)
                &&& forall|n: RenderNodeId|
                    #![trigger final(self).node_data(n)]
                    final(self).node_live(n) ==> final(self).node_data(n).params == old(self).node_data(n).params
                        && final(self).node_data(n).metadata == old(self).node_data(n).metadata
            },
            r is Ok ==> {
                &&& r->Ok_0.params == old(self).node_data(node).params
                &&& r->Ok_0.metadata == old(self).node_data(node).metadata
                &&& forall|k: RenderNodeDependencyKind, p: RenderNodeId, c: RenderNodeId|
                    #![trigger final(self).has_edge(k, p, c)]
                    final(self).has_edge(k, p, c) == ((old(self).has_edge(k, p, c) && p != node && c != node) || (
                    old(self).has_edge(k, p, node) && old(self).has_edge(k, node, c) && p != c))
            },
    {
        match self.ensure_mutable("remove_node_and_bridge_dependencies") {
            Ok(()) => {},
            Err(e) => return Err(e),
        }
        match self.ensure_node_exists(node) {
            Ok(()) => {},
            Err(e) => return Err(e),
        }
        let ghost s0 = *self;
        let incoming_cpu = match self.parent_nodes(node, RenderNodeDependencyKind::Cpu) {
            Ok(v) => v,
            Err(e) => return Err(e),
        };
        let incoming_gpu = match self.parent_nodes(node, RenderNodeDependencyKind::Gpu) {
            Ok(v) => v,
            Err(e) => return Err(e),
        };
        let outgoing_cpu = match self.child_nodes(node, RenderNodeDependencyKind::Cpu) {
            Ok(v) => v,
            Err(e) => return Err(e),
        };
        let outgoing_gpu = match self.child_nodes(node, RenderNodeDependencyKind::Gpu) {
            Ok(v) => v,
            Err(e) => return Err(e),
        };
        proof {
            self.lemma_parent_seq_edges(node, RenderNodeDependencyKind::Cpu);
            self.lemma_parent_seq_edges(node, RenderNodeDependencyKind::Gpu);
            self.lemma_child_seq_edges(node, RenderNodeDependencyKind::Cpu);
            self.lemma_child_seq_edges(node, RenderNodeDependencyKind::Gpu);
        }
        let removed = match self.remove_node(node) {
            Ok(data) => data,
            Err(e) => return Err(e),
        };
        let ghost s1 = *self;
        match self.bridge_kind(RenderNodeDependencyKind::Cpu, &incoming_cpu, &outgoing_cpu) {
            Ok(()) => {},
            Err(e) => {
                proof {
                    assert forall|n: RenderNodeId| #[trigger] self.node_live(n) == (s0.node_live(n) && n != node) by {
                        assert(s1.node_live(n) == (s0.node_live(n) && n != node));
                    }
                    assert forall|n: RenderNodeId|
                        #![trigger self.node_data(n)]
                        self.node_live(n) implies self.node_data(n).params == s0.node_data(n).params
                            && self.node_data(n).metadata == s0.node_data(n).metadata by {
                        assert(s1.node_live(n));
                    }
                }
                return Err(e);
            },
        }
        let ghost s2 = *self;
        match self.bridge_kind(RenderNodeDependencyKind::Gpu, &incoming_gpu, &outgoing_gpu) {
            Ok(()) => {},
            Err(e) => {
                proof {
                    assert forall|n: RenderNodeId| #[trigger] self.node_live(n) == (s0.node_live(n) && n != node) by {
                        assert(s1.node_live(n) == (s0.node_live(n) && n != node));
                        assert(s2.node_live(n) == s1.node_live(n));
                    }
                    assert forall|n: RenderNodeId|
                        #![trigger self.node_data(n)]
                        self.node_live(n) implies self.node_data(n).params == s0.node_data(n).params
                            && self.node_data(n).metadata == s0.node_data(n).metadata by {
                        assert(s1.node_live(n));
                        assert(s2.node_live(n));
                    }
                }
                return Err(e);
            },
        }
        proof {
            assert forall|n: RenderNodeId| #[trigger] self.node_live(n) == (s0.node_live(n) && n != node) by {
                assert(s1.node_live(n) == (s0.node_live(n) && n != node));
                assert(s2.node_live(n) == s1.node_live(n));
            }
            assert forall|n: RenderNodeId|
                #![trigger self.node_data(n)]
                self.node_live(n) implies self.node_data(n).params == s0.node_data(n).params
                    && self.node_data(n).metadata == s0.node_data(n).metadata by {
                assert(s1.node_live(n));
                assert(s2.node_live(n));
            }
            assert forall|k: RenderNodeDependencyKind, p: RenderNodeId, c: RenderNodeId|
                #![trigger self.has_edge(k, p, c)]
                self.has_edge(k, p, c) == ((s0.has_edge(k, p, c) && p != node && c != node) || (s0.has_edge(k, p, node)
                    && s0.has_edge(k, node, c) && p != c)) by {
                assert(s1.has_edge(k, p, c) == (s0.has_edge(k, p, c) && p != node && c != node));
                if s0.has_edge(k, p, node) {
                    s0.lemma_no_self_edge(k, node);
                    assert(p != node);
                    match k {
                        RenderNodeDependencyKind::Cpu => { assert(incoming_cpu@.contains(p)); },
                        RenderNodeDependencyKind::Gpu => { assert(incoming_gpu@.contains(p)); },
                    }
                    s0.lemma_dep_linked(choose|d: RenderDependencyId|
                        #![trigger s0.dep_data(d)]
                        s0.dep_live(d) && s0.dep_data(d).kind == k && s0.dep_data(d).parent == p
                            && s0.dep_data(d).child == node);
                }
                if s0.has_edge(k, node, c) {
                    s0.lemma_no_self_edge(k, node);
                    match k {
                        RenderNodeDependencyKind::Cpu => { assert(outgoing_cpu@.contains(c)); },
                        RenderNodeDependencyKind::Gpu => { assert(outgoing_gpu@.contains(c)); },
                    }
                    s0.lemma_dep_linked(choose|d: RenderDependencyId|
                        #![trigger s0.dep_data(d)]
                        s0.dep_live(d) && s0.dep_data(d).kind == k && s0.dep_data(d).parent == node
                            && s0.dep_data(d).child == c);
                }
                if incoming_cpu@.contains(p) {
                    assert(s0.has_edge(RenderNodeDependencyKind::Cpu, p, node));
                }
                if incoming_gpu@.contains(p) {
                    assert(s0.has_edge(RenderNodeDependencyKind::Gpu, p, node));
                }
                if outgoing_cpu@.contains(c) {
                    assert(s0.has_edge(RenderNodeDependencyKind::Cpu, node, c));
                }
                if outgoing_gpu@.contains(c) {
                    assert(s0.has_edge(RenderNodeDependencyKind::Gpu, node, c));
                }
            }
        }
        Ok(removed)
    }

    /// Whether `dependency_id` is reachable from the child list of `parent` on track `kind`.
    fn parent_list_contains(&self, parent: RenderNodeId, kind: RenderNodeDependencyKind, dependency_id: RenderDependencyId) -> (r:
        bool)
        requires
            self.wf(),
            self.node_live(parent),
        ensures
            r == self.child_deps(parent, kind).contains(dependency_id.0),
    {
        proof {
            self.lemma_out_list_complete(parent, kind);
            self.lemma_wf_storage();
        }
        let ghost l = self.child_deps(parent, kind);
        let data = self.nodes.get(parent).unwrap();
        let mut cursor = data.first_child_dependency(kind);
        let ghost mut i: int = 0;
        while cursor.is_some()
            invariant
                self.wf(),
                self.dependencies.wf(),
                0 <= i <= l.len(),
                l == self.child_deps(parent, kind),
                forall|j: int|
                    #![trigger self.dep_data(RenderDependencyId(l[j]))]
                    0 <= j < l.len() ==> {
                        let d = RenderDependencyId(l[j]);
                        &&& self.dep_live(d)
                        &&& self.dep_data(d).next_from_parent == list_next(l, j)
                    },
                cursor == (if i < l.len() { Some(RenderDependencyId(l[i])) } else { None::<RenderDependencyId> }),
                forall|j: int| 0 <= j < i ==> l[j] != dependency_id.0,
            decreases l.len() - i,
        {
            let current = cursor.unwrap();
            if current.0 == dependency_id.0 {
                proof {
                    assert(l[i] == dependency_id.0);
                }
                return true;
            }
            proof {
                assert(self.dep_live(RenderDependencyId(l[i])));
            }
            let dependency = self.dependencies.get(current).unwrap();
            cursor = dependency.next_from_parent;
            proof {
                assert(self.dep_data(RenderDependencyId(l[i])).next_from_parent == list_next(l, i));
                i = i + 1;
            }
        }
        false
    }

    /// Whether `dependency_id` is reachable from the parent list of `child` on track `kind`.
    fn child_list_contains(&self, child: RenderNodeId, kind: RenderNodeDependencyKind, dependency_id: RenderDependencyId) -> (r:
        bool)
        requires
            self.wf(),
            self.node_live(child),
        ensures
            r == self.parent_deps(child, kind).contains(dependency_id.0),
    {
        proof {
            self.lemma_in_list_complete(child, kind);
            self.lemma_wf_storage();
        }
        let ghost l = self.parent_deps(child, kind);
        let data = self.nodes.get(child).unwrap();
        let mut cursor = data.first_parent_dependency(kind);
        let ghost mut i: int = 0;
        while cursor.is_some()
            invariant
                self.wf(),
                self.dependencies.wf(),
                0 <= i <= l.len(),
                l == self.parent_deps(child, kind),
                forall|j: int|
                    #![trigger self.dep_data(RenderDependencyId(l[j]))]
                    0 <= j < l.len() ==> {
                        let d = RenderDependencyId(l[j]);
                        &&& self.dep_live(d)
                        &&& self.dep_data(d).next_from_child == list_next(l, j)
                    },
                cursor == (if i < l.len() { Some(RenderDependencyId(l[i])) } else { None::<RenderDependencyId> }),
                forall|j: int| 0 <= j < i ==> l[j] != dependency_id.0,
            decreases l.len() - i,
        {
            let current = cursor.unwrap();
            if current.0 == dependency_id.0 {
                proof {
                    assert(l[i] == dependency_id.0);
                }
                return true;
            }
            proof {
                assert(self.dep_live(RenderDependencyId(l[i])));
            }
            let dependency = self.dependencies.get(current).unwrap();
            cursor = dependency.next_from_child;
            proof {
                assert(self.dep_data(RenderDependencyId(l[i])).next_from_child == list_next(l, i));
                i = i + 1;
            }
        }
        false
    }

    /// Verifies that every dependency is reachable from the lists of both of its
    /// endpoints; the graph invariant makes this always succeed.
    pub fn validate_dependency_links(&self) -> (r: RenderGraphResult<()>)
        requires
            self.wf(),
        ensures
            r is Ok,
    {
        proof {
            self.lemma_wf_storage();
            self.dependencies.lemma_wf_facts();
        }
        let deps = self.dependencies.iter();
        let ghost dorder = self.dependencies.order();
        let mut e: usize = 0;
        while e < deps.len()
            invariant
                self.wf(),
                self.dependencies.wf(),
                dorder == self.dependencies.order(),
                deps@.len() == dorder.len(),
                forall|i: int|
                    0 <= i < deps@.len() ==> (#[trigger] deps@[i]).0 == RenderDependencyId(dorder[i])
                        && *deps@[i].1 == self.dependencies.value_at(dorder[i] as int),
                e <= deps@.len(),
            decreases deps@.len() - e,
        {
            let item = deps[e];
            let dependency_id = item.0;
            let dependency = *item.1;
            proof {
                self.dependencies.lemma_wf_facts();
                assert(self.dependencies.live(dorder[e as int] as int));
                assert(self.dep_live(dependency_id));
                assert(self.dep_data(dependency_id) == dependency);
                self.lemma_dep_linked(dependency_id);
            }
            match self.ensure_node_exists(dependency.parent) {
                Ok(()) => {},
                Err(err) => return Err(err),
            }
            match self.ensure_node_exists(dependency.child) {
                Ok(()) => {},
                Err(err) => return Err(err),
            }
            if !self.parent_list_contains(dependency.parent, dependency.kind, dependency_id) {
                return Err(RenderGraphError::InvalidState { reason: "dependency was not reachable from its parent node" });
            }
            if !self.child_list_contains(dependency.child, dependency.kind, dependency_id) {
                return Err(RenderGraphError::InvalidState { reason: "dependency was not reachable from its child node" });
            }
            e = e + 1;
        }
        Ok(())
    }

    /// Removing the dependency that a successful `add_dependency` just created
    /// restores the edges, nodes and live dependencies of the graph before it.
    pub proof fn lemma_add_then_remove_restores(
        before: RenderNodeGraph,
        added: RenderNodeGraph,
        removed: RenderNodeGraph,
        kind: RenderNodeDependencyKind,
        parent: RenderNodeId,
        child: RenderNodeId,
        dep: RenderDependencyId,
    )
        requires
            added.frame_after_add(before, kind, parent, child, dep),
            !before.dep_live(dep),
            added.dep_data(dep).kind == kind,
            added.dep_data(dep).parent == parent,
            added.dep_data(dep).child == child,
            !before.has_edge(kind, parent, child),
            removed.frame_after_remove(added, dep),
        ensures
            forall|k: RenderNodeDependencyKind, p: RenderNodeId, c: RenderNodeId|
                #![trigger removed.has_edge(k, p, c)]
                removed.has_edge(k, p, c) == before.has_edge(k, p, c),
            forall|n: RenderNodeId| #[trigger] removed.node_live(n) == before.node_live(n),
            forall|e: RenderDependencyId| #[trigger] removed.dep_live(e) == before.dep_live(e),
    {
        assert forall|k: RenderNodeDependencyKind, p: RenderNodeId, c: RenderNodeId|
            #![trigger removed.has_edge(k, p, c)]
            removed.has_edge(k, p, c) == before.has_edge(k, p, c) by {
            assert(added.has_edge(k, p, c) == (before.has_edge(k, p, c) || (k == kind && p == parent && c == child)));
        }
        assert forall|n: RenderNodeId| #[trigger] removed.node_live(n) == before.node_live(n) by {
            assert(added.node_live(n) == before.node_live(n));
        }
        assert forall|e: RenderDependencyId| #[trigger] removed.dep_live(e) == before.dep_live(e) by {
            assert(added.dep_live(e) == (before.dep_live(e) || e == dep));
        }
    }
}

} // verus!
