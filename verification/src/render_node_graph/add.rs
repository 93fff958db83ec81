//! Adding dependency edges to the graph topology.
use vstd::prelude::*;

use crate::error::{RenderGraphError, RenderGraphResult};
use crate::ids::{RenderDependencyId, RenderNodeId, INVALID_ID_RAW};
use crate::metadata::RenderNodeDependencyKind;
use crate::node_topology::{RenderDependencyData, RenderNodeData};
use crate::render_node_graph::{list_head, list_next, RenderNodeGraph};

verus! {

impl RenderNodeGraph {

    /// Adds a dependency edge from `parent` to `child` on the selected dependency track.
    ///
    /// The new dependency becomes the head of the parent's child list and of the
    /// child's parent list.
    pub fn add_dependency(
        &mut self,
        kind: RenderNodeDependencyKind,
        parent: RenderNodeId,
        child: RenderNodeId,
    ) -> (r: RenderGraphResult<RenderDependencyId>)
        requires
            old(self).wf(),
        ensures
            final(self).wf(),
            final(self).frozen() == old(self).frozen(),
            final(self).built() == old(self).built(),
            final(self).node_order() == old(self).node_order(),
            final(self).node_slot_count() == old(self).node_slot_count(),
            r is Ok <==> {
                &&& !old(self).frozen()
                &&& old(self).node_live(parent)
                &&& old(self).node_live(child)
                &&& parent != child
                &&& !old(self).has_edge(kind, parent, child)
                &&& old(self).dep_slot_count() < 4294967295
            },
            r is Err ==> *final(self) == *old(self),
            old(self).frozen() ==> r == Err::<RenderDependencyId, RenderGraphError>(
                RenderGraphError::GraphAlreadyBuilt { operation: "add_dependency" },
            ),
            !old(self).frozen() && !old(self).node_live(parent) ==> r == Err::<RenderDependencyId, RenderGraphError>(
                RenderGraphError::InvalidId { kind: "node", raw: parent.0 },
            ),
            !old(self).frozen() && old(self).node_live(parent) && !old(self).node_live(child) ==> r == Err::<
                RenderDependencyId,
                RenderGraphError,
            >(RenderGraphError::InvalidId { kind: "node", raw: child.0 }),
            !old(self).frozen() && old(self).node_live(parent) && old(self).node_live(child) && parent == child
                ==> r is Err && r->Err_0 is SelfDependency && r->Err_0->SelfDependency_node == parent.0
                && r->Err_0->SelfDependency_dependency_kind@ == crate::metadata::spec_dependency_kind_name(kind),
            !old(self).frozen() && old(self).node_live(parent) && old(self).node_live(child) && parent != child
                && old(self).has_edge(kind, parent, child) ==> r is Err && r->Err_0 is DuplicateDependency
                && r->Err_0->DuplicateDependency_parent == parent.0
                && r->Err_0->DuplicateDependency_child == child.0
                && r->Err_0->DuplicateDependency_dependency_kind@ == crate::metadata::spec_dependency_kind_name(kind),
            r is Ok ==> {
                let d = r->Ok_0;
                &&& d.0 == old(self).dep_slot_count()
                &&& final(self).dep_slot_count() == old(self).dep_slot_count() + 1
                &&& final(self).frame_after_add(*old(self), kind, parent, child, d)
                &&& final(self).dep_live(d)
                &&& final(self).dep_data(d).kind == kind
                &&& final(self).dep_data(d).parent == parent
                &&& final(self).dep_data(d).child == child
                &&& final(self).dep_order() == old(self).dep_order().push(d.0)
                &&& final(self).child_deps(parent, kind) == seq![d.0] + old(self).child_deps(parent, kind)
                &&& final(self).parent_deps(child, kind) == seq![d.0] + old(self).parent_deps(child, kind)
                &&& final(self).node_data(parent).params == old(self).node_data(parent).params
                &&& final(self).node_data(parent).metadata == old(self).node_data(parent).metadata
                &&& final(self).node_data(child).params == old(self).node_data(child).params
                &&& final(self).node_data(child).metadata == old(self).node_data(child).metadata
                &&& forall|n: RenderNodeId| #[trigger] final(self).node_live(n) == old(self).node_live(n)
                &&& forall|n: RenderNodeId|
                    #![trigger final(self).node_data(n)]
                    old(self).node_live(n) && n != parent && n != child ==> final(self).node_data(n)
                        == old(self).node_data(n)
                &&& forall|n: RenderNodeId, k: RenderNodeDependencyKind|
                    #![trigger final(self).child_deps(n, k)]
                    old(self).node_live(n) && (n != parent || k != kind) ==> final(self).child_deps(n, k)
                        == old(self).child_deps(n, k)
                &&& forall|n: RenderNodeId, k: RenderNodeDependencyKind|
                    #![trigger final(self).parent_deps(n, k)]
                    old(self).node_live(n) && (n != child || k != kind) ==> final(self).parent_deps(n, k)
                        == old(self).parent_deps(n, k)
                &&& forall|e: RenderDependencyId|
                    #![trigger final(self).dep_live(e)]
                    final(self).dep_live(e) == (old(self).dep_live(e) || e == d)
                &&& forall|e: RenderDependencyId|
                    #![trigger final(self).dep_data(e)]
                    old(self).dep_live(e) ==> final(self).dep_data(e).kind == old(self).dep_data(e).kind
                        && final(self).dep_data(e).parent == old(self).dep_data(e).parent
                        && final(self).dep_data(e).child == old(self).dep_data(e).child
                &&& forall|k: RenderNodeDependencyKind, p: RenderNodeId, c: RenderNodeId|
                    #![trigger final(self).has_edge(k, p, c)]
                    final(self).has_edge(k, p, c) == (old(self).has_edge(k, p, c) || (k == kind && p == parent
                        && c == child))
            },
    {
        match self.ensure_mutable("add_dependency") {
            Ok(()) => {},
            Err(e) => return Err(e),
        }
        match self.ensure_node_exists(parent) {
            Ok(()) => {},
            Err(e) => return Err(e),
        }
        match self.ensure_node_exists(child) {
            Ok(()) => {},
            Err(e) => return Err(e),
        }
        if parent == child {
            return Err(RenderGraphError::SelfDependency { dependency_kind: kind.name(), node: parent.raw() });
        }
        if self.find_dependency(kind, parent, child).is_some() {
            return Err(
                RenderGraphError::DuplicateDependency {
                    dependency_kind: kind.name(),
                    parent: parent.raw(),
                    child: child.raw(),
                },
            );
        }
        proof {
            self.lemma_wf_storage();
            self.lemma_out_list_complete(parent, kind);
            self.lemma_in_list_complete(child, kind);
            self.nodes.lemma_wf_facts();
            self.dependencies.lemma_wf_facts();
        }
        let ghost prev = *self;
        let next_from_parent = self.nodes.get(parent).unwrap().first_child_dependency(kind);
        let next_from_child = self.nodes.get(child).unwrap().first_parent_dependency(kind);
        let mut dependency = RenderDependencyData::new(kind, parent, child);
        dependency.next_from_parent = next_from_parent;
        dependency.next_from_child = next_from_child;
        let dependency_id = match self.dependencies.allocate(dependency) {
            Ok(id) => id,
            Err(e) => return Err(e),
        };
        match self.nodes.get_mut(parent) {
            Ok(data) => data.set_first_child_dependency(kind, Some(dependency_id)),
            Err(_) => {},
        }
        match self.nodes.get_mut(child) {
            Ok(data) => data.set_first_parent_dependency(kind, Some(dependency_id)),
            Err(_) => {},
        }
        proof {
            let d = dependency_id.0;
            let lo = prev.child_deps(parent, kind);
            let li = prev.parent_deps(child, kind);
            self.out_lists = Ghost(|n: u32, k: RenderNodeDependencyKind|
                if n == parent.0 && k == kind { seq![d] + lo } else { (prev.out_lists@)(n, k) });
            self.in_lists = Ghost(|n: u32, k: RenderNodeDependencyKind|
                if n == child.0 && k == kind { seq![d] + li } else { (prev.in_lists@)(n, k) });
            assert(self.add_step(prev, kind, parent, child, dependency_id)) by {
                reveal(RenderNodeGraph::add_step);
            }
            self.lemma_add_dependency_wf(prev, kind, parent, child, dependency_id);
        }
        Ok(dependency_id)
    }

    /// The state right after `add_dependency` stored and linked a fresh dependency.
    #[verifier::opaque]
    closed spec fn add_step(
        &self,
        prev: RenderNodeGraph,
        kind: RenderNodeDependencyKind,
        parent: RenderNodeId,
        child: RenderNodeId,
        dep: RenderDependencyId,
    ) -> bool {
        &&& (prev.wf())
        &&& (prev.node_live(parent))
        &&& (prev.node_live(child))
        &&& (parent != child)
        &&& (!prev.has_edge(kind, parent, child))
        &&& (dep.0 == prev.dependencies.slot_count())
        &&& (dep.0 != INVALID_ID_RAW)
        &&& (self.nodes.wf())
        &&& (self.dependencies.wf())
        &&& (self.topology_frozen == prev.topology_frozen)
        &&& (self.flow_groups_built == prev.flow_groups_built)
        &&& (self.nodes.slot_count() == prev.nodes.slot_count())
        &&& (self.nodes.order() == prev.nodes.order())
        &&& (forall|s: int|
                #![trigger self.nodes.live(s)]
                0 <= s < prev.nodes.slot_count() ==> self.nodes.live(s) == prev.nodes.live(s))
        &&& (forall|s: int|
                #![trigger self.nodes.value_at(s)]
                #![trigger self.nodes.live(s)]
                0 <= s < prev.nodes.slot_count() && s != parent.0 && s != child.0 ==> self.nodes.value_at(s)
                    == prev.nodes.value_at(s))
        &&& (self.nodes.value_at(parent.0 as int).params == prev.nodes.value_at(parent.0 as int).params)
        &&& (self.nodes.value_at(parent.0 as int).metadata == prev.nodes.value_at(parent.0 as int).metadata)
        &&& (self.nodes.value_at(parent.0 as int).spec_first_child(kind) == Some(dep))
        &&& (forall|k: RenderNodeDependencyKind|
                #![trigger self.nodes.value_at(parent.0 as int).spec_first_child(k)]
                k != kind ==> self.nodes.value_at(parent.0 as int).spec_first_child(k) == prev.nodes.value_at(
                    parent.0 as int,
                ).spec_first_child(k))
        &&& (forall|k: RenderNodeDependencyKind|
                #![trigger self.nodes.value_at(parent.0 as int).spec_first_parent(k)]
                self.nodes.value_at(parent.0 as int).spec_first_parent(k) == prev.nodes.value_at(
                    parent.0 as int,
                ).spec_first_parent(k))
        &&& (self.nodes.value_at(child.0 as int).params == prev.nodes.value_at(child.0 as int).params)
        &&& (self.nodes.value_at(child.0 as int).metadata == prev.nodes.value_at(child.0 as int).metadata)
        &&& (self.nodes.value_at(child.0 as int).spec_first_parent(kind) == Some(dep))
        &&& (forall|k: RenderNodeDependencyKind|
                #![trigger self.nodes.value_at(child.0 as int).spec_first_parent(k)]
                k != kind ==> self.nodes.value_at(child.0 as int).spec_first_parent(k) == prev.nodes.value_at(
                    child.0 as int,
                ).spec_first_parent(k))
        &&& (forall|k: RenderNodeDependencyKind|
                #![trigger self.nodes.value_at(child.0 as int).spec_first_child(k)]
                self.nodes.value_at(child.0 as int).spec_first_child(k) == prev.nodes.value_at(
                    child.0 as int,
                ).spec_first_child(k))
        &&& (self.dependencies.slot_count() == prev.dependencies.slot_count() + 1)
        &&& (self.dependencies.order() == prev.dependencies.order().push(dep.0))
        &&& (self.dependencies.live(dep.0 as int))
        &&& (self.dependencies.value_at(dep.0 as int) == (RenderDependencyData {
                kind,
                parent,
                child,
                next_from_parent: list_head(prev.child_deps(parent, kind)),
                next_from_child: list_head(prev.parent_deps(child, kind)),
            }))
        &&& (forall|s: int|
                #![trigger self.dependencies.live(s)]
                0 <= s < prev.dependencies.slot_count() ==> self.dependencies.live(s) == prev.dependencies.live(s)
                    && self.dependencies.value_at(s) == prev.dependencies.value_at(s))
        &&& (forall|n: u32, k: RenderNodeDependencyKind| #[trigger] (self.out_lists@)(n, k) ==
                if n == parent.0 && k == kind { seq![dep.0] + prev.child_deps(parent, kind) } else { (prev.out_lists@)(n, k) })
        &&& (forall|n: u32, k: RenderNodeDependencyKind| #[trigger] (self.in_lists@)(n, k) ==
                if n == child.0 && k == kind { seq![dep.0] + prev.parent_deps(child, kind) } else { (prev.in_lists@)(n, k) })
    }

    /// Every dependency live in `prev` is still live here with the same data.
    closed spec fn deps_kept(&self, prev: RenderNodeGraph) -> bool {
        forall|e: u32|
            #![trigger prev.dependencies.value_at(e as int)]
            #![trigger self.dependencies.value_at(e as int)]
            prev.dependencies.id_live(RenderDependencyId(e)) ==> self.dependencies.id_live(RenderDependencyId(e))
                && self.dependencies.value_at(e as int) == prev.dependencies.value_at(e as int)
    }

    proof fn lemma_out_list_kept(&self, prev: RenderNodeGraph, n: u32, k: RenderNodeDependencyKind)
        requires
            prev.out_list_ok(n, k),
            self.deps_kept(prev),
            (self.out_lists@)(n, k) == (prev.out_lists@)(n, k),
            self.nodes.value_at(n as int).spec_first_child(k) == prev.nodes.value_at(n as int).spec_first_child(k),
        ensures
            self.out_list_ok(n, k),
    {
        let l = (self.out_lists@)(n, k);
        assert forall|i: int| #![trigger self.dependencies.value_at(l[i] as int)] 0 <= i < l.len() implies {
            &&& self.dependencies.id_live(RenderDependencyId(l[i]))
            &&& self.dependencies.value_at(l[i] as int).kind == k
            &&& self.dependencies.value_at(l[i] as int).parent == RenderNodeId(n)
            &&& self.dependencies.value_at(l[i] as int).next_from_parent == list_next(l, i)
        } by {
            let pl = (prev.out_lists@)(n, k);
            assert(pl[i] == l[i]);
            assert(prev.dependencies.value_at(pl[i] as int).kind == k);
            assert(prev.dependencies.id_live(RenderDependencyId(l[i])));
            assert(prev.dependencies.value_at(l[i] as int) == self.dependencies.value_at(l[i] as int));
        }
    }

    proof fn lemma_in_list_kept(&self, prev: RenderNodeGraph, n: u32, k: RenderNodeDependencyKind)
        requires
            prev.in_list_ok(n, k),
            self.deps_kept(prev),
            (self.in_lists@)(n, k) == (prev.in_lists@)(n, k),
            self.nodes.value_at(n as int).spec_first_parent(k) == prev.nodes.value_at(n as int).spec_first_parent(k),
        ensures
            self.in_list_ok(n, k),
    {
        let l = (self.in_lists@)(n, k);
        assert forall|i: int| #![trigger self.dependencies.value_at(l[i] as int)] 0 <= i < l.len() implies {
            &&& self.dependencies.id_live(RenderDependencyId(l[i]))
            &&& self.dependencies.value_at(l[i] as int).kind == k
            &&& self.dependencies.value_at(l[i] as int).child == RenderNodeId(n)
            &&& self.dependencies.value_at(l[i] as int).next_from_child == list_next(l, i)
        } by {
            prev.lemma_in_elem(n, k, i);
                assert(prev.dependencies.id_live(RenderDependencyId(l[i])));
            assert(prev.dependencies.value_at(l[i] as int) == self.dependencies.value_at(l[i] as int));
        }
    }

    proof fn lemma_out_list_prepend(&self, prev: RenderNodeGraph, n: u32, k: RenderNodeDependencyKind, d: u32)
        requires
            prev.out_list_ok(n, k),
            self.deps_kept(prev),
            !prev.dependencies.id_live(RenderDependencyId(d)),
            (self.out_lists@)(n, k) == seq![d] + (prev.out_lists@)(n, k),
            self.dependencies.id_live(RenderDependencyId(d)),
            self.dependencies.value_at(d as int).kind == k,
            self.dependencies.value_at(d as int).parent == RenderNodeId(n),
            self.dependencies.value_at(d as int).next_from_parent == list_head((prev.out_lists@)(n, k)),
            self.nodes.value_at(n as int).spec_first_child(k) == Some(RenderDependencyId(d)),
        ensures
            self.out_list_ok(n, k),
    {
        let l = (self.out_lists@)(n, k);
        let pl = (prev.out_lists@)(n, k);
        assert forall|i: int| #![trigger self.dependencies.value_at(l[i] as int)] 0 <= i < l.len() implies {
            &&& self.dependencies.id_live(RenderDependencyId(l[i]))
            &&& self.dependencies.value_at(l[i] as int).kind == k
            &&& self.dependencies.value_at(l[i] as int).parent == RenderNodeId(n)
            &&& self.dependencies.value_at(l[i] as int).next_from_parent == list_next(l, i)
        } by {
            if i > 0 {
                assert(l[i] == pl[i - 1]);
                prev.lemma_out_elem(n, k, i - 1);
                assert(prev.dependencies.id_live(RenderDependencyId(pl[i - 1])));
                assert(prev.dependencies.value_at(l[i] as int) == self.dependencies.value_at(l[i] as int));
            }
        }
        assert forall|i: int, j: int| 0 <= i < l.len() && 0 <= j < l.len() && i != j implies l[i] != l[j] by {
            if i > 0 && j > 0 {
                assert(l[i] == pl[i - 1] && l[j] == pl[j - 1]);
            } else if i == 0 {
                assert(l[j] == pl[j - 1]);
                prev.lemma_out_elem(n, k, j - 1);
                assert(prev.dependencies.id_live(RenderDependencyId(pl[j - 1])));
            } else {
                assert(l[i] == pl[i - 1]);
                prev.lemma_out_elem(n, k, i - 1);
                assert(prev.dependencies.id_live(RenderDependencyId(pl[i - 1])));
            }
        }
    }

    proof fn lemma_in_list_prepend(&self, prev: RenderNodeGraph, n: u32, k: RenderNodeDependencyKind, d: u32)
        requires
            prev.in_list_ok(n, k),
            self.deps_kept(prev),
            !prev.dependencies.id_live(RenderDependencyId(d)),
            (self.in_lists@)(n, k) == seq![d] + (prev.in_lists@)(n, k),
            self.dependencies.id_live(RenderDependencyId(d)),
            self.dependencies.value_at(d as int).kind == k,
            self.dependencies.value_at(d as int).child == RenderNodeId(n),
            self.dependencies.value_at(d as int).next_from_child == list_head((prev.in_lists@)(n, k)),
            self.nodes.value_at(n as int).spec_first_parent(k) == Some(RenderDependencyId(d)),
        ensures
            self.in_list_ok(n, k),
    {
        let l = (self.in_lists@)(n, k);
        let pl = (prev.in_lists@)(n, k);
        assert forall|i: int| #![trigger self.dependencies.value_at(l[i] as int)] 0 <= i < l.len() implies {
            &&& self.dependencies.id_live(RenderDependencyId(l[i]))
            &&& self.dependencies.value_at(l[i] as int).kind == k
            &&& self.dependencies.value_at(l[i] as int).child == RenderNodeId(n)
            &&& self.dependencies.value_at(l[i] as int).next_from_child == list_next(l, i)
        } by {
            if i > 0 {
                assert(l[i] == pl[i - 1]);
                prev.lemma_in_elem(n, k, i - 1);
                assert(prev.dependencies.id_live(RenderDependencyId(pl[i - 1])));
                assert(prev.dependencies.value_at(l[i] as int) == self.dependencies.value_at(l[i] as int));
            }
        }
        assert forall|i: int, j: int| 0 <= i < l.len() && 0 <= j < l.len() && i != j implies l[i] != l[j] by {
            if i > 0 && j > 0 {
                assert(l[i] == pl[i - 1] && l[j] == pl[j - 1]);
            } else if i == 0 {
                assert(l[j] == pl[j - 1]);
                prev.lemma_in_elem(n, k, j - 1);
                assert(prev.dependencies.id_live(RenderDependencyId(pl[j - 1])));
            } else {
                assert(l[i] == pl[i - 1]);
                prev.lemma_in_elem(n, k, i - 1);
                assert(prev.dependencies.id_live(RenderDependencyId(pl[i - 1])));
            }
        }
    }

    proof fn lemma_add_deps_kept(
        &self,
        prev: RenderNodeGraph,
        kind: RenderNodeDependencyKind,
        parent: RenderNodeId,
        child: RenderNodeId,
        dep: RenderDependencyId,
    )
        requires
            self.add_step(prev, kind, parent, child, dep),
        ensures
            self.deps_kept(prev),
            !prev.dependencies.id_live(dep),
            self.dependencies.id_live(dep),
    {
        reveal(RenderNodeGraph::add_step);
        prev.lemma_wf_storage();
        prev.dependencies.lemma_wf_facts();
        assert forall|e: u32|
            #![trigger prev.dependencies.value_at(e as int)]
            #![trigger self.dependencies.value_at(e as int)]
            prev.dependencies.id_live(RenderDependencyId(e)) implies self.dependencies.id_live(RenderDependencyId(e))
                && self.dependencies.value_at(e as int) == prev.dependencies.value_at(e as int) by {
            assert(prev.dependencies.live(e as int));
            assert(self.dependencies.live(e as int) == prev.dependencies.live(e as int));
        }
    }

    #[verifier::spinoff_prover]
    proof fn lemma_add_out_lists(
        &self,
        prev: RenderNodeGraph,
        kind: RenderNodeDependencyKind,
        parent: RenderNodeId,
        child: RenderNodeId,
        dep: RenderDependencyId,
    )
        requires
            self.add_step(prev, kind, parent, child, dep),
        ensures
            forall|n: u32, k: RenderNodeDependencyKind|
                #![trigger (self.out_lists@)(n, k)]
                self.nodes.id_live(RenderNodeId(n)) ==> self.out_list_ok(n, k),
            forall|n: u32, k: RenderNodeDependencyKind|
                #![trigger (self.in_lists@)(n, k)]
                self.nodes.id_live(RenderNodeId(n)) ==> self.in_list_ok(n, k),
    {
        reveal(RenderNodeGraph::add_step);
        reveal(RenderNodeGraph::wf);
        self.nodes.lemma_wf_facts();
        self.lemma_add_deps_kept(prev, kind, parent, child, dep);
        assert forall|n: u32, k: RenderNodeDependencyKind|
            #![trigger (self.out_lists@)(n, k)]
            self.nodes.id_live(RenderNodeId(n)) implies self.out_list_ok(n, k) by {
            assert(self.nodes.live(n as int));
            assert(prev.nodes.id_live(RenderNodeId(n)));
            assert(prev.out_list_ok(n, k));
            if n == parent.0 && k == kind {
                self.lemma_out_list_prepend(prev, n, k, dep.0);
            } else {
                if n != parent.0 && n != child.0 {
                    assert(self.nodes.value_at(n as int) == prev.nodes.value_at(n as int));
                }
                self.lemma_out_list_kept(prev, n, k);
            }
        }
        assert forall|n: u32, k: RenderNodeDependencyKind|
            #![trigger (self.in_lists@)(n, k)]
            self.nodes.id_live(RenderNodeId(n)) implies self.in_list_ok(n, k) by {
            assert(self.nodes.live(n as int));
            assert(prev.nodes.id_live(RenderNodeId(n)));
            assert(prev.in_list_ok(n, k));
            if n == child.0 && k == kind {
                self.lemma_in_list_prepend(prev, n, k, dep.0);
            } else {
                if n != parent.0 && n != child.0 {
                    assert(self.nodes.value_at(n as int) == prev.nodes.value_at(n as int));
                }
                self.lemma_in_list_kept(prev, n, k);
            }
        }
    }

    #[verifier::rlimit(80)]
    proof fn lemma_add_dep_ok_one(
        &self,
        prev: RenderNodeGraph,
        kind: RenderNodeDependencyKind,
        parent: RenderNodeId,
        child: RenderNodeId,
        dep: RenderDependencyId,
        e: u32,
    )
        requires
            self.add_step(prev, kind, parent, child, dep),
            self.dependencies.id_live(RenderDependencyId(e)),
        ensures
            self.dep_ok(e),
    {
        self.lemma_add_deps_kept(prev, kind, parent, child, dep);
        reveal(RenderNodeGraph::add_step);
        let d = dep.0;
        prev.lemma_wf_storage();
        prev.nodes.lemma_wf_facts();
        if e != d {
            self.dependencies.lemma_wf_facts();
            assert(self.dependencies.live(e as int));
            assert(prev.dependencies.live(e as int));
                assert(prev.dependencies.id_live(RenderDependencyId(e)));
            assert(prev.dep_ok(e)) by {
                reveal(RenderNodeGraph::wf);
            }
            let data = self.dependencies.value_at(e as int);
            assert(data == prev.dependencies.value_at(e as int));
            assert(prev.nodes.live(data.parent.0 as int));
            assert(prev.nodes.live(data.child.0 as int));
            assert(self.nodes.live(data.parent.0 as int));
            assert(self.nodes.live(data.child.0 as int));
            if data.parent == parent && data.kind == kind {
                let j = choose|j: int| 0 <= j < prev.child_deps(parent, kind).len() && prev.child_deps(parent, kind)[j] == e;
                assert((self.out_lists@)(data.parent.0, data.kind)[j + 1] == e);
            }
            if data.child == child && data.kind == kind {
                let j = choose|j: int| 0 <= j < prev.parent_deps(child, kind).len() && prev.parent_deps(child, kind)[j] == e;
                assert((self.in_lists@)(data.child.0, data.kind)[j + 1] == e);
            }
        } else {
            assert((self.out_lists@)(parent.0, kind)[0] == d);
            assert((self.in_lists@)(child.0, kind)[0] == d);
            assert(prev.nodes.live(parent.0 as int));
            assert(prev.nodes.live(child.0 as int));
            assert(self.nodes.live(parent.0 as int));
            assert(self.nodes.live(child.0 as int));
        }
    }

    proof fn lemma_add_deps_ok(
        &self,
        prev: RenderNodeGraph,
        kind: RenderNodeDependencyKind,
        parent: RenderNodeId,
        child: RenderNodeId,
        dep: RenderDependencyId,
    )
        requires
            self.add_step(prev, kind, parent, child, dep),
        ensures
            forall|e: u32|
                #![trigger self.dependencies.value_at(e as int)]
                self.dependencies.id_live(RenderDependencyId(e)) ==> self.dep_ok(e),
    {
        assert forall|e: u32|
            #![trigger self.dependencies.value_at(e as int)]
            self.dependencies.id_live(RenderDependencyId(e)) implies self.dep_ok(e) by {
            self.lemma_add_dep_ok_one(prev, kind, parent, child, dep, e);
        }
    }

    #[verifier::rlimit(80)]
    #[verifier::spinoff_prover]
    proof fn lemma_add_frame(
        &self,
        prev: RenderNodeGraph,
        kind: RenderNodeDependencyKind,
        parent: RenderNodeId,
        child: RenderNodeId,
        dep: RenderDependencyId,
    )
        requires
            self.add_step(prev, kind, parent, child, dep),
        ensures
            self.frame_after_add(prev, kind, parent, child, dep),
    {
        reveal(RenderNodeGraph::add_step);
        reveal(RenderNodeGraph::wf);
        prev.nodes.lemma_wf_facts();
        prev.dependencies.lemma_wf_facts();
        self.dependencies.lemma_wf_facts();
        self.nodes.lemma_wf_facts();
        let d = dep.0;
        // Every dependency slot live before the insertion is below the fresh slot.
        assert forall|e: u32| #[trigger] prev.dependencies.id_live(RenderDependencyId(e)) implies e < d by {
            assert(prev.dependencies.live(e as int));
        }
        // Frame facts.
        assert forall|e: RenderDependencyId|
            #![trigger self.dep_live(e)]
            self.dep_live(e) == (prev.dep_live(e) || e == dep) by {
            if e.0 < d {
                assert(self.dependencies.live(e.0 as int) == prev.dependencies.live(e.0 as int));
            } else if e.0 > d {
                assert(!self.dependencies.live(e.0 as int));
                assert(!prev.dependencies.live(e.0 as int));
            }
        }
        assert forall|k: RenderNodeDependencyKind, p: RenderNodeId, c: RenderNodeId|
            #![trigger self.has_edge(k, p, c)]
            self.has_edge(k, p, c) == (prev.has_edge(k, p, c) || (k == kind && p == parent && c == child)) by {
            if self.has_edge(k, p, c) {
                let e = choose|e: RenderDependencyId|
                    #![trigger self.dep_data(e)]
                    self.dep_live(e) && self.dep_data(e).kind == k && self.dep_data(e).parent == p
                        && self.dep_data(e).child == c;
                if e != dep {
                    assert(prev.dep_live(e));
                    assert(prev.dep_data(e) == self.dep_data(e));
                }
            }
            if prev.has_edge(k, p, c) {
                let e = choose|e: RenderDependencyId|
                    #![trigger prev.dep_data(e)]
                    prev.dep_live(e) && prev.dep_data(e).kind == k && prev.dep_data(e).parent == p
                        && prev.dep_data(e).child == c;
                assert(self.dep_live(e));
                assert(prev.dep_data(e) == self.dep_data(e));
            }
            if k == kind && p == parent && c == child {
                assert(self.dep_data(dep).kind == k);
            }
        }
        assert forall|n: RenderNodeId|
            #![trigger self.node_live(n)]
            self.node_live(n) == prev.node_live(n) by {
            if n.0 >= prev.nodes.slot_count() {
                assert(!self.nodes.live(n.0 as int));
                assert(!prev.nodes.live(n.0 as int));
            }
        }
        assert forall|e: RenderDependencyId|
            #![trigger self.dep_data(e)]
            prev.dep_live(e) implies self.dep_data(e) == prev.dep_data(e) by {
            assert(prev.dependencies.live(e.0 as int));
            assert(self.dependencies.live(e.0 as int) == prev.dependencies.live(e.0 as int));
        }
        assert forall|n: RenderNodeId|
            #![trigger self.node_data(n)]
            prev.node_live(n) && n != parent && n != child implies self.node_data(n) == prev.node_data(n) by {
            assert(prev.nodes.live(n.0 as int));
        }
    }

    #[verifier::spinoff_prover]
    proof fn lemma_add_unique(
        &self,
        prev: RenderNodeGraph,
        kind: RenderNodeDependencyKind,
        parent: RenderNodeId,
        child: RenderNodeId,
        dep: RenderDependencyId,
    )
        requires
            self.add_step(prev, kind, parent, child, dep),
        ensures
            self.edges_unique(),
    {
        reveal(RenderNodeGraph::add_step);
        reveal(RenderNodeGraph::wf);
        self.lemma_add_deps_kept(prev, kind, parent, child, dep);
        self.dependencies.lemma_wf_facts();
        prev.dependencies.lemma_wf_facts();
        assert forall|a: u32, b: u32|
            #![trigger self.dependencies.value_at(a as int), self.dependencies.value_at(b as int)]
            self.dependencies.id_live(RenderDependencyId(a)) && self.dependencies.id_live(RenderDependencyId(b))
                && self.dependencies.value_at(a as int).kind == self.dependencies.value_at(b as int).kind
                && self.dependencies.value_at(a as int).parent == self.dependencies.value_at(b as int).parent
                && self.dependencies.value_at(a as int).child == self.dependencies.value_at(b as int).child
                implies a == b by {
            let d = dep.0;
            if a != d && b != d {
                assert(prev.dependencies.live(a as int) == self.dependencies.live(a as int));
                assert(prev.dependencies.live(b as int) == self.dependencies.live(b as int));
                assert(prev.dependencies.id_live(RenderDependencyId(a)));
                assert(prev.dependencies.id_live(RenderDependencyId(b)));
                assert(prev.dependencies.value_at(a as int) == self.dependencies.value_at(a as int));
                assert(prev.dependencies.value_at(b as int) == self.dependencies.value_at(b as int));
            } else if a == d && b != d {
                assert(prev.dependencies.live(b as int) == self.dependencies.live(b as int));
                assert(prev.dependencies.id_live(RenderDependencyId(b)));
                assert(prev.dependencies.value_at(b as int) == self.dependencies.value_at(b as int));
                assert(prev.dep_data(RenderDependencyId(b)).kind == kind);
                assert(prev.has_edge(kind, parent, child));
            } else if b == d && a != d {
                assert(prev.dependencies.live(a as int) == self.dependencies.live(a as int));
                assert(prev.dependencies.id_live(RenderDependencyId(a)));
                assert(prev.dependencies.value_at(a as int) == self.dependencies.value_at(a as int));
                assert(prev.dep_data(RenderDependencyId(a)).kind == kind);
                assert(prev.has_edge(kind, parent, child));
            }
        }
    }

    proof fn lemma_add_dependency_wf(
        &self,
        prev: RenderNodeGraph,
        kind: RenderNodeDependencyKind,
        parent: RenderNodeId,
        child: RenderNodeId,
        dep: RenderDependencyId,
    )
        requires
            self.add_step(prev, kind, parent, child, dep),
        ensures
            self.wf(),
            self.frame_after_add(prev, kind, parent, child, dep),
    {
        reveal(RenderNodeGraph::add_step);
        self.lemma_add_out_lists(prev, kind, parent, child, dep);
        self.lemma_add_deps_ok(prev, kind, parent, child, dep);
        self.lemma_add_unique(prev, kind, parent, child, dep);
        self.lemma_add_frame(prev, kind, parent, child, dep);
        reveal(RenderNodeGraph::wf);
    }

    /// What `add_dependency` keeps and changes, stated over the public view.
    pub open spec fn frame_after_add(
        &self,
        prev: RenderNodeGraph,
        kind: RenderNodeDependencyKind,
        parent: RenderNodeId,
        child: RenderNodeId,
        dep: RenderDependencyId,
    ) -> bool {
        &&& forall|n: RenderNodeId| #[trigger] self.node_live(n) == prev.node_live(n)
        &&& forall|e: RenderDependencyId|
            #![trigger self.dep_live(e)]
            self.dep_live(e) == (prev.dep_live(e) || e == dep)
        &&& forall|e: RenderDependencyId|
            #![trigger self.dep_data(e)]
            prev.dep_live(e) ==> self.dep_data(e) == prev.dep_data(e)
        &&& forall|n: RenderNodeId|
            #![trigger self.node_data(n)]
            prev.node_live(n) && n != parent && n != child ==> self.node_data(n) == prev.node_data(n)
        &&& forall|k: RenderNodeDependencyKind, p: RenderNodeId, c: RenderNodeId|
            #![trigger self.has_edge(k, p, c)]
            self.has_edge(k, p, c) == (prev.has_edge(k, p, c) || (k == kind && p == parent && c == child))
    }
}

} // verus!
