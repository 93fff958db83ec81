//! Removing dependency edges from the graph topology.
use vstd::prelude::*;

use crate::error::{RenderGraphError, RenderGraphResult};
use crate::ids::{RenderDependencyId, RenderNodeId};
use crate::metadata::RenderNodeDependencyKind;
use crate::node_topology::{RenderDependencyData, RenderNodeData};
use crate::render_node_graph::{lemma_swap_removed_at, list_head, list_next, swap_removed, RenderNodeGraph};

verus! {

impl RenderNodeGraph {

    /// Finds the predecessor of dependency `d` in the child list of `parent`.
    #[verifier::spinoff_prover]
    fn out_list_predecessor(
        &self,
        parent: RenderNodeId,
        kind: RenderNodeDependencyKind,
        d: RenderDependencyId,
    ) -> (r: (Option<RenderDependencyId>, Ghost<int>))
        requires
            self.wf(),
            self.node_live(parent),
            self.child_deps(parent, kind).contains(d.0),
        ensures
            0 <= r.1@ < self.child_deps(parent, kind).len(),
            self.child_deps(parent, kind)[r.1@] == d.0,
            r.0 == (if r.1@ == 0 { None } else { Some(RenderDependencyId(self.child_deps(parent, kind)[r.1@ - 1])) }),
    {
        proof {
            self.lemma_out_list_complete(parent, kind);
            self.lemma_wf_storage();
        }
        let ghost l = self.child_deps(parent, kind);
        let data = self.nodes.get(parent).unwrap();
        let mut cursor = data.first_child_dependency(kind);
        let mut previous: Option<RenderDependencyId> = None;
        let ghost mut i: int = 0;
        #[verifier::loop_isolation(false)]
        loop
            invariant
                0 <= i <= l.len(),
                cursor == (if i < l.len() { Some(RenderDependencyId(l[i])) } else { None::<RenderDependencyId> }),
                previous == (if i == 0 { None } else { Some(RenderDependencyId(l[i - 1])) }),
                forall|j: int| 0 <= j < i ==> l[j] != d.0,
            decreases l.len() - i,
        {
            match cursor {
                None => {
                    proof {
                        let j = choose|j: int| 0 <= j < l.len() && l[j] == d.0;
                        assert(false);
                    }
                    return (None, Ghost(0));
                },
                Some(current) => {
                    assert(self.dep_data(RenderDependencyId(self.child_deps(parent, kind)[i])).kind == kind);
                    if current == d {
                        return (previous, Ghost(i));
                    }
                    let dependency = self.dependencies.get(current).unwrap();
                    previous = Some(current);
                    cursor = dependency.next_from_parent;
                    proof {
                        i = i + 1;
                    }
                },
            }
        }
    }

    /// Finds the predecessor of dependency `d` in the parent list of `child`.
    #[verifier::spinoff_prover]
    fn in_list_predecessor(
        &self,
        child: RenderNodeId,
        kind: RenderNodeDependencyKind,
        d: RenderDependencyId,
    ) -> (r: (Option<RenderDependencyId>, Ghost<int>))
        requires
            self.wf(),
            self.node_live(child),
            self.parent_deps(child, kind).contains(d.0),
        ensures
            0 <= r.1@ < self.parent_deps(child, kind).len(),
            self.parent_deps(child, kind)[r.1@] == d.0,
            r.0 == (if r.1@ == 0 { None } else { Some(RenderDependencyId(self.parent_deps(child, kind)[r.1@ - 1])) }),
    {
        proof {
            self.lemma_in_list_complete(child, kind);
            self.lemma_wf_storage();
        }
        let ghost l = self.parent_deps(child, kind);
        let data = self.nodes.get(child).unwrap();
        let mut cursor = data.first_parent_dependency(kind);
        let mut previous: Option<RenderDependencyId> = None;
        let ghost mut i: int = 0;
        #[verifier::loop_isolation(false)]
        loop
            invariant
                0 <= i <= l.len(),
                cursor == (if i < l.len() { Some(RenderDependencyId(l[i])) } else { None::<RenderDependencyId> }),
                previous == (if i == 0 { None } else { Some(RenderDependencyId(l[i - 1])) }),
                forall|j: int| 0 <= j < i ==> l[j] != d.0,
            decreases l.len() - i,
        {
            match cursor {
                None => {
                    proof {
                        let j = choose|j: int| 0 <= j < l.len() && l[j] == d.0;
                        assert(false);
                    }
                    return (None, Ghost(0));
                },
                Some(current) => {
                    assert(self.dep_data(RenderDependencyId(self.parent_deps(child, kind)[i])).kind == kind);
                    if current == d {
                        return (previous, Ghost(i));
                    }
                    let dependency = self.dependencies.get(current).unwrap();
                    previous = Some(current);
                    cursor = dependency.next_from_child;
                    proof {
                        i = i + 1;
                    }
                },
            }
        }
    }

    /// Dependency `t` after unlinking the dependency at position `j` of list `lo`
    /// (child-list links) and at position `j2` of list `li` (parent-list links).
    closed spec fn unlinked_value(
        prev: RenderNodeGraph,
        t: u32,
        removed: RenderDependencyData,
        lo: Seq<u32>,
        j: int,
        li: Seq<u32>,
        j2: int,
    ) -> RenderDependencyData {
        let old_value = prev.dependencies.value_at(t as int);
        RenderDependencyData {
            kind: old_value.kind,
            parent: old_value.parent,
            child: old_value.child,
            next_from_parent: if j > 0 && t == lo[j - 1] { removed.next_from_parent } else { old_value.next_from_parent },
            next_from_child: if j2 > 0 && t == li[j2 - 1] { removed.next_from_child } else { old_value.next_from_child },
        }
    }

    /// The state right after `remove_dependency` unlinked and freed dependency `d`.
    #[verifier::opaque]
    closed spec fn remove_step(&self, prev: RenderNodeGraph, d: RenderDependencyId, j: int, j2: int) -> bool {
        let dd = prev.dependencies.value_at(d.0 as int);
        let p = dd.parent;
        let c = dd.child;
        let k = dd.kind;
        let lo = (prev.out_lists@)(p.0, k);
        let li = (prev.in_lists@)(c.0, k);
        &&& prev.wf()
        &&& prev.dependencies.id_live(d)
        &&& 0 <= j < lo.len() && lo[j] == d.0
        &&& 0 <= j2 < li.len() && li[j2] == d.0
        &&& self.nodes.wf()
        &&& self.dependencies.wf()
        &&& self.topology_frozen == prev.topology_frozen
        &&& self.flow_groups_built == prev.flow_groups_built
        &&& self.flattened_cpu == prev.flattened_cpu
        &&& self.flattened_gpu == prev.flattened_gpu
        &&& self.nodes.slot_count() == prev.nodes.slot_count()
        &&& self.nodes.order() == prev.nodes.order()
        &&& forall|s: int|
            #![trigger self.nodes.live(s)]
            #![trigger self.nodes.value_at(s)]
            0 <= s < prev.nodes.slot_count() ==> self.nodes.live(s) == prev.nodes.live(s)
                && (s != p.0 && s != c.0 ==> self.nodes.value_at(s) == prev.nodes.value_at(s))
        &&& self.nodes.value_at(p.0 as int).params == prev.nodes.value_at(p.0 as int).params
        &&& self.nodes.value_at(p.0 as int).metadata == prev.nodes.value_at(p.0 as int).metadata
        &&& self.nodes.value_at(c.0 as int).params == prev.nodes.value_at(c.0 as int).params
        &&& self.nodes.value_at(c.0 as int).metadata == prev.nodes.value_at(c.0 as int).metadata
        &&& forall|k2: RenderNodeDependencyKind|
            #![trigger self.nodes.value_at(p.0 as int).spec_first_child(k2)]
            self.nodes.value_at(p.0 as int).spec_first_child(k2) == if k2 == k && j == 0 {
                dd.next_from_parent
            } else {
                prev.nodes.value_at(p.0 as int).spec_first_child(k2)
            }
        &&& forall|k2: RenderNodeDependencyKind|
            #![trigger self.nodes.value_at(p.0 as int).spec_first_parent(k2)]
            self.nodes.value_at(p.0 as int).spec_first_parent(k2) == prev.nodes.value_at(p.0 as int).spec_first_parent(
                k2,
            )
        &&& forall|k2: RenderNodeDependencyKind|
            #![trigger self.nodes.value_at(c.0 as int).spec_first_parent(k2)]
            self.nodes.value_at(c.0 as int).spec_first_parent(k2) == if k2 == k && j2 == 0 {
                dd.next_from_child
            } else {
                prev.nodes.value_at(c.0 as int).spec_first_parent(k2)
            }
        &&& forall|k2: RenderNodeDependencyKind|
            #![trigger self.nodes.value_at(c.0 as int).spec_first_child(k2)]
            self.nodes.value_at(c.0 as int).spec_first_child(k2) == prev.nodes.value_at(c.0 as int).spec_first_child(k2)
        &&& self.dependencies.slot_count() == prev.dependencies.slot_count()
        &&& self.dependencies.order() == prev.dependencies.order().update(
            prev.dependencies.position(d.0 as int),
            prev.dependencies.order().last(),
        ).drop_last()
        &&& !self.dependencies.live(d.0 as int)
        &&& forall|t: int|
            #![trigger self.dependencies.live(t)]
            #![trigger self.dependencies.value_at(t)]
            0 <= t < prev.dependencies.slot_count() && t != d.0 ==> self.dependencies.live(t)
                == prev.dependencies.live(t) && self.dependencies.value_at(t) == RenderNodeGraph::unlinked_value(
                prev,
                t as u32,
                dd,
                lo,
                j,
                li,
                j2,
            )
        &&& forall|n: u32, k2: RenderNodeDependencyKind|
            #[trigger] (self.out_lists@)(n, k2) == if n == p.0 && k2 == k { lo.remove(j) } else { (prev.out_lists@)(n, k2) }
        &&& forall|n: u32, k2: RenderNodeDependencyKind|
            #[trigger] (self.in_lists@)(n, k2) == if n == c.0 && k2 == k { li.remove(j2) } else { (prev.in_lists@)(n, k2) }
    }

    proof fn lemma_remove_basics(&self, prev: RenderNodeGraph, d: RenderDependencyId, j: int, j2: int)
        requires
            self.remove_step(prev, d, j, j2),
        ensures
            prev.dep_ok(d.0),
            forall|t: u32|
                #![trigger self.dependencies.value_at(t as int)]
                self.dependencies.id_live(RenderDependencyId(t)) ==> prev.dependencies.id_live(RenderDependencyId(t))
                    && t != d.0,
            forall|t: u32|
                #![trigger prev.dependencies.value_at(t as int)]
                prev.dependencies.id_live(RenderDependencyId(t)) && t != d.0 ==> self.dependencies.id_live(
                    RenderDependencyId(t),
                ) && self.dependencies.value_at(t as int) == RenderNodeGraph::unlinked_value(
                    prev,
                    t,
                    prev.dependencies.value_at(d.0 as int),
                    (prev.out_lists@)(prev.dependencies.value_at(d.0 as int).parent.0, prev.dependencies.value_at(d.0 as int).kind),
                    j,
                    (prev.in_lists@)(prev.dependencies.value_at(d.0 as int).child.0, prev.dependencies.value_at(d.0 as int).kind),
                    j2,
                ),
            forall|n: u32|
                #![trigger self.nodes.id_live(RenderNodeId(n))]
                self.nodes.id_live(RenderNodeId(n)) == prev.nodes.id_live(RenderNodeId(n)),
            prev.wf(),
            prev.edges_unique(),
            prev.dependencies.id_live(d),
    {
        reveal(RenderNodeGraph::remove_step);
        reveal(RenderNodeGraph::wf);
        prev.nodes.lemma_wf_facts();
        prev.dependencies.lemma_wf_facts();
        self.nodes.lemma_wf_facts();
        self.dependencies.lemma_wf_facts();
        assert forall|t: u32|
            #![trigger self.dependencies.value_at(t as int)]
            self.dependencies.id_live(RenderDependencyId(t)) implies prev.dependencies.id_live(RenderDependencyId(t))
                && t != d.0 by {
            assert(self.dependencies.live(t as int));
        }
        assert forall|t: u32|
            #![trigger prev.dependencies.value_at(t as int)]
            prev.dependencies.id_live(RenderDependencyId(t)) && t != d.0 implies self.dependencies.id_live(
                RenderDependencyId(t),
            ) by {
            assert(prev.dependencies.live(t as int));
            assert(self.dependencies.live(t as int) == prev.dependencies.live(t as int));
        }
        assert forall|n: u32|
            #![trigger self.nodes.id_live(RenderNodeId(n))]
            self.nodes.id_live(RenderNodeId(n)) == prev.nodes.id_live(RenderNodeId(n)) by {
            if self.nodes.live(n as int) || prev.nodes.live(n as int) {
                assert(n < prev.nodes.slot_count());
            }
        }
    }



    /// Positions and links of a list after removing the element at position `j`.
    proof fn lemma_seq_remove_links(lo: Seq<u32>, j: int, i: int)
        requires
            0 <= j < lo.len(),
            0 <= i < lo.len() - 1,
        ensures
            lo.remove(j)[i] == lo[if i < j { i } else { i + 1 }],
            (if i < j { i } else { i + 1 }) == j - 1 ==> list_next(lo.remove(j), i) == list_next(lo, j),
            (if i < j { i } else { i + 1 }) != j - 1 ==> list_next(lo.remove(j), i) == list_next(
                lo,
                if i < j { i } else { i + 1 },
            ),
    {
    }

    proof fn lemma_seq_remove_head(lo: Seq<u32>, j: int)
        requires
            0 <= j < lo.len(),
        ensures
            j == 0 ==> list_head(lo.remove(j)) == list_next(lo, 0),
            j > 0 ==> list_head(lo.remove(j)) == list_head(lo),
    {
    }

    proof fn lemma_seq_remove_no_duplicates(lo: Seq<u32>, j: int)
        requires
            0 <= j < lo.len(),
            lo.no_duplicates(),
        ensures
            lo.remove(j).no_duplicates(),
            forall|x: int| 0 <= x < lo.len() && x != j ==> lo[x] != lo[j],
    {
        let l = lo.remove(j);
        assert forall|a: int, b: int| 0 <= a < l.len() && 0 <= b < l.len() && a != b implies l[a] != l[b] by {
            let xa = if a < j { a } else { a + 1 };
            let xb = if b < j { b } else { b + 1 };
            assert(l[a] == lo[xa] && l[b] == lo[xb]);
        }
    }

    /// The list and head facts of `remove_step` for one node and track.
    proof fn lemma_remove_list_facts(
        &self,
        prev: RenderNodeGraph,
        d: RenderDependencyId,
        j: int,
        j2: int,
        n: u32,
        k2: RenderNodeDependencyKind,
    )
        requires
            self.remove_step(prev, d, j, j2),
            prev.nodes.id_live(RenderNodeId(n)),
        ensures
            ({
                let dd = prev.dependencies.value_at(d.0 as int);
                let lo = (prev.out_lists@)(dd.parent.0, dd.kind);
                let li = (prev.in_lists@)(dd.child.0, dd.kind);
                &&& 0 <= j < lo.len() && lo[j] == d.0
                &&& 0 <= j2 < li.len() && li[j2] == d.0
                &&& (self.out_lists@)(n, k2) == if n == dd.parent.0 && k2 == dd.kind { lo.remove(j) } else { (prev.out_lists@)(n, k2) }
                &&& (self.in_lists@)(n, k2) == if n == dd.child.0 && k2 == dd.kind { li.remove(j2) } else { (prev.in_lists@)(n, k2) }
                &&& self.nodes.value_at(n as int).spec_first_child(k2) == if n == dd.parent.0 && k2 == dd.kind && j == 0 {
                    dd.next_from_parent
                } else {
                    prev.nodes.value_at(n as int).spec_first_child(k2)
                }
                &&& self.nodes.value_at(n as int).spec_first_parent(k2) == if n == dd.child.0 && k2 == dd.kind && j2 == 0 {
                    dd.next_from_child
                } else {
                    prev.nodes.value_at(n as int).spec_first_parent(k2)
                }
                &&& prev.out_list_ok(n, k2)
                &&& prev.in_list_ok(n, k2)
                &&& prev.out_list_ok(dd.parent.0, dd.kind)
                &&& prev.in_list_ok(dd.child.0, dd.kind)
            }),
    {
        reveal(RenderNodeGraph::remove_step);
        reveal(RenderNodeGraph::wf);
        prev.nodes.lemma_wf_facts();
        assert(prev.nodes.live(n as int));
        let dd = prev.dependencies.value_at(d.0 as int);
        assert(prev.dep_ok(d.0));
        if n != dd.parent.0 && n != dd.child.0 {
            assert(self.nodes.value_at(n as int) == prev.nodes.value_at(n as int));
        }
    }

    #[verifier::spinoff_prover]
    proof fn lemma_remove_out_list(&self, prev: RenderNodeGraph, d: RenderDependencyId, j: int, j2: int, n: u32, k2: RenderNodeDependencyKind)
        requires
            self.remove_step(prev, d, j, j2),
            self.nodes.id_live(RenderNodeId(n)),
        ensures
            self.out_list_ok(n, k2),
    {
        self.lemma_remove_basics(prev, d, j, j2);
        self.lemma_remove_list_facts(prev, d, j, j2, n, k2);
        let dd = prev.dependencies.value_at(d.0 as int);
        let p = dd.parent;
        let k = dd.kind;
        let lo = (prev.out_lists@)(p.0, k);
        let li = (prev.in_lists@)(dd.child.0, k);
        let l = (self.out_lists@)(n, k2);
        let pl = (prev.out_lists@)(n, k2);
        if n == p.0 && k2 == k {
            Self::lemma_seq_remove_no_duplicates(lo, j);
            assert forall|i: int| #![trigger self.dependencies.value_at(l[i] as int)] 0 <= i < l.len() implies {
                &&& self.dependencies.id_live(RenderDependencyId(l[i]))
                &&& self.dependencies.value_at(l[i] as int).kind == k2
                &&& self.dependencies.value_at(l[i] as int).parent == RenderNodeId(n)
                &&& self.dependencies.value_at(l[i] as int).next_from_parent == list_next(l, i)
            } by {
                Self::lemma_seq_remove_links(lo, j, i);
                let x = if i < j { i } else { i + 1 };
                assert(lo[x] != lo[j]);
                let t = lo[x];
                prev.lemma_out_elem(p.0, k, x);
                assert(prev.dependencies.id_live(RenderDependencyId(t)));
                assert(prev.dependencies.value_at(t as int).next_from_parent == list_next(lo, x));
                assert(prev.dependencies.value_at(lo[j] as int).next_from_parent == list_next(lo, j));
                if j > 0 && x != j - 1 {
                    assert(t != lo[j - 1]);
                }
            }
            Self::lemma_seq_remove_head(lo, j);
            if j == 0 {
                assert(prev.dependencies.value_at(lo[j] as int).next_from_parent == list_next(lo, j));
            }
        } else {
            assert forall|i: int| #![trigger self.dependencies.value_at(l[i] as int)] 0 <= i < l.len() implies {
                &&& self.dependencies.id_live(RenderDependencyId(l[i]))
                &&& self.dependencies.value_at(l[i] as int).kind == k2
                &&& self.dependencies.value_at(l[i] as int).parent == RenderNodeId(n)
                &&& self.dependencies.value_at(l[i] as int).next_from_parent == list_next(l, i)
            } by {
                let t = pl[i];
                prev.lemma_out_elem(n, k2, i);
                assert(prev.dependencies.id_live(RenderDependencyId(t)));
                assert(t != d.0);
                if j > 0 && t == lo[j - 1] {
                    assert(prev.dependencies.value_at(lo[j - 1] as int).parent == p);
                }
            }
        }
    }

    #[verifier::spinoff_prover]
    proof fn lemma_remove_in_list(&self, prev: RenderNodeGraph, d: RenderDependencyId, j: int, j2: int, n: u32, k2: RenderNodeDependencyKind)
        requires
            self.remove_step(prev, d, j, j2),
            self.nodes.id_live(RenderNodeId(n)),
        ensures
            self.in_list_ok(n, k2),
    {
        self.lemma_remove_basics(prev, d, j, j2);
        self.lemma_remove_list_facts(prev, d, j, j2, n, k2);
        let dd = prev.dependencies.value_at(d.0 as int);
        let c = dd.child;
        let k = dd.kind;
        let lo = (prev.out_lists@)(dd.parent.0, k);
        let li = (prev.in_lists@)(c.0, k);
        let l = (self.in_lists@)(n, k2);
        let pl = (prev.in_lists@)(n, k2);
        if n == c.0 && k2 == k {
            Self::lemma_seq_remove_no_duplicates(li, j2);
            assert forall|i: int| #![trigger self.dependencies.value_at(l[i] as int)] 0 <= i < l.len() implies {
                &&& self.dependencies.id_live(RenderDependencyId(l[i]))
                &&& self.dependencies.value_at(l[i] as int).kind == k2
                &&& self.dependencies.value_at(l[i] as int).child == RenderNodeId(n)
                &&& self.dependencies.value_at(l[i] as int).next_from_child == list_next(l, i)
            } by {
                Self::lemma_seq_remove_links(li, j2, i);
                let x = if i < j2 { i } else { i + 1 };
                assert(li[x] != li[j2]);
                let t = li[x];
                prev.lemma_in_elem(c.0, k, x);
                assert(prev.dependencies.id_live(RenderDependencyId(t)));
                assert(prev.dependencies.value_at(t as int).next_from_child == list_next(li, x));
                assert(prev.dependencies.value_at(li[j2] as int).next_from_child == list_next(li, j2));
                if j2 > 0 && x != j2 - 1 {
                    assert(t != li[j2 - 1]);
                }
            }
            Self::lemma_seq_remove_head(li, j2);
            if j2 == 0 {
                assert(prev.dependencies.value_at(li[j2] as int).next_from_child == list_next(li, j2));
            }
        } else {
            assert forall|i: int| #![trigger self.dependencies.value_at(l[i] as int)] 0 <= i < l.len() implies {
                &&& self.dependencies.id_live(RenderDependencyId(l[i]))
                &&& self.dependencies.value_at(l[i] as int).kind == k2
                &&& self.dependencies.value_at(l[i] as int).child == RenderNodeId(n)
                &&& self.dependencies.value_at(l[i] as int).next_from_child == list_next(l, i)
            } by {
                let t = pl[i];
                prev.lemma_in_elem(n, k2, i);
                assert(prev.dependencies.id_live(RenderDependencyId(t)));
                assert(t != d.0);
                if j2 > 0 && t == li[j2 - 1] {
                    assert(prev.dependencies.value_at(li[j2 - 1] as int).child == c);
                }
            }
        }
    }

    /// Uniqueness of endpoints, instantiated at two dependency slots of `prev`.
    proof fn lemma_unique_at(&self, prev: RenderNodeGraph, a: u32, b: u32)
        requires
            prev.edges_unique(),
            prev.dependencies.id_live(RenderDependencyId(a)),
            prev.dependencies.id_live(RenderDependencyId(b)),
            prev.dependencies.value_at(a as int).kind == prev.dependencies.value_at(b as int).kind,
            prev.dependencies.value_at(a as int).parent == prev.dependencies.value_at(b as int).parent,
            prev.dependencies.value_at(a as int).child == prev.dependencies.value_at(b as int).child,
        ensures
            a == b,
    {
    }

    proof fn lemma_remove_dep_at(&self, prev: RenderNodeGraph, d: RenderDependencyId, j: int, j2: int, t: u32)
        requires
            self.remove_step(prev, d, j, j2),
        ensures
            self.dependencies.id_live(RenderDependencyId(t)) == (prev.dependencies.id_live(RenderDependencyId(t)) && t
                != d.0),
            self.dependencies.id_live(RenderDependencyId(t)) ==> {
                &&& self.dependencies.value_at(t as int).kind == prev.dependencies.value_at(t as int).kind
                &&& self.dependencies.value_at(t as int).parent == prev.dependencies.value_at(t as int).parent
                &&& self.dependencies.value_at(t as int).child == prev.dependencies.value_at(t as int).child
            },
    {
        reveal(RenderNodeGraph::remove_step);
        prev.lemma_wf_storage();
        prev.dependencies.lemma_wf_facts();
        self.dependencies.lemma_wf_facts();
        if self.dependencies.live(t as int) || prev.dependencies.live(t as int) {
            assert(t < prev.dependencies.slot_count());
        }
    }

    /// The invariant instantiated at one live dependency.
    proof fn lemma_wf_dep_ok(&self, e: u32)
        requires
            self.wf(),
            self.dependencies.id_live(RenderDependencyId(e)),
        ensures
            self.dep_ok(e),
    {
        reveal(RenderNodeGraph::wf);
    }

    #[verifier::spinoff_prover]
    proof fn lemma_remove_dep_ok(&self, prev: RenderNodeGraph, d: RenderDependencyId, j: int, j2: int, e: u32)
        requires
            self.remove_step(prev, d, j, j2),
            self.dependencies.id_live(RenderDependencyId(e)),
        ensures
            self.dep_ok(e),
    {
        self.lemma_remove_basics(prev, d, j, j2);
        self.lemma_remove_dep_at(prev, d, j, j2, e);
        prev.lemma_wf_dep_ok(e);
        let dd = prev.dependencies.value_at(d.0 as int);
        let data = prev.dependencies.value_at(e as int);
        assert(prev.nodes.id_live(data.parent));
        assert(prev.nodes.id_live(data.child));
        assert(self.nodes.id_live(RenderNodeId(data.parent.0)));
        assert(self.nodes.id_live(RenderNodeId(data.child.0)));
        self.lemma_remove_list_facts(prev, d, j, j2, data.parent.0, data.kind);
        self.lemma_remove_list_facts(prev, d, j, j2, data.child.0, data.kind);
        let lo = (prev.out_lists@)(dd.parent.0, dd.kind);
        let li = (prev.in_lists@)(dd.child.0, dd.kind);
        if data.parent == dd.parent && data.kind == dd.kind {
            let x = choose|x: int| 0 <= x < lo.len() && lo[x] == e;
            assert(x != j);
            let y = if x < j { x } else { x - 1 };
            assert(lo.remove(j)[y] == e);
        }
        if data.child == dd.child && data.kind == dd.kind {
            let x = choose|x: int| 0 <= x < li.len() && li[x] == e;
            assert(x != j2);
            let y = if x < j2 { x } else { x - 1 };
            assert(li.remove(j2)[y] == e);
        }
    }

    #[verifier::spinoff_prover]
    proof fn lemma_remove_wf(&self, prev: RenderNodeGraph, d: RenderDependencyId, j: int, j2: int)
        requires
            self.remove_step(prev, d, j, j2),
        ensures
            self.wf(),
    {
        self.lemma_remove_basics(prev, d, j, j2);
        assert forall|n: u32, k: RenderNodeDependencyKind|
            #![trigger (self.out_lists@)(n, k)]
            self.nodes.id_live(RenderNodeId(n)) implies self.out_list_ok(n, k) by {
            self.lemma_remove_out_list(prev, d, j, j2, n, k);
        }
        assert forall|n: u32, k: RenderNodeDependencyKind|
            #![trigger (self.in_lists@)(n, k)]
            self.nodes.id_live(RenderNodeId(n)) implies self.in_list_ok(n, k) by {
            self.lemma_remove_in_list(prev, d, j, j2, n, k);
        }
        assert forall|e: u32|
            #![trigger self.dependencies.value_at(e as int)]
            self.dependencies.id_live(RenderDependencyId(e)) implies self.dep_ok(e) by {
            self.lemma_remove_dep_ok(prev, d, j, j2, e);
        }
        assert(self.edges_unique()) by {
            assert forall|a: u32, b: u32|
                #![trigger self.dependencies.value_at(a as int), self.dependencies.value_at(b as int)]
                self.dependencies.id_live(RenderDependencyId(a)) && self.dependencies.id_live(RenderDependencyId(b))
                    && self.dependencies.value_at(a as int).kind == self.dependencies.value_at(b as int).kind
                    && self.dependencies.value_at(a as int).parent == self.dependencies.value_at(b as int).parent
                    && self.dependencies.value_at(a as int).child == self.dependencies.value_at(b as int).child
                    implies a == b by {
                self.lemma_remove_dep_at(prev, d, j, j2, a);
                self.lemma_remove_dep_at(prev, d, j, j2, b);
                self.lemma_unique_at(prev, a, b);
            }
        }
        assert(self.wf()) by {
            reveal(RenderNodeGraph::wf);
            reveal(RenderNodeGraph::remove_step);
        }
    }

    /// What `remove_dependency` keeps and changes, stated over the public view.
    pub open spec fn frame_after_remove(&self, prev: RenderNodeGraph, d: RenderDependencyId) -> bool {
        let dd = prev.dep_data(d);
        &&& forall|n: RenderNodeId| #[trigger] self.node_live(n) == prev.node_live(n)
        &&& forall|n: RenderNodeId|
            #![trigger self.node_data(n)]
            prev.node_live(n) ==> self.node_data(n).params == prev.node_data(n).params
                && self.node_data(n).metadata == prev.node_data(n).metadata
        &&& forall|e: RenderDependencyId|
            #![trigger self.dep_live(e)]
            self.dep_live(e) == (prev.dep_live(e) && e != d)
        &&& forall|e: RenderDependencyId|
            #![trigger self.dep_data(e)]
            self.dep_live(e) ==> self.dep_data(e).kind == prev.dep_data(e).kind && self.dep_data(e).parent
                == prev.dep_data(e).parent && self.dep_data(e).child == prev.dep_data(e).child
        &&& forall|n: RenderNodeId, k: RenderNodeDependencyKind|
            #![trigger self.child_deps(n, k)]
            prev.node_live(n) ==> self.child_deps(n, k) == prev.child_deps(n, k).remove_value(d.0)
        &&& forall|n: RenderNodeId, k: RenderNodeDependencyKind|
            #![trigger self.parent_deps(n, k)]
            prev.node_live(n) ==> self.parent_deps(n, k) == prev.parent_deps(n, k).remove_value(d.0)
        &&& forall|k: RenderNodeDependencyKind, p: RenderNodeId, c: RenderNodeId|
            #![trigger self.has_edge(k, p, c)]
            self.has_edge(k, p, c) == (prev.has_edge(k, p, c) && !(k == dd.kind && p == dd.parent && c
                == dd.child))
    }

    #[verifier::spinoff_prover]
    proof fn lemma_remove_frame_nodes(&self, prev: RenderNodeGraph, d: RenderDependencyId, j: int, j2: int)
        requires
            self.remove_step(prev, d, j, j2),
        ensures
            forall|n: RenderNodeId| #[trigger] self.node_live(n) == prev.node_live(n),
            forall|n: RenderNodeId|
            #![trigger self.node_data(n)]
            prev.node_live(n) ==> self.node_data(n).params == prev.node_data(n).params
                && self.node_data(n).metadata == prev.node_data(n).metadata,
            forall|e: RenderDependencyId|
            #![trigger self.dep_live(e)]
            self.dep_live(e) == (prev.dep_live(e) && e != d),
            forall|e: RenderDependencyId|
            #![trigger self.dep_data(e)]
            self.dep_live(e) ==> self.dep_data(e).kind == prev.dep_data(e).kind && self.dep_data(e).parent
                == prev.dep_data(e).parent && self.dep_data(e).child == prev.dep_data(e).child,
    {
        self.lemma_remove_basics(prev, d, j, j2);
        let dd = prev.dependencies.value_at(d.0 as int);
        assert forall|n: RenderNodeId| #[trigger] self.node_live(n) == prev.node_live(n) by {
            assert(self.nodes.id_live(RenderNodeId(n.0)) == prev.nodes.id_live(RenderNodeId(n.0)));
        }        assert forall|n: RenderNodeId|
            #![trigger self.node_data(n)]
            prev.node_live(n) implies self.node_data(n).params == prev.node_data(n).params
                && self.node_data(n).metadata == prev.node_data(n).metadata by {
            reveal(RenderNodeGraph::remove_step);
            prev.lemma_wf_storage();
            prev.nodes.lemma_wf_facts();
            assert(prev.nodes.live(n.0 as int));
        }        assert forall|e: RenderDependencyId|
            #![trigger self.dep_live(e)]
            self.dep_live(e) == (prev.dep_live(e) && e != d) by {
            self.lemma_remove_dep_at(prev, d, j, j2, e.0);
        }        assert forall|e: RenderDependencyId|
            #![trigger self.dep_data(e)]
            self.dep_live(e) implies self.dep_data(e).kind == prev.dep_data(e).kind && self.dep_data(e).parent
                == prev.dep_data(e).parent && self.dep_data(e).child == prev.dep_data(e).child by {
            self.lemma_remove_dep_at(prev, d, j, j2, e.0);
        }
    }

    #[verifier::spinoff_prover]
    proof fn lemma_remove_frame_children(&self, prev: RenderNodeGraph, d: RenderDependencyId, j: int, j2: int)
        requires
            self.remove_step(prev, d, j, j2),
        ensures
            forall|n: RenderNodeId, k: RenderNodeDependencyKind|
            #![trigger self.child_deps(n, k)]
            prev.node_live(n) ==> self.child_deps(n, k) == prev.child_deps(n, k).remove_value(d.0),
    {
        self.lemma_remove_basics(prev, d, j, j2);
        let dd = prev.dependencies.value_at(d.0 as int);
        assert forall|n: RenderNodeId, k: RenderNodeDependencyKind|
            #![trigger self.child_deps(n, k)]
            prev.node_live(n) implies self.child_deps(n, k) == prev.child_deps(n, k).remove_value(d.0) by {
            self.lemma_remove_list_facts(prev, d, j, j2, n.0, k);
            let l = prev.child_deps(n, k);
            l.index_of_first_ensures(d.0);
            if n == dd.parent && k == dd.kind {
                let f = l.index_of_first(d.0)->0;
                if f != j {
                    assert(l[f] == l[j]);
                }
            } else {
                if l.contains(d.0) {
                    let x = choose|x: int| 0 <= x < l.len() && l[x] == d.0;
                    prev.lemma_out_elem(n.0, k, x);
                }
            }
        }
    }

    #[verifier::spinoff_prover]
    proof fn lemma_remove_frame_parents(&self, prev: RenderNodeGraph, d: RenderDependencyId, j: int, j2: int)
        requires
            self.remove_step(prev, d, j, j2),
        ensures
            forall|n: RenderNodeId, k: RenderNodeDependencyKind|
            #![trigger self.parent_deps(n, k)]
            prev.node_live(n) ==> self.parent_deps(n, k) == prev.parent_deps(n, k).remove_value(d.0),
    {
        self.lemma_remove_basics(prev, d, j, j2);
        let dd = prev.dependencies.value_at(d.0 as int);
        assert forall|n: RenderNodeId, k: RenderNodeDependencyKind|
            #![trigger self.parent_deps(n, k)]
            prev.node_live(n) implies self.parent_deps(n, k) == prev.parent_deps(n, k).remove_value(d.0) by {
            self.lemma_remove_list_facts(prev, d, j, j2, n.0, k);
            let l = prev.parent_deps(n, k);
            l.index_of_first_ensures(d.0);
            if n == dd.child && k == dd.kind {
                let f = l.index_of_first(d.0)->0;
                if f != j2 {
                    assert(l[f] == l[j2]);
                }
            } else {
                if l.contains(d.0) {
                    let x = choose|x: int| 0 <= x < l.len() && l[x] == d.0;
                    prev.lemma_in_elem(n.0, k, x);
                }
            }
        }
    }

    #[verifier::spinoff_prover]
    proof fn lemma_remove_frame_edges(&self, prev: RenderNodeGraph, d: RenderDependencyId, j: int, j2: int)
        requires
            self.remove_step(prev, d, j, j2),
        ensures
            forall|k: RenderNodeDependencyKind, p: RenderNodeId, c: RenderNodeId|
            #![trigger self.has_edge(k, p, c)]
            self.has_edge(k, p, c) == (prev.has_edge(k, p, c) && !(k == prev.dep_data(d).kind && p == prev.dep_data(d).parent
                && c == prev.dep_data(d).child)),
    {
        self.lemma_remove_basics(prev, d, j, j2);
        let dd = prev.dependencies.value_at(d.0 as int);
        assert forall|k: RenderNodeDependencyKind, p: RenderNodeId, c: RenderNodeId|
            #![trigger self.has_edge(k, p, c)]
            self.has_edge(k, p, c) == (prev.has_edge(k, p, c) && !(k == dd.kind && p == dd.parent && c == dd.child)) by {
            if self.has_edge(k, p, c) {
                let e = choose|e: RenderDependencyId|
                    #![trigger self.dep_data(e)]
                    self.dep_live(e) && self.dep_data(e).kind == k && self.dep_data(e).parent == p
                        && self.dep_data(e).child == c;
                self.lemma_remove_dep_at(prev, d, j, j2, e.0);
                assert(prev.dep_live(e) && prev.dep_data(e).kind == k && prev.dep_data(e).parent == p
                    && prev.dep_data(e).child == c);
                if k == dd.kind && p == dd.parent && c == dd.child {
                    self.lemma_unique_at(prev, e.0, d.0);
                    assert(false);
                }
            }
            if prev.has_edge(k, p, c) && !(k == dd.kind && p == dd.parent && c == dd.child) {
                let e = choose|e: RenderDependencyId|
                    #![trigger prev.dep_data(e)]
                    prev.dep_live(e) && prev.dep_data(e).kind == k && prev.dep_data(e).parent == p
                        && prev.dep_data(e).child == c;
                assert(e != d);
                self.lemma_remove_dep_at(prev, d, j, j2, e.0);
                assert(self.dep_live(e) && self.dep_data(e).kind == k && self.dep_data(e).parent == p
                    && self.dep_data(e).child == c);
            }
        }
    }

    proof fn lemma_remove_frame(&self, prev: RenderNodeGraph, d: RenderDependencyId, j: int, j2: int)
        requires
            self.remove_step(prev, d, j, j2),
        ensures
            self.frame_after_remove(prev, d),
    {
        self.lemma_remove_frame_nodes(prev, d, j, j2);
        self.lemma_remove_frame_children(prev, d, j, j2);
        self.lemma_remove_frame_parents(prev, d, j, j2);
        self.lemma_remove_frame_edges(prev, d, j, j2);
    }

    /// Facts about one live dependency that follow from the invariant.
    proof fn lemma_dep_facts(&self, d: RenderDependencyId)
        requires
            self.wf(),
            self.dep_live(d),
        ensures
            self.node_live(self.dep_data(d).parent),
            self.node_live(self.dep_data(d).child),
            self.dep_data(d).parent != self.dep_data(d).child,
            self.child_deps(self.dep_data(d).parent, self.dep_data(d).kind).contains(d.0),
            self.parent_deps(self.dep_data(d).child, self.dep_data(d).kind).contains(d.0),
    {
        reveal(RenderNodeGraph::wf);
        assert(self.dep_ok(d.0));
    }

    /// Removes one dependency edge and unlinks it from both endpoint nodes.
    pub fn remove_dependency(&mut self, dependency_id: RenderDependencyId) -> (r: RenderGraphResult<()>)
        requires
            old(self).wf(),
        ensures
            final(self).wf(),
            r is Ok <==> !old(self).frozen() && old(self).dep_live(dependency_id),
            r is Err ==> *final(self) == *old(self),
            old(self).frozen() ==> r == Err::<(), RenderGraphError>(
                RenderGraphError::GraphAlreadyBuilt { operation: "remove_dependency" },
            ),
            !old(self).frozen() && !old(self).dep_live(dependency_id) ==> r == Err::<(), RenderGraphError>(
                RenderGraphError::InvalidId { kind: "graph storage item", raw: dependency_id.0 },
            ),
            r is Ok ==> {
                &&& final(self).frame_after_remove(*old(self), dependency_id)
                &&& final(self).frozen() == old(self).frozen()
                &&& final(self).built() == old(self).built()
                &&& final(self).node_order() == old(self).node_order()
                &&& final(self).dep_order() == swap_removed(old(self).dep_order(), dependency_id.0)
                &&& final(self).node_slot_count() == old(self).node_slot_count()
                &&& final(self).dep_slot_count() == old(self).dep_slot_count()
                &&& final(self).flattened(RenderNodeDependencyKind::Cpu) == old(self).flattened(RenderNodeDependencyKind::Cpu)
                &&& final(self).flattened(RenderNodeDependencyKind::Gpu) == old(self).flattened(RenderNodeDependencyKind::Gpu)
            },
    {
        match self.ensure_mutable("remove_dependency") {
            Ok(()) => {},
            Err(e) => return Err(e),
        }
        proof {
            self.lemma_wf_storage();
        }
        let dependency = match self.dependencies.get(dependency_id) {
            Ok(data) => *data,
            Err(e) => return Err(e),
        };
        proof {
            self.lemma_dep_facts(dependency_id);
        }
        let kind = dependency.kind;
        let (pred_out, Ghost(j)) = self.out_list_predecessor(dependency.parent, kind, dependency_id);
        let (pred_in, Ghost(j2)) = self.in_list_predecessor(dependency.child, kind, dependency_id);
        let ghost prev = *self;
        proof {
            self.nodes.lemma_wf_facts();
            self.dependencies.lemma_wf_facts();
            assert(self.nodes.live(dependency.parent.0 as int));
            assert(self.nodes.live(dependency.child.0 as int));
            self.lemma_out_list_complete(dependency.parent, kind);
            self.lemma_in_list_complete(dependency.child, kind);
            let lo = self.child_deps(dependency.parent, kind);
            let li = self.parent_deps(dependency.child, kind);
            if j > 0 {
                assert(self.dep_data(RenderDependencyId(self.child_deps(dependency.parent, kind)[j - 1])).kind == kind);
                assert(lo[j - 1] != lo[j]);
            }
            if j2 > 0 {
                assert(self.dep_data(RenderDependencyId(self.parent_deps(dependency.child, kind)[j2 - 1])).kind == kind);
                assert(li[j2 - 1] != li[j2]);
            }
        }
        let ghost lo = prev.child_deps(dependency.parent, kind);
        let ghost li = prev.parent_deps(dependency.child, kind);
        match pred_out {
            Some(e) => {
                let mut updated = *self.dependencies.get(e).unwrap();
                updated.next_from_parent = dependency.next_from_parent;
                let _ = self.dependencies.set(e, updated);
            },
            None => match self.nodes.get_mut(dependency.parent) {
                Ok(data) => data.set_first_child_dependency(kind, dependency.next_from_parent),
                Err(_) => {},
            },
        }
        proof {
            assert forall|t: int|
                #![trigger self.dependencies.live(t)]
                #![trigger self.dependencies.value_at(t)]
                0 <= t < prev.dependencies.slot_count() implies self.dependencies.live(t) == prev.dependencies.live(t)
                    && (t != dependency_id.0 ==> self.dependencies.value_at(t) == RenderNodeGraph::unlinked_value(
                    prev,
                    t as u32,
                    dependency,
                    lo,
                    j,
                    li,
                    0,
                )) by {}
        }
        let ghost mid = *self;
        match pred_in {
            Some(e) => {
                let mut updated = *self.dependencies.get(e).unwrap();
                updated.next_from_child = dependency.next_from_child;
                let _ = self.dependencies.set(e, updated);
            },
            None => match self.nodes.get_mut(dependency.child) {
                Ok(data) => data.set_first_parent_dependency(kind, dependency.next_from_child),
                Err(_) => {},
            },
        }
        proof {
            assert forall|t: int|
                #![trigger self.dependencies.live(t)]
                #![trigger self.dependencies.value_at(t)]
                0 <= t < prev.dependencies.slot_count() implies self.dependencies.live(t) == prev.dependencies.live(t)
                    && (t != dependency_id.0 ==> self.dependencies.value_at(t) == RenderNodeGraph::unlinked_value(
                    prev,
                    t as u32,
                    dependency,
                    lo,
                    j,
                    li,
                    j2,
                )) by {
                assert(mid.dependencies.live(t) == prev.dependencies.live(t));
            }
        }
        let ghost before_free = *self;
        proof {
            prev.dependencies.lemma_wf_facts();
            self.dependencies.lemma_wf_facts();
            let pp = prev.dependencies.position(dependency_id.0 as int);
            assert(self.dependencies.order() == prev.dependencies.order());
            assert(self.dependencies.order()[pp] == dependency_id.0);
            assert(self.dependencies.position(dependency_id.0 as int) == pp);
        }
        let _ = self.dependencies.free(dependency_id);
        proof {
            let p = dependency.parent.0;
            let c = dependency.child.0;
            self.out_lists = Ghost(|n: u32, k: RenderNodeDependencyKind|
                if n == p && k == kind { lo.remove(j) } else { (prev.out_lists@)(n, k) });
            self.in_lists = Ghost(|n: u32, k: RenderNodeDependencyKind|
                if n == c && k == kind { li.remove(j2) } else { (prev.in_lists@)(n, k) });
            assert forall|t: int|
                #![trigger self.dependencies.live(t)]
                #![trigger self.dependencies.value_at(t)]
                0 <= t < prev.dependencies.slot_count() && t != dependency_id.0 implies self.dependencies.live(t)
                    == prev.dependencies.live(t) && self.dependencies.value_at(t) == RenderNodeGraph::unlinked_value(
                    prev,
                    t as u32,
                    dependency,
                    lo,
                    j,
                    li,
                    j2,
                ) by {
                assert(before_free.dependencies.live(t) == prev.dependencies.live(t));
            }
            assert(self.remove_step(prev, dependency_id, j, j2)) by {
                reveal(RenderNodeGraph::remove_step);
                let dd = prev.dependencies.value_at(dependency_id.0 as int);
                assert(dd == dependency);
                assert(prev.wf());
                assert(0 <= j < lo.len() && lo[j] == dependency_id.0);
                assert(0 <= j2 < li.len() && li[j2] == dependency_id.0);
                assert(self.nodes.wf());
                assert(self.dependencies.wf());
                assert(self.nodes.slot_count() == prev.nodes.slot_count());
                assert(self.nodes.order() == prev.nodes.order());
                assert(forall|s: int|
                    #![trigger self.nodes.live(s)]
                    #![trigger self.nodes.value_at(s)]
                    0 <= s < prev.nodes.slot_count() ==> self.nodes.live(s) == prev.nodes.live(s)
                        && (s != p && s != c ==> self.nodes.value_at(s) == prev.nodes.value_at(s)));
                assert(self.nodes.value_at(p as int).params == prev.nodes.value_at(p as int).params);
                assert(self.nodes.value_at(p as int).metadata == prev.nodes.value_at(p as int).metadata);
                assert(self.nodes.value_at(c as int).params == prev.nodes.value_at(c as int).params);
                assert(self.nodes.value_at(c as int).metadata == prev.nodes.value_at(c as int).metadata);
                assert(self.dependencies.slot_count() == prev.dependencies.slot_count());
                assert(!self.dependencies.live(dependency_id.0 as int));
                assert(self.topology_frozen == prev.topology_frozen);
                assert(self.flow_groups_built == prev.flow_groups_built);
                assert(self.flattened_cpu == prev.flattened_cpu);
                assert(self.flattened_gpu == prev.flattened_gpu);
                assert(self.dependencies.order() == prev.dependencies.order().update(
                    prev.dependencies.position(dependency_id.0 as int),
                    prev.dependencies.order().last(),
                ).drop_last());
                assert(forall|k2: RenderNodeDependencyKind|
                    #![trigger self.nodes.value_at(p as int).spec_first_child(k2)]
                    self.nodes.value_at(p as int).spec_first_child(k2) == if k2 == kind && j == 0 {
                        dd.next_from_parent
                    } else {
                        prev.nodes.value_at(p as int).spec_first_child(k2)
                    });
                assert(forall|k2: RenderNodeDependencyKind|
                    #![trigger self.nodes.value_at(p as int).spec_first_parent(k2)]
                    self.nodes.value_at(p as int).spec_first_parent(k2) == prev.nodes.value_at(p as int).spec_first_parent(k2));
                assert(forall|k2: RenderNodeDependencyKind|
                    #![trigger self.nodes.value_at(c as int).spec_first_parent(k2)]
                    self.nodes.value_at(c as int).spec_first_parent(k2) == if k2 == kind && j2 == 0 {
                        dd.next_from_child
                    } else {
                        prev.nodes.value_at(c as int).spec_first_parent(k2)
                    });
                assert(forall|k2: RenderNodeDependencyKind|
                    #![trigger self.nodes.value_at(c as int).spec_first_child(k2)]
                    self.nodes.value_at(c as int).spec_first_child(k2) == prev.nodes.value_at(c as int).spec_first_child(k2));
            }
            self.lemma_remove_wf(prev, dependency_id, j, j2);
            self.lemma_remove_frame(prev, dependency_id, j, j2);
            lemma_swap_removed_at(prev.dependencies.order(), prev.dependencies.position(dependency_id.0 as int));
        }
        Ok(())
    }
}

} // verus!
