//! Merging unique and sequence helper nodes after graphs are combined.
use vstd::prelude::*;

use crate::error::{RenderGraphError, RenderGraphResult};
use crate::ids::{RenderDependencyId, RenderNodeId};
use crate::metadata::{spec_is_helper_kind, is_helper_kind, RenderNodeDependencyKind, RenderNodeKind, RenderNodeSubtype};
use crate::node_topology::RenderNodeParameters;
use crate::render_node_graph::RenderNodeGraph;

verus! {

/// Sequence begin and end nodes of one subtype, in usage order.
struct SequencePairGroup {
    subtype: RenderNodeSubtype,
    begins: Vec<RenderNodeId>,
    ends: Vec<RenderNodeId>,
}

/// One duplicate begin/end pair to chain after the surviving pair.
struct SequenceMerge {
    survivor_begin: RenderNodeId,
    survivor_end: RenderNodeId,
    duplicate_begin: RenderNodeId,
    duplicate_end: RenderNodeId,
}

/// Unique nodes of one subtype: the first in usage order survives.
struct UniqueNodeGroup {
    subtype: RenderNodeSubtype,
    survivor: RenderNodeId,
    duplicates: Vec<RenderNodeId>,
}

/// Where folding the duplicate unique nodes of `start` has put node `n`, once
/// the nodes of `start` no longer live in `now` were folded: such a node sits
/// in the first unique node of its subtype.
pub open spec fn fold_target(start: RenderNodeGraph, now: RenderNodeGraph, n: RenderNodeId) -> RenderNodeId {
    if start.node_live(n) && !now.node_live(n) {
        start.first_unique(start.node_data(n).params.subtype)
    } else {
        n
    }
}

/// Where merging the unique nodes of `start` puts node `n`: a duplicate unique
/// node folds into the first unique node of its subtype.
pub open spec fn merge_target(start: RenderNodeGraph, n: RenderNodeId) -> RenderNodeId {
    if start.node_live(n) && start.is_unique_duplicate(n) {
        start.first_unique(start.node_data(n).params.subtype)
    } else {
        n
    }
}

/// Whether some track-`k` dependency of `start` leads, with its ends folded as
/// in `now`, from `p` to a different node `c`.
pub open spec fn folds_to_edge(
    start: RenderNodeGraph,
    now: RenderNodeGraph,
    k: RenderNodeDependencyKind,
    p: RenderNodeId,
    c: RenderNodeId,
) -> bool {
    p != c && exists|p0: RenderNodeId, c0: RenderNodeId|
        #[trigger] start.has_edge(k, p0, c0) && fold_target(start, now, p0) == p && fold_target(start, now, c0) == c
}

/// Whether some track-`k` dependency of `start` leads, with its ends merged,
/// from `p` to a different node `c`.
pub open spec fn merges_to_edge(start: RenderNodeGraph, k: RenderNodeDependencyKind, p: RenderNodeId, c: RenderNodeId) -> bool {
    p != c && exists|p0: RenderNodeId, c0: RenderNodeId|
        #[trigger] start.has_edge(k, p0, c0) && merge_target(start, p0) == p && merge_target(start, c0) == c
}

impl RenderNodeGraph {
    /// Whether some live unique node is not the first of its subtype.
    pub open spec fn has_unique_duplicate(&self) -> bool {
        exists|n: RenderNodeId| #[trigger] self.node_live(n) && self.is_unique_duplicate(n)
    }

    /// A graph without helper nodes has its sequence nodes paired: it has none.
    proof fn lemma_no_helper_paired(&self)
        requires
            self.wf(),
            !self.has_helper_node(),
        ensures
            self.sequences_paired(),
            forall|st: RenderNodeSubtype| #[trigger] self.live_nodes_with(RenderNodeKind::SequenceBegin, st).len() == 0,
    {
        assert forall|k: RenderNodeKind, st: RenderNodeSubtype|
            spec_is_helper_kind(k) implies #[trigger] self.live_nodes_with(k, st).len() == 0 by {
            if self.live_nodes_with(k, st).len() > 0 {
                self.lemma_live_nodes_with(k, st);
                let b = self.live_nodes_with(k, st)[0];
                assert(self.live_nodes_with(k, st).contains(b));
                assert(self.is_live_with(b, k, st));
                self.lemma_orders_list_live();
                assert(self.node_order().contains(b.0));
                let i = choose|i: int| 0 <= i < self.node_order().len() && self.node_order()[i] == b.0;
                assert(RenderNodeId(self.node_order()[i]) == b);
                assert(spec_is_helper_kind(self.node_data(RenderNodeId(self.node_order()[i])).params.kind));
            }
        }
        assert forall|st: RenderNodeSubtype| #[trigger] self.live_nodes_with(RenderNodeKind::SequenceBegin, st).len() == 0 by {
            assert(spec_is_helper_kind(RenderNodeKind::SequenceBegin));
        }
        assert forall|st: RenderNodeSubtype| #[trigger] self.live_nodes_with(RenderNodeKind::SequenceEnd, st).len() == 0 by {
            assert(spec_is_helper_kind(RenderNodeKind::SequenceEnd));
        }
    }

    /// The nodes named by the raw ids of `order` whose kind is `k` and whose
    /// subtype is `st`, in the order of `order`.
    pub open spec fn nodes_with(&self, order: Seq<u32>, k: RenderNodeKind, st: RenderNodeSubtype) -> Seq<RenderNodeId>
        decreases order.len(),
    {
        if order.len() == 0 {
            Seq::empty()
        } else {
            let rest = self.nodes_with(order.drop_last(), k, st);
            let n = RenderNodeId(order.last());
            if self.node_data(n).params.kind == k && self.node_data(n).params.subtype == st {
                rest.push(n)
            } else {
                rest
            }
        }
    }

    /// The live nodes of kind `k` and subtype `st`, in usage order.
    pub open spec fn live_nodes_with(&self, k: RenderNodeKind, st: RenderNodeSubtype) -> Seq<RenderNodeId> {
        self.nodes_with(self.node_order(), k, st)
    }

    /// Whether a live node has kind `k` and subtype `st`.
    pub open spec fn is_live_with(&self, n: RenderNodeId, k: RenderNodeKind, st: RenderNodeSubtype) -> bool {
        self.node_live(n) && self.node_data(n).params.kind == k && self.node_data(n).params.subtype == st
    }

    /// Every subtype has as many sequence begin nodes as sequence end nodes.
    pub open spec fn sequences_paired(&self) -> bool {
        forall|st: RenderNodeSubtype|
            #[trigger] self.live_nodes_with(RenderNodeKind::SequenceBegin, st).len() == self.live_nodes_with(
                RenderNodeKind::SequenceEnd,
                st,
            ).len()
    }

    /// Every subtype has at most one sequence begin node.
    pub open spec fn sequence_begins_unique(&self) -> bool {
        forall|st: RenderNodeSubtype| #[trigger] self.live_nodes_with(RenderNodeKind::SequenceBegin, st).len() <= 1
    }

    /// Membership, order and distinctness of `nodes_with`.
    proof fn lemma_nodes_with(&self, order: Seq<u32>, k: RenderNodeKind, st: RenderNodeSubtype)
        ensures
            ({
                let r = self.nodes_with(order, k, st);
                &&& r.len() <= order.len()
                &&& forall|i: int|
                    0 <= i < r.len() ==> order.contains((#[trigger] r[i]).0) && self.node_data(r[i]).params.kind == k
                        && self.node_data(r[i]).params.subtype == st
                &&& forall|j: int|
                    0 <= j < order.len() && self.node_data(RenderNodeId(order[j])).params.kind == k && self.node_data(
                        RenderNodeId(order[j]),
                    ).params.subtype == st ==> #[trigger] r.contains(RenderNodeId(order[j]))
                &&& order.no_duplicates() ==> r.no_duplicates()
            }),
        decreases order.len(),
    {
        if order.len() > 0 {
            let prefix = order.drop_last();
            self.lemma_nodes_with(prefix, k, st);
            let rest = self.nodes_with(prefix, k, st);
            let r = self.nodes_with(order, k, st);
            let n = RenderNodeId(order.last());
            assert forall|i: int|
                0 <= i < r.len() implies order.contains((#[trigger] r[i]).0) && self.node_data(r[i]).params.kind == k
                && self.node_data(r[i]).params.subtype == st by {
                if i < rest.len() {
                    assert(r[i] == rest[i]);
                    let j = choose|j: int| 0 <= j < prefix.len() && prefix[j] == rest[i].0;
                    assert(order[j] == rest[i].0);
                } else {
                    assert(order[order.len() - 1] == n.0);
                }
            }
            assert forall|j: int|
                0 <= j < order.len() && self.node_data(RenderNodeId(order[j])).params.kind == k && self.node_data(
                    RenderNodeId(order[j]),
                ).params.subtype == st implies #[trigger] r.contains(RenderNodeId(order[j])) by {
                if j < prefix.len() {
                    assert(prefix[j] == order[j]);
                    assert(rest.contains(RenderNodeId(prefix[j])));
                    let x = choose|x: int| 0 <= x < rest.len() && rest[x] == RenderNodeId(prefix[j]);
                    assert(r[x] == rest[x]);
                } else {
                    assert(r[r.len() - 1] == n);
                }
            }
            if order.no_duplicates() {
                assert(prefix.no_duplicates());
                if self.node_data(n).params.kind == k && self.node_data(n).params.subtype == st {
                    assert forall|a: int, b: int| 0 <= a < b < r.len() implies r[a] != r[b] by {
                        if b == r.len() - 1 {
                            assert(r[a] == rest[a]);
                            let j = choose|j: int| 0 <= j < prefix.len() && prefix[j] == rest[a].0;
                            assert(order[j] == prefix[j]);
                            assert(order[order.len() - 1] == n.0);
                        } else {
                            assert(r[a] == rest[a] && r[b] == rest[b]);
                        }
                    }
                }
            }
        }
    }

    /// The live nodes of kind `k` and subtype `st` are listed once each, in
    /// usage order, and are exactly the live nodes of that kind and subtype.
    pub proof fn lemma_live_nodes_with(&self, k: RenderNodeKind, st: RenderNodeSubtype)
        requires
            self.wf(),
        ensures
            self.live_nodes_with(k, st).no_duplicates(),
            forall|n: RenderNodeId| #[trigger] self.live_nodes_with(k, st).contains(n) <==> self.is_live_with(n, k, st),
    {
        let order = self.node_order();
        self.lemma_nodes_with(order, k, st);
        self.lemma_node_order_distinct();
        self.lemma_live_in_order();
        let r = self.live_nodes_with(k, st);
        assert forall|n: RenderNodeId| #[trigger] r.contains(n) <==> self.is_live_with(n, k, st) by {
            if r.contains(n) {
                let i = choose|i: int| 0 <= i < r.len() && r[i] == n;
                assert(order.contains(r[i].0));
                let j = choose|j: int| 0 <= j < order.len() && order[j] == n.0;
                assert(self.node_live(RenderNodeId(order[j])));
            }
            if self.is_live_with(n, k, st) {
                let j = choose|j: int| 0 <= j < order.len() && order[j] == n.0;
                assert(RenderNodeId(order[j]) == n);
            }
        }
    }

    /// Every live node is named in the usage order.
    pub(crate) proof fn lemma_live_in_order(&self)
        requires
            self.wf(),
        ensures
            forall|n: RenderNodeId| #[trigger] self.node_live(n) ==> exists|j: int| 0 <= j < self.node_order().len() && self.node_order()[j] == n.0,
    {
        self.lemma_wf_storage();
        self.nodes.lemma_wf_facts();
        assert forall|n: RenderNodeId| #[trigger] self.node_live(n) implies exists|j: int| 0 <= j < self.node_order().len() && self.node_order()[j] == n.0 by {
            assert(self.nodes.live(n.0 as int));
            let p = self.nodes.position(n.0 as int);
            assert(self.node_order()[p] == n.0);
        }
    }

    /// Two graphs with the same live nodes of kind `k` and subtype `st` list
    /// equally many of them.
    proof fn lemma_same_live_nodes_with_len(&self, other: RenderNodeGraph, k: RenderNodeKind, st: RenderNodeSubtype)
        requires
            self.wf(),
            other.wf(),
            forall|n: RenderNodeId| #[trigger] self.is_live_with(n, k, st) <==> other.is_live_with(n, k, st),
        ensures
            self.live_nodes_with(k, st).len() == other.live_nodes_with(k, st).len(),
    {
        self.lemma_live_nodes_with(k, st);
        other.lemma_live_nodes_with(k, st);
        let a = self.live_nodes_with(k, st);
        let b = other.live_nodes_with(k, st);
        assert(a.to_set() =~= b.to_set()) by {
            assert forall|n: RenderNodeId| a.to_set().contains(n) <==> b.to_set().contains(n) by {
                assert(a.contains(n) <==> self.is_live_with(n, k, st));
                assert(b.contains(n) <==> other.is_live_with(n, k, st));
            }
        }
        a.unique_seq_to_set();
        b.unique_seq_to_set();
    }

    /// Groups the live sequence begin and end nodes by subtype, groups ordered
    /// by the first appearance of their subtype.
    fn sequence_pair_groups(&self) -> (r: Vec<SequencePairGroup>)
        requires
            self.wf(),
        ensures
            forall|g: int|
                0 <= g < r@.len() ==> (#[trigger] r@[g]).begins@ == self.live_nodes_with(
                    RenderNodeKind::SequenceBegin,
                    r@[g].subtype,
                ) && r@[g].ends@ == self.live_nodes_with(RenderNodeKind::SequenceEnd, r@[g].subtype),
            forall|st: RenderNodeSubtype|
                (#[trigger] self.live_nodes_with(RenderNodeKind::SequenceBegin, st).len() > 0 || self.live_nodes_with(
                    RenderNodeKind::SequenceEnd,
                    st,
                ).len() > 0) ==> exists|g: int| 0 <= g < r@.len() && (#[trigger] r@[g]).subtype == st,
    {
        let ids = self.node_ids();
        let ghost order = self.node_order();
        let mut groups: Vec<SequencePairGroup> = Vec::new();
        let mut i: usize = 0;
        while i < ids.len()
            invariant
                self.wf(),
                order == self.node_order(),
                ids@.len() == order.len(),
                forall|j: int| 0 <= j < ids@.len() ==> #[trigger] ids@[j] == RenderNodeId(order[j]),
                i <= ids@.len(),
                forall|g: int|
                    0 <= g < groups@.len() ==> (#[trigger] groups@[g]).begins@ == self.nodes_with(
                        order.subrange(0, i as int),
                        RenderNodeKind::SequenceBegin,
                        groups@[g].subtype,
                    ) && groups@[g].ends@ == self.nodes_with(
                        order.subrange(0, i as int),
                        RenderNodeKind::SequenceEnd,
                        groups@[g].subtype,
                    ),
                forall|a: int, b: int| 0 <= a < b < groups@.len() ==> (#[trigger] groups@[a]).subtype != (#[trigger] groups@[b]).subtype,
                forall|st: RenderNodeSubtype|
                    (#[trigger] self.nodes_with(order.subrange(0, i as int), RenderNodeKind::SequenceBegin, st).len() > 0
                        || self.nodes_with(order.subrange(0, i as int), RenderNodeKind::SequenceEnd, st).len() > 0)
                        ==> exists|g: int| 0 <= g < groups@.len() && (#[trigger] groups@[g]).subtype == st,
            decreases ids@.len() - i,
        {
            let node = ids[i];
            proof {
                self.lemma_node_order_distinct();
                assert(self.node_live(RenderNodeId(order[i as int])));
            }
            let params = self.params_of(node);
            let is_begin = match params.kind {
                RenderNodeKind::SequenceBegin => true,
                _ => false,
            };
            let is_end = match params.kind {
                RenderNodeKind::SequenceEnd => true,
                _ => false,
            };
            let ghost before = groups@;
            let ghost mut touched: int = -1;
            let ghost p = order.subrange(0, i as int);
            let ghost q = order.subrange(0, i + 1);
            proof {
                assert(q.drop_last() =~= p);
                assert(q.last() == node.0);
            }
            if is_begin || is_end {
                let st = params.subtype;
                let mut g: usize = 0;
                while g < groups.len() && groups[g].subtype.0 != st.0
                    invariant
                        g <= groups@.len(),
                        forall|x: int| 0 <= x < g ==> (#[trigger] groups@[x]).subtype != st,
                    decreases groups@.len() - g,
                {
                    g = g + 1;
                }
                proof {
                    if g < groups@.len() {
                        assert(groups@[g as int].subtype.0 == st.0);
                        assert(groups@[g as int].subtype == st);
                    }
                    assert forall|x: int| 0 <= x < groups@.len() && x != g implies (#[trigger] groups@[x]).subtype != st by {
                        if x > g && g < groups@.len() {
                            assert(groups@[g as int].subtype != groups@[x].subtype);
                        }
                    }
                }
                proof {
                    if g < groups@.len() {
                        assert(before[g as int].subtype == st);
                    }
                }
                if g == groups.len() {
                    groups.push(SequencePairGroup { subtype: st, begins: Vec::new(), ends: Vec::new() });
                    proof {
                        assert(self.nodes_with(p, RenderNodeKind::SequenceBegin, st).len() == 0);
                        assert(self.nodes_with(p, RenderNodeKind::SequenceEnd, st).len() == 0);
                    }
                }
                let ghost mid = groups@;
                if is_begin {
                    groups[g].begins.push(node);
                } else {
                    groups[g].ends.push(node);
                }
                proof {
                    touched = g as int;
                    assert(groups@[g as int].subtype == st);
                    assert forall|x: int| 0 <= x < groups@.len() && x != g implies groups@[x] == mid[x] by {}
                    assert forall|x: int| 0 <= x < groups@.len() && x != g implies (#[trigger] groups@[x]).subtype != st by {
                        assert(groups@[x] == mid[x]);
                    }
                }
            }
            proof {
                assert(groups@.len() == before.len() || (groups@.len() == before.len() + 1 && touched == before.len()));
                assert forall|x: int| 0 <= x < groups@.len() && x != touched implies #[trigger] groups@[x] == before[x] by {}
                assert forall|x: int| 0 <= x < before.len() implies (#[trigger] groups@[x]).subtype == before[x].subtype by {
                    if x == touched {
                        assert(groups@[x].subtype == params.subtype);
                    }
                }
            }
            proof {
                assert forall|g: int|
                    0 <= g < groups@.len() implies (#[trigger] groups@[g]).begins@ == self.nodes_with(
                        q,
                        RenderNodeKind::SequenceBegin,
                        groups@[g].subtype,
                    ) && groups@[g].ends@ == self.nodes_with(q, RenderNodeKind::SequenceEnd, groups@[g].subtype) by {
                    if g != touched {
                        assert(groups@[g] == before[g]);
                        if is_begin || is_end {
                            assert(groups@[g].subtype != params.subtype);
                        }
                    }
                    assert(self.nodes_with(q, RenderNodeKind::SequenceBegin, groups@[g].subtype) == (if params.kind
                        == RenderNodeKind::SequenceBegin && params.subtype == groups@[g].subtype {
                        self.nodes_with(p, RenderNodeKind::SequenceBegin, groups@[g].subtype).push(node)
                    } else {
                        self.nodes_with(p, RenderNodeKind::SequenceBegin, groups@[g].subtype)
                    }));
                    assert(self.nodes_with(q, RenderNodeKind::SequenceEnd, groups@[g].subtype) == (if params.kind
                        == RenderNodeKind::SequenceEnd && params.subtype == groups@[g].subtype {
                        self.nodes_with(p, RenderNodeKind::SequenceEnd, groups@[g].subtype).push(node)
                    } else {
                        self.nodes_with(p, RenderNodeKind::SequenceEnd, groups@[g].subtype)
                    }));
                }
                assert forall|st: RenderNodeSubtype|
                    (#[trigger] self.nodes_with(q, RenderNodeKind::SequenceBegin, st).len() > 0 || self.nodes_with(
                        q,
                        RenderNodeKind::SequenceEnd,
                        st,
                    ).len() > 0) implies exists|g: int| 0 <= g < groups@.len() && (#[trigger] groups@[g]).subtype == st by {
                    if self.nodes_with(p, RenderNodeKind::SequenceBegin, st).len() > 0 || self.nodes_with(
                        p,
                        RenderNodeKind::SequenceEnd,
                        st,
                    ).len() > 0 {
                        let g = choose|g: int| 0 <= g < before.len() && (#[trigger] before[g]).subtype == st;
                        assert(groups@[g].subtype == st);
                    }
                }
            }
            i = i + 1;
        }
        proof {
            assert(order.subrange(0, ids@.len() as int) =~= order);
        }
        groups
    }

    /// Fails unless every subtype pairs its sequence begin and end nodes.
    fn validate_sequence_pairs(&self) -> (r: RenderGraphResult<()>)
        requires
            self.wf(),
        ensures
            r is Ok <==> self.sequences_paired(),
            r is Err ==> r == Err::<(), RenderGraphError>(
                RenderGraphError::InvalidMerge { reason: "sequence begin/end helper nodes are not paired" },
            ),
    {
        let groups = self.sequence_pair_groups();
        let mut g: usize = 0;
        while g < groups.len()
            invariant
                self.wf(),
                forall|x: int|
                    0 <= x < groups@.len() ==> (#[trigger] groups@[x]).begins@ == self.live_nodes_with(
                        RenderNodeKind::SequenceBegin,
                        groups@[x].subtype,
                    ) && groups@[x].ends@ == self.live_nodes_with(RenderNodeKind::SequenceEnd, groups@[x].subtype),
                g <= groups@.len(),
                forall|x: int| 0 <= x < g ==> (#[trigger] groups@[x]).begins@.len() == groups@[x].ends@.len(),
            decreases groups@.len() - g,
        {
            if groups[g].begins.len() != groups[g].ends.len() {
                proof {
                    let st = groups@[g as int].subtype;
                    assert(self.live_nodes_with(RenderNodeKind::SequenceBegin, st).len() != self.live_nodes_with(
                        RenderNodeKind::SequenceEnd,
                        st,
                    ).len());
                }
                return Err(RenderGraphError::InvalidMerge { reason: "sequence begin/end helper nodes are not paired" });
            }
            g = g + 1;
        }
        proof {
            assert forall|st: RenderNodeSubtype|
                #[trigger] self.live_nodes_with(RenderNodeKind::SequenceBegin, st).len() == self.live_nodes_with(
                    RenderNodeKind::SequenceEnd,
                    st,
                ).len() by {
                if self.live_nodes_with(RenderNodeKind::SequenceBegin, st).len() > 0 || self.live_nodes_with(
                    RenderNodeKind::SequenceEnd,
                    st,
                ).len() > 0 {
                    let x = choose|x: int| 0 <= x < groups@.len() && (#[trigger] groups@[x]).subtype == st;
                    assert(groups@[x].begins@.len() == groups@[x].ends@.len());
                }
            }
        }
        Ok(())
    }

    /// Fails unless every subtype pairs its sequence begin and end nodes and has
    /// at most one such pair.
    pub(crate) fn validate_importable_sequence_pairs(&self) -> (r: RenderGraphResult<()>)
        requires
            self.wf(),
        ensures
            r is Ok <==> self.sequences_paired() && self.sequence_begins_unique(),
            self.sequence_begins_unique() && !self.sequences_paired() ==> r == Err::<(), RenderGraphError>(
                RenderGraphError::InvalidMerge { reason: "sequence begin/end helper nodes are not paired" },
            ),
            self.sequences_paired() && !self.sequence_begins_unique() ==> r == Err::<(), RenderGraphError>(
                RenderGraphError::InvalidMerge {
                    reason: "sequence helper nodes must be unique begin/end pairs per graph side",
                },
            ),
            r is Err ==> r == Err::<(), RenderGraphError>(
                RenderGraphError::InvalidMerge { reason: "sequence begin/end helper nodes are not paired" },
            ) || r == Err::<(), RenderGraphError>(
                RenderGraphError::InvalidMerge {
                    reason: "sequence helper nodes must be unique begin/end pairs per graph side",
                },
            ),
    {
        let groups = self.sequence_pair_groups();
        let mut g: usize = 0;
        while g < groups.len()
            invariant
                self.wf(),
                forall|x: int|
                    0 <= x < groups@.len() ==> (#[trigger] groups@[x]).begins@ == self.live_nodes_with(
                        RenderNodeKind::SequenceBegin,
                        groups@[x].subtype,
                    ) && groups@[x].ends@ == self.live_nodes_with(RenderNodeKind::SequenceEnd, groups@[x].subtype),
                forall|st: RenderNodeSubtype|
                    (#[trigger] self.live_nodes_with(RenderNodeKind::SequenceBegin, st).len() > 0 || self.live_nodes_with(
                        RenderNodeKind::SequenceEnd,
                        st,
                    ).len() > 0) ==> exists|x: int| 0 <= x < groups@.len() && (#[trigger] groups@[x]).subtype == st,
                g <= groups@.len(),
                forall|x: int| 0 <= x < g ==> (#[trigger] groups@[x]).begins@.len() == groups@[x].ends@.len() && groups@[x].begins@.len() <= 1,
            decreases groups@.len() - g,
        {
            if groups[g].begins.len() != groups[g].ends.len() {
                proof {
                    let st = groups@[g as int].subtype;
                    assert(self.live_nodes_with(RenderNodeKind::SequenceBegin, st).len() != self.live_nodes_with(
                        RenderNodeKind::SequenceEnd,
                        st,
                    ).len());
                }
                return Err(RenderGraphError::InvalidMerge { reason: "sequence begin/end helper nodes are not paired" });
            }
            if groups[g].begins.len() > 1 {
                proof {
                    let st = groups@[g as int].subtype;
                    assert(self.live_nodes_with(RenderNodeKind::SequenceBegin, st).len() > 1);
                }
                return Err(RenderGraphError::InvalidMerge {
                    reason: "sequence helper nodes must be unique begin/end pairs per graph side",
                });
            }
            g = g + 1;
        }
        proof {
            assert forall|st: RenderNodeSubtype|
                #[trigger] self.live_nodes_with(RenderNodeKind::SequenceBegin, st).len() == self.live_nodes_with(
                    RenderNodeKind::SequenceEnd,
                    st,
                ).len() && self.live_nodes_with(RenderNodeKind::SequenceBegin, st).len() <= 1 by {
                if self.live_nodes_with(RenderNodeKind::SequenceBegin, st).len() > 0 || self.live_nodes_with(
                    RenderNodeKind::SequenceEnd,
                    st,
                ).len() > 0 {
                    let x = choose|x: int| 0 <= x < groups@.len() && (#[trigger] groups@[x]).subtype == st;
                    assert(groups@[x].begins@.len() == groups@[x].ends@.len());
                }
            }
        }
        Ok(())
    }

    /// The first live unique node of subtype `st` in usage order.
    pub open spec fn first_unique(&self, st: RenderNodeSubtype) -> RenderNodeId {
        self.live_nodes_with(RenderNodeKind::Unique, st)[0]
    }

    /// Whether `n` is a unique node that is not the first of its subtype.
    pub open spec fn is_unique_duplicate(&self, n: RenderNodeId) -> bool {
        &&& self.node_data(n).params.kind == RenderNodeKind::Unique
        &&& n != self.first_unique(self.node_data(n).params.subtype)
    }

    /// Every live node was live in `prev`, with the same parameters and metadata.
    pub open spec fn nodes_subset_of(&self, prev: RenderNodeGraph) -> bool {
        forall|n: RenderNodeId|
            #[trigger] self.node_live(n) ==> prev.node_live(n) && self.node_data(n).params == prev.node_data(n).params
                && self.node_data(n).metadata == prev.node_data(n).metadata
    }

    /// Groups the live unique nodes by subtype, groups ordered by the first
    /// appearance of their subtype; the first node of each subtype survives.
    fn unique_node_groups(&self) -> (r: Vec<UniqueNodeGroup>)
        requires
            self.wf(),
        ensures
            forall|g: int|
                0 <= g < r@.len() ==> seq![(#[trigger] r@[g]).survivor] + r@[g].duplicates@ == self.live_nodes_with(
                    RenderNodeKind::Unique,
                    r@[g].subtype,
                ),
            forall|st: RenderNodeSubtype|
                #[trigger] self.live_nodes_with(RenderNodeKind::Unique, st).len() > 0 ==> exists|g: int|
                    0 <= g < r@.len() && (#[trigger] r@[g]).subtype == st,
    {
        let ids = self.node_ids();
        let ghost order = self.node_order();
        let mut groups: Vec<UniqueNodeGroup> = Vec::new();
        let mut i: usize = 0;
        while i < ids.len()
            invariant
                self.wf(),
                order == self.node_order(),
                ids@.len() == order.len(),
                forall|j: int| 0 <= j < ids@.len() ==> #[trigger] ids@[j] == RenderNodeId(order[j]),
                i <= ids@.len(),
                forall|g: int|
                    0 <= g < groups@.len() ==> seq![(#[trigger] groups@[g]).survivor] + groups@[g].duplicates@
                        == self.nodes_with(order.subrange(0, i as int), RenderNodeKind::Unique, groups@[g].subtype),
                forall|a: int, b: int| 0 <= a < b < groups@.len() ==> (#[trigger] groups@[a]).subtype != (#[trigger] groups@[b]).subtype,
                forall|st: RenderNodeSubtype|
                    #[trigger] self.nodes_with(order.subrange(0, i as int), RenderNodeKind::Unique, st).len() > 0
                        ==> exists|g: int| 0 <= g < groups@.len() && (#[trigger] groups@[g]).subtype == st,
            decreases ids@.len() - i,
        {
            let node = ids[i];
            proof {
                self.lemma_node_order_distinct();
                assert(self.node_live(RenderNodeId(order[i as int])));
            }
            let params = self.params_of(node);
            let is_unique = match params.kind {
                RenderNodeKind::Unique => true,
                _ => false,
            };
            let ghost before = groups@;
            let ghost mut touched: int = -1;
            let ghost p = order.subrange(0, i as int);
            let ghost q = order.subrange(0, i + 1);
            proof {
                assert(q.drop_last() =~= p);
                assert(q.last() == node.0);
            }
            if is_unique {
                let st = params.subtype;
                let mut g: usize = 0;
                while g < groups.len() && groups[g].subtype.0 != st.0
                    invariant
                        g <= groups@.len(),
                        forall|x: int| 0 <= x < g ==> (#[trigger] groups@[x]).subtype != st,
                    decreases groups@.len() - g,
                {
                    g = g + 1;
                }
                proof {
                    if g < groups@.len() {
                        assert(groups@[g as int].subtype.0 == st.0);
                        assert(groups@[g as int].subtype == st);
                    }
                    assert forall|x: int| 0 <= x < groups@.len() && x != g implies (#[trigger] groups@[x]).subtype != st by {
                        if x > g && g < groups@.len() {
                            assert(groups@[g as int].subtype != groups@[x].subtype);
                        }
                    }
                }
                if g == groups.len() {
                    proof {
                        assert(self.nodes_with(p, RenderNodeKind::Unique, st).len() == 0);
                    }
                    groups.push(UniqueNodeGroup { subtype: st, survivor: node, duplicates: Vec::new() });
                    proof {
                        assert(seq![node] + Seq::<RenderNodeId>::empty() =~= seq![node]);
                        assert(self.nodes_with(p, RenderNodeKind::Unique, st).push(node) =~= seq![node]);
                    }
                } else {
                    let ghost old_dups = groups@[g as int].duplicates@;
                    groups[g].duplicates.push(node);
                    proof {
                        assert(seq![groups@[g as int].survivor] + groups@[g as int].duplicates@ =~= (seq![
                            groups@[g as int].survivor] + old_dups).push(node));
                    }
                }
                proof {
                    touched = g as int;
                    assert(groups@[g as int].subtype == st);
                    assert forall|x: int| 0 <= x < groups@.len() && x != g implies (#[trigger] groups@[x]).subtype != st by {
                        assert(groups@[x] == before[x]);
                    }
                }
            }
            proof {
                assert forall|x: int| 0 <= x < groups@.len() && x != touched implies #[trigger] groups@[x] == before[x] by {}
                assert forall|x: int| 0 <= x < before.len() implies (#[trigger] groups@[x]).subtype == before[x].subtype by {
                    if x == touched {
                        assert(groups@[x].subtype == params.subtype);
                    }
                }
                assert forall|g: int|
                    0 <= g < groups@.len() implies seq![(#[trigger] groups@[g]).survivor] + groups@[g].duplicates@
                    == self.nodes_with(q, RenderNodeKind::Unique, groups@[g].subtype) by {
                    if g != touched {
                        assert(groups@[g] == before[g]);
                        if is_unique {
                            assert(groups@[g].subtype != params.subtype);
                        }
                    }
                    assert(self.nodes_with(q, RenderNodeKind::Unique, groups@[g].subtype) == (if params.kind
                        == RenderNodeKind::Unique && params.subtype == groups@[g].subtype {
                        self.nodes_with(p, RenderNodeKind::Unique, groups@[g].subtype).push(node)
                    } else {
                        self.nodes_with(p, RenderNodeKind::Unique, groups@[g].subtype)
                    }));
                }
                assert forall|st: RenderNodeSubtype|
                    #[trigger] self.nodes_with(q, RenderNodeKind::Unique, st).len() > 0 implies exists|g: int|
                        0 <= g < groups@.len() && (#[trigger] groups@[g]).subtype == st by {
                    if self.nodes_with(p, RenderNodeKind::Unique, st).len() > 0 {
                        let g = choose|g: int| 0 <= g < before.len() && (#[trigger] before[g]).subtype == st;
                        assert(groups@[g].subtype == st);
                    }
                }
            }
            i = i + 1;
        }
        proof {
            assert(order.subrange(0, ids@.len() as int) =~= order);
        }
        groups
    }

    /// Folds every duplicate unique node into the first node of its subtype:
    /// the duplicate's dependencies are copied onto the survivor, then the
    /// duplicate is removed.
    /// A duplicate unique node has a live survivor: the first unique node of
    /// its subtype, itself no duplicate.
    proof fn lemma_survivor(&self, x: RenderNodeId)
        requires
            self.wf(),
            self.node_live(x),
            self.is_unique_duplicate(x),
        ensures
            self.node_live(self.first_unique(self.node_data(x).params.subtype)),
            !self.is_unique_duplicate(self.first_unique(self.node_data(x).params.subtype)),
            self.first_unique(self.node_data(x).params.subtype) != x,
    {
        let st = self.node_data(x).params.subtype;
        let members = self.live_nodes_with(RenderNodeKind::Unique, st);
        self.lemma_live_nodes_with(RenderNodeKind::Unique, st);
        assert(self.is_live_with(x, RenderNodeKind::Unique, st));
        assert(members.contains(x));
        assert(members.contains(members[0]));
        assert(self.is_live_with(members[0], RenderNodeKind::Unique, st));
    }

    /// Folding one more duplicate `d` into its survivor `s`, by copying its
    /// dependencies to `s` and removing it, keeps the edges those of `start`
    /// with folded ends.
    proof fn lemma_fold_step(
        start: RenderNodeGraph,
        before: RenderNodeGraph,
        copied: RenderNodeGraph,
        after: RenderNodeGraph,
        d: RenderNodeId,
        s: RenderNodeId,
    )
        requires
            start.wf(),
            forall|k: RenderNodeDependencyKind, p: RenderNodeId, c: RenderNodeId|
                #[trigger] before.has_edge(k, p, c) == folds_to_edge(start, before, k, p, c),
            before.nodes_subset_of(start),
            forall|n: RenderNodeId| #[trigger] start.node_live(n) && !start.is_unique_duplicate(n) ==> before.node_live(n),
            before.node_live(d),
            start.is_unique_duplicate(d),
            s == start.first_unique(start.node_data(d).params.subtype),
            forall|k: RenderNodeDependencyKind, p: RenderNodeId, c: RenderNodeId|
                #[trigger] copied.has_edge(k, p, c) == (before.has_edge(k, p, c) || (c == s && p != s && before.has_edge(
                    k,
                    p,
                    d,
                )) || (p == s && c != s && before.has_edge(k, d, c))),
            forall|n: RenderNodeId| #[trigger] after.node_live(n) == (before.node_live(n) && n != d),
            forall|k: RenderNodeDependencyKind, p: RenderNodeId, c: RenderNodeId|
                #[trigger] after.has_edge(k, p, c) == (copied.has_edge(k, p, c) && p != d && c != d),
        ensures
            forall|k: RenderNodeDependencyKind, p: RenderNodeId, c: RenderNodeId|
                #[trigger] after.has_edge(k, p, c) == folds_to_edge(start, after, k, p, c),
    {
        assert(start.node_live(d));
        start.lemma_survivor(d);
        assert forall|x: RenderNodeId| fold_target(start, before, x) == d implies x == d by {
            if start.node_live(x) && !before.node_live(x) {
                assert(start.is_unique_duplicate(x));
                start.lemma_survivor(x);
                let sx = start.first_unique(start.node_data(x).params.subtype);
                if sx == d {
                    assert(start.node_data(d).params.subtype == start.node_data(x).params.subtype) by {
                        let st = start.node_data(x).params.subtype;
                        start.lemma_live_nodes_with(RenderNodeKind::Unique, st);
                        let members = start.live_nodes_with(RenderNodeKind::Unique, st);
                        assert(start.is_live_with(x, RenderNodeKind::Unique, st));
                        assert(members.contains(x));
                        assert(members.contains(members[0]));
                    }
                }
            }
        }
        assert forall|x: RenderNodeId| x != d implies #[trigger] fold_target(start, after, x) == fold_target(
            start,
            before,
            x,
        ) by {}
        assert(fold_target(start, after, d) == s);
        assert(fold_target(start, before, d) == d);
        assert forall|k: RenderNodeDependencyKind, p: RenderNodeId, c: RenderNodeId|
            #[trigger] after.has_edge(k, p, c) == folds_to_edge(start, after, k, p, c) by {
            start.lemma_no_self_edge(k, d);
            if after.has_edge(k, p, c) {
                if before.has_edge(k, p, c) {
                    assert(folds_to_edge(start, before, k, p, c));
                    let (p0, c0) = choose|p0: RenderNodeId, c0: RenderNodeId|
                        #[trigger] start.has_edge(k, p0, c0) && fold_target(start, before, p0) == p && fold_target(
                            start,
                            before,
                            c0,
                        ) == c;
                    assert(p0 != d && c0 != d);
                    assert(start.has_edge(k, p0, c0));
                } else if c == s && p != s && before.has_edge(k, p, d) {
                    assert(folds_to_edge(start, before, k, p, d));
                    let (p0, c0) = choose|p0: RenderNodeId, c0: RenderNodeId|
                        #[trigger] start.has_edge(k, p0, c0) && fold_target(start, before, p0) == p && fold_target(
                            start,
                            before,
                            c0,
                        ) == d;
                    assert(c0 == d);
                    assert(p0 != d);
                    assert(start.has_edge(k, p0, c0));
                } else {
                    assert(p == s && c != s && before.has_edge(k, d, c));
                    assert(folds_to_edge(start, before, k, d, c));
                    let (p0, c0) = choose|p0: RenderNodeId, c0: RenderNodeId|
                        #[trigger] start.has_edge(k, p0, c0) && fold_target(start, before, p0) == d && fold_target(
                            start,
                            before,
                            c0,
                        ) == c;
                    assert(p0 == d);
                    assert(c0 != d);
                    assert(start.has_edge(k, p0, c0));
                }
            }
            if folds_to_edge(start, after, k, p, c) {
                let (p0, c0) = choose|p0: RenderNodeId, c0: RenderNodeId|
                    #[trigger] start.has_edge(k, p0, c0) && fold_target(start, after, p0) == p && fold_target(
                        start,
                        after,
                        c0,
                    ) == c;
                assert(p != d) by {
                    if p0 != d {
                        assert(fold_target(start, before, p0) != d);
                    }
                }
                assert(c != d) by {
                    if c0 != d {
                        assert(fold_target(start, before, c0) != d);
                    }
                }
                start.lemma_no_self_edge(k, p0);
                if p0 != d && c0 != d {
                    assert(start.has_edge(k, p0, c0));
                    assert(folds_to_edge(start, before, k, p, c));
                    assert(before.has_edge(k, p, c));
                } else if c0 == d {
                    assert(p0 != d);
                    assert(start.has_edge(k, p0, c0));
                    assert(folds_to_edge(start, before, k, p, d));
                    assert(before.has_edge(k, p, d));
                    assert(copied.has_edge(k, p, c));
                } else {
                    assert(start.has_edge(k, p0, c0));
                    assert(folds_to_edge(start, before, k, d, c));
                    assert(before.has_edge(k, d, c));
                    assert(copied.has_edge(k, p, c));
                }
            }
        }
    }

    fn merge_unique_nodes(&mut self) -> (r: RenderGraphResult<()>)
        requires
            old(self).wf(),
            !old(self).frozen(),
        ensures
            final(self).wf(),
            !final(self).frozen(),
            final(self).built() == old(self).built(),
            final(self).nodes_subset_of(*old(self)),
            forall|n: RenderNodeId|
                #[trigger] old(self).node_live(n) && !old(self).is_unique_duplicate(n) ==> final(self).node_live(n),
            r is Ok ==> forall|n: RenderNodeId|
                #[trigger] final(self).node_live(n) ==> !old(self).is_unique_duplicate(n),
            r is Ok ==> forall|k: RenderNodeDependencyKind, p: RenderNodeId, c: RenderNodeId|
                #[trigger] final(self).has_edge(k, p, c) == merges_to_edge(*old(self), k, p, c),
            r is Err ==> final(self).dep_slot_count() >= 4294967295,
            !old(self).has_unique_duplicate() ==> r is Ok && *final(self) == *old(self),
    {
        let groups = self.unique_node_groups();
        let ghost start = *self;
        proof {
            assert forall|k: RenderNodeDependencyKind, p: RenderNodeId, c: RenderNodeId|
                #[trigger] self.has_edge(k, p, c) == folds_to_edge(start, *self, k, p, c) by {
                if self.has_edge(k, p, c) {
                    self.lemma_no_self_edge(k, p);
                    assert(fold_target(start, *self, p) == p);
                    assert(fold_target(start, *self, c) == c);
                }
                if folds_to_edge(start, *self, k, p, c) {
                    let (p0, c0) = choose|p0: RenderNodeId, c0: RenderNodeId|
                        #[trigger] start.has_edge(k, p0, c0) && fold_target(start, *self, p0) == p && fold_target(
                            start,
                            *self,
                            c0,
                        ) == c;
                    assert(fold_target(start, *self, p0) == p0);
                    assert(fold_target(start, *self, c0) == c0);
                }
            }
        }
        let mut gi: usize = 0;
        while gi < groups.len()
            invariant
                self.wf(),
                start.wf(),
                start == *old(self),
                !self.frozen(),
                self.built() == start.built(),
                forall|g: int|
                    0 <= g < groups@.len() ==> seq![(#[trigger] groups@[g]).survivor] + groups@[g].duplicates@
                        == start.live_nodes_with(RenderNodeKind::Unique, groups@[g].subtype),
                self.nodes_subset_of(start),
                forall|n: RenderNodeId| #[trigger] start.node_live(n) && !start.is_unique_duplicate(n) ==> self.node_live(n),
                forall|g: int, y: int|
                    0 <= g < gi && 0 <= y < groups@[g].duplicates@.len() ==> !self.node_live(
                        #[trigger] groups@[g].duplicates@[y],
                    ),
                forall|k: RenderNodeDependencyKind, p: RenderNodeId, c: RenderNodeId|
                    #[trigger] self.has_edge(k, p, c) == folds_to_edge(start, *self, k, p, c),
                !start.has_unique_duplicate() ==> *self == start,
                gi <= groups@.len(),
            decreases groups@.len() - gi,
        {
            let survivor = groups[gi].survivor;
            let ghost st = groups@[gi as int].subtype;
            let ghost members = start.live_nodes_with(RenderNodeKind::Unique, st);
            proof {
                start.lemma_live_nodes_with(RenderNodeKind::Unique, st);
                assert(members[0] == survivor);
                assert(members.contains(survivor));
                assert(start.is_live_with(survivor, RenderNodeKind::Unique, st));
                assert(!start.is_unique_duplicate(survivor));
                if groups@[gi as int].duplicates@.len() > 0 {
                    let x = groups@[gi as int].duplicates@[0];
                    assert(members[1] == x);
                    assert(members.contains(x));
                    assert(start.is_live_with(x, RenderNodeKind::Unique, st));
                    assert(x != survivor);
                    assert(start.is_unique_duplicate(x));
                }
            }
            let mut di: usize = 0;
            while di < groups[gi].duplicates.len()
                invariant
                    self.wf(),
                    start.wf(),
                    start == *old(self),
                    !self.frozen(),
                    self.built() == start.built(),
                    forall|g: int|
                        0 <= g < groups@.len() ==> seq![(#[trigger] groups@[g]).survivor] + groups@[g].duplicates@
                            == start.live_nodes_with(RenderNodeKind::Unique, groups@[g].subtype),
                    self.nodes_subset_of(start),
                    forall|n: RenderNodeId| #[trigger] start.node_live(n) && !start.is_unique_duplicate(n) ==> self.node_live(n),
                    forall|g: int, y: int|
                        0 <= g < gi && 0 <= y < groups@[g].duplicates@.len() ==> !self.node_live(
                            #[trigger] groups@[g].duplicates@[y],
                        ),
                    forall|y: int| 0 <= y < di ==> !self.node_live(#[trigger] groups@[gi as int].duplicates@[y]),
                    forall|k: RenderNodeDependencyKind, p: RenderNodeId, c: RenderNodeId|
                        #[trigger] self.has_edge(k, p, c) == folds_to_edge(start, *self, k, p, c),
                    !start.has_unique_duplicate() ==> *self == start && groups@[gi as int].duplicates@.len() == 0,
                    gi < groups@.len(),
                    di <= groups@[gi as int].duplicates@.len(),
                    survivor == groups@[gi as int].survivor,
                    start.node_live(survivor),
                    !start.is_unique_duplicate(survivor),
                    members == start.live_nodes_with(RenderNodeKind::Unique, st),
                    members.no_duplicates(),
                    st == groups@[gi as int].subtype,
                decreases groups@[gi as int].duplicates@.len() - di,
            {
                let duplicate = groups[gi].duplicates[di];
                let ghost before = *self;
                proof {
                    assert(members[di + 1] == duplicate);
                    assert(members[0] == survivor);
                    assert(duplicate != survivor);
                }
                proof {
                    self.lemma_wf_storage();
                }
                if self.nodes.is_allocated(duplicate) {
                    proof {
                        assert(self.node_live(survivor));
                    }
                    match self.copy_all_dependencies(duplicate, survivor) {
                        Ok(()) => {},
                        Err(e) => {
                            proof {
                                assert(self.built() == before.built());
                            }
                            return Err(e);
                        },
                    }
                    let ghost copied = *self;
                    proof {
                        assert(copied.node_live(duplicate));
                    }
                    match self.remove_node(duplicate) {
                        Ok(_) => {},
                        Err(e) => {
                            proof {
                                assert(false);
                            }
                            return Err(e);
                        },
                    }
                    proof {
                        assert forall|n: RenderNodeId| #[trigger] self.node_live(n) implies start.node_live(n)
                            && self.node_data(n).params == start.node_data(n).params && self.node_data(n).metadata
                            == start.node_data(n).metadata by {
                            assert(copied.node_live(n));
                            assert(before.node_live(n));
                        }
                        start.lemma_live_nodes_with(RenderNodeKind::Unique, st);
                        assert(members.contains(duplicate));
                        assert(start.is_live_with(duplicate, RenderNodeKind::Unique, st));
                        assert(start.first_unique(st) == survivor);
                        assert(start.is_unique_duplicate(duplicate));
                        assert forall|n: RenderNodeId| #[trigger] self.node_live(n) == (before.node_live(n) && n != duplicate) by {
                            assert(copied.node_live(n) == before.node_live(n));
                        }
                        Self::lemma_fold_step(start, before, copied, *self, duplicate, survivor);
                        assert forall|n: RenderNodeId| #[trigger] start.node_live(n) && !start.is_unique_duplicate(n)
                            implies self.node_live(n) by {
                            assert(before.node_live(n));
                            assert(copied.node_live(n));
                            if n == duplicate {
                                start.lemma_live_nodes_with(RenderNodeKind::Unique, st);
                                assert(members.contains(duplicate));
                                assert(start.is_live_with(duplicate, RenderNodeKind::Unique, st));
                            }
                        }
                    }
                }
                di = di + 1;
            }
            gi = gi + 1;
        }
        proof {
            assert forall|n: RenderNodeId| #[trigger] self.node_live(n) implies !start.is_unique_duplicate(n) by {
                if start.is_unique_duplicate(n) {
                    let st = start.node_data(n).params.subtype;
                    let members = start.live_nodes_with(RenderNodeKind::Unique, st);
                    start.lemma_live_nodes_with(RenderNodeKind::Unique, st);
                    assert(start.is_live_with(n, RenderNodeKind::Unique, st));
                    assert(members.contains(n));
                    let g = choose|g: int| 0 <= g < groups@.len() && (#[trigger] groups@[g]).subtype == st;
                    let i = choose|i: int| 0 <= i < members.len() && members[i] == n;
                    assert(i != 0);
                    assert(seq![groups@[g].survivor] + groups@[g].duplicates@ == members);
                    assert(groups@[g].duplicates@[i - 1] == n);
                }
            }
            assert forall|n: RenderNodeId| #[trigger] fold_target(start, *self, n) == merge_target(start, n) by {}
            assert forall|k: RenderNodeDependencyKind, p: RenderNodeId, c: RenderNodeId|
                #[trigger] self.has_edge(k, p, c) == merges_to_edge(start, k, p, c) by {
                if folds_to_edge(start, *self, k, p, c) {
                    let (p0, c0) = choose|p0: RenderNodeId, c0: RenderNodeId|
                        #[trigger] start.has_edge(k, p0, c0) && fold_target(start, *self, p0) == p && fold_target(
                            start,
                            *self,
                            c0,
                        ) == c;
                    assert(merge_target(start, p0) == p && merge_target(start, c0) == c);
                }
                if merges_to_edge(start, k, p, c) {
                    let (p0, c0) = choose|p0: RenderNodeId, c0: RenderNodeId|
                        #[trigger] start.has_edge(k, p0, c0) && merge_target(start, p0) == p && merge_target(start, c0)
                            == c;
                    assert(fold_target(start, *self, p0) == p && fold_target(start, *self, c0) == c);
                }
            }
        }
        Ok(())
    }

    /// Chains a duplicate sequence pair after the surviving one on both tracks:
    /// the duplicate begin's parents also precede the survivor begin, the
    /// survivor end's children move after the duplicate end, and the survivor
    /// end precedes the duplicate begin.
    fn stitch_sequence_pair(&mut self, sequence: SequenceMerge) -> (r: RenderGraphResult<()>)
        requires
            old(self).wf(),
            !old(self).frozen(),
            old(self).node_live(sequence.survivor_begin),
            old(self).node_live(sequence.survivor_end),
            old(self).node_live(sequence.duplicate_begin),
            old(self).node_live(sequence.duplicate_end),
            sequence.survivor_end != sequence.duplicate_begin,
        ensures
            final(self).wf(),
            !final(self).frozen(),
            final(self).built() == old(self).built(),
            final(self).nodes_kept(*old(self)),
            r is Err ==> final(self).dep_slot_count() >= 4294967295,
    {
        let ghost start = *self;
        let kinds = [RenderNodeDependencyKind::Cpu, RenderNodeDependencyKind::Gpu];
        let mut ki: usize = 0;
        while ki < 2
            invariant
                self.wf(),
                start.wf(),
                start == *old(self),
                !self.frozen(),
                self.built() == start.built(),
                self.nodes_kept(start),
                start.node_live(sequence.survivor_begin),
                start.node_live(sequence.survivor_end),
                start.node_live(sequence.duplicate_begin),
                start.node_live(sequence.duplicate_end),
                sequence.survivor_end != sequence.duplicate_begin,
                ki <= 2,
            decreases 2 - ki,
        {
            let kind = kinds[ki];
            let parents = match self.parent_nodes(sequence.duplicate_begin, kind) {
                Ok(v) => v,
                Err(e) => return Err(e),
            };
            proof {
                self.lemma_parent_seq_edges(sequence.duplicate_begin, kind);
            }
            let ghost listed = *self;
            let mut pi: usize = 0;
            while pi < parents.len()
                invariant
                    self.wf(),
                    start.wf(),
                    start == *old(self),
                    !self.frozen(),
                    self.built() == start.built(),
                    self.nodes_kept(start),
                    listed.nodes_kept(start),
                    start.node_live(sequence.survivor_begin),
                    start.node_live(sequence.survivor_end),
                    start.node_live(sequence.duplicate_begin),
                    start.node_live(sequence.duplicate_end),
                    sequence.survivor_end != sequence.duplicate_begin,
                    forall|i: int| 0 <= i < parents@.len() ==> listed.node_live(#[trigger] parents@[i]),
                    pi <= parents@.len(),
                    ki < 2,
                decreases parents@.len() - pi,
            {
                let parent = parents[pi];
                proof {
                    assert(listed.node_live(parent));
                    assert(self.node_live(parent));
                }
                if parent.0 != sequence.survivor_begin.0 {
                    let present = match self.has_dependency(kind, parent, sequence.survivor_begin) {
                        Ok(b) => b,
                        Err(e) => return Err(e),
                    };
                    if !present {
                        let ghost before = *self;
                        match self.add_dependency(kind, parent, sequence.survivor_begin) {
                            Ok(_) => {},
                            Err(e) => return Err(e),
                        }
                        proof {
                            self.lemma_add_keeps_nodes(before, kind, parent, sequence.survivor_begin);
                            Self::lemma_nodes_kept_trans(start, before, *self);
                        }
                    }
                }
                pi = pi + 1;
            }
            let children = match self.child_nodes(sequence.survivor_end, kind) {
                Ok(v) => v,
                Err(e) => return Err(e),
            };
            proof {
                self.lemma_child_seq_edges(sequence.survivor_end, kind);
            }
            let ghost listed_children = *self;
            let mut ci: usize = 0;
            while ci < children.len()
                invariant
                    self.wf(),
                    start.wf(),
                    start == *old(self),
                    !self.frozen(),
                    self.built() == start.built(),
                    self.nodes_kept(start),
                    listed_children.nodes_kept(start),
                    start.node_live(sequence.survivor_begin),
                    start.node_live(sequence.survivor_end),
                    start.node_live(sequence.duplicate_begin),
                    start.node_live(sequence.duplicate_end),
                    sequence.survivor_end != sequence.duplicate_begin,
                    forall|i: int| 0 <= i < children@.len() ==> listed_children.node_live(#[trigger] children@[i]),
                    ci <= children@.len(),
                    ki < 2,
                decreases children@.len() - ci,
            {
                let child = children[ci];
                proof {
                    assert(listed_children.node_live(child));
                    assert(self.node_live(child));
                    assert(self.node_live(sequence.survivor_end));
                }
                match self.find_dependency(kind, sequence.survivor_end, child) {
                    Some(dependency) => {
                        let ghost before = *self;
                        match self.remove_dependency(dependency) {
                            Ok(()) => {},
                            Err(e) => return Err(e),
                        }
                        proof {
                            Self::lemma_nodes_kept_trans(start, before, *self);
                        }
                    },
                    None => {},
                }
                if child.0 != sequence.duplicate_end.0 {
                    let present = match self.has_dependency(kind, sequence.duplicate_end, child) {
                        Ok(b) => b,
                        Err(e) => return Err(e),
                    };
                    if !present {
                        let ghost before = *self;
                        match self.add_dependency(kind, sequence.duplicate_end, child) {
                            Ok(_) => {},
                            Err(e) => return Err(e),
                        }
                        proof {
                            self.lemma_add_keeps_nodes(before, kind, sequence.duplicate_end, child);
                            Self::lemma_nodes_kept_trans(start, before, *self);
                        }
                    }
                }
                ci = ci + 1;
            }
            let linked = match self.has_dependency(kind, sequence.survivor_end, sequence.duplicate_begin) {
                Ok(b) => b,
                Err(e) => return Err(e),
            };
            if !linked {
                let ghost before = *self;
                match self.add_dependency(kind, sequence.survivor_end, sequence.duplicate_begin) {
                    Ok(_) => {},
                    Err(e) => return Err(e),
                }
                proof {
                    self.lemma_add_keeps_nodes(before, kind, sequence.survivor_end, sequence.duplicate_begin);
                    Self::lemma_nodes_kept_trans(start, before, *self);
                }
            }
            ki = ki + 1;
        }
        Ok(())
    }

    /// Adding a dependency keeps every node's liveness, parameters and metadata.
    proof fn lemma_add_keeps_nodes(
        &self,
        prev: RenderNodeGraph,
        kind: RenderNodeDependencyKind,
        parent: RenderNodeId,
        child: RenderNodeId,
    )
        requires
            forall|n: RenderNodeId| #[trigger] self.node_live(n) == prev.node_live(n),
            forall|n: RenderNodeId|
                #![trigger self.node_data(n)]
                prev.node_live(n) && n != parent && n != child ==> self.node_data(n) == prev.node_data(n),
            self.node_data(parent).params == prev.node_data(parent).params,
            self.node_data(parent).metadata == prev.node_data(parent).metadata,
            self.node_data(child).params == prev.node_data(child).params,
            self.node_data(child).metadata == prev.node_data(child).metadata,
        ensures
            self.nodes_kept(prev),
    {
    }

    /// Keeping nodes is transitive.
    proof fn lemma_nodes_kept_trans(a: RenderNodeGraph, b: RenderNodeGraph, c: RenderNodeGraph)
        requires
            b.nodes_kept(a),
            c.nodes_kept(b),
        ensures
            c.nodes_kept(a),
    {
        assert forall|n: RenderNodeId| #[trigger] c.node_live(n) == a.node_live(n) by {
            assert(b.node_live(n) == a.node_live(n));
        }
        assert forall|n: RenderNodeId|
            #![trigger c.node_data(n)]
            a.node_live(n) implies c.node_data(n).params == a.node_data(n).params && c.node_data(n).metadata
                == a.node_data(n).metadata by {
            assert(b.node_live(n));
            assert(b.node_data(n).params == a.node_data(n).params);
        }
    }

    /// Chains every further begin/end pair of a subtype after the first pair,
    /// in usage order.
    fn merge_sequence_nodes(&mut self) -> (r: RenderGraphResult<()>)
        requires
            old(self).wf(),
            !old(self).frozen(),
            old(self).sequences_paired(),
        ensures
            final(self).wf(),
            !final(self).frozen(),
            final(self).built() == old(self).built(),
            final(self).nodes_kept(*old(self)),
            r is Err ==> final(self).dep_slot_count() >= 4294967295,
            !old(self).has_helper_node() ==> r is Ok && *final(self) == *old(self),
    {
        let groups = self.sequence_pair_groups();
        let ghost start = *self;
        let mut gi: usize = 0;
        while gi < groups.len()
            invariant
                self.wf(),
                start.wf(),
                start == *old(self),
                !start.has_helper_node() ==> *self == start,
                start.sequences_paired(),
                !self.frozen(),
                self.built() == start.built(),
                self.nodes_kept(start),
                forall|x: int|
                    0 <= x < groups@.len() ==> (#[trigger] groups@[x]).begins@ == start.live_nodes_with(
                        RenderNodeKind::SequenceBegin,
                        groups@[x].subtype,
                    ) && groups@[x].ends@ == start.live_nodes_with(RenderNodeKind::SequenceEnd, groups@[x].subtype),
                gi <= groups@.len(),
            decreases groups@.len() - gi,
        {
            let ghost st = groups@[gi as int].subtype;
            proof {
                start.lemma_live_nodes_with(RenderNodeKind::SequenceBegin, st);
                start.lemma_live_nodes_with(RenderNodeKind::SequenceEnd, st);
                assert(groups@[gi as int].begins@.len() == groups@[gi as int].ends@.len());
            }
            proof {
                if !start.has_helper_node() && groups@[gi as int].begins@.len() > 0 {
                    let b = groups@[gi as int].begins@[0];
                    assert(start.live_nodes_with(RenderNodeKind::SequenceBegin, st).contains(b));
                    assert(start.is_live_with(b, RenderNodeKind::SequenceBegin, st));
                    start.lemma_orders_list_live();
                    assert(start.node_order().contains(b.0));
                    let i = choose|i: int| 0 <= i < start.node_order().len() && start.node_order()[i] == b.0;
                    assert(RenderNodeId(start.node_order()[i]) == b);
                    assert(spec_is_helper_kind(start.node_data(RenderNodeId(start.node_order()[i])).params.kind));
                }
            }
            if groups[gi].begins.len() > 1 {
                let survivor_begin = groups[gi].begins[0];
                let mut current_end = groups[gi].ends[0];
                proof {
                    assert(start.live_nodes_with(RenderNodeKind::SequenceBegin, st).contains(survivor_begin));
                    assert(start.live_nodes_with(RenderNodeKind::SequenceEnd, st).contains(current_end));
                }
                let mut index: usize = 1;
                while index < groups[gi].begins.len()
                    invariant
                        start.has_helper_node(),
                        self.wf(),
                        start.wf(),
                        start == *old(self),
                        !self.frozen(),
                        self.built() == start.built(),
                        self.nodes_kept(start),
                        gi < groups@.len(),
                        st == groups@[gi as int].subtype,
                        groups@[gi as int].begins@ == start.live_nodes_with(RenderNodeKind::SequenceBegin, st),
                        groups@[gi as int].ends@ == start.live_nodes_with(RenderNodeKind::SequenceEnd, st),
                        groups@[gi as int].begins@.len() == groups@[gi as int].ends@.len(),
                        forall|n: RenderNodeId|
                            #[trigger] start.live_nodes_with(RenderNodeKind::SequenceBegin, st).contains(n) <==> start.is_live_with(
                                n,
                                RenderNodeKind::SequenceBegin,
                                st,
                            ),
                        forall|n: RenderNodeId|
                            #[trigger] start.live_nodes_with(RenderNodeKind::SequenceEnd, st).contains(n) <==> start.is_live_with(
                                n,
                                RenderNodeKind::SequenceEnd,
                                st,
                            ),
                        start.is_live_with(survivor_begin, RenderNodeKind::SequenceBegin, st),
                        start.is_live_with(current_end, RenderNodeKind::SequenceEnd, st),
                        1 <= index <= groups@[gi as int].begins@.len(),
                    decreases groups@[gi as int].begins@.len() - index,
                {
                    let duplicate_begin = groups[gi].begins[index];
                    let duplicate_end = groups[gi].ends[index];
                    proof {
                        assert(start.live_nodes_with(RenderNodeKind::SequenceBegin, st).contains(duplicate_begin));
                        assert(start.live_nodes_with(RenderNodeKind::SequenceEnd, st).contains(duplicate_end));
                        assert(start.is_live_with(duplicate_begin, RenderNodeKind::SequenceBegin, st));
                        assert(start.is_live_with(duplicate_end, RenderNodeKind::SequenceEnd, st));
                        assert(self.node_live(survivor_begin) && self.node_live(current_end));
                        assert(self.node_live(duplicate_begin) && self.node_live(duplicate_end));
                        assert(current_end != duplicate_begin);
                    }
                    let ghost before = *self;
                    match self.stitch_sequence_pair(
                        SequenceMerge { survivor_begin, survivor_end: current_end, duplicate_begin, duplicate_end },
                    ) {
                        Ok(()) => {},
                        Err(e) => return Err(e),
                    }
                    proof {
                        Self::lemma_nodes_kept_trans(start, before, *self);
                    }
                    current_end = duplicate_end;
                    index = index + 1;
                }
            }
            gi = gi + 1;
        }
        Ok(())
    }

    /// The first helper node in usage order, if any.
    fn find_next_helper_node(&self) -> (r: Option<RenderNodeId>)
        requires
            self.wf(),
        ensures
            r is None <==> !self.has_helper_node(),
            r is Some ==> self.node_live(r->0) && spec_is_helper_kind(self.node_data(r->0).params.kind),
    {
        let ids = self.node_ids();
        let ghost order = self.node_order();
        let mut i: usize = 0;
        while i < ids.len()
            invariant
                self.wf(),
                order == self.node_order(),
                ids@.len() == order.len(),
                forall|j: int| 0 <= j < ids@.len() ==> #[trigger] ids@[j] == RenderNodeId(order[j]),
                i <= ids@.len(),
                forall|j: int|
                    #![trigger self.node_order()[j]]
                    0 <= j < i ==> !spec_is_helper_kind(self.node_data(RenderNodeId(self.node_order()[j])).params.kind),
            decreases ids@.len() - i,
        {
            let node = ids[i];
            proof {
                self.lemma_node_order_distinct();
                assert(self.node_live(RenderNodeId(order[i as int])));
            }
            let params = self.params_of(node);
            if is_helper_kind(params.kind) {
                proof {
                    assert(spec_is_helper_kind(self.node_data(RenderNodeId(self.node_order()[i as int])).params.kind));
                }
                return Some(node);
            }
            i = i + 1;
        }
        None
    }

    /// Removing one live node shortens the usage order.
    proof fn lemma_removal_shrinks_order(&self, prev: RenderNodeGraph, node: RenderNodeId)
        requires
            self.wf(),
            prev.wf(),
            prev.node_live(node),
            forall|n: RenderNodeId| #[trigger] self.node_live(n) == (prev.node_live(n) && n != node),
        ensures
            self.node_order().len() < prev.node_order().len(),
    {
        self.lemma_node_order_distinct();
        prev.lemma_node_order_distinct();
        prev.lemma_live_in_order();
        let a = self.node_order();
        let b = prev.node_order();
        let smaller = b.to_set().remove(node.0);
        assert forall|x: u32| a.to_set().contains(x) implies smaller.contains(x) by {
            let i = choose|i: int| 0 <= i < a.len() && a[i] == x;
            assert(self.node_live(RenderNodeId(a[i])));
            assert(prev.node_live(RenderNodeId(x)));
            let j = choose|j: int| 0 <= j < b.len() && b[j] == RenderNodeId(x).0;
            assert(b.contains(x));
        }
        let j = choose|j: int| 0 <= j < b.len() && b[j] == node.0;
        assert(b.to_set().contains(node.0));
        a.unique_seq_to_set();
        b.unique_seq_to_set();
        vstd::set_lib::lemma_len_subset(a.to_set(), smaller);
    }

    /// Removes every helper node, first in usage order first, bridging its
    /// dependencies.
    fn remove_helper_nodes(&mut self) -> (r: RenderGraphResult<()>)
        requires
            old(self).wf(),
            !old(self).frozen(),
        ensures
            final(self).wf(),
            !final(self).frozen(),
            final(self).built() == old(self).built(),
            final(self).nodes_subset_of(*old(self)),
            forall|n: RenderNodeId|
                #[trigger] old(self).node_live(n) && !spec_is_helper_kind(old(self).node_data(n).params.kind)
                    ==> final(self).node_live(n),
            r is Ok ==> !final(self).has_helper_node(),
            r is Err ==> final(self).dep_slot_count() >= 4294967295,
            !old(self).has_helper_node() ==> r is Ok && *final(self) == *old(self),
    {
        let ghost start = *self;
        loop
            invariant
                self.wf(),
                start.wf(),
                start == *old(self),
                !start.has_helper_node() ==> *self == start,
                !self.frozen(),
                self.built() == start.built(),
                self.nodes_subset_of(start),
                forall|n: RenderNodeId|
                    #[trigger] start.node_live(n) && !spec_is_helper_kind(start.node_data(n).params.kind) ==> self.node_live(n),
            ensures
                self.wf(),
                !self.frozen(),
                self.built() == start.built(),
                self.nodes_subset_of(start),
                forall|n: RenderNodeId|
                    #[trigger] start.node_live(n) && !spec_is_helper_kind(start.node_data(n).params.kind) ==> self.node_live(n),
                !self.has_helper_node(),
                !start.has_helper_node() ==> *self == start,
            decreases self.node_order().len(),
        {
            let helper = match self.find_next_helper_node() {
                Some(n) => n,
                None => break,
            };
            let ghost before = *self;
            let result = self.remove_node_and_bridge_dependencies(helper);
            proof {
                self.lemma_removal_shrinks_order(before, helper);
                assert forall|n: RenderNodeId| #[trigger] self.node_live(n) implies start.node_live(n)
                    && self.node_data(n).params == start.node_data(n).params && self.node_data(n).metadata
                    == start.node_data(n).metadata by {
                    assert(before.node_live(n));
                }
                assert forall|n: RenderNodeId|
                    #[trigger] start.node_live(n) && !spec_is_helper_kind(start.node_data(n).params.kind) implies self.node_live(
                        n,
                    ) by {
                    assert(before.node_live(n));
                    if n == helper {
                        assert(before.node_data(n).params == start.node_data(n).params);
                    }
                }
            }
            match result {
                Ok(_) => {},
                Err(e) => return Err(e),
            }
        }
        Ok(())
    }

    /// Finalizes a combined graph: checks that sequence begin and end nodes pair
    /// up per subtype, folds duplicate unique nodes into the first of their
    /// subtype, chains duplicate sequence pairs, and removes every helper node
    /// while bridging its dependencies.
    pub fn merge_special_nodes(&mut self) -> (r: RenderGraphResult<()>)
        requires
            old(self).wf(),
        ensures
            final(self).wf(),
            final(self).frozen() == old(self).frozen(),
            final(self).built() == old(self).built(),
            old(self).frozen() ==> r == Err::<(), RenderGraphError>(
                RenderGraphError::GraphAlreadyBuilt { operation: "merge_special_nodes" },
            ) && *final(self) == *old(self),
            !old(self).frozen() && !old(self).sequences_paired() ==> r == Err::<(), RenderGraphError>(
                RenderGraphError::InvalidMerge { reason: "sequence begin/end helper nodes are not paired" },
            ) && *final(self) == *old(self),
            final(self).nodes_subset_of(*old(self)),
            forall|n: RenderNodeId|
                #[trigger] old(self).node_live(n) && !spec_is_helper_kind(old(self).node_data(n).params.kind)
                    && !old(self).is_unique_duplicate(n) ==> final(self).node_live(n),
            r is Ok ==> !final(self).has_helper_node(),
            r is Ok ==> forall|n: RenderNodeId| #[trigger] final(self).node_live(n) ==> !old(self).is_unique_duplicate(n),
            r is Ok ==> forall|a: RenderNodeId, b: RenderNodeId|
                #![trigger final(self).node_data(a), final(self).node_data(b)]
                final(self).node_live(a) && final(self).node_live(b) && final(self).node_data(a).params.kind
                    == RenderNodeKind::Unique && final(self).node_data(b).params.kind == RenderNodeKind::Unique
                    && final(self).node_data(a).params.subtype == final(self).node_data(b).params.subtype ==> a == b,
            r is Err && !old(self).frozen() && old(self).sequences_paired() ==> final(self).dep_slot_count()
                >= 4294967295,
            r is Ok && !old(self).has_helper_node() ==> forall|k: RenderNodeDependencyKind, p: RenderNodeId, c: RenderNodeId|
                #[trigger] final(self).has_edge(k, p, c) == merges_to_edge(*old(self), k, p, c),
            !old(self).frozen() && !old(self).has_helper_node() && !old(self).has_unique_duplicate() ==> r is Ok
                && *final(self) == *old(self),
    {
        match self.ensure_mutable("merge_special_nodes") {
            Ok(()) => {},
            Err(e) => return Err(e),
        }
        proof {
            if !self.has_helper_node() {
                self.lemma_no_helper_paired();
            }
        }
        match self.validate_sequence_pairs() {
            Ok(()) => {},
            Err(e) => return Err(e),
        }
        let ghost start = *self;
        match self.merge_unique_nodes() {
            Ok(()) => {},
            Err(e) => return Err(e),
        }
        let ghost merged = *self;
        proof {
            assert forall|st: RenderNodeSubtype|
                #[trigger] merged.live_nodes_with(RenderNodeKind::SequenceBegin, st).len() == merged.live_nodes_with(
                    RenderNodeKind::SequenceEnd,
                    st,
                ).len() by {
                self.lemma_helpers_kept_count(start, RenderNodeKind::SequenceBegin, st);
                self.lemma_helpers_kept_count(start, RenderNodeKind::SequenceEnd, st);
                assert(start.live_nodes_with(RenderNodeKind::SequenceBegin, st).len() == start.live_nodes_with(
                    RenderNodeKind::SequenceEnd,
                    st,
                ).len());
            }
        }
        proof {
            if !start.has_helper_node() {
                assert(!merged.has_helper_node()) by {
                    if merged.has_helper_node() {
                        let i = choose|i: int|
                            #![trigger merged.node_order()[i]]
                            0 <= i < merged.node_order().len() && spec_is_helper_kind(
                                merged.node_data(RenderNodeId(merged.node_order()[i])).params.kind,
                            );
                        merged.lemma_orders_list_live();
                        start.lemma_orders_list_live();
                        let x = RenderNodeId(merged.node_order()[i]);
                        assert(merged.node_live(x));
                        assert(start.node_live(x));
                        assert(start.node_order().contains(x.0));
                        let j = choose|j: int| 0 <= j < start.node_order().len() && start.node_order()[j] == x.0;
                        assert(spec_is_helper_kind(start.node_data(RenderNodeId(start.node_order()[j])).params.kind));
                    }
                }
            }
        }
        let sequence_result = self.merge_sequence_nodes();
        let ghost stitched = *self;
        proof {
            assert forall|n: RenderNodeId| #[trigger] stitched.node_live(n) implies start.node_live(n)
                && stitched.node_data(n).params == start.node_data(n).params && stitched.node_data(n).metadata
                == start.node_data(n).metadata by {
                assert(merged.node_live(n));
            }
            assert forall|n: RenderNodeId|
                #[trigger] start.node_live(n) && !spec_is_helper_kind(start.node_data(n).params.kind)
                    && !start.is_unique_duplicate(n) implies stitched.node_live(n) by {
                assert(merged.node_live(n));
            }
        }
        match sequence_result {
            Ok(()) => {},
            Err(e) => return Err(e),
        }
        let helper_result = self.remove_helper_nodes();
        proof {
            assert forall|n: RenderNodeId| #[trigger] self.node_live(n) implies start.node_live(n)
                && self.node_data(n).params == start.node_data(n).params && self.node_data(n).metadata
                == start.node_data(n).metadata by {
                assert(stitched.node_live(n));
            }
            assert forall|n: RenderNodeId|
                #[trigger] start.node_live(n) && !spec_is_helper_kind(start.node_data(n).params.kind)
                    && !start.is_unique_duplicate(n) implies self.node_live(n) by {
                assert(merged.node_live(n));
                assert(stitched.node_live(n));
            }
        }
        match helper_result {
            Ok(()) => {},
            Err(e) => return Err(e),
        }
        match self.validate_no_helper_nodes() {
            Ok(()) => {},
            Err(e) => return Err(e),
        }
        proof {
            assert forall|n: RenderNodeId| #[trigger] self.node_live(n) implies !start.is_unique_duplicate(n) by {
                assert(stitched.node_live(n));
                assert(merged.node_live(n));
            }
            assert forall|a: RenderNodeId, b: RenderNodeId|
                #![trigger self.node_data(a), self.node_data(b)]
                self.node_live(a) && self.node_live(b) && self.node_data(a).params.kind == RenderNodeKind::Unique
                    && self.node_data(b).params.kind == RenderNodeKind::Unique && self.node_data(a).params.subtype
                    == self.node_data(b).params.subtype implies a == b by {
                assert(!start.is_unique_duplicate(a));
                assert(!start.is_unique_duplicate(b));
                assert(self.node_data(a).params == start.node_data(a).params);
                assert(self.node_data(b).params == start.node_data(b).params);
            }
        }
        Ok(())
    }

    /// Merging unique nodes keeps every sequence helper node, so the count of
    /// live nodes of a helper kind and subtype is unchanged.
    proof fn lemma_helpers_kept_count(&self, prev: RenderNodeGraph, k: RenderNodeKind, st: RenderNodeSubtype)
        requires
            self.wf(),
            prev.wf(),
            k != RenderNodeKind::Unique,
            self.nodes_subset_of(prev),
            forall|n: RenderNodeId| #[trigger] prev.node_live(n) && !prev.is_unique_duplicate(n) ==> self.node_live(n),
        ensures
            self.live_nodes_with(k, st).len() == prev.live_nodes_with(k, st).len(),
    {
        assert forall|n: RenderNodeId| #[trigger] self.is_live_with(n, k, st) <==> prev.is_live_with(n, k, st) by {
            if prev.is_live_with(n, k, st) {
                assert(!prev.is_unique_duplicate(n));
            }
        }
        self.lemma_same_live_nodes_with_len(prev, k, st);
    }

    /// The parameters of a live node.
    fn params_of(&self, node: RenderNodeId) -> (r: &RenderNodeParameters)
        requires
            self.wf(),
            self.node_live(node),
        ensures
            *r == self.node_data(node).params,
    {
        proof {
            self.lemma_wf_storage();
        }
        &self.nodes.get(node).unwrap().params
    }
}

} // verus!
