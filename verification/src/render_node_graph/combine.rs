//! Importing one graph into another with remapped node and dependency ids.
use vstd::prelude::*;

use crate::error::{RenderGraphError, RenderGraphResult};
use crate::ids::{RenderDependencyId, RenderNodeId};
use crate::metadata::{RenderNodeDependencyKind, RenderNodeDebugName, RenderNodeKind, RenderNodeSubtype};
use crate::node_topology::{RenderDependencyData, RenderNodeData, RenderNodeExecutionMetadata, RenderNodeParameters};
use crate::render_node_graph::import::{lookup_last, AddGraphGroupImport, AddGraphOptions, GraphImportMap};
use crate::render_node_graph::{list_head, list_next, RenderNodeGraph};
use crate::render_node_graph::merge::merges_to_edge;
use crate::metadata::spec_is_helper_kind;

verus! {

/// The execution metadata a node receives when imported under `options`:
/// the camera index may be forced, group membership may be cleared, and flow
/// groups are always cleared.
pub open spec fn imported_metadata(m: RenderNodeExecutionMetadata, options: AddGraphOptions) -> RenderNodeExecutionMetadata {
    RenderNodeExecutionMetadata {
        camera_index: match options.force_camera_index {
            Some(c) => Some(c),
            None => m.camera_index,
        },
        group_id: match options.group_import {
            AddGraphGroupImport::ClearMetadata => None,
            AddGraphGroupImport::Preserve => m.group_id,
        },
        cpu_flow_group: None,
        gpu_flow_group: None,
    }
}

/// Looking up a key of a pair sequence whose keys are distinct gives the value
/// paired with it.
pub proof fn lemma_lookup_distinct<K, V>(pairs: Seq<(K, V)>, i: int)
    requires
        0 <= i < pairs.len(),
        forall|a: int, b: int| 0 <= a < b < pairs.len() ==> (#[trigger] pairs[a]).0 != (#[trigger] pairs[b]).0,
    ensures
        lookup_last(pairs, pairs[i].0) == Some(pairs[i].1),
    decreases pairs.len(),
{
    if i < pairs.len() - 1 {
        let shorter = pairs.drop_last();
        assert(pairs.last().0 != pairs[i].0);
        assert forall|a: int, b: int| 0 <= a < b < shorter.len() implies (#[trigger] shorter[a]).0 != (
        #[trigger] shorter[b]).0 by {
            assert(pairs[a] == shorter[a] && pairs[b] == shorter[b]);
        }
        assert(shorter[i] == pairs[i]);
        lemma_lookup_distinct(shorter, i);
    }
}

/// Looking up a key absent from a pair sequence gives nothing.
pub proof fn lemma_lookup_absent<K, V>(pairs: Seq<(K, V)>, key: K)
    requires
        forall|a: int| 0 <= a < pairs.len() ==> (#[trigger] pairs[a]).0 != key,
    ensures
        lookup_last(pairs, key) is None,
    decreases pairs.len(),
{
    if pairs.len() > 0 {
        let shorter = pairs.drop_last();
        assert(pairs[pairs.len() - 1].0 != key);
        assert forall|a: int| 0 <= a < shorter.len() implies (#[trigger] shorter[a]).0 != key by {
            assert(pairs[a] == shorter[a]);
        }
        lemma_lookup_absent(shorter, key);
    }
}

impl RenderNodeGraph {
    /// Usage index of a live node.
    pub closed spec fn node_position(&self, n: RenderNodeId) -> int {
        self.nodes.position(n.0 as int)
    }

    /// Usage index of a live dependency.
    pub closed spec fn dep_position(&self, d: RenderDependencyId) -> int {
        self.dependencies.position(d.0 as int)
    }

    /// The id that node `n` of `source` receives when imported into a graph
    /// whose node slots start at `base`.
    pub open spec fn imported_node(source: RenderNodeGraph, base: nat, n: RenderNodeId) -> RenderNodeId {
        RenderNodeId((base + source.node_position(n)) as u32)
    }

    /// The id that dependency `d` of `source` receives when imported into a
    /// graph whose dependency slots start at `base`.
    pub open spec fn imported_dep(source: RenderNodeGraph, base: nat, d: RenderDependencyId) -> RenderDependencyId {
        RenderDependencyId((base + source.dep_position(d)) as u32)
    }
}

/// A copy of node parameters.
fn copy_params(p: &RenderNodeParameters) -> (r: RenderNodeParameters)
    ensures
        r == *p,
{
    RenderNodeParameters {
        kind: p.kind,
        role: p.role,
        subtype: p.subtype,
        impl_id: p.impl_id,
        debug_name: RenderNodeDebugName(p.debug_name.0.clone()),
    }
}

/// The destination of an imported node.
fn map_imported_node(import_map: &GraphImportMap, source: RenderNodeId) -> (r: RenderGraphResult<RenderNodeId>)
    ensures
        r == (match lookup_last(import_map.nodes@, source) {
            Some(n) => Ok(n),
            None => Err(RenderGraphError::InvalidMerge {
                reason: "imported dependency referenced a node outside the imported graph",
            }),
        }),
{
    match import_map.node(source) {
        Some(n) => Ok(n),
        None => Err(RenderGraphError::InvalidMerge {
            reason: "imported dependency referenced a node outside the imported graph",
        }),
    }
}

/// The destination of an optional imported dependency link.
fn map_optional_imported_dependency(import_map: &GraphImportMap, source: Option<RenderDependencyId>) -> (r:
    RenderGraphResult<Option<RenderDependencyId>>)
    ensures
        r == (match source {
            None => Ok(None),
            Some(d) => match lookup_last(import_map.dependencies@, d) {
                Some(e) => Ok(Some(e)),
                None => Err(RenderGraphError::InvalidMerge {
                    reason: "imported dependency link referenced an edge outside the imported graph",
                }),
            },
        }),
{
    match source {
        None => Ok(None),
        Some(d) => match import_map.dependency(d) {
            Some(e) => Ok(Some(e)),
            None => Err(RenderGraphError::InvalidMerge {
                reason: "imported dependency link referenced an edge outside the imported graph",
            }),
        },
    }
}

impl RenderNodeGraph {
    /// Node `x` of the usage order of `source` sits, imported under `options`,
    /// at slot `node_base + x`.
    pub open spec fn node_imported(&self, source: RenderNodeGraph, node_base: nat, x: int, options: AddGraphOptions) -> bool {
        let n = RenderNodeId((node_base + x) as u32);
        let s = RenderNodeId(source.node_order()[x]);
        &&& self.node_live(n)
        &&& self.node_data(n).params == source.node_data(s).params
        &&& self.node_data(n).metadata == imported_metadata(source.node_data(s).metadata, options)
    }

    /// A node with no dependency heads and empty dependency lists.
    pub open spec fn node_unlinked(&self, n: RenderNodeId) -> bool {
        &&& self.node_data(n).spec_heads_empty()
        &&& forall|k: RenderNodeDependencyKind|
            #![trigger self.child_deps(n, k)]
            #![trigger self.parent_deps(n, k)]
            self.child_deps(n, k) == Seq::<u32>::empty() && self.parent_deps(n, k) == Seq::<u32>::empty()
    }

    /// Whether the node and dependency slots of `dest` leave room for every live
    /// node and dependency of `source`.
    pub open spec fn import_fits(dest: RenderNodeGraph, source: RenderNodeGraph) -> bool {
        &&& (source.node_order().len() == 0 || dest.node_slot_count() + source.node_order().len() <= 4294967295)
        &&& (source.dep_order().len() == 0 || dest.dep_slot_count() + source.dep_order().len() <= 4294967295)
    }

    /// Whether `source` has a track-`k` dependency whose endpoints are imported
    /// (with node slots starting at `node_base`) as `p` and `c`.
    pub open spec fn imported_edge(source: RenderNodeGraph, node_base: nat, k: RenderNodeDependencyKind, p: RenderNodeId, c: RenderNodeId) -> bool {
        exists|sp: RenderNodeId, sc: RenderNodeId|
            #![trigger source.has_edge(k, sp, sc), Self::imported_node(source, node_base, sp), Self::imported_node(source, node_base, sc)]
            source.has_edge(k, sp, sc) && p == Self::imported_node(source, node_base, sp) && c == Self::imported_node(source, node_base, sc)
    }

    /// This graph is `prev` with `source` imported under `options`: the nodes
    /// and dependencies of `prev` are kept as they were, and every live node and
    /// dependency of `source` follows under the next free ids, in the source's
    /// usage order, with remapped endpoints and dependency lists.
    pub open spec fn imported_into(&self, prev: RenderNodeGraph, source: RenderNodeGraph, options: AddGraphOptions) -> bool {
        let nb = prev.node_slot_count();
        let db = prev.dep_slot_count();
        let so = source.node_order();
        let sd = source.dep_order();
        &&& self.node_order() == prev.node_order() + Seq::new(so.len(), |x: int| (nb + x) as u32)
        &&& self.dep_order() == prev.dep_order() + Seq::new(sd.len(), |y: int| (db + y) as u32)
        &&& self.node_slot_count() == nb + so.len()
        &&& self.dep_slot_count() == db + sd.len()
        &&& self.frame_nodes(prev)
        &&& forall|n: RenderNodeId| #[trigger] self.node_live(n) == (prev.node_live(n) || (nb <= n.0 < nb + so.len()))
        &&& forall|x: int| 0 <= x < so.len() ==> #[trigger] self.node_imported(source, nb, x, options)
        &&& forall|x: int, k: RenderNodeDependencyKind|
            #![trigger self.child_deps(RenderNodeId((nb + x) as u32), k)]
            #![trigger self.parent_deps(RenderNodeId((nb + x) as u32), k)]
            0 <= x < so.len() ==> self.child_deps(RenderNodeId((nb + x) as u32), k) == Self::imported_list(
                source,
                db,
                source.child_deps(RenderNodeId(so[x]), k),
            ) && self.parent_deps(RenderNodeId((nb + x) as u32), k) == Self::imported_list(
                source,
                db,
                source.parent_deps(RenderNodeId(so[x]), k),
            )
        &&& forall|d: RenderDependencyId| #[trigger] self.dep_live(d) == (prev.dep_live(d) || (db <= d.0 < db + sd.len()))
        &&& forall|d: RenderDependencyId| prev.dep_live(d) ==> #[trigger] self.dep_data(d) == prev.dep_data(d)
        &&& forall|y: int|
            0 <= y < sd.len() ==> #[trigger] self.dep_data(RenderDependencyId((db + y) as u32)) == Self::imported_dep_data(
                source,
                nb,
                db,
                source.dep_data(RenderDependencyId(sd[y])),
            )
        &&& forall|k: RenderNodeDependencyKind, p: RenderNodeId, c: RenderNodeId|
            #[trigger] self.has_edge(k, p, c) == (prev.has_edge(k, p, c) || Self::imported_edge(source, nb, k, p, c))
    }

    /// The imported copy of an optional dependency link.
    pub open spec fn imported_link(source: RenderNodeGraph, dep_base: nat, o: Option<RenderDependencyId>) -> Option<
        RenderDependencyId,
    > {
        match o {
            Some(d) => Some(Self::imported_dep(source, dep_base, d)),
            None => None,
        }
    }

    /// The imported copy of a source dependency record.
    pub open spec fn imported_dep_data(
        source: RenderNodeGraph,
        node_base: nat,
        dep_base: nat,
        d: RenderDependencyData,
    ) -> RenderDependencyData {
        RenderDependencyData {
            kind: d.kind,
            parent: Self::imported_node(source, node_base, d.parent),
            child: Self::imported_node(source, node_base, d.child),
            next_from_parent: Self::imported_link(source, dep_base, d.next_from_parent),
            next_from_child: Self::imported_link(source, dep_base, d.next_from_child),
        }
    }

    /// The imported copy of a source dependency list.
    pub open spec fn imported_list(source: RenderNodeGraph, dep_base: nat, l: Seq<u32>) -> Seq<u32> {
        l.map_values(|v: u32| Self::imported_dep(source, dep_base, RenderDependencyId(v)).0)
    }

    /// Imports `source` into this graph: every live node and dependency of
    /// `source` is copied under a fresh id, in the source's usage order, with
    /// its links remapped; imported nodes get their metadata adjusted by
    /// `options`. When `options` asks for it, special nodes are merged
    /// afterwards. Node implementation ids are copied as they are.
    pub fn add_graph(&mut self, source: &RenderNodeGraph, options: AddGraphOptions) -> (r: RenderGraphResult<
        GraphImportMap,
    >)
        requires
            old(self).wf(),
            source.wf(),
        ensures
            final(self).wf(),
            final(self).frozen() == old(self).frozen(),
            final(self).built() == old(self).built(),
            old(self).frozen() ==> r == Err::<GraphImportMap, RenderGraphError>(
                RenderGraphError::GraphAlreadyBuilt { operation: "add_graph" },
            ) && *final(self) == *old(self),
            !old(self).frozen() && options.merge_special_nodes && !(old(self).sequences_paired()
                && old(self).sequence_begins_unique()) ==> r is Err && *final(self) == *old(self) && (
            r->Err_0 == RenderGraphError::InvalidMerge { reason: "sequence begin/end helper nodes are not paired" }
                || r->Err_0 == RenderGraphError::InvalidMerge {
                reason: "sequence helper nodes must be unique begin/end pairs per graph side",
            }),
            !old(self).frozen() && options.merge_special_nodes && old(self).sequences_paired()
                && old(self).sequence_begins_unique() && !(source.sequences_paired() && source.sequence_begins_unique())
                ==> r is Err && *final(self) == *old(self) && (r->Err_0 == RenderGraphError::InvalidMerge {
                reason: "sequence begin/end helper nodes are not paired",
            } || r->Err_0 == RenderGraphError::InvalidMerge {
                reason: "sequence helper nodes must be unique begin/end pairs per graph side",
            }),
            !old(self).frozen() && (options.merge_special_nodes ==> old(self).sequences_paired()
                && old(self).sequence_begins_unique() && source.sequences_paired() && source.sequence_begins_unique())
                && !Self::import_fits(*old(self), *source) ==> r == Err::<GraphImportMap, RenderGraphError>(
                RenderGraphError::InvalidState { reason: "render graph storage exceeded u32 slot id range" },
            ) && *final(self) == *old(self),
            !old(self).frozen() && !options.merge_special_nodes && Self::import_fits(*old(self), *source) ==> r is Ok,
            !old(self).frozen() && options.merge_special_nodes && old(self).sequences_paired()
                && old(self).sequence_begins_unique() && source.sequences_paired() && source.sequence_begins_unique()
                && Self::import_fits(*old(self), *source) ==> r is Ok || final(self).dep_slot_count() >= 4294967295,
            r is Ok ==> Self::import_fits(*old(self), *source) && r->Ok_0.nodes@ == Seq::new(
                source.node_order().len(),
                |x: int| (RenderNodeId(source.node_order()[x]), RenderNodeId((old(self).node_slot_count() + x) as u32)),
            ) && r->Ok_0.dependencies@ == Seq::new(
                source.dep_order().len(),
                |y: int| (RenderDependencyId(source.dep_order()[y]), RenderDependencyId((old(self).dep_slot_count() + y) as u32)),
            ),
            r is Ok && !options.merge_special_nodes ==> final(self).imported_into(*old(self), *source, options),
            r is Ok && options.merge_special_nodes ==> !final(self).has_helper_node(),
            r is Ok && options.merge_special_nodes ==> forall|a: RenderNodeId, b: RenderNodeId|
                #![trigger final(self).node_data(a), final(self).node_data(b)]
                final(self).node_live(a) && final(self).node_live(b) && final(self).node_data(a).params.kind
                    == RenderNodeKind::Unique && final(self).node_data(b).params.kind == RenderNodeKind::Unique
                    && final(self).node_data(a).params.subtype == final(self).node_data(b).params.subtype ==> a == b,
            r is Ok && options.merge_special_nodes ==> forall|n: RenderNodeId|
                #[trigger] final(self).node_live(n) ==> (old(self).node_live(n) && final(self).node_data(n).params
                    == old(self).node_data(n).params && final(self).node_data(n).metadata == old(self).node_data(
                    n,
                ).metadata) || (old(self).node_slot_count() <= n.0 < old(self).node_slot_count()
                    + source.node_order().len() && final(self).node_imported(
                    *source,
                    old(self).node_slot_count(),
                    n.0 - old(self).node_slot_count(),
                    options,
                )),
            r is Ok && options.merge_special_nodes ==> exists|mid: RenderNodeGraph|
                {
                    &&& #[trigger] mid.imported_into(*old(self), *source, options)
                    &&& mid.wf()
                    &&& final(self).nodes_subset_of(mid)
                    &&& forall|n: RenderNodeId|
                        #[trigger] mid.node_live(n) && !spec_is_helper_kind(mid.node_data(n).params.kind)
                            && !mid.is_unique_duplicate(n) ==> final(self).node_live(n)
                    &&& !mid.has_helper_node() ==> forall|k: RenderNodeDependencyKind, p: RenderNodeId, c: RenderNodeId|
                        #[trigger] final(self).has_edge(k, p, c) == merges_to_edge(mid, k, p, c)
                    &&& !mid.has_helper_node() && !mid.has_unique_duplicate() ==> *final(self) == mid
                },
    {
        match self.ensure_mutable("add_graph") {
            Ok(()) => {},
            Err(e) => return Err(e),
        }
        match self.validate_dependency_links() {
            Ok(()) => {},
            Err(e) => return Err(e),
        }
        match source.validate_dependency_links() {
            Ok(()) => {},
            Err(e) => return Err(e),
        }
        if options.merge_special_nodes {
            match self.validate_importable_sequence_pairs() {
                Ok(()) => {},
                Err(e) => return Err(e),
            }
            match source.validate_importable_sequence_pairs() {
                Ok(()) => {},
                Err(e) => return Err(e),
            }
        }
        proof {
            self.lemma_wf_storage();
            source.lemma_wf_storage();
            self.nodes.lemma_wf_facts();
            self.dependencies.lemma_wf_facts();
            source.nodes.lemma_wf_facts();
            source.dependencies.lemma_wf_facts();
        }
        let source_nodes = source.node_ids();
        let source_deps = source.dependency_ids();
        let node_base = self.nodes.slot_count_exec();
        let dep_base = self.dependencies.slot_count_exec();
        if source_nodes.len() > 0 && source_nodes.len() > 4294967295 - node_base {
            return Err(RenderGraphError::InvalidState { reason: "render graph storage exceeded u32 slot id range" });
        }
        if source_deps.len() > 0 && source_deps.len() > 4294967295 - dep_base {
            return Err(RenderGraphError::InvalidState { reason: "render graph storage exceeded u32 slot id range" });
        }
        let ghost start = *self;
        let ghost so = source.node_order();
        let ghost sd = source.dep_order();
        let mut import_map = GraphImportMap::new();
        // Nodes, in source usage order, with empty dependency lists for now.
        let mut i: usize = 0;
        while i < source_nodes.len()
            invariant
                self.wf(),
                start.wf(),
                source.wf(),
                !self.frozen(),
                self.built() == start.built(),
                self.same_dependencies(start),
                self.frame_nodes(start),
                so == source.node_order(),
                source_nodes@.len() == so.len(),
                forall|x: int| 0 <= x < source_nodes@.len() ==> #[trigger] source_nodes@[x] == RenderNodeId(so[x]),
                node_base == start.node_slot_count(),
                source_nodes@.len() == 0 || node_base + source_nodes@.len() <= 4294967295,
                i <= source_nodes@.len(),
                self.node_slot_count() == node_base + i,
                self.node_order() == start.node_order() + Seq::new(i as nat, |x: int| (node_base + x) as u32),
                forall|x: int| 0 <= x < i ==> #[trigger] self.node_imported(*source, node_base as nat, x, options),
                forall|x: int| 0 <= x < i ==> #[trigger] self.node_unlinked(RenderNodeId((node_base + x) as u32)),
                import_map.nodes@ == Seq::new(i as nat, |x: int| (RenderNodeId(so[x]), RenderNodeId((node_base + x) as u32))),
                import_map.dependencies@.len() == 0,
            decreases source_nodes@.len() - i,
        {
            let source_node = source_nodes[i];
            proof {
                source.lemma_node_order_distinct();
                assert(source.node_live(RenderNodeId(so[i as int])));
                source.lemma_wf_storage();
            }
            let data = source.nodes.get(source_node).unwrap();
            let mut metadata = data.metadata;
            match options.force_camera_index {
                Some(camera_index) => {
                    metadata.camera_index = Some(camera_index);
                },
                None => {},
            }
            match options.group_import {
                AddGraphGroupImport::ClearMetadata => {
                    metadata.group_id = None;
                },
                AddGraphGroupImport::Preserve => {},
            }
            metadata.clear_flow_groups();
            let imported = RenderNodeData::new(copy_params(&data.params), metadata);
            let ghost before = *self;
            let destination = match self.insert_node(imported) {
                Ok(id) => id,
                Err(e) => {
                    proof {
                        assert(false);
                    }
                    return Err(e);
                },
            };
            import_map.insert_node(source_node, destination);
            proof {
                assert(metadata == imported_metadata(data.metadata, options));
                assert(destination.0 == node_base + i);
                assert(self.node_order() =~= start.node_order() + Seq::new((i + 1) as nat, |x: int| (node_base + x) as u32));
                assert(import_map.nodes@ =~= Seq::new((i + 1) as nat, |x: int| (RenderNodeId(so[x]), RenderNodeId((node_base + x) as u32))));
                self.lemma_frame_nodes_trans(before, start);
                assert forall|x: int| 0 <= x < i + 1 implies #[trigger] self.node_imported(*source, node_base as nat, x, options) by {
                    let n = RenderNodeId((node_base + x) as u32);
                    if x < i {
                        assert(before.node_imported(*source, node_base as nat, x, options));
                        assert(before.node_live(n));
                    } else {
                        assert(n == destination);
                    }
                }
                assert forall|x: int| 0 <= x < i + 1 implies #[trigger] self.node_unlinked(RenderNodeId((node_base + x) as u32)) by {
                    let n = RenderNodeId((node_base + x) as u32);
                    if x < i {
                        assert(before.node_unlinked(n));
                        assert(before.node_imported(*source, node_base as nat, x, options));
                        assert(before.node_live(n));
                        assert(self.node_data(n) == before.node_data(n));
                        assert forall|k: RenderNodeDependencyKind| #[trigger] self.child_deps(n, k) == before.child_deps(n, k) && self.parent_deps(n, k) == before.parent_deps(n, k) by {}
                    } else {
                        assert(n == destination);
                    }
                }
            }
            i = i + 1;
        }
        let ghost mid = *self;
        proof {
            mid.lemma_wf_storage();
            mid.nodes.lemma_wf_facts();
            mid.dependencies.lemma_wf_facts();
            assert(mid.dependencies == start.dependencies);
        }
        // Dependencies, in source usage order, with remapped endpoints.
        let mut j: usize = 0;
        while j < source_deps.len()
            invariant
                source.wf(),
                mid.wf(),
                forall|x: int| 0 <= x < so.len() ==> #[trigger] mid.node_imported(*source, node_base as nat, x, options),
                forall|x: int| 0 <= x < so.len() ==> #[trigger] mid.node_unlinked(RenderNodeId((node_base + x) as u32)),
                mid.node_slot_count() == node_base + so.len(),
                mid.node_order() == start.node_order() + Seq::new(so.len(), |x: int| (node_base + x) as u32),
                mid.frame_nodes(start),
                mid.dependencies == start.dependencies,
                start.wf(),
                !start.frozen(),
                so.len() == 0 || node_base + so.len() <= 4294967295,
                self.nodes == mid.nodes,
                self.out_lists == mid.out_lists,
                self.in_lists == mid.in_lists,
                self.topology_frozen == mid.topology_frozen,
                self.flow_groups_built == mid.flow_groups_built,
                self.flattened_cpu@ == mid.flattened_cpu@,
                self.flattened_gpu@ == mid.flattened_gpu@,
                self.dependencies.wf(),
                so == source.node_order(),
                sd == source.dep_order(),
                source_deps@.len() == sd.len(),
                forall|y: int| 0 <= y < source_deps@.len() ==> #[trigger] source_deps@[y] == RenderDependencyId(sd[y]),
                node_base == start.node_slot_count(),
                dep_base == mid.dependencies.slot_count(),
                source_deps@.len() == 0 || dep_base + source_deps@.len() <= 4294967295,
                j <= source_deps@.len(),
                self.dependencies.slot_count() == dep_base + j,
                self.dependencies.order() == mid.dependencies.order() + Seq::new(j as nat, |y: int| (dep_base + y) as u32),
                forall|t: int|
                    #![trigger self.dependencies.live(t)]
                    #![trigger self.dependencies.value_at(t)]
                    0 <= t < dep_base ==> self.dependencies.live(t) == mid.dependencies.live(t)
                        && self.dependencies.value_at(t) == mid.dependencies.value_at(t),
                forall|y: int| 0 <= y < j ==> #[trigger] self.dep_copied(*source, node_base as nat, dep_base as nat, y),
                import_map.nodes@ == Seq::new(so.len(), |x: int| (RenderNodeId(so[x]), RenderNodeId((node_base + x) as u32))),
                import_map.dependencies@ == Seq::new(j as nat, |y: int| (RenderDependencyId(sd[y]), RenderDependencyId((dep_base + y) as u32))),
            decreases source_deps@.len() - j,
        {
            let source_dependency = source_deps[j];
            proof {
                source.lemma_wf_storage();
                source.dependencies.lemma_wf_facts();
                assert(source.dependencies.live(sd[j as int] as int));
                assert(source.dep_live(RenderDependencyId(sd[j as int])));
                source.lemma_live_dep_endpoints(RenderDependencyId(sd[j as int]));
            }
            let data = *source.dependencies.get(source_dependency).unwrap();
            proof {
                source.lemma_node_order_distinct();
                source.nodes.lemma_wf_facts();
                let pp = source.nodes.position(data.parent.0 as int);
                let cp = source.nodes.position(data.child.0 as int);
                assert(source.nodes.live(data.parent.0 as int));
                assert(source.nodes.live(data.child.0 as int));
                assert(import_map.nodes@[pp] == (data.parent, RenderNodeId((node_base + pp) as u32)));
                assert(import_map.nodes@[cp] == (data.child, RenderNodeId((node_base + cp) as u32)));
                assert forall|a: int, b: int| 0 <= a < b < import_map.nodes@.len() implies (#[trigger] import_map.nodes@[a]).0
                    != (#[trigger] import_map.nodes@[b]).0 by {
                    assert(so[a] != so[b]);
                }
                lemma_lookup_distinct(import_map.nodes@, pp);
                lemma_lookup_distinct(import_map.nodes@, cp);
            }
            let parent = match map_imported_node(&import_map, data.parent) {
                Ok(n) => n,
                Err(e) => {
                    proof {
                        assert(false);
                    }
                    return Err(e);
                },
            };
            let child = match map_imported_node(&import_map, data.child) {
                Ok(n) => n,
                Err(e) => {
                    proof {
                        assert(false);
                    }
                    return Err(e);
                },
            };
            let imported = RenderDependencyData {
                kind: data.kind,
                parent,
                child,
                next_from_parent: None,
                next_from_child: None,
            };
            let ghost before = self.dependencies;
            let ghost prev = *self;
            let destination = match self.dependencies.allocate(imported) {
                Ok(id) => id,
                Err(e) => {
                    proof {
                        assert(false);
                    }
                    return Err(e);
                },
            };
            import_map.insert_dependency(source_dependency, destination);
            proof {
                assert(self.dependencies.order() =~= mid.dependencies.order() + Seq::new((j + 1) as nat, |y: int| (dep_base + y) as u32));
                assert(import_map.dependencies@ =~= Seq::new((j + 1) as nat, |y: int| (RenderDependencyId(sd[y]), RenderDependencyId((dep_base + y) as u32))));
                assert forall|y: int| 0 <= y < j + 1 implies #[trigger] self.dep_copied(*source, node_base as nat, dep_base as nat, y) by {
                    if y < j {
                        assert(prev.dep_copied(*source, node_base as nat, dep_base as nat, y));
                        assert(before.live(dep_base + y));
                    } else {
                        assert(destination.0 == dep_base + j);
                    }
                }
            }
            j = j + 1;
        }
        let ghost deps_copied = self.dependencies;
        proof {
            assert forall|a: int, b: int| 0 <= a < b < import_map.dependencies@.len() implies (
            #[trigger] import_map.dependencies@[a]).0 != (#[trigger] import_map.dependencies@[b]).0 by {
                source.lemma_wf_storage();
                source.dependencies.lemma_wf_facts();
                assert(sd[a] != sd[b]);
            }
        }
        // Links between imported dependencies.
        let mut index: usize = 0;
        while index < import_map.dependencies.len()
            invariant
                source.wf(),
                mid.wf(),
                forall|x: int| 0 <= x < so.len() ==> #[trigger] mid.node_imported(*source, node_base as nat, x, options),
                forall|x: int| 0 <= x < so.len() ==> #[trigger] mid.node_unlinked(RenderNodeId((node_base + x) as u32)),
                mid.node_slot_count() == node_base + so.len(),
                mid.node_order() == start.node_order() + Seq::new(so.len(), |x: int| (node_base + x) as u32),
                mid.frame_nodes(start),
                mid.dependencies == start.dependencies,
                start.wf(),
                !start.frozen(),
                so.len() == 0 || node_base + so.len() <= 4294967295,
                self.nodes == mid.nodes,
                self.out_lists == mid.out_lists,
                self.in_lists == mid.in_lists,
                self.topology_frozen == mid.topology_frozen,
                self.flow_groups_built == mid.flow_groups_built,
                self.flattened_cpu@ == mid.flattened_cpu@,
                self.flattened_gpu@ == mid.flattened_gpu@,
                self.dependencies.wf(),
                so == source.node_order(),
                sd == source.dep_order(),
                node_base == start.node_slot_count(),
                dep_base == mid.dependencies.slot_count(),
                sd.len() == 0 || dep_base + sd.len() <= 4294967295,
                self.dependencies.slot_count() == dep_base + sd.len(),
                self.dependencies.order() == deps_copied.order(),
                forall|t: int|
                    #![trigger self.dependencies.live(t)]
                    #![trigger self.dependencies.value_at(t)]
                    0 <= t < dep_base ==> self.dependencies.live(t) == mid.dependencies.live(t)
                        && self.dependencies.value_at(t) == mid.dependencies.value_at(t),
                forall|y: int| 0 <= y < index ==> #[trigger] self.dep_linked(*source, node_base as nat, dep_base as nat, y),
                forall|y: int| index <= y < sd.len() ==> #[trigger] self.dep_copied(*source, node_base as nat, dep_base as nat, y),
                import_map.nodes@ == Seq::new(so.len(), |x: int| (RenderNodeId(so[x]), RenderNodeId((node_base + x) as u32))),
                import_map.dependencies@ == Seq::new(sd.len(), |y: int| (RenderDependencyId(sd[y]), RenderDependencyId((dep_base + y) as u32))),
                forall|a: int, b: int| 0 <= a < b < import_map.dependencies@.len() ==> (
                    #[trigger] import_map.dependencies@[a]).0 != (#[trigger] import_map.dependencies@[b]).0,
                index <= sd.len(),
            decreases sd.len() - index,
        {
            let pair = import_map.dependencies[index];
            let ghost e = RenderDependencyId(sd[index as int]);
            proof {
                source.lemma_wf_storage();
                source.dependencies.lemma_wf_facts();
                assert(source.dependencies.live(sd[index as int] as int));
                assert(source.dep_live(e));
                source.lemma_links_live(e);
            }
            let data = *source.dependencies.get(pair.0).unwrap();
            proof {
                assert(data == source.dep_data(e));
                if data.next_from_parent is Some {
                    let f = data.next_from_parent->0;
                    assert(source.dependencies.live(f.0 as int));
                    let fp = source.dependencies.position(f.0 as int);
                    assert(import_map.dependencies@[fp] == (f, RenderDependencyId((dep_base + fp) as u32)));
                    lemma_lookup_distinct(import_map.dependencies@, fp);
                }
                if data.next_from_child is Some {
                    let f = data.next_from_child->0;
                    assert(source.dependencies.live(f.0 as int));
                    let fp = source.dependencies.position(f.0 as int);
                    assert(import_map.dependencies@[fp] == (f, RenderDependencyId((dep_base + fp) as u32)));
                    lemma_lookup_distinct(import_map.dependencies@, fp);
                }
            }
            let next_from_parent = match map_optional_imported_dependency(&import_map, data.next_from_parent) {
                Ok(link) => link,
                Err(e) => {
                    proof {
                        assert(false);
                    }
                    return Err(e);
                },
            };
            let next_from_child = match map_optional_imported_dependency(&import_map, data.next_from_child) {
                Ok(link) => link,
                Err(e) => {
                    proof {
                        assert(false);
                    }
                    return Err(e);
                },
            };
            let ghost prev = *self;
            proof {
                assert(prev.dep_copied(*source, node_base as nat, dep_base as nat, index as int));
            }
            let current = *self.dependencies.get(pair.1).unwrap();
            let relinked = RenderDependencyData { next_from_parent, next_from_child, ..current };
            match self.dependencies.set(pair.1, relinked) {
                Ok(()) => {},
                Err(e) => {
                    proof {
                        assert(false);
                    }
                    return Err(e);
                },
            }
            proof {
                assert(self.dep_linked(*source, node_base as nat, dep_base as nat, index as int));
                assert forall|y: int| 0 <= y < index + 1 implies #[trigger] self.dep_linked(*source, node_base as nat, dep_base as nat, y) by {
                    if y < index {
                        assert(prev.dep_linked(*source, node_base as nat, dep_base as nat, y));
                    }
                }
                assert forall|y: int| index + 1 <= y < sd.len() implies #[trigger] self.dep_copied(*source, node_base as nat, dep_base as nat, y) by {
                    assert(prev.dep_copied(*source, node_base as nat, dep_base as nat, y));
                }
            }
            index = index + 1;
        }
        let ghost after_links = *self;
        let ghost deps_linked = self.dependencies;
        // Heads of the dependency lists of imported nodes.
        let mut index: usize = 0;
        while index < import_map.nodes.len()
            invariant
                source.wf(),
                mid.wf(),
                forall|x: int| 0 <= x < so.len() ==> #[trigger] mid.node_imported(*source, node_base as nat, x, options),
                forall|x: int| 0 <= x < so.len() ==> #[trigger] mid.node_unlinked(RenderNodeId((node_base + x) as u32)),
                mid.node_slot_count() == node_base + so.len(),
                mid.node_order() == start.node_order() + Seq::new(so.len(), |x: int| (node_base + x) as u32),
                mid.frame_nodes(start),
                mid.dependencies == start.dependencies,
                start.wf(),
                !start.frozen(),
                so.len() == 0 || node_base + so.len() <= 4294967295,
                self.dependencies == deps_linked,
                after_links.dependencies == deps_linked,
                forall|y: int| 0 <= y < sd.len() ==> #[trigger] after_links.dep_linked(*source, node_base as nat, dep_base as nat, y),
                deps_linked.wf(),
                deps_linked.slot_count() == dep_base + sd.len(),
                forall|t: int|
                    #![trigger deps_linked.live(t)]
                    #![trigger deps_linked.value_at(t)]
                    0 <= t < dep_base ==> deps_linked.live(t) == mid.dependencies.live(t)
                        && deps_linked.value_at(t) == mid.dependencies.value_at(t),
                self.out_lists == mid.out_lists,
                self.in_lists == mid.in_lists,
                self.topology_frozen == mid.topology_frozen,
                self.flow_groups_built == mid.flow_groups_built,
                self.flattened_cpu@ == mid.flattened_cpu@,
                self.flattened_gpu@ == mid.flattened_gpu@,
                self.nodes.wf(),
                so == source.node_order(),
                sd == source.dep_order(),
                node_base == start.node_slot_count(),
                dep_base == mid.dependencies.slot_count(),
                self.nodes.slot_count() == mid.nodes.slot_count(),
                self.nodes.order() == mid.nodes.order(),
                sd.len() == 0 || dep_base + sd.len() <= 4294967295,
                forall|t: int|
                    #![trigger self.nodes.live(t)]
                    #![trigger self.nodes.value_at(t)]
                    0 <= t < mid.nodes.slot_count() && !(node_base <= t < node_base + index) ==> self.nodes.live(t)
                        == mid.nodes.live(t) && self.nodes.value_at(t) == mid.nodes.value_at(t),
                forall|x: int| 0 <= x < index ==> #[trigger] self.node_linked(*source, node_base as nat, dep_base as nat, x, options),
                import_map.nodes@ == Seq::new(so.len(), |x: int| (RenderNodeId(so[x]), RenderNodeId((node_base + x) as u32))),
                import_map.dependencies@ == Seq::new(sd.len(), |y: int| (RenderDependencyId(sd[y]), RenderDependencyId((dep_base + y) as u32))),
                forall|a: int, b: int| 0 <= a < b < import_map.dependencies@.len() ==> (
                    #[trigger] import_map.dependencies@[a]).0 != (#[trigger] import_map.dependencies@[b]).0,
                index <= so.len(),
            decreases so.len() - index,
        {
            let pair = import_map.nodes[index];
            let ghost u = RenderNodeId(so[index as int]);
            proof {
                source.lemma_node_order_distinct();
                assert(source.node_live(u));
                source.lemma_wf_storage();
                source.dependencies.lemma_wf_facts();
                source.lemma_heads_live(u, RenderNodeDependencyKind::Cpu);
                source.lemma_heads_live(u, RenderNodeDependencyKind::Gpu);
                let fcc = source.node_data(u).spec_first_child(RenderNodeDependencyKind::Cpu);
                let fpc = source.node_data(u).spec_first_parent(RenderNodeDependencyKind::Cpu);
                let fcg = source.node_data(u).spec_first_child(RenderNodeDependencyKind::Gpu);
                let fpg = source.node_data(u).spec_first_parent(RenderNodeDependencyKind::Gpu);
                if fcc is Some {
                    Self::lemma_lookup_imported_dep(*source, import_map.dependencies@, dep_base as nat, fcc->0);
                }
                if fpc is Some {
                    Self::lemma_lookup_imported_dep(*source, import_map.dependencies@, dep_base as nat, fpc->0);
                }
                if fcg is Some {
                    Self::lemma_lookup_imported_dep(*source, import_map.dependencies@, dep_base as nat, fcg->0);
                }
                if fpg is Some {
                    Self::lemma_lookup_imported_dep(*source, import_map.dependencies@, dep_base as nat, fpg->0);
                }
            }
            let data = source.nodes.get(pair.0).unwrap();
            proof {
                assert(*data == source.node_data(u));
                assert(source.node_data(u).spec_first_child(RenderNodeDependencyKind::Cpu) == source.node_data(u).spec_first_child(RenderNodeDependencyKind::Cpu));
                assert(source.node_data(u).spec_first_child(RenderNodeDependencyKind::Gpu) == source.node_data(u).spec_first_child(RenderNodeDependencyKind::Gpu));
            }
            let parent_cpu = match map_optional_imported_dependency(
                &import_map,
                data.first_parent_dependency(RenderNodeDependencyKind::Cpu),
            ) {
                Ok(link) => link,
                Err(e) => {
                    proof {
                        assert(false);
                    }
                    return Err(e);
                },
            };
            let child_cpu = match map_optional_imported_dependency(
                &import_map,
                data.first_child_dependency(RenderNodeDependencyKind::Cpu),
            ) {
                Ok(link) => link,
                Err(e) => {
                    proof {
                        assert(false);
                    }
                    return Err(e);
                },
            };
            let parent_gpu = match map_optional_imported_dependency(
                &import_map,
                data.first_parent_dependency(RenderNodeDependencyKind::Gpu),
            ) {
                Ok(link) => link,
                Err(e) => {
                    proof {
                        assert(false);
                    }
                    return Err(e);
                },
            };
            let child_gpu = match map_optional_imported_dependency(
                &import_map,
                data.first_child_dependency(RenderNodeDependencyKind::Gpu),
            ) {
                Ok(link) => link,
                Err(e) => {
                    proof {
                        assert(false);
                    }
                    return Err(e);
                },
            };
            let ghost prev = *self;
            proof {
                assert(mid.node_imported(*source, node_base as nat, index as int, options));
                mid.lemma_wf_storage();
                assert(mid.nodes.live(node_base + index));
                assert(self.nodes.live(node_base + index));
            }
            match self.nodes.get_mut(pair.1) {
                Ok(node) => {
                    node.set_first_parent_dependency(RenderNodeDependencyKind::Cpu, parent_cpu);
                    node.set_first_child_dependency(RenderNodeDependencyKind::Cpu, child_cpu);
                    node.set_first_parent_dependency(RenderNodeDependencyKind::Gpu, parent_gpu);
                    node.set_first_child_dependency(RenderNodeDependencyKind::Gpu, child_gpu);
                },
                Err(e) => {
                    proof {
                        assert(false);
                    }
                    return Err(e);
                },
            }
            proof {
                let v = self.nodes.value_at(node_base + index);
                assert(prev.nodes.value_at(node_base + index) == mid.nodes.value_at(node_base + index));
                assert forall|k: RenderNodeDependencyKind| #![trigger v.spec_first_child(k)] #![trigger v.spec_first_parent(k)]
                    v.spec_first_child(k) == Self::imported_link(*source, dep_base as nat, source.node_data(u).spec_first_child(k))
                    && v.spec_first_parent(k) == Self::imported_link(*source, dep_base as nat, source.node_data(u).spec_first_parent(k)) by {
                    match k {
                        RenderNodeDependencyKind::Cpu => {},
                        RenderNodeDependencyKind::Gpu => {},
                    }
                }
                assert(self.node_linked(*source, node_base as nat, dep_base as nat, index as int, options));
                assert forall|x: int| 0 <= x < index + 1 implies #[trigger] self.node_linked(*source, node_base as nat, dep_base as nat, x, options) by {
                    if x < index {
                        assert(prev.node_linked(*source, node_base as nat, dep_base as nat, x, options));
                        assert(prev.nodes.value_at(node_base + x) == self.nodes.value_at(node_base + x));
                    }
                }
            }
            index = index + 1;
        }
        let ghost done = *self;
        proof {
            let m = so.len();
            let mid_out = mid.out_lists@;
            let mid_in = mid.in_lists@;
            let source_out = source.out_lists@;
            let source_in = source.in_lists@;
            let nb = node_base as nat;
            let db = dep_base as nat;
            self.out_lists = Ghost(|n: u32, k: RenderNodeDependencyKind|
                if nb <= n < nb + m { Self::imported_list(*source, db, source_out(so[n - nb], k)) } else { mid_out(n, k) });
            self.in_lists = Ghost(|n: u32, k: RenderNodeDependencyKind|
                if nb <= n < nb + m { Self::imported_list(*source, db, source_in(so[n - nb], k)) } else { mid_in(n, k) });
            reveal(RenderNodeGraph::wf);
            start.lemma_wf_storage();
            assert forall|d: u32|
                #![trigger mid.dependencies.value_at(d as int)]
                mid.dependencies.id_live(RenderDependencyId(d)) implies mid.dependencies.value_at(d as int).parent.0 < node_base
                    && mid.dependencies.value_at(d as int).child.0 < node_base by {
                assert(start.dependencies.id_live(RenderDependencyId(d)));
                assert(start.dep_ok(d));
                start.nodes.lemma_wf_facts();
                let data = start.dependencies.value_at(d as int);
                assert(start.nodes.live(data.parent.0 as int));
                assert(start.nodes.live(data.child.0 as int));
            }
            assert(source.wf());
            assert(mid.wf());
            assert(!mid.topology_frozen);
            assert(self.topology_frozen == mid.topology_frozen);
            assert(self.flow_groups_built == mid.flow_groups_built);
            assert(mid.nodes.slot_count() == nb + m);
            assert(db == mid.dependencies.slot_count());
            assert(self.nodes.wf());
            assert(self.dependencies.wf());
            assert(self.nodes.slot_count() == mid.nodes.slot_count());
            assert(self.nodes == done.nodes && self.dependencies == done.dependencies);
            assert forall|x: int| 0 <= x < m implies #[trigger] self.node_linked(*source, nb, db, x, options) by {
                assert(done.node_linked(*source, nb, db, x, options));
            }
            assert(self.dependencies.slot_count() == db + sd.len());
            assert forall|y: int| 0 <= y < sd.len() implies #[trigger] self.dep_linked(*source, nb, db, y) by {
                assert(after_links.dep_linked(*source, nb, db, y));
                assert(done.dep_linked(*source, nb, db, y));
            }
            assert(self.import_state(mid, *source, nb, db, options));
            self.lemma_import_wf(mid, *source, nb, db, options);
            self.lemma_import_view(start, mid, *source, options);
        }
        match self.validate_dependency_links() {
            Ok(()) => {},
            Err(e) => return Err(e),
        }
        if options.merge_special_nodes {
            let ghost imported = *self;
            proof {
                assert forall|st: RenderNodeSubtype|
                    #[trigger] self.live_nodes_with(RenderNodeKind::SequenceBegin, st).len() == self.live_nodes_with(
                        RenderNodeKind::SequenceEnd,
                        st,
                    ).len() by {
                    self.lemma_imported_counts(start, *source, options, RenderNodeKind::SequenceBegin, st);
                    self.lemma_imported_counts(start, *source, options, RenderNodeKind::SequenceEnd, st);
                    assert(start.live_nodes_with(RenderNodeKind::SequenceBegin, st).len() == start.live_nodes_with(
                        RenderNodeKind::SequenceEnd,
                        st,
                    ).len());
                    assert(source.live_nodes_with(RenderNodeKind::SequenceBegin, st).len() == source.live_nodes_with(
                        RenderNodeKind::SequenceEnd,
                        st,
                    ).len());
                }
            }
            match self.merge_special_nodes() {
                Ok(()) => {},
                Err(e) => return Err(e),
            }
            proof {
                assert(imported.imported_into(start, *source, options));
                assert forall|n: RenderNodeId| #[trigger] self.node_live(n) implies (start.node_live(n)
                    && self.node_data(n).params == start.node_data(n).params && self.node_data(n).metadata
                    == start.node_data(n).metadata) || (start.node_slot_count() <= n.0 < start.node_slot_count()
                    + so.len() && self.node_imported(*source, start.node_slot_count(), n.0 - start.node_slot_count(), options)) by {
                    assert(imported.node_live(n));
                    if !start.node_live(n) {
                        let x = n.0 - start.node_slot_count();
                        assert(imported.node_imported(*source, start.node_slot_count(), x, options));
                        assert((start.node_slot_count() + x) as u32 == n.0);
                    } else {
                        assert(imported.node_data(n) == start.node_data(n));
                    }
                }
            }
        }
        Ok(import_map)
    }

    /// Keeping the nodes of a graph that kept the nodes of another keeps them too.
    proof fn lemma_frame_nodes_trans(&self, mid: RenderNodeGraph, first: RenderNodeGraph)
        requires
            self.frame_nodes(mid),
            mid.frame_nodes(first),
        ensures
            self.frame_nodes(first),
    {
        assert forall|n: RenderNodeId| #[trigger] first.node_live(n) implies self.node_live(n) && self.node_data(n)
            == first.node_data(n) by {
            assert(mid.node_live(n));
        }
        assert forall|n: RenderNodeId, k: RenderNodeDependencyKind|
            #![trigger self.child_deps(n, k)]
            #![trigger self.parent_deps(n, k)]
            first.node_live(n) implies self.child_deps(n, k) == first.child_deps(n, k) && self.parent_deps(n, k)
                == first.parent_deps(n, k) by {
            assert(mid.node_live(n));
            assert(mid.child_deps(n, k) == first.child_deps(n, k));
            assert(mid.parent_deps(n, k) == first.parent_deps(n, k));
        }
    }

    /// The links stored in a live dependency name live dependencies.
    proof fn lemma_links_live(&self, d: RenderDependencyId)
        requires
            self.wf(),
            self.dep_live(d),
        ensures
            self.dep_data(d).next_from_parent matches Some(e) ==> self.dep_live(e),
            self.dep_data(d).next_from_child matches Some(e) ==> self.dep_live(e),
    {
        reveal(RenderNodeGraph::wf);
        assert(self.dep_ok(d.0));
        let data = self.dep_data(d);
        let lo = (self.out_lists@)(data.parent.0, data.kind);
        let li = (self.in_lists@)(data.child.0, data.kind);
        assert(self.out_list_ok(data.parent.0, data.kind));
        assert(self.in_list_ok(data.child.0, data.kind));
        let i = choose|i: int| 0 <= i < lo.len() && lo[i] == d.0;
        self.lemma_out_elem(data.parent.0, data.kind, i);
        if i + 1 < lo.len() {
            self.lemma_out_elem(data.parent.0, data.kind, i + 1);
        }
        let j = choose|j: int| 0 <= j < li.len() && li[j] == d.0;
        self.lemma_in_elem(data.child.0, data.kind, j);
        if j + 1 < li.len() {
            self.lemma_in_elem(data.child.0, data.kind, j + 1);
        }
    }

    /// The dependency heads stored in a live node name live dependencies.
    proof fn lemma_heads_live(&self, n: RenderNodeId, k: RenderNodeDependencyKind)
        requires
            self.wf(),
            self.node_live(n),
        ensures
            self.node_data(n).spec_first_child(k) matches Some(e) ==> self.dep_live(e),
            self.node_data(n).spec_first_parent(k) matches Some(e) ==> self.dep_live(e),
    {
        reveal(RenderNodeGraph::wf);
        assert(self.out_list_ok(n.0, k));
        assert(self.in_list_ok(n.0, k));
        if (self.out_lists@)(n.0, k).len() > 0 {
            self.lemma_out_elem(n.0, k, 0);
        }
        if (self.in_lists@)(n.0, k).len() > 0 {
            self.lemma_in_elem(n.0, k, 0);
        }
    }

    /// Dependency `y` of the usage order of `source` sits at slot `dep_base + y`
    /// with remapped endpoints; its links are not remapped yet.
    spec fn dep_copied(&self, source: RenderNodeGraph, node_base: nat, dep_base: nat, y: int) -> bool {
        let src = source.dep_data(RenderDependencyId(source.dep_order()[y]));
        &&& self.dependencies.live(dep_base + y)
        &&& self.dependencies.value_at(dep_base + y) == (RenderDependencyData {
            next_from_parent: None,
            next_from_child: None,
            ..Self::imported_dep_data(source, node_base, dep_base, src)
        })
    }

    /// Dependency `y` of the usage order of `source` sits at slot `dep_base + y`,
    /// fully remapped.
    spec fn dep_linked(&self, source: RenderNodeGraph, node_base: nat, dep_base: nat, y: int) -> bool {
        let src = source.dep_data(RenderDependencyId(source.dep_order()[y]));
        &&& self.dependencies.live(dep_base + y)
        &&& self.dependencies.value_at(dep_base + y) == Self::imported_dep_data(source, node_base, dep_base, src)
    }

    /// Node `x` of the usage order of `source`, at slot `node_base + x`, heads
    /// the remapped copies of its dependency lists.
    spec fn node_linked(&self, source: RenderNodeGraph, node_base: nat, dep_base: nat, x: int, options: AddGraphOptions) -> bool {
        let src = source.node_data(RenderNodeId(source.node_order()[x]));
        let v = self.nodes.value_at(node_base + x);
        &&& self.nodes.live(node_base + x)
        &&& v.params == src.params
        &&& v.metadata == imported_metadata(src.metadata, options)
        &&& forall|k: RenderNodeDependencyKind|
            #![trigger v.spec_first_child(k)]
            #![trigger v.spec_first_parent(k)]
            v.spec_first_child(k) == Self::imported_link(source, dep_base, src.spec_first_child(k))
                && v.spec_first_parent(k) == Self::imported_link(source, dep_base, src.spec_first_parent(k))
    }

    /// In the dependency map of an import, a live source dependency maps to its
    /// imported copy.
    proof fn lemma_lookup_imported_dep(
        source: RenderNodeGraph,
        pairs: Seq<(RenderDependencyId, RenderDependencyId)>,
        dep_base: nat,
        f: RenderDependencyId,
    )
        requires
            source.wf(),
            source.dep_live(f),
            source.dep_order().len() == 0 || dep_base + source.dep_order().len() <= 4294967295,
            pairs == Seq::new(
                source.dep_order().len(),
                |y: int| (RenderDependencyId(source.dep_order()[y]), RenderDependencyId((dep_base + y) as u32)),
            ),
        ensures
            lookup_last(pairs, f) == Some(Self::imported_dep(source, dep_base, f)),
    {
        source.lemma_wf_storage();
        source.dependencies.lemma_wf_facts();
        assert(source.dependencies.live(f.0 as int));
        let fp = source.dependencies.position(f.0 as int);
        assert(pairs[fp] == (f, RenderDependencyId((dep_base + fp) as u32)));
        assert forall|a: int, b: int| 0 <= a < b < pairs.len() implies (#[trigger] pairs[a]).0 != (#[trigger] pairs[b]).0 by {
            assert(source.dep_order()[a] != source.dep_order()[b]);
        }
        lemma_lookup_distinct(pairs, fp);
    }

    /// The storage reached by `add_graph` once every copy and link is in place,
    /// with the dependency lists of imported nodes recorded as the imported
    /// copies of the source lists.
    spec fn import_state(
        &self,
        mid: RenderNodeGraph,
        source: RenderNodeGraph,
        node_base: nat,
        dep_base: nat,
        options: AddGraphOptions,
    ) -> bool {
        let m = source.node_order().len();
        let q = source.dep_order().len();
        &&& source.wf()
        &&& mid.wf()
        &&& !mid.topology_frozen
        &&& self.topology_frozen == mid.topology_frozen
        &&& self.flow_groups_built == mid.flow_groups_built
        &&& node_base <= mid.nodes.slot_count()
        &&& mid.nodes.slot_count() == node_base + m
        &&& dep_base == mid.dependencies.slot_count()
        &&& (m == 0 || node_base + m <= 4294967295)
        &&& (q == 0 || dep_base + q <= 4294967295)
        &&& forall|d: u32|
            #![trigger mid.dependencies.value_at(d as int)]
            mid.dependencies.id_live(RenderDependencyId(d)) ==> mid.dependencies.value_at(d as int).parent.0 < node_base
                && mid.dependencies.value_at(d as int).child.0 < node_base
        &&& self.nodes.wf()
        &&& self.dependencies.wf()
        &&& self.nodes.slot_count() == mid.nodes.slot_count()
        &&& forall|t: int|
            #![trigger self.nodes.live(t)]
            #![trigger self.nodes.value_at(t)]
            0 <= t < node_base ==> self.nodes.live(t) == mid.nodes.live(t) && self.nodes.value_at(t) == mid.nodes.value_at(t)
        &&& forall|x: int| 0 <= x < m ==> #[trigger] self.node_linked(source, node_base, dep_base, x, options)
        &&& self.dependencies.slot_count() == dep_base + q
        &&& forall|t: int|
            #![trigger self.dependencies.live(t)]
            #![trigger self.dependencies.value_at(t)]
            0 <= t < dep_base ==> self.dependencies.live(t) == mid.dependencies.live(t)
                && self.dependencies.value_at(t) == mid.dependencies.value_at(t)
        &&& forall|y: int| 0 <= y < q ==> #[trigger] self.dep_linked(source, node_base, dep_base, y)
        &&& forall|n: u32, k: RenderNodeDependencyKind|
            #![trigger (self.out_lists@)(n, k)]
            (self.out_lists@)(n, k) == if node_base <= n < node_base + m {
                Self::imported_list(source, dep_base, (source.out_lists@)(source.node_order()[n - node_base], k))
            } else {
                (mid.out_lists@)(n, k)
            }
        &&& forall|n: u32, k: RenderNodeDependencyKind|
            #![trigger (self.in_lists@)(n, k)]
            (self.in_lists@)(n, k) == if node_base <= n < node_base + m {
                Self::imported_list(source, dep_base, (source.in_lists@)(source.node_order()[n - node_base], k))
            } else {
                (mid.in_lists@)(n, k)
            }
    }

    /// Facts about usage positions in a well-formed graph.
    proof fn lemma_positions(&self)
        requires
            self.wf(),
        ensures
            forall|i: int|
                #![trigger self.node_order()[i]]
                0 <= i < self.node_order().len() ==> self.nodes.live(self.node_order()[i] as int) && self.nodes.position(
                    self.node_order()[i] as int,
                ) == i,
            forall|s: int|
                #![trigger self.nodes.position(s)]
                self.nodes.live(s) ==> 0 <= self.nodes.position(s) < self.node_order().len() && self.node_order()[self.nodes.position(s)] == s,
            forall|i: int|
                #![trigger self.dep_order()[i]]
                0 <= i < self.dep_order().len() ==> self.dependencies.live(self.dep_order()[i] as int)
                    && self.dependencies.position(self.dep_order()[i] as int) == i,
            forall|s: int|
                #![trigger self.dependencies.position(s)]
                self.dependencies.live(s) ==> 0 <= self.dependencies.position(s) < self.dep_order().len()
                    && self.dep_order()[self.dependencies.position(s)] == s,
            self.node_order().len() <= self.nodes.slot_count(),
            self.dep_order().len() <= self.dependencies.slot_count(),
    {
        self.lemma_wf_storage();
        self.nodes.lemma_wf_facts();
        self.dependencies.lemma_wf_facts();
        assert forall|s: int| #[trigger] self.nodes.position(s) == self.nodes.position(s) && self.nodes.live(s) implies 0 <= self.nodes.position(s) < self.node_order().len() && self.node_order()[self.nodes.position(s)] == s by {
            assert(self.nodes.live(s));
        }
        assert forall|s: int| #[trigger] self.dependencies.position(s) == self.dependencies.position(s) && self.dependencies.live(s) implies 0 <= self.dependencies.position(s) < self.dep_order().len() && self.dep_order()[self.dependencies.position(s)] == s by {
            assert(self.dependencies.live(s));
        }
    }

    /// The imported copy of a live source dependency is the slot right after the
    /// destination's dependencies at the source usage index.
    proof fn lemma_imported_dep_slot(&self, mid: RenderNodeGraph, source: RenderNodeGraph, node_base: nat, dep_base: nat, options: AddGraphOptions, e: u32)
        requires
            self.import_state(mid, source, node_base, dep_base, options),
            source.dependencies.id_live(RenderDependencyId(e)),
        ensures
            ({
                let y = source.dependencies.position(e as int);
                let d = Self::imported_dep(source, dep_base, RenderDependencyId(e));
                &&& 0 <= y < source.dep_order().len()
                &&& source.dep_order()[y] == e
                &&& d.0 == dep_base + y
                &&& d.0 != crate::ids::INVALID_ID_RAW
                &&& self.dependencies.live(d.0 as int)
                &&& self.dependencies.value_at(d.0 as int) == Self::imported_dep_data(
                    source,
                    node_base,
                    dep_base,
                    source.dependencies.value_at(e as int),
                )
            }),
    {
        source.lemma_positions();
        let y = source.dependencies.position(e as int);
        assert(source.dependencies.live(e as int));
        assert(self.dep_linked(source, node_base, dep_base, y));
    }

    /// Distinct live source dependencies have distinct imported copies.
    proof fn lemma_imported_dep_injective(source: RenderNodeGraph, dep_base: nat, a: u32, b: u32)
        requires
            source.wf(),
            source.dep_order().len() == 0 || dep_base + source.dep_order().len() <= 4294967295,
            source.dependencies.id_live(RenderDependencyId(a)),
            source.dependencies.id_live(RenderDependencyId(b)),
            Self::imported_dep(source, dep_base, RenderDependencyId(a)) == Self::imported_dep(source, dep_base, RenderDependencyId(b)),
        ensures
            a == b,
    {
        source.lemma_positions();
        assert(source.dependencies.live(a as int));
        assert(source.dependencies.live(b as int));
        let pa = source.dependencies.position(a as int);
        let pb = source.dependencies.position(b as int);
        assert(pa == pb);
    }

    /// Distinct live source nodes have distinct imported copies.
    proof fn lemma_imported_node_injective(source: RenderNodeGraph, node_base: nat, a: RenderNodeId, b: RenderNodeId)
        requires
            source.wf(),
            source.node_order().len() == 0 || node_base + source.node_order().len() <= 4294967295,
            source.node_live(a),
            source.node_live(b),
            Self::imported_node(source, node_base, a) == Self::imported_node(source, node_base, b),
        ensures
            a == b,
    {
        source.lemma_positions();
        source.lemma_wf_storage();
        assert(source.nodes.live(a.0 as int));
        assert(source.nodes.live(b.0 as int));
        let pa = source.nodes.position(a.0 as int);
        let pb = source.nodes.position(b.0 as int);
        assert(pa == pb);
    }

    /// The child list of every live node of the imported state is linked.
    proof fn lemma_import_out_list(&self, mid: RenderNodeGraph, source: RenderNodeGraph, node_base: nat, dep_base: nat, options: AddGraphOptions, n: u32, k: RenderNodeDependencyKind)
        requires
            self.import_state(mid, source, node_base, dep_base, options),
            self.nodes.id_live(RenderNodeId(n)),
        ensures
            self.out_list_ok(n, k),
    {
        reveal(RenderNodeGraph::wf);
        let m = source.node_order().len();
        source.lemma_positions();
        mid.lemma_positions();
        mid.lemma_wf_storage();
        if n < node_base {
            assert(mid.nodes.id_live(RenderNodeId(n)));
            assert(mid.out_list_ok(n, k));
            let l = (mid.out_lists@)(n, k);
            assert((self.out_lists@)(n, k) == l);
            assert forall|i: int| 0 <= i < l.len() implies {
                &&& self.dependencies.id_live(RenderDependencyId(l[i]))
                &&& (#[trigger] self.dependencies.value_at(l[i] as int)).kind == k
                &&& self.dependencies.value_at(l[i] as int).parent == RenderNodeId(n)
                &&& self.dependencies.value_at(l[i] as int).next_from_parent == list_next(l, i)
            } by {
                mid.lemma_out_elem(n, k, i);
                mid.dependencies.lemma_wf_facts();
                assert(mid.dependencies.live(l[i] as int));
            }
        } else {
            assert(self.nodes.live(n as int));
            self.nodes.lemma_wf_facts();
            let x = n - node_base;
            assert(0 <= x < m);
            let u = source.node_order()[x];
            assert(self.node_linked(source, node_base, dep_base, x, options));
            assert(source.nodes.live(u as int));
            source.lemma_wf_storage();
            source.lemma_node_order_distinct();
            assert(source.node_live(RenderNodeId(u)));
            assert(source.nodes.id_live(RenderNodeId(u)));
            assert(source.out_list_ok(u, k));
            let sl = (source.out_lists@)(u, k);
            let l = Self::imported_list(source, dep_base, sl);
            assert((self.out_lists@)(n, k) == l);
            assert forall|i: int| 0 <= i < sl.len() implies source.dependencies.id_live(RenderDependencyId(#[trigger] sl[i])) by {
                source.lemma_out_elem(u, k, i);
            }
            if sl.len() > 0 {
                assert(l[0] == Self::imported_dep(source, dep_base, RenderDependencyId(sl[0])).0);
            }
            assert(self.nodes.value_at(n as int).spec_first_child(k) == list_head(l));
            assert forall|a: int, b: int| 0 <= a < b < l.len() implies l[a] != l[b] by {
                if l[a] == l[b] {
                    Self::lemma_imported_dep_injective(source, dep_base, sl[a], sl[b]);
                }
            }
            assert forall|i: int| 0 <= i < l.len() implies {
                &&& self.dependencies.id_live(RenderDependencyId(l[i]))
                &&& (#[trigger] self.dependencies.value_at(l[i] as int)).kind == k
                &&& self.dependencies.value_at(l[i] as int).parent == RenderNodeId(n)
                &&& self.dependencies.value_at(l[i] as int).next_from_parent == list_next(l, i)
            } by {
                source.lemma_out_elem(u, k, i);
                self.lemma_imported_dep_slot(mid, source, node_base, dep_base, options, sl[i]);
                if i + 1 < sl.len() {
                    assert(l[i + 1] == Self::imported_dep(source, dep_base, RenderDependencyId(sl[i + 1])).0);
                }
                assert(source.nodes.position(u as int) == x);
            }
        }
    }
    /// The parent list of every live node of the imported state is linked.
    proof fn lemma_import_in_list(&self, mid: RenderNodeGraph, source: RenderNodeGraph, node_base: nat, dep_base: nat, options: AddGraphOptions, n: u32, k: RenderNodeDependencyKind)
        requires
            self.import_state(mid, source, node_base, dep_base, options),
            self.nodes.id_live(RenderNodeId(n)),
        ensures
            self.in_list_ok(n, k),
    {
        reveal(RenderNodeGraph::wf);
        let m = source.node_order().len();
        source.lemma_positions();
        mid.lemma_positions();
        mid.lemma_wf_storage();
        if n < node_base {
            assert(mid.nodes.id_live(RenderNodeId(n)));
            assert(mid.in_list_ok(n, k));
            let l = (mid.in_lists@)(n, k);
            assert((self.in_lists@)(n, k) == l);
            assert forall|i: int| 0 <= i < l.len() implies {
                &&& self.dependencies.id_live(RenderDependencyId(l[i]))
                &&& (#[trigger] self.dependencies.value_at(l[i] as int)).kind == k
                &&& self.dependencies.value_at(l[i] as int).child == RenderNodeId(n)
                &&& self.dependencies.value_at(l[i] as int).next_from_child == list_next(l, i)
            } by {
                mid.lemma_in_elem(n, k, i);
                mid.dependencies.lemma_wf_facts();
                assert(mid.dependencies.live(l[i] as int));
            }
        } else {
            assert(self.nodes.live(n as int));
            self.nodes.lemma_wf_facts();
            let x = n - node_base;
            assert(0 <= x < m);
            let u = source.node_order()[x];
            assert(self.node_linked(source, node_base, dep_base, x, options));
            assert(source.nodes.live(u as int));
            source.lemma_wf_storage();
            source.lemma_node_order_distinct();
            assert(source.node_live(RenderNodeId(u)));
            assert(source.nodes.id_live(RenderNodeId(u)));
            assert(source.in_list_ok(u, k));
            let sl = (source.in_lists@)(u, k);
            let l = Self::imported_list(source, dep_base, sl);
            assert((self.in_lists@)(n, k) == l);
            assert forall|i: int| 0 <= i < sl.len() implies source.dependencies.id_live(RenderDependencyId(#[trigger] sl[i])) by {
                source.lemma_in_elem(u, k, i);
            }
            if sl.len() > 0 {
                assert(l[0] == Self::imported_dep(source, dep_base, RenderDependencyId(sl[0])).0);
            }
            assert(self.nodes.value_at(n as int).spec_first_parent(k) == list_head(l));
            assert forall|a: int, b: int| 0 <= a < b < l.len() implies l[a] != l[b] by {
                if l[a] == l[b] {
                    Self::lemma_imported_dep_injective(source, dep_base, sl[a], sl[b]);
                }
            }
            assert forall|i: int| 0 <= i < l.len() implies {
                &&& self.dependencies.id_live(RenderDependencyId(l[i]))
                &&& (#[trigger] self.dependencies.value_at(l[i] as int)).kind == k
                &&& self.dependencies.value_at(l[i] as int).child == RenderNodeId(n)
                &&& self.dependencies.value_at(l[i] as int).next_from_child == list_next(l, i)
            } by {
                source.lemma_in_elem(u, k, i);
                self.lemma_imported_dep_slot(mid, source, node_base, dep_base, options, sl[i]);
                if i + 1 < sl.len() {
                    assert(l[i + 1] == Self::imported_dep(source, dep_base, RenderDependencyId(sl[i + 1])).0);
                }
                assert(source.nodes.position(u as int) == x);
            }
        }
    }

    /// Every live dependency of the imported state joins two distinct live nodes
    /// and is linked from both.
    proof fn lemma_import_dep_ok(&self, mid: RenderNodeGraph, source: RenderNodeGraph, node_base: nat, dep_base: nat, options: AddGraphOptions, d: u32)
        requires
            self.import_state(mid, source, node_base, dep_base, options),
            self.dependencies.id_live(RenderDependencyId(d)),
        ensures
            self.dep_ok(d),
    {
        reveal(RenderNodeGraph::wf);
        source.dependencies.lemma_wf_facts();
        source.nodes.lemma_wf_facts();
        source.lemma_positions();
        mid.lemma_positions();
        mid.lemma_wf_storage();
        source.lemma_wf_storage();
        self.dependencies.lemma_wf_facts();
        let m = source.node_order().len();
        if d < dep_base {
            assert(mid.dependencies.id_live(RenderDependencyId(d)));
            assert(mid.dep_ok(d));
            let data = mid.dependencies.value_at(d as int);
            assert(self.dependencies.value_at(d as int) == data);
            assert(data.parent.0 < node_base && data.child.0 < node_base);
            assert(self.nodes.live(data.parent.0 as int) == mid.nodes.live(data.parent.0 as int));
            assert(self.nodes.live(data.child.0 as int) == mid.nodes.live(data.child.0 as int));
            assert((self.out_lists@)(data.parent.0, data.kind) == (mid.out_lists@)(data.parent.0, data.kind));
            assert((self.in_lists@)(data.child.0, data.kind) == (mid.in_lists@)(data.child.0, data.kind));
        } else {
            let y = d - dep_base;
            assert(0 <= y < source.dep_order().len());
            let e = source.dep_order()[y];
            assert(self.dep_linked(source, node_base, dep_base, y));
            assert(source.dependencies.live(e as int));
            assert(source.dependencies.id_live(RenderDependencyId(e)));
            assert(source.dep_ok(e));
            let sdata = source.dependencies.value_at(e as int);
            let data = self.dependencies.value_at(d as int);
            assert(data == Self::imported_dep_data(source, node_base, dep_base, sdata));
            let pp = source.nodes.position(sdata.parent.0 as int);
            let cp = source.nodes.position(sdata.child.0 as int);
            assert(source.nodes.live(sdata.parent.0 as int));
            assert(source.nodes.live(sdata.child.0 as int));
            assert(self.node_linked(source, node_base, dep_base, pp, options));
            assert(self.node_linked(source, node_base, dep_base, cp, options));
            assert(data.parent.0 == node_base + pp);
            assert(data.child.0 == node_base + cp);
            if data.parent == data.child {
                Self::lemma_imported_node_injective(source, node_base, sdata.parent, sdata.child);
            }
            let sl = (source.out_lists@)(sdata.parent.0, sdata.kind);
            let tl = (source.in_lists@)(sdata.child.0, sdata.kind);
            assert(source.node_order()[pp] == sdata.parent.0);
            assert(source.node_order()[cp] == sdata.child.0);
            assert((self.out_lists@)(data.parent.0, data.kind) == Self::imported_list(source, dep_base, sl));
            assert((self.in_lists@)(data.child.0, data.kind) == Self::imported_list(source, dep_base, tl));
            let i = choose|i: int| 0 <= i < sl.len() && sl[i] == e;
            let j = choose|j: int| 0 <= j < tl.len() && tl[j] == e;
            assert(source.dependencies.position(e as int) == y);
            assert(Self::imported_list(source, dep_base, sl)[i] == d);
            assert(Self::imported_list(source, dep_base, tl)[j] == d);
        }
    }

    /// No two live dependencies of the imported state share track and endpoints.
    proof fn lemma_import_edges_unique(&self, mid: RenderNodeGraph, source: RenderNodeGraph, node_base: nat, dep_base: nat, options: AddGraphOptions)
        requires
            self.import_state(mid, source, node_base, dep_base, options),
        ensures
            self.edges_unique(),
    {
        reveal(RenderNodeGraph::wf);
        source.dependencies.lemma_wf_facts();
        source.nodes.lemma_wf_facts();
        source.lemma_positions();
        mid.lemma_wf_storage();
        source.lemma_wf_storage();
        self.dependencies.lemma_wf_facts();
        assert forall|a: u32, b: u32|
            #![trigger self.dependencies.value_at(a as int), self.dependencies.value_at(b as int)]
            self.dependencies.id_live(RenderDependencyId(a)) && self.dependencies.id_live(RenderDependencyId(b))
                && self.dependencies.value_at(a as int).kind == self.dependencies.value_at(b as int).kind
                && self.dependencies.value_at(a as int).parent == self.dependencies.value_at(b as int).parent
                && self.dependencies.value_at(a as int).child == self.dependencies.value_at(b as int).child implies a == b by {
            let va = self.dependencies.value_at(a as int);
            if a < dep_base && b < dep_base {
                assert(mid.dependencies.id_live(RenderDependencyId(a)));
                assert(mid.dependencies.id_live(RenderDependencyId(b)));
                assert(mid.edges_unique());
                assert(mid.dependencies.value_at(a as int) == va);
            } else if a >= dep_base && b >= dep_base {
                let ya = a - dep_base;
                let yb = b - dep_base;
                assert(self.dep_linked(source, node_base, dep_base, ya));
                assert(self.dep_linked(source, node_base, dep_base, yb));
                let ea = source.dep_order()[ya];
                let eb = source.dep_order()[yb];
                assert(source.dependencies.live(ea as int) && source.dependencies.live(eb as int));
                assert(source.dependencies.id_live(RenderDependencyId(ea)));
                assert(source.dependencies.id_live(RenderDependencyId(eb)));
                assert(source.dep_ok(ea) && source.dep_ok(eb));
                let sa = source.dependencies.value_at(ea as int);
                let sb = source.dependencies.value_at(eb as int);
                Self::lemma_imported_node_injective(source, node_base, sa.parent, sb.parent);
                Self::lemma_imported_node_injective(source, node_base, sa.child, sb.child);
                assert(source.edges_unique());
                assert(ea == eb);
            } else if a < dep_base {
                assert(mid.dependencies.id_live(RenderDependencyId(a)));
                let yb = b - dep_base;
                assert(self.dep_linked(source, node_base, dep_base, yb));
                let eb = source.dep_order()[yb];
                assert(source.dependencies.live(eb as int));
                let sb = source.dependencies.value_at(eb as int);
                assert(source.dependencies.id_live(RenderDependencyId(eb)));
                assert(source.dep_ok(eb));
                assert(source.nodes.live(sb.parent.0 as int));
            } else {
                assert(mid.dependencies.id_live(RenderDependencyId(b)));
                let ya = a - dep_base;
                assert(self.dep_linked(source, node_base, dep_base, ya));
                let ea = source.dep_order()[ya];
                assert(source.dependencies.live(ea as int));
                let sa = source.dependencies.value_at(ea as int);
                assert(source.dependencies.id_live(RenderDependencyId(ea)));
                assert(source.dep_ok(ea));
                assert(source.nodes.live(sa.parent.0 as int));
            }
        }
    }

    /// The imported state is well formed.
    proof fn lemma_import_wf(&self, mid: RenderNodeGraph, source: RenderNodeGraph, node_base: nat, dep_base: nat, options: AddGraphOptions)
        requires
            self.import_state(mid, source, node_base, dep_base, options),
        ensures
            self.wf(),
    {
        reveal(RenderNodeGraph::wf);
        assert forall|n: u32, k: RenderNodeDependencyKind|
            #![trigger (self.out_lists@)(n, k)]
            self.nodes.id_live(RenderNodeId(n)) implies self.out_list_ok(n, k) by {
            self.lemma_import_out_list(mid, source, node_base, dep_base, options, n, k);
        }
        assert forall|n: u32, k: RenderNodeDependencyKind|
            #![trigger (self.in_lists@)(n, k)]
            self.nodes.id_live(RenderNodeId(n)) implies self.in_list_ok(n, k) by {
            self.lemma_import_in_list(mid, source, node_base, dep_base, options, n, k);
        }
        assert forall|d: u32|
            #![trigger self.dependencies.value_at(d as int)]
            self.dependencies.id_live(RenderDependencyId(d)) implies self.dep_ok(d) by {
            self.lemma_import_dep_ok(mid, source, node_base, dep_base, options, d);
        }
        self.lemma_import_edges_unique(mid, source, node_base, dep_base, options);
    }

    /// The imported state is `start` with `source` imported.
    proof fn lemma_import_view(&self, start: RenderNodeGraph, mid: RenderNodeGraph, source: RenderNodeGraph, options: AddGraphOptions)
        requires
            self.import_state(mid, source, start.node_slot_count(), start.dep_slot_count(), options),
            start.wf(),
            mid.frame_nodes(start),
            mid.node_order() == start.node_order() + Seq::new(
                source.node_order().len(),
                |x: int| (start.node_slot_count() + x) as u32,
            ),
            mid.dependencies == start.dependencies,
            self.nodes.order() == mid.nodes.order(),
            self.dependencies.order() == start.dep_order() + Seq::new(
                source.dep_order().len(),
                |y: int| (start.dep_slot_count() + y) as u32,
            ),
        ensures
            self.imported_into(start, source, options),
    {
        let nb = start.node_slot_count();
        let db = start.dep_slot_count();
        let so = source.node_order();
        let sd = source.dep_order();
        let m = so.len();
        let q = sd.len();
        self.lemma_import_wf(mid, source, nb, db, options);
        reveal(RenderNodeGraph::wf);
        source.lemma_positions();
        source.lemma_wf_storage();
        source.nodes.lemma_wf_facts();
        source.dependencies.lemma_wf_facts();
        start.lemma_wf_storage();
        start.nodes.lemma_wf_facts();
        start.dependencies.lemma_wf_facts();
        mid.lemma_wf_storage();
        mid.nodes.lemma_wf_facts();
        self.nodes.lemma_wf_facts();
        self.dependencies.lemma_wf_facts();
        start.lemma_node_order_distinct();
        mid.lemma_live_in_order();
        // Nodes.
        assert forall|n: RenderNodeId| #[trigger] self.node_live(n) == (start.node_live(n) || (nb <= n.0 < nb + m)) by {
            if n.0 < nb {
                assert(self.nodes.live(n.0 as int) == mid.nodes.live(n.0 as int));
                if mid.node_live(n) {
                    let j = choose|j: int| 0 <= j < mid.node_order().len() && mid.node_order()[j] == n.0;
                    if j >= start.node_order().len() {
                        assert(mid.node_order()[j] == (nb + (j - start.node_order().len())) as u32);
                    } else {
                        assert(start.node_order()[j] == n.0);
                        assert(start.node_live(RenderNodeId(start.node_order()[j])));
                    }
                }
                if start.node_live(n) {
                    assert(mid.node_live(n));
                }
            } else if n.0 < nb + m {
                let x = n.0 - nb;
                assert(self.node_linked(source, nb, db, x, options));
            } else {
                assert(!self.nodes.live(n.0 as int));
                if start.node_live(n) {
                    assert(start.nodes.live(n.0 as int));
                }
            }
        }
        assert forall|n: RenderNodeId|
            #![trigger self.node_live(n)]
            #![trigger self.node_data(n)]
            start.node_live(n) implies self.node_live(n) && self.node_data(n) == start.node_data(n) by {
            assert(start.nodes.live(n.0 as int));
            assert(mid.node_live(n));
            assert(mid.node_data(n) == start.node_data(n));
        }
        assert forall|n: RenderNodeId, k: RenderNodeDependencyKind|
            #![trigger self.child_deps(n, k)]
            #![trigger self.parent_deps(n, k)]
            start.node_live(n) implies self.child_deps(n, k) == start.child_deps(n, k) && self.parent_deps(n, k)
                == start.parent_deps(n, k) by {
            assert(start.nodes.live(n.0 as int));
            assert(mid.child_deps(n, k) == start.child_deps(n, k));
            assert(mid.parent_deps(n, k) == start.parent_deps(n, k));
        }
        assert forall|x: int| 0 <= x < m implies #[trigger] self.node_imported(source, nb, x, options) by {
            assert(self.node_linked(source, nb, db, x, options));
        }
        // Dependencies.
        assert forall|d: RenderDependencyId| #[trigger] self.dep_live(d) == (start.dep_live(d) || (db <= d.0 < db + q)) by {
            if d.0 < db {
                assert(self.dependencies.live(d.0 as int) == mid.dependencies.live(d.0 as int));
            } else if d.0 < db + q {
                let y = d.0 - db;
                assert(self.dep_linked(source, nb, db, y));
            } else {
                assert(!self.dependencies.live(d.0 as int));
                if start.dep_live(d) {
                    assert(start.dependencies.live(d.0 as int));
                }
            }
        }
        assert forall|d: RenderDependencyId| start.dep_live(d) implies #[trigger] self.dep_data(d) == start.dep_data(d) by {
            assert(start.dependencies.live(d.0 as int));
        }
        assert forall|y: int|
            0 <= y < q implies #[trigger] self.dep_data(RenderDependencyId((db + y) as u32)) == Self::imported_dep_data(
                source,
                nb,
                db,
                source.dep_data(RenderDependencyId(sd[y])),
            ) by {
            assert(self.dep_linked(source, nb, db, y));
        }
        // Edges.
        assert forall|k: RenderNodeDependencyKind, p: RenderNodeId, c: RenderNodeId|
            #[trigger] self.has_edge(k, p, c) == (start.has_edge(k, p, c) || Self::imported_edge(source, nb, k, p, c)) by {
            if self.has_edge(k, p, c) {
                let d = choose|d: RenderDependencyId|
                    #![trigger self.dep_data(d)]
                    self.dep_live(d) && self.dep_data(d).kind == k && self.dep_data(d).parent == p && self.dep_data(d).child == c;
                if d.0 < db {
                    assert(start.dep_live(d));
                    assert(start.dep_data(d) == self.dep_data(d));
                } else {
                    let y = d.0 - db;
                    assert(self.dep_linked(source, nb, db, y));
                    let e = RenderDependencyId(sd[y]);
                    assert(source.dependencies.live(e.0 as int));
                    assert(source.dep_live(e));
                    let sdata = source.dep_data(e);
                    assert(source.has_edge(k, sdata.parent, sdata.child));
                    assert(p == Self::imported_node(source, nb, sdata.parent));
                    assert(c == Self::imported_node(source, nb, sdata.child));
                }
            }
            if start.has_edge(k, p, c) {
                let d = choose|d: RenderDependencyId|
                    #![trigger start.dep_data(d)]
                    start.dep_live(d) && start.dep_data(d).kind == k && start.dep_data(d).parent == p && start.dep_data(d).child == c;
                assert(self.dep_data(d) == start.dep_data(d));
                assert(self.dep_live(d));
            }
            if Self::imported_edge(source, nb, k, p, c) {
                let (sp, sc) = choose|sp: RenderNodeId, sc: RenderNodeId|
                    #![trigger source.has_edge(k, sp, sc), Self::imported_node(source, nb, sp), Self::imported_node(source, nb, sc)]
                    source.has_edge(k, sp, sc) && p == Self::imported_node(source, nb, sp) && c == Self::imported_node(source, nb, sc);
                let e = choose|e: RenderDependencyId|
                    #![trigger source.dep_data(e)]
                    source.dep_live(e) && source.dep_data(e).kind == k && source.dep_data(e).parent == sp && source.dep_data(e).child == sc;
                self.lemma_imported_dep_slot(mid, source, nb, db, options, e.0);
                let dd = Self::imported_dep(source, db, e);
                assert(self.dep_live(dd));
                assert(self.dep_data(dd).kind == k && self.dep_data(dd).parent == p && self.dep_data(dd).child == c);
            }
        }
        // Lists of imported nodes.
        assert forall|x: int, k: RenderNodeDependencyKind|
            #![trigger self.child_deps(RenderNodeId((nb + x) as u32), k)]
            #![trigger self.parent_deps(RenderNodeId((nb + x) as u32), k)]
            0 <= x < m implies self.child_deps(RenderNodeId((nb + x) as u32), k) == Self::imported_list(
                source,
                db,
                source.child_deps(RenderNodeId(so[x]), k),
            ) && self.parent_deps(RenderNodeId((nb + x) as u32), k) == Self::imported_list(
                source,
                db,
                source.parent_deps(RenderNodeId(so[x]), k),
            ) by {
            let n = (nb + x) as u32;
            assert(n - nb == x);
        }
    }

    /// Selecting nodes of one kind and subtype distributes over concatenation.
    proof fn lemma_nodes_with_append(&self, a: Seq<u32>, b: Seq<u32>, k: RenderNodeKind, st: RenderNodeSubtype)
        ensures
            self.nodes_with(a + b, k, st) == self.nodes_with(a, k, st) + self.nodes_with(b, k, st),
        decreases b.len(),
    {
        if b.len() == 0 {
            assert(a + b =~= a);
            assert(self.nodes_with(a, k, st) + self.nodes_with(b, k, st) =~= self.nodes_with(a, k, st));
        } else {
            self.lemma_nodes_with_append(a, b.drop_last(), k, st);
            assert((a + b).drop_last() =~= a + b.drop_last());
            assert((a + b).last() == b.last());
            let rest = self.nodes_with(b.drop_last(), k, st);
            let n = RenderNodeId(b.last());
            if self.node_data(n).params.kind == k && self.node_data(n).params.subtype == st {
                assert(self.nodes_with(a, k, st) + rest.push(n) =~= (self.nodes_with(a, k, st) + rest).push(n));
            }
        }
    }

    /// Two id sequences naming, position by position, nodes of equal kind and
    /// subtype select equally many nodes of each kind and subtype.
    proof fn lemma_nodes_with_same_len(
        g1: RenderNodeGraph,
        a: Seq<u32>,
        g2: RenderNodeGraph,
        b: Seq<u32>,
        k: RenderNodeKind,
        st: RenderNodeSubtype,
    )
        requires
            a.len() == b.len(),
            forall|i: int|
                0 <= i < a.len() ==> (#[trigger] g1.node_data(RenderNodeId(a[i]))).params.kind == g2.node_data(
                    RenderNodeId(b[i]),
                ).params.kind && g1.node_data(RenderNodeId(a[i])).params.subtype == g2.node_data(
                    RenderNodeId(b[i]),
                ).params.subtype,
        ensures
            g1.nodes_with(a, k, st).len() == g2.nodes_with(b, k, st).len(),
        decreases a.len(),
    {
        if a.len() > 0 {
            assert forall|i: int| 0 <= i < a.drop_last().len() implies (#[trigger] g1.node_data(
                RenderNodeId(a.drop_last()[i]),
            )).params.kind == g2.node_data(RenderNodeId(b.drop_last()[i])).params.kind && g1.node_data(
                RenderNodeId(a.drop_last()[i]),
            ).params.subtype == g2.node_data(RenderNodeId(b.drop_last()[i])).params.subtype by {
                assert(a.drop_last()[i] == a[i] && b.drop_last()[i] == b[i]);
            }
            Self::lemma_nodes_with_same_len(g1, a.drop_last(), g2, b.drop_last(), k, st);
            assert(g1.node_data(RenderNodeId(a[a.len() - 1])).params.kind == g2.node_data(RenderNodeId(b[b.len() - 1])).params.kind);
        }
    }

    /// An imported graph counts, per kind and subtype, the live nodes of the
    /// destination plus those of the source.
    proof fn lemma_imported_counts(&self, prev: RenderNodeGraph, source: RenderNodeGraph, options: AddGraphOptions, k: RenderNodeKind, st: RenderNodeSubtype)
        requires
            prev.wf(),
            self.imported_into(prev, source, options),
        ensures
            self.live_nodes_with(k, st).len() == prev.live_nodes_with(k, st).len() + source.live_nodes_with(k, st).len(),
    {
        let nb = prev.node_slot_count();
        let so = source.node_order();
        let fresh = Seq::new(so.len(), |x: int| (nb + x) as u32);
        self.lemma_nodes_with_append(prev.node_order(), fresh, k, st);
        prev.lemma_node_order_distinct();
        assert forall|i: int| 0 <= i < prev.node_order().len() implies (#[trigger] self.node_data(
            RenderNodeId(prev.node_order()[i]),
        )).params.kind == prev.node_data(RenderNodeId(prev.node_order()[i])).params.kind && self.node_data(
            RenderNodeId(prev.node_order()[i]),
        ).params.subtype == prev.node_data(RenderNodeId(prev.node_order()[i])).params.subtype by {
            assert(prev.node_live(RenderNodeId(prev.node_order()[i])));
        }
        Self::lemma_nodes_with_same_len(*self, prev.node_order(), prev, prev.node_order(), k, st);
        assert forall|i: int| 0 <= i < fresh.len() implies (#[trigger] self.node_data(RenderNodeId(fresh[i]))).params.kind
            == source.node_data(RenderNodeId(so[i])).params.kind && self.node_data(RenderNodeId(fresh[i])).params.subtype
            == source.node_data(RenderNodeId(so[i])).params.subtype by {
            assert(self.node_imported(source, nb, i, options));
        }
        Self::lemma_nodes_with_same_len(*self, fresh, source, so, k, st);
    }
}

} // verus!
