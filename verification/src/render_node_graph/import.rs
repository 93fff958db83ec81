//! Options and id maps of graph import.
use vstd::prelude::*;

use crate::ids::{RenderDependencyId, RenderNodeId};

verus! {

/// Controls how group metadata is copied during graph import.
#[derive(Clone, Copy, Debug, PartialEq, Eq, Structural)]
pub enum AddGraphGroupImport {
    /// Preserve group metadata from the imported graph.
    Preserve,
    /// Clear graph-owned group membership metadata on imported nodes.
    ClearMetadata,
}

impl Default for AddGraphGroupImport {
    fn default() -> (r: Self)
        ensures
            r == AddGraphGroupImport::Preserve,
    {
        AddGraphGroupImport::Preserve
    }
}

/// Options for importing another graph into this graph.
#[derive(Clone, Copy, Debug, PartialEq, Eq, Structural)]
pub struct AddGraphOptions {
    pub force_camera_index: Option<u32>,
    pub merge_special_nodes: bool,
    pub group_import: AddGraphGroupImport,
}

impl Default for AddGraphOptions {
    fn default() -> (r: Self)
        ensures
            r.force_camera_index is None,
            r.merge_special_nodes,
            r.group_import == AddGraphGroupImport::Preserve,
    {
        AddGraphOptions {
            force_camera_index: None,
            merge_special_nodes: true,
            group_import: AddGraphGroupImport::Preserve,
        }
    }
}

/// The destination of the last pair in `pairs` whose source is `source`.
pub open spec fn lookup_last<K, V>(pairs: Seq<(K, V)>, source: K) -> Option<V>
    decreases pairs.len(),
{
    if pairs.len() == 0 {
        None
    } else if pairs.last().0 == source {
        Some(pairs.last().1)
    } else {
        lookup_last(pairs.drop_last(), source)
    }
}

/// Source-to-destination ids produced by graph import, in import order.
#[derive(Clone, Debug, PartialEq, Eq)]
pub struct GraphImportMap {
    pub nodes: Vec<(RenderNodeId, RenderNodeId)>,
    pub dependencies: Vec<(RenderDependencyId, RenderDependencyId)>,
}

impl GraphImportMap {
    pub fn new() -> (r: Self)
        ensures
            r.nodes@.len() == 0,
            r.dependencies@.len() == 0,
    {
        GraphImportMap { nodes: Vec::new(), dependencies: Vec::new() }
    }

    /// The node imported for `source`; a source recorded twice maps to its latest destination.
    pub fn node(&self, source: RenderNodeId) -> (r: Option<RenderNodeId>)
        ensures
            r == lookup_last(self.nodes@, source),
    {
        let mut i: usize = self.nodes.len();
        proof {
            assert(self.nodes@.subrange(0, i as int) =~= self.nodes@);
        }
        while i > 0
            invariant
                i <= self.nodes@.len(),
                lookup_last(self.nodes@, source) == lookup_last(self.nodes@.subrange(0, i as int), source),
            decreases i,
        {
            let pair = self.nodes[i - 1];
            proof {
                let sub = self.nodes@.subrange(0, i as int);
                assert(sub.drop_last() =~= self.nodes@.subrange(0, i - 1));
            }
            if pair.0 == source {
                return Some(pair.1);
            }
            i = i - 1;
        }
        None
    }

    /// The dependency imported for `source`; a source recorded twice maps to its latest destination.
    pub fn dependency(&self, source: RenderDependencyId) -> (r: Option<RenderDependencyId>)
        ensures
            r == lookup_last(self.dependencies@, source),
    {
        let mut i: usize = self.dependencies.len();
        proof {
            assert(self.dependencies@.subrange(0, i as int) =~= self.dependencies@);
        }
        while i > 0
            invariant
                i <= self.dependencies@.len(),
                lookup_last(self.dependencies@, source) == lookup_last(self.dependencies@.subrange(0, i as int), source),
            decreases i,
        {
            let pair = self.dependencies[i - 1];
            proof {
                let sub = self.dependencies@.subrange(0, i as int);
                assert(sub.drop_last() =~= self.dependencies@.subrange(0, i - 1));
            }
            if pair.0 == source {
                return Some(pair.1);
            }
            i = i - 1;
        }
        None
    }

    /// Records that `source` was imported as `destination`.
    pub fn insert_node(&mut self, source: RenderNodeId, destination: RenderNodeId)
        ensures
            final(self).nodes@ == old(self).nodes@.push((source, destination)),
            final(self).dependencies@ == old(self).dependencies@,
    {
        self.nodes.push((source, destination));
    }

    /// Records that `source` was imported as `destination`.
    pub fn insert_dependency(&mut self, source: RenderDependencyId, destination: RenderDependencyId)
        ensures
            final(self).dependencies@ == old(self).dependencies@.push((source, destination)),
            final(self).nodes@ == old(self).nodes@,
    {
        self.dependencies.push((source, destination));
    }
}

impl Default for GraphImportMap {
    fn default() -> (r: Self)
        ensures
            r.nodes@.len() == 0,
            r.dependencies@.len() == 0,
    {
        GraphImportMap::new()
    }
}

/// After recording a pair, looking its source up gives its destination, and
/// every other source keeps its earlier answer.
pub proof fn lemma_lookup_after_insert<K, V>(pairs: Seq<(K, V)>, source: K, destination: V, other: K)
    ensures
        lookup_last(pairs.push((source, destination)), source) == Some(destination),
        other != source ==> lookup_last(pairs.push((source, destination)), other) == lookup_last(pairs, other),
{
    assert(pairs.push((source, destination)).drop_last() =~= pairs);
}

} // verus!
