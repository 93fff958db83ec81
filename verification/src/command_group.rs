//! Command-list group authoring data.
use vstd::prelude::*;

use crate::error::{RenderGraphError, RenderGraphResult};
use crate::ids::{RenderNodeId, RenderNodeImplId};
use crate::metadata::{RenderNodeCommandListUsage, RenderNodeDebugName};
use crate::render_node_graph::import::{lookup_last, GraphImportMap};
use crate::request::RenderQueueKind;

verus! {

/// Graph-visible command-list parent plus its ordered internal subnodes.
#[derive(Clone, Debug, PartialEq, Eq)]
pub struct CommandListGroupNode {
    pub graph_node: RenderNodeId,
    pub name: RenderNodeDebugName,
    pub queue_kind: RenderQueueKind,
    pub subnodes: Vec<RenderNodeImplId>,
}

impl CommandListGroupNode {
    /// A group wrapping `graph_node` with no subnodes yet.
    pub fn new(graph_node: RenderNodeId, name: RenderNodeDebugName, queue_kind: RenderQueueKind) -> (r: Self)
        ensures
            r.graph_node == graph_node,
            r.name == name,
            r.queue_kind == queue_kind,
            r.subnodes@.len() == 0,
    {
        CommandListGroupNode { graph_node, name, queue_kind, subnodes: Vec::new() }
    }

    /// The graph-visible wrapper node id.
    pub fn graph_node(&self) -> (r: RenderNodeId)
        ensures
            r == self.graph_node,
    {
        self.graph_node
    }

    /// The diagnostic group name.
    pub fn name(&self) -> (r: &RenderNodeDebugName)
        ensures
            *r == self.name,
    {
        &self.name
    }

    /// The queue family requested by this group.
    pub fn queue_kind(&self) -> (r: RenderQueueKind)
        ensures
            r == self.queue_kind,
    {
        self.queue_kind
    }

    /// The wrapper node owns its command list.
    pub fn command_list_usage(&self) -> (r: RenderNodeCommandListUsage)
        ensures
            r == RenderNodeCommandListUsage::Own,
    {
        RenderNodeCommandListUsage::Own
    }

    /// The ordered subnode implementation ids.
    pub fn subnodes(&self) -> (r: &[RenderNodeImplId])
        ensures
            r@ == self.subnodes@,
    {
        self.subnodes.as_slice()
    }

    /// Appends one subnode.
    pub fn push_subnode(&mut self, subnode: RenderNodeImplId)
        ensures
            final(self).subnodes@ == old(self).subnodes@.push(subnode),
            final(self).graph_node == old(self).graph_node,
            final(self).name == old(self).name,
            final(self).queue_kind == old(self).queue_kind,
    {
        self.subnodes.push(subnode);
    }

    /// The same group rewired to the imported wrapper node.
    fn remapped(&self, import_map: &GraphImportMap) -> (r: RenderGraphResult<Self>)
        ensures
            r is Ok <==> lookup_last(import_map.nodes@, self.graph_node) is Some,
            r is Ok ==> {
                &&& Some(r->Ok_0.graph_node) == lookup_last(import_map.nodes@, self.graph_node)
                &&& r->Ok_0.name.0@ == self.name.0@
                &&& r->Ok_0.queue_kind == self.queue_kind
                &&& r->Ok_0.subnodes@ == self.subnodes@
            },
            r is Err ==> r == Err::<Self, RenderGraphError>(
                RenderGraphError::InvalidMerge {
                    reason: "imported command-list group referenced a node outside the import map",
                },
            ),
    {
        let graph_node = match import_map.node(self.graph_node) {
            Some(n) => n,
            None => {
                return Err(
                    RenderGraphError::InvalidMerge {
                        reason: "imported command-list group referenced a node outside the import map",
                    },
                )
            },
        };
        let mut subnodes: Vec<RenderNodeImplId> = Vec::new();
        let mut i: usize = 0;
        while i < self.subnodes.len()
            invariant
                i <= self.subnodes@.len(),
                subnodes@ == self.subnodes@.subrange(0, i as int),
            decreases self.subnodes@.len() - i,
        {
            subnodes.push(self.subnodes[i]);
            i = i + 1;
        }
        proof {
            assert(subnodes@ =~= self.subnodes@);
        }
        Ok(
            CommandListGroupNode {
                graph_node,
                name: RenderNodeDebugName(self.name.0.clone()),
                queue_kind: self.queue_kind,
                subnodes,
            },
        )
    }
}

/// Command-list groups keyed by their graph-visible node id; each node owns
/// at most one group.
#[derive(Clone, Debug)]
pub struct CommandListGroupStore {
    pub groups: Vec<CommandListGroupNode>,
}

impl CommandListGroupStore {
    /// Distinct wrapper nodes across groups.
    pub open spec fn wf(&self) -> bool {
        forall|i: int, j: int|
            0 <= i < j < self.groups@.len() ==> (#[trigger] self.groups@[i]).graph_node != (
            #[trigger] self.groups@[j]).graph_node
    }

    /// Whether some group wraps `graph_node`.
    pub open spec fn has_group(&self, graph_node: RenderNodeId) -> bool {
        exists|i: int| 0 <= i < self.groups@.len() && #[trigger] self.groups@[i].graph_node == graph_node
    }

    pub fn new() -> (r: Self)
        ensures
            r.wf(),
            r.groups@.len() == 0,
    {
        CommandListGroupStore { groups: Vec::new() }
    }

    pub fn len(&self) -> (r: usize)
        ensures
            r == self.groups@.len(),
    {
        self.groups.len()
    }

    pub fn is_empty(&self) -> (r: bool)
        ensures
            r == (self.groups@.len() == 0),
    {
        self.groups.len() == 0
    }

    pub fn groups(&self) -> (r: &[CommandListGroupNode])
        ensures
            r@ == self.groups@,
    {
        self.groups.as_slice()
    }

    /// Position of the group of `graph_node`.
    fn group_index(&self, graph_node: RenderNodeId) -> (r: RenderGraphResult<usize>)
        ensures
            r is Ok <==> self.has_group(graph_node),
            r is Ok ==> r->Ok_0 < self.groups@.len() && self.groups@[r->Ok_0 as int].graph_node == graph_node,
            r is Err ==> r == Err::<usize, RenderGraphError>(
                RenderGraphError::InvalidId { kind: "command-list group node", raw: graph_node.0 },
            ),
    {
        let mut i: usize = 0;
        while i < self.groups.len()
            invariant
                i <= self.groups@.len(),
                forall|j: int| 0 <= j < i ==> (#[trigger] self.groups@[j]).graph_node != graph_node,
            decreases self.groups@.len() - i,
        {
            if self.groups[i].graph_node == graph_node {
                return Ok(i);
            }
            i = i + 1;
        }
        Err(RenderGraphError::InvalidId { kind: "command-list group node", raw: graph_node.raw() })
    }

    /// The group wrapping `graph_node`.
    pub fn get(&self, graph_node: RenderNodeId) -> (r: RenderGraphResult<&CommandListGroupNode>)
        ensures
            r is Ok <==> self.has_group(graph_node),
            r is Ok ==> r->Ok_0.graph_node == graph_node && self.groups@.contains(*r->Ok_0),
            r is Err ==> r == Err::<&CommandListGroupNode, RenderGraphError>(
                RenderGraphError::InvalidId { kind: "command-list group node", raw: graph_node.0 },
            ),
    {
        match self.group_index(graph_node) {
            Ok(index) => Ok(&self.groups[index]),
            Err(e) => Err(e),
        }
    }

    /// Adds a group; a node that already owns a group is refused.
    pub fn insert(&mut self, group: CommandListGroupNode) -> (r: RenderGraphResult<()>)
        requires
            old(self).wf(),
        ensures
            final(self).wf(),
            r is Ok <==> !old(self).has_group(group.graph_node),
            r is Ok ==> final(self).groups@ == old(self).groups@.push(group),
            r is Err ==> *final(self) == *old(self) && r == Err::<(), RenderGraphError>(
                RenderGraphError::InvalidCommandListGroupUsage {
                    operation: "begin_command_list_group",
                    reason: "graph node already owns a command-list group",
                },
            ),
    {
        if self.group_index(group.graph_node).is_ok() {
            return Err(
                RenderGraphError::InvalidCommandListGroupUsage {
                    operation: "begin_command_list_group",
                    reason: "graph node already owns a command-list group",
                },
            );
        }
        let ghost before = self.groups@;
        self.groups.push(group);
        proof {
            assert forall|i: int, j: int|
                0 <= i < j < self.groups@.len() implies (#[trigger] self.groups@[i]).graph_node != (
                #[trigger] self.groups@[j]).graph_node by {
                if j == before.len() {
                    assert(before[i].graph_node != group.graph_node);
                }
            }
        }
        Ok(())
    }

    /// Imports the groups of `source`, rewired through `import_map`, in order.
    /// The groups are added one by one; at the first group that cannot be
    /// imported the call stops, keeping the groups added before it, and
    /// returns that group's error.
    pub fn import_from(&mut self, source: &CommandListGroupStore, import_map: &GraphImportMap) -> (r: RenderGraphResult<
        (),
    >)
        requires
            old(self).wf(),
        ensures
            final(self).wf(),
            final(self).groups@.len() >= old(self).groups@.len(),
            final(self).groups@.len() <= old(self).groups@.len() + source.groups@.len(),
            final(self).groups@.subrange(0, old(self).groups@.len() as int) == old(self).groups@,
            import_ok_upto(
                old(self).groups@,
                source.groups@,
                import_map.nodes@,
                final(self).groups@.len() - old(self).groups@.len(),
            ),
            forall|i: int|
                0 <= i < final(self).groups@.len() - old(self).groups@.len() ==> imported_as(
                    #[trigger] final(self).groups@[old(self).groups@.len() + i],
                    source.groups@,
                    import_map.nodes@,
                    i,
                ),
            r is Ok <==> import_ok_upto(old(self).groups@, source.groups@, import_map.nodes@, source.groups@.len() as int),
            r is Ok ==> final(self).groups@.len() == old(self).groups@.len() + source.groups@.len(),
            r is Err ==> final(self).groups@.len() < old(self).groups@.len() + source.groups@.len(),
            r is Err ==> !import_step_ok(
                old(self).groups@,
                source.groups@,
                import_map.nodes@,
                final(self).groups@.len() - old(self).groups@.len(),
            ),
            r is Err ==> r == Err::<(), RenderGraphError>(
                import_step_error(
                    source.groups@,
                    import_map.nodes@,
                    final(self).groups@.len() - old(self).groups@.len(),
                ),
            ),
    {
        let ghost start = self.groups@;
        let mut i: usize = 0;
        while i < source.groups.len()
            invariant
                self.wf(),
                i <= source.groups@.len(),
                self.groups@.len() == start.len() + i,
                self.groups@.subrange(0, start.len() as int) == start,
                start == old(self).groups@,
                import_ok_upto(start, source.groups@, import_map.nodes@, i as int),
                forall|j: int|
                    0 <= j < i ==> imported_as(
                        #[trigger] self.groups@[start.len() + j],
                        source.groups@,
                        import_map.nodes@,
                        j,
                    ),
            decreases source.groups@.len() - i,
        {
            let group = match source.groups[i].remapped(import_map) {
                Ok(g) => g,
                Err(e) => {
                    proof {
                        assert(self.groups@.len() - start.len() == i);
                        assert(!import_step_ok(start, source.groups@, import_map.nodes@, i as int));
                    }
                    return Err(e);
                },
            };
            let ghost before = *self;
            proof {
                lemma_import_step(before, start, source.groups@, import_map.nodes@, i as int, group.graph_node);
            }
            match self.insert(group) {
                Ok(()) => {},
                Err(e) => {
                    proof {
                        assert(self.groups@.len() - start.len() == i);
                    }
                    return Err(e);
                },
            }
            proof {
                assert(self.groups@.subrange(0, start.len() as int) =~= before.groups@.subrange(
                    0,
                    start.len() as int,
                ));
                assert forall|j: int|
                    0 <= j < i + 1 implies imported_as(
                        #[trigger] self.groups@[start.len() + j],
                        source.groups@,
                        import_map.nodes@,
                        j,
                    ) by {
                    if j < i {
                        assert(self.groups@[start.len() + j] == before.groups@[start.len() + j]);
                    }
                }
                assert forall|j: int| 0 <= j < i + 1 implies #[trigger] import_step_ok(
                    start,
                    source.groups@,
                    import_map.nodes@,
                    j,
                ) by {}
            }
            i = i + 1;
        }
        Ok(())
    }

    /// Removes every group.
    pub fn clear(&mut self)
        ensures
            final(self).wf(),
            final(self).groups@.len() == 0,
    {
        self.groups = Vec::new();
    }
}

/// The wrapper node that the `k`-th source group is rewired to, where the
/// import map names one.
pub open spec fn imported_node(
    source: Seq<CommandListGroupNode>,
    nodes: Seq<(RenderNodeId, RenderNodeId)>,
    k: int,
) -> Option<RenderNodeId> {
    lookup_last(nodes, source[k].graph_node)
}

/// `g` is the `k`-th source group rewired through the import map.
pub open spec fn imported_as(
    g: CommandListGroupNode,
    source: Seq<CommandListGroupNode>,
    nodes: Seq<(RenderNodeId, RenderNodeId)>,
    k: int,
) -> bool {
    &&& Some(g.graph_node) == imported_node(source, nodes, k)
    &&& g.queue_kind == source[k].queue_kind
    &&& g.subnodes@ == source[k].subnodes@
    &&& g.name.0@ == source[k].name.0@
}

/// The `k`-th source group can be added after the earlier ones: the map
/// names its node, and no group of `existing` nor an earlier imported group
/// wraps that node.
pub open spec fn import_step_ok(
    existing: Seq<CommandListGroupNode>,
    source: Seq<CommandListGroupNode>,
    nodes: Seq<(RenderNodeId, RenderNodeId)>,
    k: int,
) -> bool {
    &&& imported_node(source, nodes, k) is Some
    &&& forall|e: int|
        0 <= e < existing.len() ==> Some((#[trigger] existing[e]).graph_node) != imported_node(source, nodes, k)
    &&& forall|j: int| 0 <= j < k ==> #[trigger] imported_node(source, nodes, j) != imported_node(source, nodes, k)
}

/// The first `k` source groups can all be added, in order.
pub open spec fn import_ok_upto(
    existing: Seq<CommandListGroupNode>,
    source: Seq<CommandListGroupNode>,
    nodes: Seq<(RenderNodeId, RenderNodeId)>,
    k: int,
) -> bool {
    forall|j: int| 0 <= j < k ==> #[trigger] import_step_ok(existing, source, nodes, j)
}

/// The error with which adding the `k`-th source group fails.
pub open spec fn import_step_error(
    source: Seq<CommandListGroupNode>,
    nodes: Seq<(RenderNodeId, RenderNodeId)>,
    k: int,
) -> RenderGraphError {
    if imported_node(source, nodes, k) is None {
        RenderGraphError::InvalidMerge {
            reason: "imported command-list group referenced a node outside the import map",
        }
    } else {
        RenderGraphError::InvalidCommandListGroupUsage {
            operation: "begin_command_list_group",
            reason: "graph node already owns a command-list group",
        }
    }
}

/// Once the first `i` source groups were added to `start`, the store owns a
/// group for the node of the `i`-th exactly when that group cannot be added.
proof fn lemma_import_step(
    store: CommandListGroupStore,
    start: Seq<CommandListGroupNode>,
    source: Seq<CommandListGroupNode>,
    nodes: Seq<(RenderNodeId, RenderNodeId)>,
    i: int,
    x: RenderNodeId,
)
    requires
        0 <= i < source.len(),
        store.groups@.len() == start.len() + i,
        store.groups@.subrange(0, start.len() as int) == start,
        forall|j: int| 0 <= j < i ==> imported_as(#[trigger] store.groups@[start.len() + j], source, nodes, j),
        imported_node(source, nodes, i) == Some(x),
    ensures
        import_step_ok(start, source, nodes, i) <==> !store.has_group(x),
{
    if import_step_ok(start, source, nodes, i) {
        assert forall|idx: int| 0 <= idx < store.groups@.len() implies #[trigger] store.groups@[idx].graph_node
            != x by {
            if idx < start.len() {
                assert(store.groups@[idx] == store.groups@.subrange(0, start.len() as int)[idx]);
                assert(Some(start[idx].graph_node) != imported_node(source, nodes, i));
            } else {
                let j = idx - start.len();
                assert(imported_as(store.groups@[start.len() + j], source, nodes, j));
                assert(imported_node(source, nodes, j) != imported_node(source, nodes, i));
            }
        }
    }
    if !store.has_group(x) {
        assert forall|e: int| 0 <= e < start.len() implies Some((#[trigger] start[e]).graph_node) != imported_node(
            source,
            nodes,
            i,
        ) by {
            assert(store.groups@[e] == store.groups@.subrange(0, start.len() as int)[e]);
            assert(store.groups@[e].graph_node != x);
        }
        assert forall|j: int| 0 <= j < i implies #[trigger] imported_node(source, nodes, j) != imported_node(
            source,
            nodes,
            i,
        ) by {
            assert(imported_as(store.groups@[start.len() + j], source, nodes, j));
            assert(store.groups@[start.len() + j].graph_node != x);
        }
    }
}

impl Default for CommandListGroupStore {
    fn default() -> (r: Self)
        ensures
            r.wf(),
            r.groups@.len() == 0,
    {
        CommandListGroupStore::new()
    }
}

} // verus!
