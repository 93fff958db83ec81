use leet_render::error::RenderGraphError;
use leet_render::ids::{NodeGroupId, RenderDependencyId, RenderNodeId, RenderNodeImplId};
use leet_render::metadata::{RenderNodeDebugName, RenderNodeDependencyKind, RenderNodeKind, RenderNodeRole, RenderNodeSubtype};
use leet_render::node_topology::{RenderNodeExecutionMetadata, RenderNodeParameters};
use leet_render::render_node_graph::import::{AddGraphGroupImport, AddGraphOptions};
use leet_render::render_node_graph::RenderNodeGraph;

fn params(kind: RenderNodeKind, subtype: u32, name: &str) -> RenderNodeParameters {
    RenderNodeParameters::new(kind, RenderNodeRole::Normal, RenderNodeSubtype::new(subtype), None, RenderNodeDebugName::new(name))
}

fn add(graph: &mut RenderNodeGraph, kind: RenderNodeKind, subtype: u32, name: &str) -> RenderNodeId {
    graph.add_node(params(kind, subtype, name), RenderNodeExecutionMetadata::default()).unwrap()
}

fn stage(graph: &mut RenderNodeGraph, name: &str) -> RenderNodeId {
    add(graph, RenderNodeKind::Stage, 0, name)
}

fn no_merge() -> AddGraphOptions {
    AddGraphOptions { merge_special_nodes: false, ..AddGraphOptions::default() }
}

fn name_of(graph: &RenderNodeGraph, node: RenderNodeId) -> String {
    graph.node(node).unwrap().params().debug_name.as_str().to_string()
}

#[test]
fn imported_nodes_and_dependencies_get_fresh_ids_in_usage_order() {
    let mut target = RenderNodeGraph::new();
    let existing = stage(&mut target, "existing");

    let mut source = RenderNodeGraph::new();
    let a = stage(&mut source, "a");
    let b = stage(&mut source, "b");
    let c = stage(&mut source, "c");
    let ab = source.add_dependency(RenderNodeDependencyKind::Cpu, a, b).unwrap();
    let bc = source.add_dependency(RenderNodeDependencyKind::Gpu, b, c).unwrap();

    let map = target.add_graph(&source, no_merge()).unwrap();

    assert_eq!(map.nodes, vec![(a, RenderNodeId(1)), (b, RenderNodeId(2)), (c, RenderNodeId(3))]);
    assert_eq!(map.dependencies, vec![(ab, RenderDependencyId(0)), (bc, RenderDependencyId(1))]);
    assert_eq!(target.node_count(), 4);
    assert_eq!(target.dependency_count(), 2);
    assert_eq!(name_of(&target, existing), "existing");
    assert_eq!(name_of(&target, RenderNodeId(2)), "b");
    assert!(target.has_dependency(RenderNodeDependencyKind::Cpu, RenderNodeId(1), RenderNodeId(2)).unwrap());
    assert!(target.has_dependency(RenderNodeDependencyKind::Gpu, RenderNodeId(2), RenderNodeId(3)).unwrap());
    assert!(!target.has_dependency(RenderNodeDependencyKind::Gpu, RenderNodeId(1), RenderNodeId(2)).unwrap());
    assert_eq!(map.node(b), Some(RenderNodeId(2)));
    assert_eq!(map.dependency(bc), Some(RenderDependencyId(1)));
}

#[test]
fn imported_dependency_lists_keep_their_order() {
    let mut source = RenderNodeGraph::new();
    let parent = stage(&mut source, "parent");
    let first = stage(&mut source, "first");
    let second = stage(&mut source, "second");
    let third = stage(&mut source, "third");
    for child in [first, second, third] {
        source.add_dependency(RenderNodeDependencyKind::Cpu, parent, child).unwrap();
    }
    let source_children = source.child_nodes(parent, RenderNodeDependencyKind::Cpu).unwrap();
    assert_eq!(source_children, vec![third, second, first]);

    let mut target = RenderNodeGraph::new();
    stage(&mut target, "existing");
    let map = target.add_graph(&source, no_merge()).unwrap();

    let imported_parent = map.node(parent).unwrap();
    let imported_children = target.child_nodes(imported_parent, RenderNodeDependencyKind::Cpu).unwrap();
    let expected: Vec<RenderNodeId> = source_children.iter().map(|n| map.node(*n).unwrap()).collect();
    assert_eq!(imported_children, expected);
    let imported_first = map.node(first).unwrap();
    assert_eq!(target.parent_nodes(imported_first, RenderNodeDependencyKind::Cpu).unwrap(), vec![imported_parent]);
}

#[test]
fn import_options_adjust_metadata_and_keep_implementation_ids() {
    let mut source = RenderNodeGraph::new();
    let node = source
        .add_node(
            RenderNodeParameters::new(
                RenderNodeKind::Stage,
                RenderNodeRole::Normal,
                RenderNodeSubtype::new(0),
                Some(RenderNodeImplId(9)),
                RenderNodeDebugName::new("shared-node"),
            ),
            RenderNodeExecutionMetadata::new(Some(1), Some(NodeGroupId(4))),
        )
        .unwrap();

    let mut preserved = RenderNodeGraph::new();
    let map = preserved.add_graph(&source, no_merge()).unwrap();
    let view = preserved.node(map.node(node).unwrap()).unwrap();
    assert_eq!(view.impl_id(), Some(RenderNodeImplId(9)));
    assert_eq!(view.metadata().camera_index, Some(1));
    assert_eq!(view.metadata().group_id, Some(NodeGroupId(4)));

    let mut adjusted = RenderNodeGraph::new();
    let options = AddGraphOptions {
        force_camera_index: Some(3),
        merge_special_nodes: false,
        group_import: AddGraphGroupImport::ClearMetadata,
    };
    let map = adjusted.add_graph(&source, options).unwrap();
    let view = adjusted.node(map.node(node).unwrap()).unwrap();
    assert_eq!(view.impl_id(), Some(RenderNodeImplId(9)));
    assert_eq!(view.metadata().camera_index, Some(3));
    assert_eq!(view.metadata().group_id, None);
    assert_eq!(view.metadata().flow_group(RenderNodeDependencyKind::Cpu), None);
}

#[test]
fn frozen_graph_rejects_import() {
    let mut target = RenderNodeGraph::new();
    target.freeze_topology();
    let source = RenderNodeGraph::new();
    assert_eq!(
        target.add_graph(&source, AddGraphOptions::default()).unwrap_err(),
        RenderGraphError::GraphAlreadyBuilt { operation: "add_graph" }
    );
}

#[test]
fn import_merges_unique_nodes_into_the_first_of_their_subtype() {
    let mut target = RenderNodeGraph::new();
    let before = stage(&mut target, "before");
    let unique = add(&mut target, RenderNodeKind::Unique, 7, "unique-target");
    target.add_dependency(RenderNodeDependencyKind::Cpu, before, unique).unwrap();

    let mut source = RenderNodeGraph::new();
    let source_unique = add(&mut source, RenderNodeKind::Unique, 7, "unique-source");
    let after = stage(&mut source, "after");
    source.add_dependency(RenderNodeDependencyKind::Gpu, source_unique, after).unwrap();

    let map = target.add_graph(&source, AddGraphOptions::default()).unwrap();
    let imported_unique = map.node(source_unique).unwrap();
    let imported_after = map.node(after).unwrap();

    assert_eq!(target.node_count(), 3);
    assert!(target.node(imported_unique).is_err());
    assert!(target.has_dependency(RenderNodeDependencyKind::Cpu, before, unique).unwrap());
    assert!(target.has_dependency(RenderNodeDependencyKind::Gpu, unique, imported_after).unwrap());
}

#[test]
fn import_chains_sequence_pairs_and_removes_the_helpers() {
    let mut target = RenderNodeGraph::new();
    let begin = add(&mut target, RenderNodeKind::SequenceBegin, 5, "begin-a");
    let middle_a = stage(&mut target, "middle-a");
    let end = add(&mut target, RenderNodeKind::SequenceEnd, 5, "end-a");
    target.add_dependency(RenderNodeDependencyKind::Cpu, begin, middle_a).unwrap();
    target.add_dependency(RenderNodeDependencyKind::Cpu, middle_a, end).unwrap();

    let mut source = RenderNodeGraph::new();
    let source_begin = add(&mut source, RenderNodeKind::SequenceBegin, 5, "begin-b");
    let middle_b = stage(&mut source, "middle-b");
    let source_end = add(&mut source, RenderNodeKind::SequenceEnd, 5, "end-b");
    source.add_dependency(RenderNodeDependencyKind::Cpu, source_begin, middle_b).unwrap();
    source.add_dependency(RenderNodeDependencyKind::Cpu, middle_b, source_end).unwrap();

    let map = target.add_graph(&source, AddGraphOptions::default()).unwrap();
    let imported_middle = map.node(middle_b).unwrap();

    assert_eq!(target.node_count(), 2);
    assert!(target.validate_no_helper_nodes().is_ok());
    assert!(target.has_dependency(RenderNodeDependencyKind::Cpu, middle_a, imported_middle).unwrap());
    assert!(!target.has_dependency(RenderNodeDependencyKind::Gpu, middle_a, imported_middle).unwrap());
    assert_eq!(target.dependency_count(), 1);
}

#[test]
fn import_rejects_a_side_with_two_sequence_pairs_of_one_subtype() {
    let mut source = RenderNodeGraph::new();
    for name in ["one", "two"] {
        add(&mut source, RenderNodeKind::SequenceBegin, 2, name);
        add(&mut source, RenderNodeKind::SequenceEnd, 2, name);
    }
    let mut target = RenderNodeGraph::new();
    stage(&mut target, "existing");

    assert_eq!(
        target.add_graph(&source, AddGraphOptions::default()).unwrap_err(),
        RenderGraphError::InvalidMerge { reason: "sequence helper nodes must be unique begin/end pairs per graph side" }
    );
    assert_eq!(target.node_count(), 1);

    let map = target.add_graph(&source, no_merge()).unwrap();
    assert_eq!(map.nodes.len(), 4);
    assert_eq!(target.node_count(), 5);
}

#[test]
fn merge_rejects_unpaired_sequence_helpers() {
    let mut graph = RenderNodeGraph::new();
    add(&mut graph, RenderNodeKind::SequenceBegin, 1, "lonely");
    assert_eq!(
        graph.merge_special_nodes().unwrap_err(),
        RenderGraphError::InvalidMerge { reason: "sequence begin/end helper nodes are not paired" }
    );
    assert_eq!(graph.node_count(), 1);
}

#[test]
fn merge_removes_temporary_nodes_and_bridges_their_dependencies() {
    let mut graph = RenderNodeGraph::new();
    let a = stage(&mut graph, "a");
    let temporary = add(&mut graph, RenderNodeKind::Temporary, 0, "temporary");
    let b = stage(&mut graph, "b");
    graph.add_dependency(RenderNodeDependencyKind::Gpu, a, temporary).unwrap();
    graph.add_dependency(RenderNodeDependencyKind::Gpu, temporary, b).unwrap();

    graph.merge_special_nodes().unwrap();

    assert!(graph.node(temporary).is_err());
    assert!(graph.has_dependency(RenderNodeDependencyKind::Gpu, a, b).unwrap());
    assert_eq!(graph.dependency_count(), 1);
}

#[test]
fn merge_of_a_frozen_graph_fails() {
    let mut graph = RenderNodeGraph::new();
    graph.freeze_topology();
    assert_eq!(
        graph.merge_special_nodes().unwrap_err(),
        RenderGraphError::GraphAlreadyBuilt { operation: "merge_special_nodes" }
    );
}

#[test]
fn merged_unique_node_inherits_duplicate_edges() {
    let mut graph = RenderNodeGraph::new();
    let first = add(&mut graph, RenderNodeKind::Unique, 5, "first");
    let second = add(&mut graph, RenderNodeKind::Unique, 5, "second");
    let x = stage(&mut graph, "x");
    graph.add_dependency(RenderNodeDependencyKind::Cpu, x, second).unwrap();

    graph.merge_special_nodes().unwrap();

    assert_eq!(graph.node_count(), 2);
    assert!(graph.node(second).is_err());
    assert!(graph.has_dependency(RenderNodeDependencyKind::Cpu, x, first).unwrap());
    assert_eq!(graph.dependency_count(), 1);
}

#[test]
fn default_import_of_plain_nodes_copies_edges_with_fresh_ids() {
    let mut target = RenderNodeGraph::new();
    let t0 = stage(&mut target, "t0");
    let t1 = stage(&mut target, "t1");
    target.add_dependency(RenderNodeDependencyKind::Cpu, t0, t1).unwrap();
    let mut source = RenderNodeGraph::new();
    let a = stage(&mut source, "a");
    let b = stage(&mut source, "b");
    source.add_dependency(RenderNodeDependencyKind::Cpu, a, b).unwrap();

    let map = target.add_graph(&source, AddGraphOptions::default()).unwrap();

    assert_eq!(map.node(a), Some(RenderNodeId::from_index(2)));
    assert_eq!(map.node(b), Some(RenderNodeId::from_index(3)));
    assert_eq!(map.dependency(RenderDependencyId::from_index(0)), Some(RenderDependencyId::from_index(1)));
    assert_eq!(target.node_count(), 4);
    assert_eq!(target.dependency_count(), 2);
    assert_eq!(
        target.child_nodes(RenderNodeId::from_index(2), RenderNodeDependencyKind::Cpu).unwrap(),
        vec![RenderNodeId::from_index(3)]
    );
    assert_eq!(target.child_nodes(t0, RenderNodeDependencyKind::Cpu).unwrap(), vec![t1]);
    assert!(target.validate_dependency_links().is_ok());
}
