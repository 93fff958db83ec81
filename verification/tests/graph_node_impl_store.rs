use leet_render::ids::RenderNodeImplId;
use leet_render::metadata::{RenderNodeDebugName, RenderNodeKind, RenderNodeRole, RenderNodeSubtype};
use leet_render::node_impl::RenderGlobalBindingMask;
use leet_render::node_topology::{RenderNodeExecutionMetadata, RenderNodeParameters};
use leet_render::render_node_graph::RenderNodeGraph;

fn params_with_impl(name: &str, impl_id: Option<RenderNodeImplId>) -> RenderNodeParameters {
    RenderNodeParameters::new(
        RenderNodeKind::Stage,
        RenderNodeRole::Normal,
        RenderNodeSubtype::new(0),
        impl_id,
        RenderNodeDebugName::new(name),
    )
}

#[test]
fn structural_graph_nodes_can_have_no_implementation() {
    let mut graph = RenderNodeGraph::new();

    let structural = graph
        .add_node(params_with_impl("structural", None), RenderNodeExecutionMetadata::default())
        .unwrap();

    assert_eq!(graph.node(structural).unwrap().impl_id(), None);
}

#[test]
fn global_binding_mask_tracks_slots_and_rejects_out_of_range_slots() {
    let mut mask = RenderGlobalBindingMask::empty();

    mask.insert_slot(3).unwrap();
    mask.insert_slot(63).unwrap();
    let combined = mask.union(RenderGlobalBindingMask::from_bits(1));

    assert!(!mask.is_empty());
    assert!(mask.contains_slot(3));
    assert!(mask.contains_slot(63));
    assert!(!mask.contains_slot(64));
    assert_eq!(combined.bits(), (1u64 << 63) | (1u64 << 3) | 1);
    assert!(mask.insert_slot(64).is_err());
}

#[test]
fn nodes_keep_the_implementation_id_they_were_added_with() {
    let mut graph = RenderNodeGraph::new();
    let impl_id = RenderNodeImplId::from_index(4);

    let node = graph
        .add_node(params_with_impl("with-impl", Some(impl_id)), RenderNodeExecutionMetadata::default())
        .unwrap();

    assert_eq!(graph.node(node).unwrap().impl_id(), Some(impl_id));
}

#[test]
fn out_of_range_slot_leaves_mask_unchanged() {
    let mut mask = RenderGlobalBindingMask::from_bits(5);

    assert!(mask.insert_slot(200).is_err());
    assert_eq!(mask.bits(), 5);
    assert!(mask.contains_slot(0));
    assert!(!mask.contains_slot(1));
    assert!(mask.contains_slot(2));
}
