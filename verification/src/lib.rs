use vstd::prelude::*;

pub mod allocator;
pub mod cache;
pub mod camera_storage;
pub mod command_group;
pub mod command_recorder;
pub mod core_runner;
pub mod error;
pub mod execution;
pub mod executor;
pub mod frame_input;
pub mod ids;
pub mod lifetime;
pub mod lifetime_solver;
pub mod metadata;
pub mod node_impl;
pub mod node_topology;
pub mod phase;
pub mod pool;
pub mod render_node_graph;
pub mod render_node_impl_context;
pub mod request;
pub mod resource_desc;
pub mod resource_pool;
pub mod storage;
pub mod tags;
pub mod usage;
pub mod viewport;

verus! {

} // verus!
