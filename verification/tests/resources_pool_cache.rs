use leet_render::error::FrameResourceError;
use leet_render::pool::{FrameResourceAllocationClass, FrameResourceOwnership};
use leet_render::resource_desc::{
    FrameBufferDesc, FrameBufferDescriptor, FrameResourceDesc, FrameTextureDesc, FrameTextureDescriptor,
    FrameTextureDimension, FrameTextureExtent, FrameTextureFormat,
};
use leet_render::resource_pool::FrameResourcePool;
use leet_render::tags::FrameResourceAllocationId;

const TEXTURE_BINDING: u32 = 1 << 2;
const RENDER_ATTACHMENT: u32 = 1 << 4;

fn extent(width: u32, height: u32) -> FrameTextureExtent {
    FrameTextureExtent { width, height, depth_or_array_layers: 1 }
}

fn texture_desc(width: u32, height: u32) -> FrameTextureDesc {
    FrameTextureDesc::new(FrameTextureDescriptor {
        size: extent(width, height),
        mip_level_count: 1,
        sample_count: 1,
        dimension: FrameTextureDimension::D2,
        format: FrameTextureFormat(18),
        usage: TEXTURE_BINDING | RENDER_ATTACHMENT,
        view_formats: Vec::new(),
    })
}

fn id(raw: u32) -> FrameResourceAllocationId {
    FrameResourceAllocationId::new(raw)
}

#[test]
fn owned_texture_is_recorded_at_its_current_shape() {
    let mut pool = FrameResourcePool::new();
    assert_eq!(pool.max_unused_age(), 3);
    let desc = texture_desc(64, 32).with_max_size(Some(extent(128, 64)));
    let descriptor = pool.create_owned_texture(id(4), desc).unwrap();
    assert_eq!(descriptor.size, extent(64, 32));

    let allocation = pool.allocation(id(4)).unwrap();
    assert_eq!(allocation.ownership(), FrameResourceOwnership::Owned);
    assert!(allocation.cacheable());
    assert!(allocation.used_this_frame());
    assert_eq!(allocation.age(), 0);
    let FrameResourceDesc::Texture(recorded) = allocation.desc() else {
        panic!("texture allocations record a texture descriptor");
    };
    assert_eq!(recorded.current_size(), extent(64, 32));
    assert_eq!(recorded.max_size(), None);
}

#[test]
fn duplicate_ids_and_invalid_descriptors_are_refused() {
    let mut pool = FrameResourcePool::default();
    pool.create_owned_texture(id(1), texture_desc(64, 32)).unwrap();
    assert_eq!(
        pool.create_owned_texture(id(1), texture_desc(64, 32)).unwrap_err(),
        FrameResourceError::InvalidOperation {
            operation: "FrameResourcePool::validate_new_allocation",
            reason: "frame resource allocation id already exists in the pool",
        }
    );
    assert!(pool.create_owned_texture(id(2), texture_desc(0, 32)).is_err());
    assert_eq!(pool.allocations().len(), 1);

    let buffer = FrameBufferDesc::new(FrameBufferDescriptor { size: 256, usage: 1 << 3, mapped_at_creation: false });
    let descriptor = pool.create_owned_buffer(id(3), buffer).unwrap();
    assert_eq!(descriptor.size, 256);
    assert_eq!(pool.allocations().len(), 2);
}

#[test]
fn imported_and_swapped_allocations_are_not_cached() {
    let mut pool = FrameResourcePool::new();
    pool.import_texture(id(1), texture_desc(64, 32)).unwrap();
    pool.insert_external_swap_texture(id(2), texture_desc(64, 32)).unwrap();
    let buffer = FrameBufferDesc::new(FrameBufferDescriptor { size: 64, usage: 1 << 3, mapped_at_creation: false });
    pool.import_buffer(id(3), buffer).unwrap();
    pool.insert_external_swap_buffer(id(4), buffer).unwrap();
    assert_eq!(pool.allocation(id(2)).unwrap().ownership(), FrameResourceOwnership::ExternalSwap);
    assert!(pool.planner_candidates().is_empty());

    pool.cleanup_after_frame();
    assert!(pool.allocations().is_empty());
}

#[test]
fn unused_allocations_are_evicted_after_the_age_limit() {
    let mut pool = FrameResourcePool::with_max_unused_age(1);
    pool.create_owned_texture(id(1), texture_desc(64, 32)).unwrap();

    pool.cleanup_after_frame();
    let allocation = pool.allocation(id(1)).unwrap();
    assert_eq!(allocation.age(), 0);
    assert!(!allocation.used_this_frame());

    pool.cleanup_after_frame();
    assert_eq!(pool.allocation(id(1)).unwrap().age(), 1);

    pool.cleanup_after_frame();
    assert!(pool.allocation(id(1)).is_none());
}

#[test]
fn serving_smaller_requests_ages_over_capacity_until_eviction() {
    let mut pool = FrameResourcePool::with_max_unused_age(1);
    pool.create_owned_texture(id(1), texture_desc(128, 64)).unwrap();
    let smaller = FrameResourceDesc::Texture(texture_desc(64, 32));
    assert_eq!(pool.oversized_cached_allocations_for(&smaller), vec![id(1)]);

    pool.mark_used_this_frame_for_request(id(1), &smaller).unwrap();
    assert_eq!(pool.allocation(id(1)).unwrap().overcapacity_age(), 1);
    pool.cleanup_after_frame();
    assert!(pool.allocation(id(1)).is_some());

    pool.mark_used_this_frame_for_request(id(1), &smaller).unwrap();
    assert_eq!(pool.allocation(id(1)).unwrap().overcapacity_age(), 2);
    pool.cleanup_after_frame();
    assert!(pool.allocation(id(1)).is_none());
}

#[test]
fn exact_use_resets_over_capacity() {
    let mut pool = FrameResourcePool::new();
    pool.create_owned_texture(id(1), texture_desc(128, 64)).unwrap();
    let smaller = FrameResourceDesc::Texture(texture_desc(64, 32));
    pool.mark_used_this_frame_for_request(id(1), &smaller).unwrap();
    assert_eq!(pool.allocation(id(1)).unwrap().overcapacity_age(), 1);

    let same = FrameResourceDesc::Texture(texture_desc(128, 64));
    assert!(pool.oversized_cached_allocations_for(&same).is_empty());
    pool.mark_used_this_frame_for_request(id(1), &same).unwrap();
    assert_eq!(pool.allocation(id(1)).unwrap().overcapacity_age(), 0);

    pool.mark_used_this_frame_for_request(id(1), &smaller).unwrap();
    pool.mark_used_this_frame(id(1)).unwrap();
    assert_eq!(pool.allocation(id(1)).unwrap().overcapacity_age(), 0);
}

#[test]
fn non_cacheable_allocations_leave_the_candidates_and_the_pool() {
    let mut pool = FrameResourcePool::new();
    pool.create_owned_texture(id(1), texture_desc(64, 32)).unwrap();
    pool.create_owned_texture(id(2), texture_desc(64, 32)).unwrap();
    pool.mark_non_cacheable(id(1)).unwrap();

    let candidates = pool.planner_candidates();
    assert_eq!(candidates.len(), 1);
    assert_eq!(candidates[0].allocation_id(), id(2));
    assert_eq!(candidates[0].class(), FrameResourceAllocationClass::OwnedReusable);

    pool.cleanup_after_frame();
    assert!(pool.allocation(id(1)).is_none());
    assert!(pool.allocation(id(2)).is_some());

    pool.clear_all_caches();
    assert!(pool.allocations().is_empty());
}

#[test]
fn operations_on_missing_allocations_are_refused() {
    let mut pool = FrameResourcePool::new();
    assert_eq!(
        pool.mark_used_this_frame(id(9)).unwrap_err(),
        FrameResourceError::InvalidOperation {
            operation: "FrameResourcePool::mark_used_this_frame",
            reason: "frame resource allocation id is not in the pool",
        }
    );
    assert!(pool.mark_non_cacheable(id(9)).is_err());
    assert!(pool.mark_used_this_frame_for_request(id(9), &FrameResourceDesc::Texture(texture_desc(8, 8))).is_err());
}
