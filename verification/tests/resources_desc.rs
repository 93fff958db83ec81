use leet_render::resource_desc::{
    FrameBufferDesc, FrameBufferDescriptor, FrameResourceDesc, FrameResourceShape, FrameTextureDesc,
    FrameTextureDescriptor, FrameTextureDimension, FrameTextureExtent, FrameTextureFormat,
};

const TEXTURE_BINDING: u32 = 1 << 2;
const RENDER_ATTACHMENT: u32 = 1 << 4;
const BUFFER_COPY_DST: u32 = 1 << 3;
const BUFFER_STORAGE: u32 = 1 << 7;
const RGBA8_UNORM: FrameTextureFormat = FrameTextureFormat(18);

fn extent(width: u32, height: u32) -> FrameTextureExtent {
    FrameTextureExtent { width, height, depth_or_array_layers: 1 }
}

fn texture_descriptor() -> FrameTextureDescriptor {
    FrameTextureDescriptor {
        size: extent(64, 32),
        mip_level_count: 1,
        sample_count: 1,
        dimension: FrameTextureDimension::D2,
        format: RGBA8_UNORM,
        usage: TEXTURE_BINDING | RENDER_ATTACHMENT,
        view_formats: Vec::new(),
    }
}

fn buffer_descriptor() -> FrameBufferDescriptor {
    FrameBufferDescriptor { size: 256, usage: BUFFER_COPY_DST | BUFFER_STORAGE, mapped_at_creation: false }
}

#[test]
fn texture_desc_validation_rejects_max_smaller_than_current() {
    let desc = FrameTextureDesc::new(texture_descriptor()).with_max_size(Some(extent(32, 32)));
    assert!(desc.validate().is_err());
}

#[test]
fn texture_desc_validation_rejects_zero_current_size() {
    let desc = FrameTextureDesc::new(texture_descriptor()).with_current_size(extent(0, 32));
    assert!(desc.validate().is_err());
}

#[test]
fn texture_desc_validation_rejects_impossible_current_mips() {
    let desc = FrameTextureDesc::new(texture_descriptor()).with_current_size(extent(1, 1)).with_current_mip_level_count(2);
    assert!(desc.validate().is_err());
}

#[test]
fn texture_desc_validation_rejects_impossible_max_mips() {
    let desc = FrameTextureDesc::new(texture_descriptor())
        .with_max_size(Some(extent(64, 32)))
        .with_max_mip_level_count(Some(16));
    assert!(desc.validate().is_err());
}

#[test]
fn texture_desc_validation_accepts_a_full_mip_chain() {
    let desc = FrameTextureDesc::new(texture_descriptor())
        .with_max_size(Some(extent(128, 64)))
        .with_current_mip_level_count(7)
        .with_max_mip_level_count(Some(8));
    assert!(desc.validate().is_ok());
    let too_many = FrameTextureDesc::new(texture_descriptor()).with_current_mip_level_count(8);
    assert!(too_many.validate().is_err());
}

#[test]
fn texture_swap_compatibility_ignores_clear_policy_but_not_usage() {
    let a = FrameResourceDesc::Texture(FrameTextureDesc::new(texture_descriptor()).with_clear_to_zero(true));
    let b = FrameResourceDesc::Texture(FrameTextureDesc::new(texture_descriptor()));
    let mut different_usage = texture_descriptor();
    different_usage.usage = TEXTURE_BINDING;
    let c = FrameResourceDesc::Texture(FrameTextureDesc::new(different_usage));

    assert!(a.is_compatible_for_swap(&b));
    assert!(!a.is_compatible_for_swap(&c));
}

#[test]
fn texture_reuse_allows_larger_capacity_and_usage_superset() {
    let existing = FrameResourceDesc::Texture(FrameTextureDesc::new(texture_descriptor()).with_max_size(Some(extent(128, 64))));
    let mut request_descriptor = texture_descriptor();
    request_descriptor.size = extent(96, 48);
    request_descriptor.usage = TEXTURE_BINDING;
    let request = FrameResourceDesc::Texture(FrameTextureDesc::new(request_descriptor));

    assert!(existing.can_reuse_for(&request));
    assert!(!request.can_reuse_for(&existing));
}

#[test]
fn texture_concrete_descriptor_uses_selected_shape() {
    let desc = FrameTextureDesc::new(texture_descriptor()).with_max_size(Some(extent(256, 128)));
    let concrete = desc.concrete_descriptor_for_shape(desc.max_capacity_shape()).unwrap();
    assert_eq!(concrete.size, extent(256, 128));
    assert_eq!(concrete.format, RGBA8_UNORM);
}

#[test]
fn texture_concrete_descriptor_rejects_invalid_shape() {
    let desc = FrameTextureDesc::new(texture_descriptor()).with_max_size(Some(extent(128, 64)));
    assert!(desc.concrete_descriptor_for_shape(FrameResourceShape::Texture { size: extent(0, 64), mip_level_count: 1 }).is_err());
    assert!(desc.concrete_descriptor_for_shape(FrameResourceShape::Texture { size: extent(256, 64), mip_level_count: 1 }).is_err());
    assert!(desc.concrete_descriptor_for_shape(FrameResourceShape::Texture { size: extent(1, 1), mip_level_count: 2 }).is_err());
    assert!(desc.concrete_descriptor_for_shape(FrameResourceShape::Buffer { size_bytes: 16 }).is_err());
}

#[test]
fn buffer_desc_validation_checks_size_and_stride() {
    let zero = FrameBufferDesc::new(buffer_descriptor()).with_current_size_bytes(0);
    let bad_stride = FrameBufferDesc::new(buffer_descriptor()).with_element_stride(Some(24));
    let good = FrameBufferDesc::new(buffer_descriptor()).with_element_stride(Some(16));

    assert!(zero.validate().is_err());
    assert!(bad_stride.validate().is_err());
    assert!(good.validate().is_ok());
}

#[test]
fn buffer_desc_validation_rejects_max_size_not_aligned_to_stride() {
    let desc = FrameBufferDesc::new(buffer_descriptor()).with_element_stride(Some(16)).with_max_size_bytes(Some(260));
    assert!(desc.validate().is_err());
}

#[test]
fn buffer_desc_exact_match_ignores_debug_label() {
    let a = FrameBufferDesc::new(buffer_descriptor());
    let b = FrameBufferDesc::new(buffer_descriptor());
    assert!(a.is_exact_match(&b));
    assert!(!a.is_exact_match(&b.with_max_size_bytes(Some(512))));
    assert!(a.is_equal_ignoring_max_size(&b.with_max_size_bytes(Some(512))));
}

#[test]
fn buffer_reuse_allows_larger_capacity_and_usage_superset() {
    let existing = FrameResourceDesc::Buffer(FrameBufferDesc::new(buffer_descriptor()).with_max_size_bytes(Some(1024)));
    let request = FrameResourceDesc::Buffer(FrameBufferDesc::new(FrameBufferDescriptor {
        size: 512,
        usage: BUFFER_STORAGE,
        mapped_at_creation: false,
    }));
    assert!(existing.can_reuse_for(&request));
}

#[test]
fn buffer_concrete_descriptor_rejects_invalid_shape() {
    let desc = FrameBufferDesc::new(buffer_descriptor()).with_element_stride(Some(16)).with_max_size_bytes(Some(512));
    assert!(desc.concrete_descriptor_for_shape(FrameResourceShape::Buffer { size_bytes: 0 }).is_err());
    assert!(desc.concrete_descriptor_for_shape(FrameResourceShape::Buffer { size_bytes: 1024 }).is_err());
    assert!(desc.concrete_descriptor_for_shape(FrameResourceShape::Buffer { size_bytes: 260 }).is_err());
    assert_eq!(desc.concrete_descriptor_for_shape(FrameResourceShape::Buffer { size_bytes: 496 }).unwrap().size, 496);
}

#[test]
fn resource_kinds_never_compare_compatible() {
    let texture = FrameResourceDesc::Texture(FrameTextureDesc::new(texture_descriptor()));
    let buffer = FrameResourceDesc::Buffer(FrameBufferDesc::new(buffer_descriptor()));
    assert!(!texture.is_compatible_for_swap(&buffer));
    assert!(!texture.can_reuse_for(&buffer));
    assert!(!buffer.can_reuse_for(&texture));
}

#[test]
fn resource_shapes_are_kind_specific() {
    let texture = FrameResourceDesc::Texture(FrameTextureDesc::new(texture_descriptor()));
    let buffer = FrameResourceDesc::Buffer(FrameBufferDesc::new(buffer_descriptor()));
    assert_eq!(texture.current_allocation_shape(), FrameResourceShape::Texture { size: extent(64, 32), mip_level_count: 1 });
    assert_eq!(buffer.current_allocation_shape(), FrameResourceShape::Buffer { size_bytes: 256 });
}

#[test]
fn concrete_capacity_desc_keeps_policy_and_drops_growth_room() {
    let texture = FrameTextureDesc::new(texture_descriptor()).with_max_size(Some(extent(128, 64))).with_clear_to_zero(true);
    let concrete = texture.concrete_capacity_desc_for_shape(texture.max_capacity_shape()).unwrap();
    assert_eq!(concrete.current_size(), extent(128, 64));
    assert_eq!(concrete.max_size(), None);
    assert!(concrete.clear_to_zero());

    let buffer = FrameResourceDesc::Buffer(FrameBufferDesc::new(buffer_descriptor()).with_element_stride(Some(16)));
    match buffer.concrete_capacity_desc_for_shape(FrameResourceShape::Buffer { size_bytes: 128 }).unwrap() {
        FrameResourceDesc::Buffer(concrete) => {
            assert_eq!(concrete.current_size_bytes(), 128);
            assert_eq!(concrete.element_stride(), Some(16));
        },
        FrameResourceDesc::Texture(_) => panic!("expected a buffer"),
    }
}
