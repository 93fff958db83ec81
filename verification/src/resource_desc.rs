//! Frame texture and buffer descriptors: validation, reuse compatibility and
//! concrete allocation shapes.
//!
//! A descriptor holds, as plain values, the fields of the GPU descriptor that
//! the frame resource rules read: texture formats are carried as identifiers
//! and usage flags as their bits.
use vstd::prelude::*;

use crate::error::{FrameResourceError, FrameResourceResult};

verus! {

/// Extent of a texture in texels.
#[derive(Clone, Copy, Debug, PartialEq, Eq, Structural)]
pub struct FrameTextureExtent {
    pub width: u32,
    pub height: u32,
    pub depth_or_array_layers: u32,
}

/// Dimensionality of a texture.
#[derive(Clone, Copy, Debug, PartialEq, Eq, Structural)]
pub enum FrameTextureDimension {
    D1,
    D2,
    D3,
}

/// Identifier of a texture format; formats compare by identifier.
#[derive(Clone, Copy, Debug, PartialEq, Eq, Structural)]
pub struct FrameTextureFormat(pub u32);

/// The creation descriptor of a texture.
#[derive(Debug)]
pub struct FrameTextureDescriptor {
    pub size: FrameTextureExtent,
    pub mip_level_count: u32,
    pub sample_count: u32,
    pub dimension: FrameTextureDimension,
    pub format: FrameTextureFormat,
    /// Texture usage flags, as bits.
    pub usage: u32,
    pub view_formats: Vec<FrameTextureFormat>,
}

/// The creation descriptor of a buffer.
#[derive(Clone, Copy, Debug, PartialEq, Eq, Structural)]
pub struct FrameBufferDescriptor {
    pub size: u64,
    /// Buffer usage flags, as bits.
    pub usage: u32,
    pub mapped_at_creation: bool,
}

/// The shape of one concrete allocation.
#[derive(Clone, Copy, Debug, PartialEq, Eq, Structural)]
pub enum FrameResourceShape {
    Texture { size: FrameTextureExtent, mip_level_count: u32 },
    Buffer { size_bytes: u64 },
}

/// A frame texture request: the creation descriptor plus the sizes it may grow to.
#[derive(Debug)]
pub struct FrameTextureDesc {
    descriptor: FrameTextureDescriptor,
    current_size: FrameTextureExtent,
    max_size: Option<FrameTextureExtent>,
    current_mip_level_count: u32,
    max_mip_level_count: Option<u32>,
    clear_to_zero: bool,
}

/// A frame buffer request: the creation descriptor plus the size it may grow to.
#[derive(Clone, Copy, Debug, PartialEq, Eq, Structural)]
pub struct FrameBufferDesc {
    descriptor: FrameBufferDescriptor,
    current_size_bytes: u64,
    max_size_bytes: Option<u64>,
    element_stride: Option<u64>,
}

/// A frame resource request of either kind.
#[derive(Debug)]
pub enum FrameResourceDesc {
    Texture(FrameTextureDesc),
    Buffer(FrameBufferDesc),
}

/// Whether every axis of `capacity` is at least that of `requested`.
pub open spec fn extent_contains(capacity: FrameTextureExtent, requested: FrameTextureExtent) -> bool {
    &&& capacity.width >= requested.width
    &&& capacity.height >= requested.height
    &&& capacity.depth_or_array_layers >= requested.depth_or_array_layers
}

/// The largest of three values.
pub open spec fn spec_max3(a: u32, b: u32, c: u32) -> u32 {
    let ab = if a > b { a } else { b };
    if ab > c { ab } else { c }
}

/// The number of mip levels an extent allows: the bit length of its largest axis.
pub open spec fn mip_limit(size: FrameTextureExtent) -> int {
    32 - vstd::std_specs::bits::u32_leading_zeros(spec_max3(size.width, size.height, size.depth_or_array_layers))
}

/// Whether every flag of `needed` is among `flags`.
pub open spec fn usage_contains(flags: u32, needed: u32) -> bool {
    flags & needed == needed
}

/// The error of a texture operation.
pub open spec fn texture_error(reason: &'static str) -> FrameResourceError {
    FrameResourceError::InvalidOperation { operation: "FrameTextureDesc::validate", reason }
}

/// The error of a buffer operation.
pub open spec fn buffer_error(operation: &'static str, reason: &'static str) -> FrameResourceError {
    FrameResourceError::InvalidOperation { operation, reason }
}

/// Whether some axis of an extent is zero.
pub open spec fn extent_has_zero(size: FrameTextureExtent) -> bool {
    size.width == 0 || size.height == 0 || size.depth_or_array_layers == 0
}

fn max3(a: u32, b: u32, c: u32) -> (r: u32)
    ensures
        r == spec_max3(a, b, c),
{
    let ab = if a > b { a } else { b };
    if ab > c { ab } else { c }
}

/// The number of mip levels an extent allows.
fn max_mip_levels_for_size(size: FrameTextureExtent) -> (r: u32)
    ensures
        r == mip_limit(size),
{
    let max_dimension = max3(size.width, size.height, size.depth_or_array_layers);
    let zeros = max_dimension.leading_zeros();
    proof {
        vstd::std_specs::bits::axiom_u32_leading_zeros(max_dimension);
    }
    32 - zeros
}

fn texture_size_contains(capacity: FrameTextureExtent, requested: FrameTextureExtent) -> (r: bool)
    ensures
        r == extent_contains(capacity, requested),
{
    capacity.width >= requested.width && capacity.height >= requested.height && capacity.depth_or_array_layers
        >= requested.depth_or_array_layers
}

/// Fails, naming `operation_name`, when an axis of `size` is zero.
fn validate_texture_size(operation_name: &'static str, size: FrameTextureExtent) -> (r: FrameResourceResult<()>)
    ensures
        r is Ok <==> !extent_has_zero(size),
        r is Err ==> r == Err::<(), FrameResourceError>(texture_error(operation_name)),
{
    if size.width == 0 || size.height == 0 || size.depth_or_array_layers == 0 {
        return Err(FrameResourceError::InvalidOperation { operation: "FrameTextureDesc::validate", reason: operation_name });
    }
    Ok(())
}

/// Whether two format lists are equal.
fn formats_equal(a: &Vec<FrameTextureFormat>, b: &Vec<FrameTextureFormat>) -> (r: bool)
    ensures
        r == (a@ == b@),
{
    if a.len() != b.len() {
        return false;
    }
    let mut i: usize = 0;
    while i < a.len()
        invariant
            a@.len() == b@.len(),
            i <= a@.len(),
            forall|j: int| 0 <= j < i ==> a@[j] == b@[j],
        decreases a@.len() - i,
    {
        if a[i].0 != b[i].0 {
            return false;
        }
        i = i + 1;
    }
    proof {
        assert(a@ =~= b@);
    }
    true
}

/// A copy of a format list.
fn copy_formats(v: &Vec<FrameTextureFormat>) -> (r: Vec<FrameTextureFormat>)
    ensures
        r@ == v@,
{
    let mut r: Vec<FrameTextureFormat> = Vec::new();
    let mut i: usize = 0;
    while i < v.len()
        invariant
            i <= v@.len(),
            r@ == v@.subrange(0, i as int),
        decreases v@.len() - i,
    {
        r.push(v[i]);
        i = i + 1;
        proof {
            assert(r@ =~= v@.subrange(0, i as int));
        }
    }
    proof {
        assert(v@.subrange(0, v@.len() as int) =~= v@);
    }
    r
}

impl FrameTextureDescriptor {
    /// Whether two descriptors hold the same fields.
    pub open spec fn same_as(&self, other: &Self) -> bool {
        &&& self.size == other.size
        &&& self.mip_level_count == other.mip_level_count
        &&& self.sample_count == other.sample_count
        &&& self.dimension == other.dimension
        &&& self.format == other.format
        &&& self.usage == other.usage
        &&& self.view_formats@ == other.view_formats@
    }

    /// A copy of the descriptor.
    pub fn copy(&self) -> (r: Self)
        ensures
            r.same_as(self),
    {
        FrameTextureDescriptor {
            size: self.size,
            mip_level_count: self.mip_level_count,
            sample_count: self.sample_count,
            dimension: self.dimension,
            format: self.format,
            usage: self.usage,
            view_formats: copy_formats(&self.view_formats),
        }
    }
}

impl FrameTextureDesc {
    /// The creation descriptor; its size and mip count follow the current ones.
    pub closed spec fn spec_descriptor(&self) -> FrameTextureDescriptor {
        self.descriptor
    }

    pub closed spec fn spec_current_size(&self) -> FrameTextureExtent {
        self.current_size
    }

    pub closed spec fn spec_max_size(&self) -> Option<FrameTextureExtent> {
        self.max_size
    }

    pub closed spec fn spec_current_mips(&self) -> u32 {
        self.current_mip_level_count
    }

    pub closed spec fn spec_max_mips(&self) -> Option<u32> {
        self.max_mip_level_count
    }

    pub closed spec fn spec_clear_to_zero(&self) -> bool {
        self.clear_to_zero
    }

    /// The size allocations of this request are made with.
    pub open spec fn capacity(&self) -> FrameTextureExtent {
        match self.spec_max_size() {
            Some(m) => m,
            None => self.spec_current_size(),
        }
    }

    /// The mip count allocations of this request are made with.
    pub open spec fn capacity_mip_count(&self) -> u32 {
        match self.spec_max_mips() {
            Some(m) => m,
            None => self.spec_current_mips(),
        }
    }

    /// The outcome of validation: the first rule the descriptor breaks.
    pub open spec fn validation(&self) -> FrameResourceResult<()> {
        if extent_has_zero(self.spec_current_size()) {
            Err(texture_error("current texture size"))
        } else if self.spec_max_size() is Some && extent_has_zero(self.spec_max_size()->0) {
            Err(texture_error("maximum texture size"))
        } else if self.spec_max_size() is Some && !extent_contains(self.spec_max_size()->0, self.spec_current_size()) {
            Err(texture_error("maximum texture size is smaller than current texture size"))
        } else if self.spec_current_mips() == 0 {
            Err(texture_error("current mip level count must be greater than zero"))
        } else if self.spec_current_mips() > mip_limit(self.spec_current_size()) {
            Err(texture_error("current mip level count exceeds current texture size"))
        } else if self.spec_max_mips() is Some && self.spec_max_mips()->0 < self.spec_current_mips() {
            Err(texture_error("maximum mip level count is smaller than current mip level count"))
        } else if self.spec_max_mips() is Some && self.spec_max_mips()->0 > mip_limit(self.capacity()) {
            Err(texture_error("maximum mip level count exceeds maximum texture size"))
        } else {
            Ok(())
        }
    }

    /// Whether two requests hold the same fields.
    pub open spec fn same_as(&self, other: &Self) -> bool {
        &&& self.spec_descriptor().same_as(&other.spec_descriptor())
        &&& self.spec_current_size() == other.spec_current_size()
        &&& self.spec_max_size() == other.spec_max_size()
        &&& self.spec_current_mips() == other.spec_current_mips()
        &&& self.spec_max_mips() == other.spec_max_mips()
        &&& self.spec_clear_to_zero() == other.spec_clear_to_zero()
    }

    /// A copy of the request.
    pub fn copy(&self) -> (r: Self)
        ensures
            r.same_as(self),
    {
        FrameTextureDesc {
            descriptor: self.descriptor.copy(),
            current_size: self.current_size,
            max_size: self.max_size,
            current_mip_level_count: self.current_mip_level_count,
            max_mip_level_count: self.max_mip_level_count,
            clear_to_zero: self.clear_to_zero,
        }
    }

    /// Whether the creation fields of two descriptors are equal.
    pub open spec fn same_creation(&self, other: &Self) -> bool {
        let a = self.spec_descriptor();
        let b = other.spec_descriptor();
        &&& a.sample_count == b.sample_count
        &&& a.dimension == b.dimension
        &&& a.format == b.format
        &&& a.usage == b.usage
        &&& a.view_formats@ == b.view_formats@
    }

    /// Whether an allocation made for this request can serve `request`.
    pub open spec fn reusable_for(&self, request: &Self) -> bool {
        let a = self.spec_descriptor();
        let b = request.spec_descriptor();
        &&& extent_contains(self.capacity(), request.spec_current_size())
        &&& self.capacity_mip_count() >= request.spec_current_mips()
        &&& a.sample_count == b.sample_count
        &&& a.dimension == b.dimension
        &&& a.format == b.format
        &&& usage_contains(a.usage, b.usage)
        &&& a.view_formats@ == b.view_formats@
    }

    /// A request for `descriptor` at its own size and mip count, with no growth
    /// room and no clear policy.
    pub fn new(descriptor: FrameTextureDescriptor) -> (r: Self)
        ensures
            r.spec_descriptor() == descriptor,
            r.spec_current_size() == descriptor.size,
            r.spec_max_size() is None,
            r.spec_current_mips() == descriptor.mip_level_count,
            r.spec_max_mips() is None,
            !r.spec_clear_to_zero(),
    {
        FrameTextureDesc {
            current_size: descriptor.size,
            max_size: None,
            current_mip_level_count: descriptor.mip_level_count,
            max_mip_level_count: None,
            descriptor,
            clear_to_zero: false,
        }
    }

    pub fn descriptor(&self) -> (r: &FrameTextureDescriptor)
        ensures
            *r == self.spec_descriptor(),
    {
        &self.descriptor
    }

    pub fn current_size(&self) -> (r: FrameTextureExtent)
        ensures
            r == self.spec_current_size(),
    {
        self.current_size
    }

    pub fn max_size(&self) -> (r: Option<FrameTextureExtent>)
        ensures
            r == self.spec_max_size(),
    {
        self.max_size
    }

    pub fn current_mip_level_count(&self) -> (r: u32)
        ensures
            r == self.spec_current_mips(),
    {
        self.current_mip_level_count
    }

    pub fn max_mip_level_count(&self) -> (r: Option<u32>)
        ensures
            r == self.spec_max_mips(),
    {
        self.max_mip_level_count
    }

    pub fn clear_to_zero(&self) -> (r: bool)
        ensures
            r == self.spec_clear_to_zero(),
    {
        self.clear_to_zero
    }

    /// The same request at another current size; the descriptor follows.
    pub fn with_current_size(self, current_size: FrameTextureExtent) -> (r: Self)
        ensures
            r.spec_current_size() == current_size,
            r.spec_descriptor() == (FrameTextureDescriptor { size: current_size, ..self.spec_descriptor() }),
            r.spec_max_size() == self.spec_max_size(),
            r.spec_current_mips() == self.spec_current_mips(),
            r.spec_max_mips() == self.spec_max_mips(),
            r.spec_clear_to_zero() == self.spec_clear_to_zero(),
    {
        let mut r = self;
        r.current_size = current_size;
        r.descriptor.size = current_size;
        r
    }

    /// The same request with another maximum size.
    pub fn with_max_size(self, max_size: Option<FrameTextureExtent>) -> (r: Self)
        ensures
            r.spec_max_size() == max_size,
            r.spec_descriptor() == self.spec_descriptor(),
            r.spec_current_size() == self.spec_current_size(),
            r.spec_current_mips() == self.spec_current_mips(),
            r.spec_max_mips() == self.spec_max_mips(),
            r.spec_clear_to_zero() == self.spec_clear_to_zero(),
    {
        let mut r = self;
        r.max_size = max_size;
        r
    }

    /// The same request at another current mip count; the descriptor follows.
    pub fn with_current_mip_level_count(self, current_mip_level_count: u32) -> (r: Self)
        ensures
            r.spec_current_mips() == current_mip_level_count,
            r.spec_descriptor() == (FrameTextureDescriptor {
                mip_level_count: current_mip_level_count,
                ..self.spec_descriptor()
            }),
            r.spec_current_size() == self.spec_current_size(),
            r.spec_max_size() == self.spec_max_size(),
            r.spec_max_mips() == self.spec_max_mips(),
            r.spec_clear_to_zero() == self.spec_clear_to_zero(),
    {
        let mut r = self;
        r.current_mip_level_count = current_mip_level_count;
        r.descriptor.mip_level_count = current_mip_level_count;
        r
    }

    /// The same request with another maximum mip count.
    pub fn with_max_mip_level_count(self, max_mip_level_count: Option<u32>) -> (r: Self)
        ensures
            r.spec_max_mips() == max_mip_level_count,
            r.spec_descriptor() == self.spec_descriptor(),
            r.spec_current_size() == self.spec_current_size(),
            r.spec_max_size() == self.spec_max_size(),
            r.spec_current_mips() == self.spec_current_mips(),
            r.spec_clear_to_zero() == self.spec_clear_to_zero(),
    {
        let mut r = self;
        r.max_mip_level_count = max_mip_level_count;
        r
    }

    /// The same request with another clear policy.
    pub fn with_clear_to_zero(self, clear_to_zero: bool) -> (r: Self)
        ensures
            r.spec_clear_to_zero() == clear_to_zero,
            r.spec_descriptor() == self.spec_descriptor(),
            r.spec_current_size() == self.spec_current_size(),
            r.spec_max_size() == self.spec_max_size(),
            r.spec_current_mips() == self.spec_current_mips(),
            r.spec_max_mips() == self.spec_max_mips(),
    {
        let mut r = self;
        r.clear_to_zero = clear_to_zero;
        r
    }

    fn capacity_size(&self) -> (r: FrameTextureExtent)
        ensures
            r == self.capacity(),
    {
        match self.max_size {
            Some(m) => m,
            None => self.current_size,
        }
    }

    fn capacity_mips(&self) -> (r: u32)
        ensures
            r == self.capacity_mip_count(),
    {
        match self.max_mip_level_count {
            Some(m) => m,
            None => self.current_mip_level_count,
        }
    }

    /// Checks the sizes and mip counts against each other.
    pub fn validate(&self) -> (r: FrameResourceResult<()>)
        ensures
            r == self.validation(),
    {
        match validate_texture_size("current texture size", self.current_size) {
            Ok(()) => {},
            Err(e) => return Err(e),
        }
        match self.max_size {
            Some(max_size) => {
                match validate_texture_size("maximum texture size", max_size) {
                    Ok(()) => {},
                    Err(e) => return Err(e),
                }
                if !texture_size_contains(max_size, self.current_size) {
                    return Err(FrameResourceError::InvalidOperation {
                        operation: "FrameTextureDesc::validate",
                        reason: "maximum texture size is smaller than current texture size",
                    });
                }
            },
            None => {},
        }
        if self.current_mip_level_count == 0 {
            return Err(FrameResourceError::InvalidOperation {
                operation: "FrameTextureDesc::validate",
                reason: "current mip level count must be greater than zero",
            });
        }
        if self.current_mip_level_count > max_mip_levels_for_size(self.current_size) {
            return Err(FrameResourceError::InvalidOperation {
                operation: "FrameTextureDesc::validate",
                reason: "current mip level count exceeds current texture size",
            });
        }
        match self.max_mip_level_count {
            Some(max_mip_level_count) => {
                if max_mip_level_count < self.current_mip_level_count {
                    return Err(FrameResourceError::InvalidOperation {
                        operation: "FrameTextureDesc::validate",
                        reason: "maximum mip level count is smaller than current mip level count",
                    });
                }
                if max_mip_level_count > max_mip_levels_for_size(self.capacity_size()) {
                    return Err(FrameResourceError::InvalidOperation {
                        operation: "FrameTextureDesc::validate",
                        reason: "maximum mip level count exceeds maximum texture size",
                    });
                }
            },
            None => {},
        }
        Ok(())
    }

    fn creation_fields_equal(&self, other: &Self) -> (r: bool)
        ensures
            r == self.same_creation(other),
    {
        self.descriptor.sample_count == other.descriptor.sample_count && self.descriptor.dimension
            == other.descriptor.dimension && self.descriptor.format.0 == other.descriptor.format.0
            && self.descriptor.usage == other.descriptor.usage && formats_equal(
            &self.descriptor.view_formats,
            &other.descriptor.view_formats,
        )
    }

    fn creation_fields_allow_reuse_for(&self, request: &Self) -> (r: bool)
        ensures
            r == ({
                let a = self.spec_descriptor();
                let b = request.spec_descriptor();
                &&& a.sample_count == b.sample_count
                &&& a.dimension == b.dimension
                &&& a.format == b.format
                &&& usage_contains(a.usage, b.usage)
                &&& a.view_formats@ == b.view_formats@
            }),
    {
        self.descriptor.sample_count == request.descriptor.sample_count && self.descriptor.dimension
            == request.descriptor.dimension && self.descriptor.format.0 == request.descriptor.format.0
            && self.descriptor.usage & request.descriptor.usage == request.descriptor.usage && formats_equal(
            &self.descriptor.view_formats,
            &request.descriptor.view_formats,
        )
    }

    /// Whether two requests describe the same allocation in every field but
    /// the debug label.
    pub fn is_exact_match(&self, other: &Self) -> (r: bool)
        ensures
            r == (self.spec_current_size() == other.spec_current_size() && self.spec_max_size()
                == other.spec_max_size() && self.spec_current_mips() == other.spec_current_mips()
                && self.spec_max_mips() == other.spec_max_mips() && self.spec_clear_to_zero()
                == other.spec_clear_to_zero() && self.same_creation(other)),
    {
        self.current_size == other.current_size && self.max_size == other.max_size && self.current_mip_level_count
            == other.current_mip_level_count && self.max_mip_level_count == other.max_mip_level_count
            && self.clear_to_zero == other.clear_to_zero && self.creation_fields_equal(other)
    }

    /// Whether two requests agree in every field but the maximum size, the
    /// maximum mip count and the debug label.
    pub fn is_equal_ignoring_max_size(&self, other: &Self) -> (r: bool)
        ensures
            r == (self.spec_current_size() == other.spec_current_size() && self.spec_current_mips()
                == other.spec_current_mips() && self.spec_clear_to_zero() == other.spec_clear_to_zero()
                && self.same_creation(other)),
    {
        self.current_size == other.current_size && self.current_mip_level_count == other.current_mip_level_count
            && self.clear_to_zero == other.clear_to_zero && self.creation_fields_equal(other)
    }

    /// Whether two requests can swap allocations: same current size and mip
    /// count and same creation fields; the clear policy does not matter.
    pub fn is_compatible_for_swap(&self, other: &Self) -> (r: bool)
        ensures
            r == (self.spec_current_size() == other.spec_current_size() && self.spec_current_mips()
                == other.spec_current_mips() && self.same_creation(other)),
    {
        self.current_size == other.current_size && self.current_mip_level_count == other.current_mip_level_count
            && self.creation_fields_equal(other)
    }

    /// Whether an allocation made for this request can serve `request`: its
    /// capacity holds the requested size and mip count, the creation fields
    /// match, and its usage flags include the requested ones.
    pub fn can_reuse_for(&self, request: &Self) -> (r: bool)
        ensures
            r == self.reusable_for(request),
    {
        texture_size_contains(self.capacity_size(), request.current_size) && self.capacity_mips()
            >= request.current_mip_level_count && self.creation_fields_allow_reuse_for(request)
    }

    /// The shape of an allocation at the current size.
    pub fn current_allocation_shape(&self) -> (r: FrameResourceShape)
        ensures
            r == (FrameResourceShape::Texture {
                size: self.spec_current_size(),
                mip_level_count: self.spec_current_mips(),
            }),
    {
        FrameResourceShape::Texture { size: self.current_size, mip_level_count: self.current_mip_level_count }
    }

    /// The shape of an allocation at full capacity.
    pub fn max_capacity_shape(&self) -> (r: FrameResourceShape)
        ensures
            r == (FrameResourceShape::Texture { size: self.capacity(), mip_level_count: self.capacity_mip_count() }),
    {
        FrameResourceShape::Texture { size: self.capacity_size(), mip_level_count: self.capacity_mips() }
    }

    /// Whether `shape` is a texture shape this request can be allocated at.
    pub open spec fn shape_allowed(&self, shape: FrameResourceShape) -> FrameResourceResult<()> {
        match shape {
            FrameResourceShape::Buffer { .. } => Err(FrameResourceError::InvalidOperation {
                operation: "FrameTextureDesc::concrete_descriptor_for_shape",
                reason: "shape is not a texture shape",
            }),
            FrameResourceShape::Texture { size, mip_level_count } => if extent_has_zero(size) {
                Err(texture_error("concrete texture size"))
            } else if !extent_contains(self.capacity(), size) {
                Err(FrameResourceError::InvalidOperation {
                    operation: "FrameTextureDesc::concrete_descriptor_for_shape",
                    reason: "concrete texture size exceeds descriptor capacity",
                })
            } else if mip_level_count == 0 || mip_level_count > self.capacity_mip_count() {
                Err(FrameResourceError::InvalidOperation {
                    operation: "FrameTextureDesc::concrete_descriptor_for_shape",
                    reason: "concrete mip level count exceeds descriptor capacity",
                })
            } else if mip_level_count > mip_limit(size) {
                Err(FrameResourceError::InvalidOperation {
                    operation: "FrameTextureDesc::concrete_descriptor_for_shape",
                    reason: "concrete mip level count exceeds concrete texture size",
                })
            } else {
                Ok(())
            },
        }
    }

    /// The creation descriptor of an allocation of this request at `shape`.
    pub fn concrete_descriptor_for_shape(&self, shape: FrameResourceShape) -> (r: FrameResourceResult<
        FrameTextureDescriptor,
    >)
        ensures
            r is Ok <==> self.shape_allowed(shape) is Ok,
            r is Err ==> r->Err_0 == self.shape_allowed(shape)->Err_0,
            r is Ok ==> (shape matches FrameResourceShape::Texture { size, mip_level_count } && r->Ok_0.same_as(
                &FrameTextureDescriptor { size, mip_level_count, ..self.spec_descriptor() },
            )),
    {
        let (size, mip_level_count) = match shape {
            FrameResourceShape::Texture { size, mip_level_count } => (size, mip_level_count),
            FrameResourceShape::Buffer { .. } => {
                return Err(FrameResourceError::InvalidOperation {
                    operation: "FrameTextureDesc::concrete_descriptor_for_shape",
                    reason: "shape is not a texture shape",
                });
            },
        };
        match validate_texture_size("concrete texture size", size) {
            Ok(()) => {},
            Err(e) => return Err(e),
        }
        if !texture_size_contains(self.capacity_size(), size) {
            return Err(FrameResourceError::InvalidOperation {
                operation: "FrameTextureDesc::concrete_descriptor_for_shape",
                reason: "concrete texture size exceeds descriptor capacity",
            });
        }
        if mip_level_count == 0 || mip_level_count > self.capacity_mips() {
            return Err(FrameResourceError::InvalidOperation {
                operation: "FrameTextureDesc::concrete_descriptor_for_shape",
                reason: "concrete mip level count exceeds descriptor capacity",
            });
        }
        if mip_level_count > max_mip_levels_for_size(size) {
            return Err(FrameResourceError::InvalidOperation {
                operation: "FrameTextureDesc::concrete_descriptor_for_shape",
                reason: "concrete mip level count exceeds concrete texture size",
            });
        }
        let mut descriptor = self.descriptor.copy();
        descriptor.size = size;
        descriptor.mip_level_count = mip_level_count;
        Ok(descriptor)
    }

    /// A request for exactly one allocation at `shape`: no growth room, the
    /// clear policy kept.
    pub fn concrete_capacity_desc_for_shape(&self, shape: FrameResourceShape) -> (r: FrameResourceResult<Self>)
        ensures
            r is Ok <==> self.shape_allowed(shape) is Ok,
            r is Err ==> r->Err_0 == self.shape_allowed(shape)->Err_0,
            r is Ok ==> (shape matches FrameResourceShape::Texture { size, mip_level_count } && {
                let d = r->Ok_0;
                &&& d.spec_descriptor().same_as(&FrameTextureDescriptor { size, mip_level_count, ..self.spec_descriptor() })
                &&& d.spec_current_size() == size
                &&& d.spec_max_size() is None
                &&& d.spec_current_mips() == mip_level_count
                &&& d.spec_max_mips() is None
                &&& d.spec_clear_to_zero() == self.spec_clear_to_zero()
            }),
    {
        let descriptor = match self.concrete_descriptor_for_shape(shape) {
            Ok(d) => d,
            Err(e) => return Err(e),
        };
        Ok(FrameTextureDesc::new(descriptor).with_clear_to_zero(self.clear_to_zero))
    }
}

impl FrameBufferDesc {
    pub closed spec fn spec_descriptor(&self) -> FrameBufferDescriptor {
        self.descriptor
    }

    pub closed spec fn spec_current_size(&self) -> u64 {
        self.current_size_bytes
    }

    pub closed spec fn spec_max_size(&self) -> Option<u64> {
        self.max_size_bytes
    }

    pub closed spec fn spec_stride(&self) -> Option<u64> {
        self.element_stride
    }

    /// The size allocations of this request are made with.
    pub open spec fn capacity(&self) -> u64 {
        match self.spec_max_size() {
            Some(m) => m,
            None => self.spec_current_size(),
        }
    }

    /// The outcome of validation: the first rule the descriptor breaks.
    pub open spec fn validation(&self) -> FrameResourceResult<()> {
        let op = "FrameBufferDesc::validate";
        if self.spec_current_size() == 0 {
            Err(buffer_error(op, "current buffer size must be greater than zero"))
        } else if self.spec_max_size() is Some && self.spec_max_size()->0 < self.spec_current_size() {
            Err(buffer_error(op, "maximum buffer size is smaller than current buffer size"))
        } else if self.spec_stride() is Some && self.spec_stride()->0 == 0 {
            Err(buffer_error(op, "buffer element stride must be greater than zero"))
        } else if self.spec_stride() is Some && self.spec_current_size() % self.spec_stride()->0 != 0 {
            Err(buffer_error(op, "current buffer size is not a multiple of element stride"))
        } else if self.spec_stride() is Some && self.spec_max_size() is Some && self.spec_max_size()->0
            % self.spec_stride()->0 != 0 {
            Err(buffer_error(op, "maximum buffer size is not a multiple of element stride"))
        } else {
            Ok(())
        }
    }

    /// Whether the creation fields of two descriptors are equal.
    pub open spec fn same_creation(&self, other: &Self) -> bool {
        &&& self.spec_descriptor().usage == other.spec_descriptor().usage
        &&& self.spec_descriptor().mapped_at_creation == other.spec_descriptor().mapped_at_creation
    }

    /// Whether an allocation made for this request can serve `request`.
    pub open spec fn reusable_for(&self, request: &Self) -> bool {
        &&& self.capacity() >= request.spec_current_size()
        &&& self.spec_stride() == request.spec_stride()
        &&& usage_contains(self.spec_descriptor().usage, request.spec_descriptor().usage)
        &&& self.spec_descriptor().mapped_at_creation == request.spec_descriptor().mapped_at_creation
    }

    /// A request for `descriptor` at its own size, with no growth room and no
    /// element stride.
    pub fn new(descriptor: FrameBufferDescriptor) -> (r: Self)
        ensures
            r.spec_descriptor() == descriptor,
            r.spec_current_size() == descriptor.size,
            r.spec_max_size() is None,
            r.spec_stride() is None,
    {
        FrameBufferDesc { current_size_bytes: descriptor.size, max_size_bytes: None, element_stride: None, descriptor }
    }

    pub fn descriptor(&self) -> (r: &FrameBufferDescriptor)
        ensures
            *r == self.spec_descriptor(),
    {
        &self.descriptor
    }

    pub fn current_size_bytes(&self) -> (r: u64)
        ensures
            r == self.spec_current_size(),
    {
        self.current_size_bytes
    }

    pub fn max_size_bytes(&self) -> (r: Option<u64>)
        ensures
            r == self.spec_max_size(),
    {
        self.max_size_bytes
    }

    pub fn element_stride(&self) -> (r: Option<u64>)
        ensures
            r == self.spec_stride(),
    {
        self.element_stride
    }

    /// The same request at another current size; the descriptor follows.
    pub fn with_current_size_bytes(self, current_size_bytes: u64) -> (r: Self)
        ensures
            r.spec_current_size() == current_size_bytes,
            r.spec_descriptor() == (FrameBufferDescriptor { size: current_size_bytes, ..self.spec_descriptor() }),
            r.spec_max_size() == self.spec_max_size(),
            r.spec_stride() == self.spec_stride(),
    {
        let mut r = self;
        r.current_size_bytes = current_size_bytes;
        r.descriptor.size = current_size_bytes;
        r
    }

    /// The same request with another maximum size.
    pub fn with_max_size_bytes(self, max_size_bytes: Option<u64>) -> (r: Self)
        ensures
            r.spec_max_size() == max_size_bytes,
            r.spec_descriptor() == self.spec_descriptor(),
            r.spec_current_size() == self.spec_current_size(),
            r.spec_stride() == self.spec_stride(),
    {
        let mut r = self;
        r.max_size_bytes = max_size_bytes;
        r
    }

    /// The same request with another element stride.
    pub fn with_element_stride(self, element_stride: Option<u64>) -> (r: Self)
        ensures
            r.spec_stride() == element_stride,
            r.spec_descriptor() == self.spec_descriptor(),
            r.spec_current_size() == self.spec_current_size(),
            r.spec_max_size() == self.spec_max_size(),
    {
        let mut r = self;
        r.element_stride = element_stride;
        r
    }

    fn capacity_size_bytes(&self) -> (r: u64)
        ensures
            r == self.capacity(),
    {
        match self.max_size_bytes {
            Some(m) => m,
            None => self.current_size_bytes,
        }
    }

    /// Checks sizes and stride against each other.
    pub fn validate(&self) -> (r: FrameResourceResult<()>)
        ensures
            r == self.validation(),
    {
        if self.current_size_bytes == 0 {
            return Err(FrameResourceError::InvalidOperation {
                operation: "FrameBufferDesc::validate",
                reason: "current buffer size must be greater than zero",
            });
        }
        match self.max_size_bytes {
            Some(max_size_bytes) => {
                if max_size_bytes < self.current_size_bytes {
                    return Err(FrameResourceError::InvalidOperation {
                        operation: "FrameBufferDesc::validate",
                        reason: "maximum buffer size is smaller than current buffer size",
                    });
                }
            },
            None => {},
        }
        match self.element_stride {
            Some(element_stride) => {
                if element_stride == 0 {
                    return Err(FrameResourceError::InvalidOperation {
                        operation: "FrameBufferDesc::validate",
                        reason: "buffer element stride must be greater than zero",
                    });
                }
                if self.current_size_bytes % element_stride != 0 {
                    return Err(FrameResourceError::InvalidOperation {
                        operation: "FrameBufferDesc::validate",
                        reason: "current buffer size is not a multiple of element stride",
                    });
                }
                match self.max_size_bytes {
                    Some(max_size_bytes) => {
                        if max_size_bytes % element_stride != 0 {
                            return Err(FrameResourceError::InvalidOperation {
                                operation: "FrameBufferDesc::validate",
                                reason: "maximum buffer size is not a multiple of element stride",
                            });
                        }
                    },
                    None => {},
                }
            },
            None => {},
        }
        Ok(())
    }

    fn creation_fields_equal(&self, other: &Self) -> (r: bool)
        ensures
            r == self.same_creation(other),
    {
        self.descriptor.usage == other.descriptor.usage && self.descriptor.mapped_at_creation
            == other.descriptor.mapped_at_creation
    }

    /// Whether two requests describe the same allocation in every field.
    pub fn is_exact_match(&self, other: &Self) -> (r: bool)
        ensures
            r == (self.spec_current_size() == other.spec_current_size() && self.spec_max_size()
                == other.spec_max_size() && self.spec_stride() == other.spec_stride() && self.same_creation(other)),
    {
        self.current_size_bytes == other.current_size_bytes && self.max_size_bytes == other.max_size_bytes
            && self.element_stride == other.element_stride && self.creation_fields_equal(other)
    }

    /// Whether two requests agree in every field but the maximum size.
    pub fn is_equal_ignoring_max_size(&self, other: &Self) -> (r: bool)
        ensures
            r == (self.spec_current_size() == other.spec_current_size() && self.spec_stride()
                == other.spec_stride() && self.same_creation(other)),
    {
        self.current_size_bytes == other.current_size_bytes && self.element_stride == other.element_stride
            && self.creation_fields_equal(other)
    }

    /// Whether two requests can swap allocations.
    pub fn is_compatible_for_swap(&self, other: &Self) -> (r: bool)
        ensures
            r == (self.spec_current_size() == other.spec_current_size() && self.spec_stride()
                == other.spec_stride() && self.same_creation(other)),
    {
        self.current_size_bytes == other.current_size_bytes && self.element_stride == other.element_stride
            && self.creation_fields_equal(other)
    }

    /// Whether an allocation made for this request can serve `request`.
    pub fn can_reuse_for(&self, request: &Self) -> (r: bool)
        ensures
            r == self.reusable_for(request),
    {
        self.capacity_size_bytes() >= request.current_size_bytes && self.element_stride == request.element_stride
            && self.descriptor.usage & request.descriptor.usage == request.descriptor.usage
            && self.descriptor.mapped_at_creation == request.descriptor.mapped_at_creation
    }

    /// The shape of an allocation at the current size.
    pub fn current_allocation_shape(&self) -> (r: FrameResourceShape)
        ensures
            r == (FrameResourceShape::Buffer { size_bytes: self.spec_current_size() }),
    {
        FrameResourceShape::Buffer { size_bytes: self.current_size_bytes }
    }

    /// The shape of an allocation at full capacity.
    pub fn max_capacity_shape(&self) -> (r: FrameResourceShape)
        ensures
            r == (FrameResourceShape::Buffer { size_bytes: self.capacity() }),
    {
        FrameResourceShape::Buffer { size_bytes: self.capacity_size_bytes() }
    }

    /// Whether `shape` is a buffer shape this request can be allocated at.
    pub open spec fn shape_allowed(&self, shape: FrameResourceShape) -> FrameResourceResult<()> {
        let op = "FrameBufferDesc::concrete_descriptor_for_shape";
        match shape {
            FrameResourceShape::Texture { .. } => Err(buffer_error(op, "shape is not a buffer shape")),
            FrameResourceShape::Buffer { size_bytes } => if size_bytes == 0 {
                Err(buffer_error(op, "concrete buffer size must be greater than zero"))
            } else if size_bytes > self.capacity() {
                Err(buffer_error(op, "concrete buffer size exceeds descriptor capacity"))
            } else if self.spec_stride() is Some && size_bytes % self.spec_stride()->0 != 0 {
                Err(buffer_error(op, "concrete buffer size is not a multiple of element stride"))
            } else {
                Ok(())
            },
        }
    }

    /// The creation descriptor of an allocation of this request at `shape`.
    pub fn concrete_descriptor_for_shape(&self, shape: FrameResourceShape) -> (r: FrameResourceResult<
        FrameBufferDescriptor,
    >)
        requires
            self.spec_stride() is Some ==> self.spec_stride()->0 != 0,
        ensures
            r is Ok <==> self.shape_allowed(shape) is Ok,
            r is Err ==> r->Err_0 == self.shape_allowed(shape)->Err_0,
            r is Ok ==> (shape matches FrameResourceShape::Buffer { size_bytes } && r->Ok_0 == (
            FrameBufferDescriptor { size: size_bytes, ..self.spec_descriptor() })),
    {
        let size_bytes = match shape {
            FrameResourceShape::Buffer { size_bytes } => size_bytes,
            FrameResourceShape::Texture { .. } => {
                return Err(FrameResourceError::InvalidOperation {
                    operation: "FrameBufferDesc::concrete_descriptor_for_shape",
                    reason: "shape is not a buffer shape",
                });
            },
        };
        if size_bytes == 0 {
            return Err(FrameResourceError::InvalidOperation {
                operation: "FrameBufferDesc::concrete_descriptor_for_shape",
                reason: "concrete buffer size must be greater than zero",
            });
        }
        if size_bytes > self.capacity_size_bytes() {
            return Err(FrameResourceError::InvalidOperation {
                operation: "FrameBufferDesc::concrete_descriptor_for_shape",
                reason: "concrete buffer size exceeds descriptor capacity",
            });
        }
        match self.element_stride {
            Some(element_stride) => {
                if size_bytes % element_stride != 0 {
                    return Err(FrameResourceError::InvalidOperation {
                        operation: "FrameBufferDesc::concrete_descriptor_for_shape",
                        reason: "concrete buffer size is not a multiple of element stride",
                    });
                }
            },
            None => {},
        }
        Ok(FrameBufferDescriptor {
            size: size_bytes,
            usage: self.descriptor.usage,
            mapped_at_creation: self.descriptor.mapped_at_creation,
        })
    }

    /// A request for exactly one allocation at `shape`, keeping the element stride.
    pub fn concrete_capacity_desc_for_shape(&self, shape: FrameResourceShape) -> (r: FrameResourceResult<Self>)
        requires
            self.spec_stride() is Some ==> self.spec_stride()->0 != 0,
        ensures
            r is Ok <==> self.shape_allowed(shape) is Ok,
            r is Err ==> r->Err_0 == self.shape_allowed(shape)->Err_0,
            r is Ok ==> (shape matches FrameResourceShape::Buffer { size_bytes } && {
                let d = r->Ok_0;
                &&& d.spec_descriptor() == (FrameBufferDescriptor { size: size_bytes, ..self.spec_descriptor() })
                &&& d.spec_current_size() == size_bytes
                &&& d.spec_max_size() is None
                &&& d.spec_stride() == self.spec_stride()
            }),
    {
        let descriptor = match self.concrete_descriptor_for_shape(shape) {
            Ok(d) => d,
            Err(e) => return Err(e),
        };
        Ok(FrameBufferDesc::new(descriptor).with_element_stride(self.element_stride))
    }
}

impl FrameResourceDesc {
    /// The outcome of validating the descriptor.
    pub open spec fn validation(&self) -> FrameResourceResult<()> {
        match self {
            FrameResourceDesc::Texture(d) => d.validation(),
            FrameResourceDesc::Buffer(d) => d.validation(),
        }
    }

    /// Whether an allocation made for this request can serve `request`; a
    /// texture never serves a buffer request or the other way round.
    pub open spec fn reusable_for(&self, request: &Self) -> bool {
        match (self, request) {
            (FrameResourceDesc::Texture(a), FrameResourceDesc::Texture(b)) => a.reusable_for(b),
            (FrameResourceDesc::Buffer(a), FrameResourceDesc::Buffer(b)) => a.reusable_for(b),
            _ => false,
        }
    }

    /// The shape of an allocation at the current size.
    pub open spec fn current_shape(&self) -> FrameResourceShape {
        match self {
            FrameResourceDesc::Texture(d) => FrameResourceShape::Texture {
                size: d.spec_current_size(),
                mip_level_count: d.spec_current_mips(),
            },
            FrameResourceDesc::Buffer(d) => FrameResourceShape::Buffer { size_bytes: d.spec_current_size() },
        }
    }

    /// Whether `shape` is one this request can be allocated at.
    pub open spec fn shape_allowed(&self, shape: FrameResourceShape) -> FrameResourceResult<()> {
        match self {
            FrameResourceDesc::Texture(d) => d.shape_allowed(shape),
            FrameResourceDesc::Buffer(d) => d.shape_allowed(shape),
        }
    }

    /// Whether two requests are of one kind and hold the same fields.
    pub open spec fn same_as(&self, other: &Self) -> bool {
        match (self, other) {
            (FrameResourceDesc::Texture(a), FrameResourceDesc::Texture(b)) => a.same_as(b),
            (FrameResourceDesc::Buffer(a), FrameResourceDesc::Buffer(b)) => a == b,
            _ => false,
        }
    }

    /// A copy of the request.
    pub fn copy(&self) -> (r: Self)
        ensures
            r.same_as(self),
    {
        match self {
            FrameResourceDesc::Texture(d) => FrameResourceDesc::Texture(d.copy()),
            FrameResourceDesc::Buffer(d) => FrameResourceDesc::Buffer(*d),
        }
    }

    /// Whether a buffer request's element stride, when set, is nonzero.
    pub open spec fn stride_nonzero(&self) -> bool {
        match self {
            FrameResourceDesc::Texture(_) => true,
            FrameResourceDesc::Buffer(d) => d.spec_stride() is Some ==> d.spec_stride()->0 != 0,
        }
    }

    /// Checks the descriptor.
    pub fn validate(&self) -> (r: FrameResourceResult<()>)
        ensures
            r == self.validation(),
    {
        match self {
            FrameResourceDesc::Texture(d) => d.validate(),
            FrameResourceDesc::Buffer(d) => d.validate(),
        }
    }

    /// Whether two requests of one kind describe the same allocation in every
    /// field but the debug label.
    pub open spec fn exact_match(&self, other: &Self) -> bool {
        match (self, other) {
            (FrameResourceDesc::Texture(a), FrameResourceDesc::Texture(b)) => a.spec_current_size()
                == b.spec_current_size() && a.spec_max_size() == b.spec_max_size() && a.spec_current_mips()
                == b.spec_current_mips() && a.spec_max_mips() == b.spec_max_mips() && a.spec_clear_to_zero()
                == b.spec_clear_to_zero() && a.same_creation(b),
            (FrameResourceDesc::Buffer(a), FrameResourceDesc::Buffer(b)) => a.spec_current_size()
                == b.spec_current_size() && a.spec_max_size() == b.spec_max_size() && a.spec_stride()
                == b.spec_stride() && a.same_creation(b),
            _ => false,
        }
    }

    /// Whether two requests describe the same allocation in every field.
    pub fn is_exact_match(&self, other: &Self) -> (r: bool)
        ensures
            r == self.exact_match(other),
    {
        match (self, other) {
            (FrameResourceDesc::Texture(a), FrameResourceDesc::Texture(b)) => a.is_exact_match(b),
            (FrameResourceDesc::Buffer(a), FrameResourceDesc::Buffer(b)) => a.is_exact_match(b),
            _ => false,
        }
    }

    /// Whether two requests of one kind agree in every field but the maximum size.
    pub fn is_equal_ignoring_max_size(&self, other: &Self) -> (r: bool)
        ensures
            r == match (self, other) {
                (FrameResourceDesc::Texture(a), FrameResourceDesc::Texture(b)) => a.spec_current_size()
                    == b.spec_current_size() && a.spec_current_mips() == b.spec_current_mips()
                    && a.spec_clear_to_zero() == b.spec_clear_to_zero() && a.same_creation(b),
                (FrameResourceDesc::Buffer(a), FrameResourceDesc::Buffer(b)) => a.spec_current_size()
                    == b.spec_current_size() && a.spec_stride() == b.spec_stride() && a.same_creation(b),
                _ => false,
            },
    {
        match (self, other) {
            (FrameResourceDesc::Texture(a), FrameResourceDesc::Texture(b)) => a.is_equal_ignoring_max_size(b),
            (FrameResourceDesc::Buffer(a), FrameResourceDesc::Buffer(b)) => a.is_equal_ignoring_max_size(b),
            _ => false,
        }
    }

    /// Whether two requests of one kind can swap allocations: same current
    /// size (and mip count or element stride) and same creation fields.
    pub open spec fn swap_compatible(&self, other: &Self) -> bool {
        match (self, other) {
            (FrameResourceDesc::Texture(a), FrameResourceDesc::Texture(b)) => a.spec_current_size()
                == b.spec_current_size() && a.spec_current_mips() == b.spec_current_mips() && a.same_creation(b),
            (FrameResourceDesc::Buffer(a), FrameResourceDesc::Buffer(b)) => a.spec_current_size()
                == b.spec_current_size() && a.spec_stride() == b.spec_stride() && a.same_creation(b),
            _ => false,
        }
    }

    /// Whether two requests of one kind can swap allocations.
    pub fn is_compatible_for_swap(&self, other: &Self) -> (r: bool)
        ensures
            r == self.swap_compatible(other),
            r == match (self, other) {
                (FrameResourceDesc::Texture(a), FrameResourceDesc::Texture(b)) => a.spec_current_size()
                    == b.spec_current_size() && a.spec_current_mips() == b.spec_current_mips() && a.same_creation(b),
                (FrameResourceDesc::Buffer(a), FrameResourceDesc::Buffer(b)) => a.spec_current_size()
                    == b.spec_current_size() && a.spec_stride() == b.spec_stride() && a.same_creation(b),
                _ => false,
            },
    {
        match (self, other) {
            (FrameResourceDesc::Texture(a), FrameResourceDesc::Texture(b)) => a.is_compatible_for_swap(b),
            (FrameResourceDesc::Buffer(a), FrameResourceDesc::Buffer(b)) => a.is_compatible_for_swap(b),
            _ => false,
        }
    }

    /// Whether an allocation made for this request can serve `request`.
    pub fn can_reuse_for(&self, request: &Self) -> (r: bool)
        ensures
            r == self.reusable_for(request),
    {
        match (self, request) {
            (FrameResourceDesc::Texture(existing), FrameResourceDesc::Texture(request)) => existing.can_reuse_for(
                request,
            ),
            (FrameResourceDesc::Buffer(existing), FrameResourceDesc::Buffer(request)) => existing.can_reuse_for(
                request,
            ),
            _ => false,
        }
    }

    /// The shape of an allocation at the current size.
    pub fn current_allocation_shape(&self) -> (r: FrameResourceShape)
        ensures
            r == self.current_shape(),
    {
        match self {
            FrameResourceDesc::Texture(d) => d.current_allocation_shape(),
            FrameResourceDesc::Buffer(d) => d.current_allocation_shape(),
        }
    }

    /// The shape of an allocation at full capacity.
    pub fn max_capacity_shape(&self) -> (r: FrameResourceShape)
        ensures
            r == match self {
                FrameResourceDesc::Texture(d) => FrameResourceShape::Texture {
                    size: d.capacity(),
                    mip_level_count: d.capacity_mip_count(),
                },
                FrameResourceDesc::Buffer(d) => FrameResourceShape::Buffer { size_bytes: d.capacity() },
            },
    {
        match self {
            FrameResourceDesc::Texture(d) => d.max_capacity_shape(),
            FrameResourceDesc::Buffer(d) => d.max_capacity_shape(),
        }
    }

    /// Whether `c` is the request for exactly one allocation of `self` at
    /// `shape`: the same kind and creation fields, sized at `shape`, with no
    /// growth room.
    pub open spec fn is_capacity_at(&self, c: &Self, shape: FrameResourceShape) -> bool {
        match (self, c) {
            (FrameResourceDesc::Texture(a), FrameResourceDesc::Texture(d)) => shape matches FrameResourceShape::Texture {
                size,
                mip_level_count,
            } && d.spec_descriptor().same_as(&FrameTextureDescriptor { size, mip_level_count, ..a.spec_descriptor() })
                && d.spec_current_size() == size && d.spec_max_size() is None && d.spec_current_mips() == mip_level_count
                && d.spec_max_mips() is None && d.spec_clear_to_zero() == a.spec_clear_to_zero(),
            (FrameResourceDesc::Buffer(a), FrameResourceDesc::Buffer(d)) => shape matches FrameResourceShape::Buffer {
                size_bytes,
            } && d.spec_descriptor() == (FrameBufferDescriptor { size: size_bytes, ..a.spec_descriptor() })
                && d.spec_current_size() == size_bytes && d.spec_max_size() is None && d.spec_stride() == a.spec_stride(),
            _ => false,
        }
    }

    /// A request for exactly one allocation at `shape`, of the same kind.
    pub fn concrete_capacity_desc_for_shape(&self, shape: FrameResourceShape) -> (r: FrameResourceResult<Self>)
        requires
            self.stride_nonzero(),
        ensures
            r is Ok <==> self.shape_allowed(shape) is Ok,
            r is Err ==> r->Err_0 == self.shape_allowed(shape)->Err_0,
            r is Ok ==> self.is_capacity_at(&r->Ok_0, shape),
    {
        match self {
            FrameResourceDesc::Texture(d) => match d.concrete_capacity_desc_for_shape(shape) {
                Ok(c) => Ok(FrameResourceDesc::Texture(c)),
                Err(e) => Err(e),
            },
            FrameResourceDesc::Buffer(d) => match d.concrete_capacity_desc_for_shape(shape) {
                Ok(c) => Ok(FrameResourceDesc::Buffer(c)),
                Err(e) => Err(e),
            },
        }
    }
}

/// Two texture requests have equal creation fields exactly when their
/// sample counts, dimensions, formats, usage flags and view formats agree: a
/// multisampled texture never shares creation fields with a single-sampled one.
pub proof fn lemma_texture_creation_fields(a: FrameTextureDesc, b: FrameTextureDesc)
    ensures
        a.same_creation(&b) <==> (a.spec_descriptor().sample_count == b.spec_descriptor().sample_count
            && a.spec_descriptor().dimension == b.spec_descriptor().dimension && a.spec_descriptor().format
            == b.spec_descriptor().format && a.spec_descriptor().usage == b.spec_descriptor().usage
            && a.spec_descriptor().view_formats@ == b.spec_descriptor().view_formats@),
{
}

/// Texture requests whose sample counts differ are never exact matches and
/// never swap-compatible, so the lifetime solver refuses to swap them.
pub proof fn lemma_sample_count_mismatch_blocks_match_and_swap(a: FrameResourceDesc, b: FrameResourceDesc)
    requires
        a is Texture,
        b is Texture,
        a->Texture_0.spec_descriptor().sample_count != b->Texture_0.spec_descriptor().sample_count,
    ensures
        !a.exact_match(&b),
        !a.swap_compatible(&b),
        !b.exact_match(&a),
        !b.swap_compatible(&a),
        !a->Texture_0.same_creation(&b->Texture_0),
{
}

/// The mip limit of an extent is the bit length of its largest axis: every
/// axis fits below bit `limit`, some axis has a bit at `limit - 1` or above,
/// and the limit is 0 exactly when every axis is 0.
pub proof fn lemma_mip_limit_is_bit_length(size: FrameTextureExtent)
    ensures
        0 <= mip_limit(size) <= 32,
        mip_limit(size) == 0 <==> (size.width == 0 && size.height == 0 && size.depth_or_array_layers == 0),
        mip_limit(size) < 32 ==> size.width >> (mip_limit(size) as u32) == 0 && size.height >> (mip_limit(
            size,
        ) as u32) == 0 && size.depth_or_array_layers >> (mip_limit(size) as u32) == 0,
        mip_limit(size) > 0 ==> size.width >> ((mip_limit(size) - 1) as u32) != 0 || size.height >> ((mip_limit(
            size,
        ) - 1) as u32) != 0 || size.depth_or_array_layers >> ((mip_limit(size) - 1) as u32) != 0,
{
    let m = spec_max3(size.width, size.height, size.depth_or_array_layers);
    vstd::std_specs::bits::axiom_u32_leading_zeros(m);
    let lz = vstd::std_specs::bits::u32_leading_zeros(m);
    let l = mip_limit(size);
    assert(l == 32 - lz);
    assert(size.width <= m && size.height <= m && size.depth_or_array_layers <= m);
    assert(m == size.width || m == size.height || m == size.depth_or_array_layers);
    if l < 32 {
        let k = l as u32;
        assert(m >> k == 0);
        let w = size.width;
        let h = size.height;
        let d = size.depth_or_array_layers;
        assert(w <= m && m >> k == 0 ==> w >> k == 0) by (bit_vector);
        assert(h <= m && m >> k == 0 ==> h >> k == 0) by (bit_vector);
        assert(d <= m && m >> k == 0 ==> d >> k == 0) by (bit_vector);
    }
    if l > 0 {
        let k = (l - 1) as u32;
        assert((m >> k) & 1u32 != 0u32);
        assert((m >> k) & 1u32 != 0u32 ==> m >> k != 0) by (bit_vector);
    }
}

/// The mip limit does not depend on which axis holds the largest extent.
pub proof fn lemma_mip_limit_symmetric(w: u32, h: u32, d: u32)
    ensures
        mip_limit(FrameTextureExtent { width: w, height: h, depth_or_array_layers: d }) == mip_limit(
            FrameTextureExtent { width: h, height: w, depth_or_array_layers: d },
        ),
        mip_limit(FrameTextureExtent { width: w, height: h, depth_or_array_layers: d }) == mip_limit(
            FrameTextureExtent { width: d, height: h, depth_or_array_layers: w },
        ),
{
    assert(spec_max3(w, h, d) == spec_max3(h, w, d));
    assert(spec_max3(w, h, d) == spec_max3(d, h, w));
}

} // verus!
