//! Camera dependency flags and prepared camera records.
use vstd::prelude::*;

use crate::frame_input::RenderCameraId;
use crate::viewport::RenderViewportRect;

verus! {

/// Flag bit: the dependency is temporary.
pub const CAMERA_TEMPORARY: u8 = 1u8;

/// Flag bit: the temporary dependency was requested this frame.
pub const CAMERA_TEMPORARY_REQUESTED: u8 = 2u8;

/// Flag bit: the dependency outputs color.
pub const CAMERA_OUTPUT_COLOR: u8 = 4u8;

/// Flag bit: the dependency outputs final color.
pub const CAMERA_OUTPUT_FINAL_COLOR: u8 = 8u8;

/// Flags of one camera-to-camera dependency.
#[derive(Clone, Copy, Debug, PartialEq, Eq, Structural)]
pub struct CameraDependencyFlags {
    bits: u8,
}

impl View for CameraDependencyFlags {
    type V = u8;

    closed spec fn view(&self) -> u8 {
        self.bits
    }
}

impl CameraDependencyFlags {
    pub fn empty() -> (r: Self)
        ensures
            r@ == 0,
    {
        CameraDependencyFlags { bits: 0 }
    }

    pub fn output_color() -> (r: Self)
        ensures
            r@ == CAMERA_OUTPUT_COLOR,
    {
        CameraDependencyFlags { bits: CAMERA_OUTPUT_COLOR }
    }

    pub fn output_final_color() -> (r: Self)
        ensures
            r@ == CAMERA_OUTPUT_FINAL_COLOR,
    {
        CameraDependencyFlags { bits: CAMERA_OUTPUT_FINAL_COLOR }
    }

    pub fn bits(self) -> (r: u8)
        ensures
            r == self@,
    {
        self.bits
    }

    pub fn is_temporary(self) -> (r: bool)
        ensures
            r == (self@ & CAMERA_TEMPORARY != 0),
    {
        self.bits & CAMERA_TEMPORARY != 0
    }

    pub fn was_requested_this_frame(self) -> (r: bool)
        ensures
            r == (self@ & CAMERA_TEMPORARY_REQUESTED != 0),
    {
        self.bits & CAMERA_TEMPORARY_REQUESTED != 0
    }

    /// Marks the dependency temporary and requested this frame.
    pub fn mark_temporary_requested(&mut self)
        ensures
            final(self)@ == old(self)@ | (CAMERA_TEMPORARY | CAMERA_TEMPORARY_REQUESTED),
            final(self).is_temporary_spec(),
            final(self).was_requested_spec(),
    {
        self.bits = self.bits | (CAMERA_TEMPORARY | CAMERA_TEMPORARY_REQUESTED);
        proof {
            let b = old(self)@;
            assert((b | (1u8 | 2u8)) & 1u8 != 0) by (bit_vector);
            assert((b | (1u8 | 2u8)) & 2u8 != 0) by (bit_vector);
        }
    }

    /// Clears the requested-this-frame flag.
    pub fn clear_temporary_requested(&mut self)
        ensures
            final(self)@ == old(self)@ & !CAMERA_TEMPORARY_REQUESTED,
            !final(self).was_requested_spec(),
            final(self).is_temporary_spec() == old(self).is_temporary_spec(),
    {
        self.bits = self.bits & !CAMERA_TEMPORARY_REQUESTED;
        proof {
            let b = old(self)@;
            assert((b & !2u8) & 2u8 == 0) by (bit_vector);
            assert(((b & !2u8) & 1u8 != 0) == (b & 1u8 != 0)) by (bit_vector);
        }
    }

    /// Clears both temporary flags and keeps the outputs.
    pub fn make_permanent(&mut self)
        ensures
            final(self)@ == old(self)@ & !(CAMERA_TEMPORARY | CAMERA_TEMPORARY_REQUESTED),
            !final(self).is_temporary_spec(),
            !final(self).was_requested_spec(),
    {
        self.bits = self.bits & !(CAMERA_TEMPORARY | CAMERA_TEMPORARY_REQUESTED);
        proof {
            let b = old(self)@;
            assert((b & !(1u8 | 2u8)) & 1u8 == 0) by (bit_vector);
            assert((b & !(1u8 | 2u8)) & 2u8 == 0) by (bit_vector);
        }
    }

    /// Adds the output flags of `outputs`, ignoring its temporary flags.
    pub fn add_outputs(&mut self, outputs: Self)
        ensures
            final(self)@ == old(self)@ | (outputs@ & (CAMERA_OUTPUT_COLOR | CAMERA_OUTPUT_FINAL_COLOR)),
            final(self).is_temporary_spec() == old(self).is_temporary_spec(),
            final(self).was_requested_spec() == old(self).was_requested_spec(),
    {
        self.bits = self.bits | (outputs.bits & (CAMERA_OUTPUT_COLOR | CAMERA_OUTPUT_FINAL_COLOR));
        proof {
            let b = old(self)@;
            let o = outputs@;
            assert(((b | (o & (4u8 | 8u8))) & 1u8 != 0) == (b & 1u8 != 0)) by (bit_vector);
            assert(((b | (o & (4u8 | 8u8))) & 2u8 != 0) == (b & 2u8 != 0)) by (bit_vector);
        }
    }

    /// Whether the temporary flag is set.
    pub open spec fn is_temporary_spec(self) -> bool {
        self@ & CAMERA_TEMPORARY != 0
    }

    /// Whether the requested-this-frame flag is set.
    pub open spec fn was_requested_spec(self) -> bool {
        self@ & CAMERA_TEMPORARY_REQUESTED != 0
    }
}

impl Default for CameraDependencyFlags {
    fn default() -> (r: Self)
        ensures
            r@ == 0,
    {
        CameraDependencyFlags { bits: 0 }
    }
}

#[derive(Clone, Copy, Debug, PartialEq, Eq, Structural)]
pub enum CameraManagement {
    Permanent,
    Temporal,
}

#[derive(Clone, Copy, Debug, PartialEq, Eq, Structural)]
pub enum CameraRenderPolicy {
    OnDemand,
    Always,
}

/// A camera that the prepared camera depends on, with the dependency's flags.
#[derive(Clone, Copy, Debug, PartialEq, Eq)]
pub struct PreparedCameraDependency {
    pub camera_id: RenderCameraId,
    pub flags: CameraDependencyFlags,
}

/// What was rendered for a camera in an earlier frame.
#[derive(Clone, Copy, Debug, PartialEq, Eq)]
pub struct PreparedCameraHistory {
    pub frame_index: u64,
    pub viewport: RenderViewportRect,
}

/// A camera selected for the frame with its dependencies and history.
#[derive(Clone, Debug, PartialEq, Eq)]
pub struct PreparedFrameCamera {
    pub camera_id: RenderCameraId,
    pub source_view_index: u32,
    pub render_flow_space: u32,
    pub viewport: RenderViewportRect,
    pub selected_dependencies: Vec<PreparedCameraDependency>,
    pub reset_temporal_history: bool,
    pub previous_frame: Option<PreparedCameraHistory>,
}

} // verus!
