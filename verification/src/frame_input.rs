//! Identifiers and per-frame intent flags submitted with a frame.
use vstd::prelude::*;

verus! {

#[derive(Clone, Copy, Debug, PartialEq, Eq, Hash, Structural)]
pub struct RenderSceneId(pub u64);

#[derive(Clone, Copy, Debug, PartialEq, Eq, Hash, Structural)]
pub struct RenderCameraId(pub u64);

#[derive(Clone, Copy, Debug, PartialEq, Eq, Hash, Structural)]
pub struct CameraRenderSetupKey(pub u64);

/// How much of the frame is rendered.
#[derive(Clone, Copy, Debug, PartialEq, Eq, Structural)]
pub enum FrameRenderingMode {
    Shaded,
    OverlayOnly,
    Blank,
}

impl FrameRenderingMode {
    /// Only fully shaded frames jitter the camera.
    pub fn allows_camera_jitter(self) -> (r: bool)
        ensures
            r == (self == FrameRenderingMode::Shaded),
    {
        matches!(self, FrameRenderingMode::Shaded)
    }

    /// Only fully shaded frames flush temporary cameras.
    pub fn flushes_temporary_cameras(self) -> (r: bool)
        ensures
            r == (self == FrameRenderingMode::Shaded),
    {
        matches!(self, FrameRenderingMode::Shaded)
    }
}

impl Default for FrameRenderingMode {
    fn default() -> (r: Self)
        ensures
            r == FrameRenderingMode::Shaded,
    {
        FrameRenderingMode::Shaded
    }
}

/// Why the frame is rendered.
#[derive(Clone, Copy, Debug, PartialEq, Eq, Structural)]
pub enum FramePurpose {
    Normal,
    Blank,
    Screenshot,
    DeferredScreenshot,
    EnvProbe,
    GlobalIllumination,
    GlobalIlluminationBackfaces,
}

impl FramePurpose {
    /// Every purpose other than a normal frame needs stable dissolves.
    pub fn requires_stable_dissolves(self) -> (r: bool)
        ensures
            r == (self != FramePurpose::Normal),
    {
        !matches!(self, FramePurpose::Normal)
    }
}

impl Default for FramePurpose {
    fn default() -> (r: Self)
        ensures
            r == FramePurpose::Normal,
    {
        FramePurpose::Normal
    }
}

#[derive(Clone, Copy, Debug, PartialEq, Eq, Structural)]
pub enum PresentationIntent {
    Present,
    NoPresent,
}

impl Default for PresentationIntent {
    fn default() -> (r: Self)
        ensures
            r == PresentationIntent::Present,
    {
        PresentationIntent::Present
    }
}

/// Whether and how the frame's output is captured.
#[derive(Clone, Copy, Debug, PartialEq, Eq, Structural)]
pub enum FrameCaptureIntent {
    NoCapture,
    Color,
    Layered,
}

impl Default for FrameCaptureIntent {
    fn default() -> (r: Self)
        ensures
            r == FrameCaptureIntent::NoCapture,
    {
        FrameCaptureIntent::NoCapture
    }
}

#[derive(Clone, Copy, Debug, PartialEq, Eq, Structural)]
pub struct FrameDebugIntent {
    pub stable_dissolves: bool,
}

impl Default for FrameDebugIntent {
    fn default() -> (r: Self)
        ensures
            !r.stable_dissolves,
    {
        FrameDebugIntent { stable_dissolves: false }
    }
}

} // verus!
