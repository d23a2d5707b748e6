//! Plain records exchanged with the native core.

use vstd::prelude::*;

use crate::single::Single;

verus! {

/// Creation parameters of a context.
#[derive(Debug, Clone, Copy, PartialEq, Eq, Structural)]
pub struct IgsrConfigFfi {
    pub render_w: u32,
    pub render_h: u32,
    pub display_w: u32,
    pub display_h: u32,
    pub prefer_compute: i32,
    pub three_pass: i32,
    pub reset: u32,
}

/// Frame uniforms as the core packs them.
#[derive(Debug, Clone, Copy)]
pub struct IgsrParamsFfi {
    pub render_size: [Single; 2],
    pub display_size: [Single; 2],
    pub render_size_rcp: [Single; 2],
    pub display_size_rcp: [Single; 2],
    pub jitter: [Single; 2],
    pub clip_to_prev_clip: [Single; 16],
    pub pre_exposure: Single,
    pub camera_fov_hor: Single,
    pub camera_near: Single,
    pub min_lerp_contrib: Single,
    pub same_camera_frames: u32,
    pub reset: u32,
}

/// Frame inputs as the core takes them.
#[derive(Debug, Clone, Copy)]
pub struct IgsrFrameInputsFfi {
    pub jitter: [Single; 2],
    pub clip_to_prev: [Single; 16],
    pub pre_exposure: Single,
    pub camera_fov_hor: Single,
    pub camera_near: Single,
    pub min_lerp_contrib: Single,
    pub same_camera_frames: u32,
    pub reset: u32,
}

} // verus!
