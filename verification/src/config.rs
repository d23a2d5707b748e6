//! Quality modes, resolutions and per-frame inputs.

use vstd::prelude::*;

use crate::mat4;
use crate::records::{IgsrConfigFfi, IgsrFrameInputsFfi};
use crate::single;
use crate::single::Single;

verus! {

/// Upscale quality presets.
#[derive(Debug, Clone, Copy, PartialEq, Eq, Structural)]
pub enum QualityMode {
    /// Half the display size per axis. Fastest.
    Performance,
    /// About 59% per axis.
    Balanced,
    /// About 67% per axis.
    Quality,
    /// A render scale in whole percent, clamped to 25 through 100.
    Custom(u8),
}

/// The single-precision number nearest to 0.59.
pub const BALANCED_BITS: u32 = 0x3F17_0A3D;

/// The single-precision number nearest to 0.67.
pub const QUALITY_BITS: u32 = 0x3F2B_851F;

impl QualityMode {
    /// The magnitude of the render scale that the mode stands for.
    pub open spec fn magnitude(self) -> nat {
        match self {
            QualityMode::Performance => (Single { bits: single::HALF_BITS }).magnitude(),
            QualityMode::Balanced => (Single { bits: BALANCED_BITS }).magnitude(),
            QualityMode::Quality => (Single { bits: QUALITY_BITS }).magnitude(),
            QualityMode::Custom(pct) => single::percent_magnitude(pct),
        }
    }

    /// The render scale of the mode, between 0.25 and 1.0.
    pub fn render_scale(self) -> (r: Single)
        ensures
            single::counts(r),
            r.magnitude() == self.magnitude(),
            single::is_scale(r),
    {
        match self {
            QualityMode::Performance => fixed_scale(single::HALF_BITS),
            QualityMode::Balanced => fixed_scale(BALANCED_BITS),
            QualityMode::Quality => fixed_scale(QUALITY_BITS),
            QualityMode::Custom(pct) => single::percent(pct),
        }
    }
}

/// A scale given by its bit pattern.
fn fixed_scale(bits: u32) -> (r: Single)
    requires
        single::QUARTER_BITS < bits < single::ONE_BITS,
    ensures
        r.bits == bits,
        single::is_scale(r),
        !r.is_nan(),
{
    proof {
        single::constant_magnitudes();
        let s = Single { bits };
        single::bits_order_magnitudes(Single { bits: single::QUARTER_BITS }, s);
        single::bits_order_magnitudes(s, Single { bits: single::ONE_BITS });
    }
    Single { bits }
}

/// Resolutions and path preferences of one context.
#[derive(Debug, Clone, PartialEq, Eq, Structural)]
pub struct IgsrConfig {
    pub render_w: u32,
    pub render_h: u32,
    pub display_w: u32,
    pub display_h: u32,
    pub prefer_compute: bool,
    pub three_pass: bool,
}

/// A scaled dimension that is never zero.
pub open spec fn render_dim(display: u32, mode: QualityMode) -> nat {
    single::larger(single::scaled(display, mode.magnitude()), 1)
}

/// `c` is the configuration for a display and a quality mode.
pub open spec fn is_derived(c: IgsrConfig, display_w: u32, display_h: u32, mode: QualityMode) -> bool {
    &&& (c.display_w, c.display_h) == (display_w, display_h)
    &&& c.render_w == render_dim(display_w, mode)
    &&& c.render_h == render_dim(display_h, mode)
    &&& c.prefer_compute
    &&& !c.three_pass
}

/// The number of a switch.
pub open spec fn switch(on: bool) -> int {
    if on {
        1
    } else {
        0
    }
}

/// `r` is the record of `c`.
pub open spec fn is_config_record(c: IgsrConfig, r: IgsrConfigFfi) -> bool {
    &&& (r.render_w, r.render_h) == (c.render_w, c.render_h)
    &&& (r.display_w, r.display_h) == (c.display_w, c.display_h)
    &&& r.prefer_compute == switch(c.prefer_compute)
    &&& r.three_pass == switch(c.three_pass)
    &&& r.reset == 1
}

/// `r` is the record of `f`.
pub open spec fn is_inputs_record(f: FrameInputs, r: IgsrFrameInputsFfi) -> bool {
    &&& r.jitter@ == f.jitter@
    &&& r.clip_to_prev@ == f.clip_to_prev@
    &&& r.pre_exposure == f.pre_exposure
    &&& r.camera_fov_hor == f.camera_fov_hor
    &&& r.camera_near == f.camera_near
    &&& r.min_lerp_contrib == f.min_lerp
    &&& r.same_camera_frames == f.same_camera_frames
    &&& r.reset == switch(f.reset)
}

impl IgsrConfig {
    pub fn new(render_w: u32, render_h: u32, display_w: u32, display_h: u32) -> (r: Self)
        ensures
            r == (IgsrConfig {
                render_w,
                render_h,
                display_w,
                display_h,
                prefer_compute: true,
                three_pass: false,
            }),
    {
        IgsrConfig {
            render_w,
            render_h,
            display_w,
            display_h,
            prefer_compute: true,
            three_pass: false,
        }
    }

    /// Derives the render size from the display size and a quality mode: the
    /// scaled size, at least one pixel per axis.
    pub fn from_display(display_w: u32, display_h: u32, mode: QualityMode) -> (r: Self)
        ensures
            is_derived(r, display_w, display_h, mode),
            r.render_w == render_dim(display_w, mode),
            r.render_h == render_dim(display_h, mode),
            r.display_w == display_w,
            r.display_h == display_h,
            r.prefer_compute,
            !r.three_pass,
    {
        let s = mode.render_scale();
        let w = single::scaled_extent(display_w, s);
        let h = single::scaled_extent(display_h, s);
        let rw: u32 = if w < 1 {
            1
        } else {
            w
        };
        let rh: u32 = if h < 1 {
            1
        } else {
            h
        };
        IgsrConfig::new(rw, rh, display_w, display_h)
    }

    /// The record handed to the core; a fresh context starts with a reset.
    pub fn to_ffi(&self) -> (r: IgsrConfigFfi)
        ensures
            is_config_record(*self, r),
            r == (IgsrConfigFfi {
                render_w: self.render_w,
                render_h: self.render_h,
                display_w: self.display_w,
                display_h: self.display_h,
                prefer_compute: if self.prefer_compute {
                    1
                } else {
                    0
                },
                three_pass: if self.three_pass {
                    1
                } else {
                    0
                },
                reset: 1,
            }),
    {
        IgsrConfigFfi {
            render_w: self.render_w,
            render_h: self.render_h,
            display_w: self.display_w,
            display_h: self.display_h,
            prefer_compute: if self.prefer_compute {
                1
            } else {
                0
            },
            three_pass: if self.three_pass {
                1
            } else {
                0
            },
            reset: 1,
        }
    }
}

/// A quality mode never renders above the display size: for dimensions below
/// 2^24 the render dimension lies between one and the display dimension.
pub proof fn modes_render_below_the_display(display: u32, mode: QualityMode)
    requires
        0 < display < 0x100_0000,
    ensures
        1 <= render_dim(display, mode) <= display,
{
    let top = Single { bits: single::ONE_BITS };
    single::constant_magnitudes();
    single::bits_order_magnitudes(Single { bits: single::HALF_BITS }, top);
    single::bits_order_magnitudes(Single { bits: BALANCED_BITS }, top);
    single::bits_order_magnitudes(Single { bits: QUALITY_BITS }, top);
    if let QualityMode::Custom(pct) = mode {
        single::percent_is_at_most_one(pct);
    }
    single::scaling_never_enlarges(display, mode.magnitude());
}

/// The single-precision number nearest to 0.2.
pub const FIFTH_BITS: u32 = 0x3E4C_CCCD;

/// Per-frame inputs for uniform packing, built each frame from the camera
/// (jittered projection), the exposure and the cut state.
#[derive(Debug, Clone)]
pub struct FrameInputs {
    pub jitter: [Single; 2],
    /// Row-major previous view-projection times inverse current one.
    pub clip_to_prev: [Single; 16],
    pub pre_exposure: Single,
    pub camera_fov_hor: Single,
    pub camera_near: Single,
    pub min_lerp: Single,
    pub same_camera_frames: u32,
    pub reset: bool,
}

impl FrameInputs {
    /// Neutral inputs: no jitter, identity reprojection, reset on.
    pub fn reset_frame() -> (r: Self)
        ensures
            r.jitter@ == seq![(Single { bits: 0 }), (Single { bits: 0 })],
            mat4::is_identity(r.clip_to_prev@),
            r.pre_exposure.bits == single::ONE_BITS,
            r.camera_fov_hor.bits == single::ONE_BITS,
            r.camera_near.bits == single::TENTH_BITS,
            r.min_lerp.bits == FIFTH_BITS,
            r.same_camera_frames == 0,
            r.reset,
    {
        let zero = Single { bits: 0 };
        let one = Single { bits: single::ONE_BITS };
        let r = FrameInputs {
            jitter: [zero, zero],
            clip_to_prev: mat4::identity(),
            pre_exposure: one,
            camera_fov_hor: one,
            camera_near: Single { bits: single::TENTH_BITS },
            min_lerp: Single { bits: FIFTH_BITS },
            same_camera_frames: 0,
            reset: true,
        };
        assert(r.jitter@ =~= seq![zero, zero]);
        r
    }

    /// The record handed to the core.
    pub fn to_ffi(&self) -> (r: IgsrFrameInputsFfi)
        ensures
            is_inputs_record(*self, r),
            r.jitter@ == self.jitter@,
            r.clip_to_prev@ == self.clip_to_prev@,
            r.pre_exposure == self.pre_exposure,
            r.camera_fov_hor == self.camera_fov_hor,
            r.camera_near == self.camera_near,
            r.min_lerp_contrib == self.min_lerp,
            r.same_camera_frames == self.same_camera_frames,
            r.reset == if self.reset {
                1u32
            } else {
                0u32
            },
    {
        IgsrFrameInputsFfi {
            jitter: self.jitter,
            clip_to_prev: self.clip_to_prev,
            pre_exposure: self.pre_exposure,
            camera_fov_hor: self.camera_fov_hor,
            camera_near: self.camera_near,
            min_lerp_contrib: self.min_lerp,
            same_camera_frames: self.same_camera_frames,
            reset: if self.reset {
                1
            } else {
                0
            },
        }
    }
}

} // verus!
