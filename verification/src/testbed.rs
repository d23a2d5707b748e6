//! The test window: its options in force, its keys and its frame-to-frame
//! bookkeeping.

use vstd::prelude::*;
use vstd::string::StringExecFns;

use crate::config::{FrameInputs, FIFTH_BITS};
use crate::mat4;
use crate::mat4::Mat4;
use crate::passes::stage::Stage;
#[allow(unused_imports)]
use crate::passes::{Pass, PassConfig};
use crate::pipeline;
#[allow(unused_imports)]
use crate::pipeline::PipelineModel;
use crate::pipeline::{Pipeline, Rebuild};
use crate::resources;
#[allow(unused_imports)]
use crate::resources::Sizes;
use crate::single;
use crate::single::Single;
use crate::text;
use crate::view;
use crate::view::ViewMode;

verus! {

/// The keys that the window reacts to.
#[derive(Debug, Clone, Copy, PartialEq, Eq, Structural)]
pub enum KeyCode {
    KeyV,
    KeyM,
    KeyH,
    KeyC,
    Equal,
    NumpadAdd,
    Minus,
    NumpadSubtract,
    KeyR,
    KeyF,
    KeyT,
    KeyG,
    KeyB,
    KeyZ,
    KeyX,
    /// Any other key.
    Other,
}

/// Something to tell on the console.
#[derive(Debug, Clone, Copy, PartialEq, Eq, Structural)]
pub enum Notice {
    /// The status line.
    Status,
    HistoryReset,
    ForcedFragment,
    ComputePath,
    ComputeUnavailable,
    ThreePass(bool),
    /// Which side of sharpening is shown; `true` is before it.
    Showing(bool),
}

/// What a notice says; the status line has its own text.
pub open spec fn notice_text(n: Notice) -> Seq<char> {
    match n {
        Notice::Status => Seq::empty(),
        Notice::HistoryReset => "history reset (camera-cut path)"@,
        Notice::ForcedFragment => "forced fragment path"@,
        Notice::ComputePath => "compute path"@,
        Notice::ComputeUnavailable => "compute programs unavailable; staying fragment"@,
        Notice::ThreePass(on) => if on {
            "three_pass=true"@
        } else {
            "three_pass=false"@
        },
        Notice::Showing(pre) => if pre {
            "showing pre-RCAS"@
        } else {
            "showing post-RCAS"@
        },
    }
}

impl Notice {
    /// What the notice says.
    pub fn text(self) -> (r: &'static str)
        ensures
            r@ == notice_text(self),
    {
        match self {
            Notice::Status => {
                proof {
                    reveal_strlit("");
                }
                let r: &'static str = "";
                assert(r@ =~= Seq::empty());
                r
            },
            Notice::HistoryReset => "history reset (camera-cut path)",
            Notice::ForcedFragment => "forced fragment path",
            Notice::ComputePath => "compute path",
            Notice::ComputeUnavailable => "compute programs unavailable; staying fragment",
            Notice::ThreePass(on) => if on {
                "three_pass=true"
            } else {
                "three_pass=false"
            },
            Notice::Showing(pre) => if pre {
                "showing pre-RCAS"
            } else {
                "showing post-RCAS"
            },
        }
    }
}

/// The window's state.
#[derive(Debug)]
pub struct App {
    /// Pin the fragment path at start.
    pub force_fallback: bool,
    /// Start with the three-pass quality.
    pub three_pass: bool,
    /// Run the self test and leave.
    pub selftest: bool,
    pub selftest_done: bool,
    pub dump_path: Option<String>,
    pub view: ViewMode,
    pub debug_events: bool,
    pub show_gpu: bool,
    pub show_pre: bool,
    /// A sharpness asked for at start.
    pub init_sharp: Option<Single>,
    /// Render size per display size.
    pub scale: Single,
    /// Frames since the camera last cut.
    pub same_camera: u32,
    pub frames: u64,
    pub pipeline: Option<Pipeline<Stage>>,
}

/// What an [`App`] holds.
pub struct AppModel {
    pub force_fallback: bool,
    pub three_pass: bool,
    pub selftest: bool,
    pub selftest_done: bool,
    pub dump_path: Option<Seq<char>>,
    pub view: ViewMode,
    pub debug_events: bool,
    pub show_gpu: bool,
    pub show_pre: bool,
    pub init_sharp: Option<Single>,
    pub scale: Single,
    pub same_camera: u32,
    pub frames: u64,
    pub pipeline: Option<PipelineModel<Stage>>,
}

impl View for App {
    type V = AppModel;

    open spec fn view(&self) -> AppModel {
        AppModel {
            force_fallback: self.force_fallback,
            three_pass: self.three_pass,
            selftest: self.selftest,
            selftest_done: self.selftest_done,
            dump_path: match self.dump_path {
                Some(p) => Some(p@),
                None => None,
            },
            view: self.view,
            debug_events: self.debug_events,
            show_gpu: self.show_gpu,
            show_pre: self.show_pre,
            init_sharp: self.init_sharp,
            scale: self.scale,
            same_camera: self.same_camera,
            frames: self.frames,
            pipeline: match self.pipeline {
                Some(p) => Some(p@),
                None => None,
            },
        }
    }
}

impl AppModel {
    /// The scale is in range, and the pipeline is well formed.
    pub open spec fn wf(self) -> bool {
        &&& single::is_scale(self.scale)
        &&& self.pipeline is Some ==> self.pipeline->0.wf()
        &&& self.init_sharp is Some ==> single::is_unit(self.init_sharp->0)
    }

    /// The same window with another pipeline state.
    pub open spec fn with_pipeline(self, p: PipelineModel<Stage>) -> AppModel {
        AppModel { pipeline: Some(p), ..self }
    }
}

/// A reset of the history.
pub open spec fn restarted(p: PipelineModel<Stage>) -> PipelineModel<Stage> {
    PipelineModel { needs_reset: true, ..p }
}

/// The pipeline with the compute path on or off.
pub open spec fn with_compute(p: PipelineModel<Stage>, on: bool) -> PipelineModel<Stage> {
    p.reconfigured((PassConfig { use_compute: on, ..p.cfg }))
}

/// The pipeline with the three-pass quality on or off.
pub open spec fn with_three_pass(p: PipelineModel<Stage>, on: bool) -> PipelineModel<Stage> {
    p.reconfigured((PassConfig { three_pass: on, ..p.cfg }))
}

/// Every pass of the configuration has its compute program.
pub open spec fn could_compute(p: PipelineModel<Stage>) -> bool {
    forall|i: int|
        0 <= i < p.passes.len() ==> (#[trigger] p.progs[i]).compute is Some || !p.passes[i].runs(
            p.cfg,
        )
}

/// The next frame starts over: its inputs carry a reset.
pub open spec fn starts_over(a: AppModel) -> bool {
    a.pipeline is Some && a.pipeline->0.needs_reset
}

/// What a key does to the window, apart from scale and sharpness steps.
pub open spec fn after_key(a: AppModel, code: KeyCode) -> AppModel {
    match code {
        KeyCode::KeyV => AppModel { view: view::successor(a.view), ..a },
        KeyCode::KeyM => AppModel { view: ViewMode::Motion, ..a },
        KeyCode::KeyH => AppModel { view: ViewMode::Luma, ..a },
        KeyCode::KeyC => AppModel { view: ViewMode::Clip, ..a },
        KeyCode::KeyR => match a.pipeline {
            Some(p) => AppModel { same_camera: 0, ..a.with_pipeline(restarted(p)) },
            None => AppModel { same_camera: 0, ..a },
        },
        KeyCode::KeyF => match a.pipeline {
            Some(p) => if p.cfg.use_compute {
                a.with_pipeline(with_compute(p, false))
            } else if could_compute(p) {
                AppModel { same_camera: 0, ..a.with_pipeline(restarted(with_compute(p, true))) }
            } else {
                a
            },
            None => a,
        },
        KeyCode::KeyT => match a.pipeline {
            Some(p) => AppModel {
                same_camera: 0,
                ..a.with_pipeline(restarted(with_three_pass(p, !p.cfg.three_pass)))
            },
            None => a,
        },
        KeyCode::KeyG => AppModel { show_gpu: !a.show_gpu, ..a },
        KeyCode::KeyB => AppModel { show_pre: !a.show_pre, ..a },
        _ => a,
    }
}

/// `b` is `a` after the key `code`.
pub open spec fn follows_key(a: AppModel, code: KeyCode, b: AppModel) -> bool {
    match code {
        KeyCode::Equal | KeyCode::NumpadAdd => {
            &&& single::is_scale_up(a.scale, b.scale)
            &&& b == (AppModel { scale: b.scale, ..a })
        },
        KeyCode::Minus | KeyCode::NumpadSubtract => {
            &&& single::is_scale_down(a.scale, b.scale)
            &&& b == (AppModel { scale: b.scale, ..a })
        },
        KeyCode::KeyZ => match a.pipeline {
            Some(p) => {
                &&& b.pipeline is Some
                &&& single::is_softer(p.cfg.sharpness, b.pipeline->0.cfg.sharpness)
                &&& b == a.with_pipeline(
                    p.reconfigured(
                        (PassConfig { sharpness: b.pipeline->0.cfg.sharpness, ..p.cfg }),
                    ),
                )
            },
            None => b == a,
        },
        KeyCode::KeyX => match a.pipeline {
            Some(p) => {
                &&& b.pipeline is Some
                &&& single::is_sharper(p.cfg.sharpness, b.pipeline->0.cfg.sharpness)
                &&& b == a.with_pipeline(
                    p.reconfigured(
                        (PassConfig { sharpness: b.pipeline->0.cfg.sharpness, ..p.cfg }),
                    ),
                )
            },
            None => b == a,
        },
        _ => b == after_key(a, code),
    }
}

/// What a key has the window tell.
pub open spec fn key_notices(a: AppModel, code: KeyCode) -> Seq<Notice> {
    match code {
        KeyCode::KeyR => seq![Notice::HistoryReset],
        KeyCode::KeyF => match a.pipeline {
            Some(p) => if p.cfg.use_compute {
                seq![Notice::ForcedFragment, Notice::Status]
            } else if could_compute(p) {
                seq![Notice::ComputePath, Notice::Status]
            } else {
                seq![Notice::ComputeUnavailable, Notice::Status]
            },
            None => seq![Notice::Status],
        },
        KeyCode::KeyT => match a.pipeline {
            Some(p) => seq![Notice::ThreePass(!p.cfg.three_pass), Notice::Status],
            None => seq![Notice::Status],
        },
        KeyCode::KeyB => seq![Notice::Showing(!a.show_pre)],
        KeyCode::Other => Seq::empty(),
        _ => seq![Notice::Status],
    }
}

/// `r` are the inputs of a frame of the window, given the camera's.
pub open spec fn are_inputs(
    a: AppModel,
    jitter: Seq<Single>,
    clip_to_prev: Seq<Single>,
    camera_fov_hor: Single,
    r: FrameInputs,
) -> bool {
    &&& r.jitter@ == jitter
    &&& r.clip_to_prev@ == mat4::transposed(clip_to_prev)
    &&& r.pre_exposure.bits == single::ONE_BITS
    &&& r.camera_fov_hor == camera_fov_hor
    &&& r.camera_near.bits == single::TENTH_BITS
    &&& r.min_lerp.bits == FIFTH_BITS
    &&& r.same_camera_frames == camera_age(a)
    &&& r.reset == starts_over(a)
}

/// The self test is due: it was asked for and has not been run.
pub open spec fn is_due(a: AppModel) -> bool {
    a.selftest && !a.selftest_done
}

/// The window once it has been asked whether the self test is due.
pub open spec fn asked_for_selftest(a: AppModel) -> AppModel {
    AppModel { selftest_done: a.selftest || a.selftest_done, ..a }
}

/// The window once it has taken over a pipeline.
pub open spec fn adopted(a: AppModel, p: PipelineModel<Stage>) -> AppModel {
    a.with_pipeline(
        match a.init_sharp {
            Some(sharpness) => p.reconfigured((PassConfig { sharpness, ..p.cfg })),
            None => p,
        },
    )
}

impl App {
    /// A window that has not been opened yet.
    pub fn new(
        force_fallback: bool,
        three_pass: bool,
        selftest: bool,
        dump_path: Option<String>,
        debug_events: bool,
    ) -> (r: App)
        ensures
            r@ == (AppModel {
                force_fallback,
                three_pass,
                selftest,
                selftest_done: false,
                dump_path: match dump_path {
                    Some(p) => Some(p@),
                    None => None,
                },
                view: ViewMode::Upscaled,
                debug_events,
                show_gpu: true,
                show_pre: false,
                init_sharp: None,
                scale: Single { bits: single::HALF_BITS },
                same_camera: 0,
                frames: 0,
                pipeline: None,
            }),
            r@.wf(),
    {
        proof {
            single::constant_magnitudes();
            let half = Single { bits: single::HALF_BITS };
            single::bits_order_magnitudes(Single { bits: single::QUARTER_BITS }, half);
            single::bits_order_magnitudes(half, Single { bits: single::ONE_BITS });
        }
        App {
            force_fallback,
            three_pass,
            selftest,
            selftest_done: false,
            dump_path,
            view: ViewMode::Upscaled,
            debug_events,
            show_gpu: true,
            show_pre: false,
            init_sharp: None,
            scale: Single { bits: single::HALF_BITS },
            same_camera: 0,
            frames: 0,
            pipeline: None,
        }
    }

    /// Takes a requested render scale, clamped into `[0.25, 1.0]`.
    pub fn set_scale(&mut self, scale: Single)
        requires
            old(self)@.wf(),
        ensures
            final(self)@.scale == single::requested_scale(scale),
            final(self)@ == (AppModel {
                scale: single::clamped(
                    scale,
                    Single { bits: single::QUARTER_BITS },
                    Single { bits: single::ONE_BITS },
                ),
                ..old(self)@
            }),
            final(self)@.wf(),
    {
        self.scale = scale.to_scale();
    }

    /// Takes a requested sharpness, clamped into `[0.0, 1.0]`.
    pub fn set_init_sharp(&mut self, sharp: Single)
        requires
            old(self)@.wf(),
        ensures
            final(self)@.init_sharp == Some(single::requested_unit(sharp)),
            final(self)@ == (AppModel {
                init_sharp: Some(
                    single::clamped(
                        sharp,
                        Single { bits: single::ZERO_BITS },
                        Single { bits: single::ONE_BITS },
                    ),
                ),
                ..old(self)@
            }),
            final(self)@.wf(),
    {
        self.init_sharp = Some(sharp.to_unit());
    }

    /// Takes over a pipeline, with the sharpness asked for at start.
    pub fn adopt(&mut self, pipeline: Pipeline<Stage>)
        requires
            old(self)@.wf(),
            pipeline@.wf(),
        ensures
            final(self)@ == old(self)@.with_pipeline(
                match old(self)@.init_sharp {
                    Some(sharpness) => pipeline@.reconfigured(
                        (PassConfig { sharpness, ..pipeline@.cfg }),
                    ),
                    None => pipeline@,
                },
            ),
            final(self)@ == adopted(old(self)@, pipeline@),
            final(self)@.wf(),
    {
        let mut p = pipeline;
        if let Some(sharpness) = self.init_sharp {
            proof {
                single::clamping_keeps_what_is_in_range(sharpness);
            }
            p.set_sharpness(sharpness);
        }
        self.pipeline = Some(p);
    }

    /// The inputs of this frame: the camera's, given as jitter, reprojection
    /// in column-major order and horizontal field of view, and the window's
    /// own cut state. Frames start over while the pipeline asks for it.
    pub fn frame_inputs(
        &self,
        jitter: [Single; 2],
        clip_to_prev: &Mat4,
        camera_fov_hor: Single,
    ) -> (r: FrameInputs)
        ensures
            are_inputs(self@, jitter@, clip_to_prev@, camera_fov_hor, r),
            r.jitter@ == jitter@,
            r.clip_to_prev@ == mat4::transposed(clip_to_prev@),
            r.pre_exposure.bits == single::ONE_BITS,
            r.camera_fov_hor == camera_fov_hor,
            r.camera_near.bits == single::TENTH_BITS,
            r.min_lerp.bits == FIFTH_BITS,
            r.same_camera_frames == self@.same_camera,
            r.same_camera_frames == camera_age(self@),
            r.reset == (self@.pipeline is Some && self@.pipeline->0.needs_reset),
            r.reset == starts_over(self@),
    {
        let reset = match &self.pipeline {
            Some(p) => p.resets(),
            None => false,
        };
        FrameInputs {
            jitter,
            clip_to_prev: mat4::transpose(clip_to_prev),
            pre_exposure: Single { bits: single::ONE_BITS },
            camera_fov_hor,
            camera_near: Single { bits: single::TENTH_BITS },
            min_lerp: Single { bits: FIFTH_BITS },
            same_camera_frames: self.same_camera,
            reset,
        }
    }

    /// Starts the history over, as a camera cut does.
    fn reset_history(&mut self)
        requires
            old(self)@.wf(),
        ensures
            final(self)@ == after_key(old(self)@, KeyCode::KeyR),
            final(self)@.wf(),
            final(self)@.same_camera == 0,
            old(self)@.pipeline is Some ==> starts_over(final(self)@),
    {
        if let Some(p) = self.pipeline.as_mut() {
            p.request_reset();
        }
        self.same_camera = 0;
    }

    /// Switches between the compute and the fragment path.
    fn toggle_path(&mut self) -> (r: Vec<Notice>)
        requires
            old(self)@.wf(),
        ensures
            final(self)@ == after_key(old(self)@, KeyCode::KeyF),
            final(self)@.wf(),
            r@ == key_notices(old(self)@, KeyCode::KeyF),
    {
        let mut out: Vec<Notice> = Vec::new();
        if let Some(p) = self.pipeline.as_mut() {
            if p.use_compute() {
                p.set_compute(false);
                out.push(Notice::ForcedFragment);
            } else if p.can_compute() {
                p.set_compute(true);
                p.request_reset();
                self.same_camera = 0;
                out.push(Notice::ComputePath);
            } else {
                out.push(Notice::ComputeUnavailable);
            }
        }
        out.push(Notice::Status);
        assert(out@ =~= key_notices(old(self)@, KeyCode::KeyF));
        out
    }

    /// Switches between two and three passes.
    fn toggle_three_pass(&mut self) -> (r: Vec<Notice>)
        requires
            old(self)@.wf(),
        ensures
            final(self)@ == after_key(old(self)@, KeyCode::KeyT),
            final(self)@.wf(),
            r@ == key_notices(old(self)@, KeyCode::KeyT),
    {
        let mut out: Vec<Notice> = Vec::new();
        if let Some(p) = self.pipeline.as_mut() {
            let on = !p.three_pass();
            p.set_three_pass(on);
            p.request_reset();
            self.same_camera = 0;
            out.push(Notice::ThreePass(on));
        }
        out.push(Notice::Status);
        assert(out@ =~= key_notices(old(self)@, KeyCode::KeyT));
        out
    }

    fn step_sharpness(&mut self, code: KeyCode)
        requires
            old(self)@.wf(),
            code == KeyCode::KeyZ || code == KeyCode::KeyX,
        ensures
            follows_key(old(self)@, code, final(self)@),
            final(self)@.wf(),
    {
        if let Some(p) = self.pipeline.as_mut() {
            if code == KeyCode::KeyZ {
                p.soften();
            } else {
                p.sharpen();
            }
        }
    }

    /// Reacts to a key; the result lists what to tell.
    pub fn handle_key(&mut self, code: KeyCode) -> (r: Vec<Notice>)
        requires
            old(self)@.wf(),
        ensures
            follows_key(old(self)@, code, final(self)@),
            final(self)@.wf(),
            r@ == key_notices(old(self)@, code),
            code is KeyR && old(self)@.pipeline is Some ==> starts_over(final(self)@),
            code is KeyT && old(self)@.pipeline is Some ==> starts_over(final(self)@),
    {
        match code {
            KeyCode::KeyV => {
                self.view = self.view.next();
                one(Notice::Status)
            },
            KeyCode::KeyM => {
                self.view = ViewMode::Motion;
                one(Notice::Status)
            },
            KeyCode::KeyH => {
                self.view = ViewMode::Luma;
                one(Notice::Status)
            },
            KeyCode::KeyC => {
                self.view = ViewMode::Clip;
                one(Notice::Status)
            },
            KeyCode::Equal | KeyCode::NumpadAdd => {
                self.scale = single::scale_up(self.scale);
                one(Notice::Status)
            },
            KeyCode::Minus | KeyCode::NumpadSubtract => {
                self.scale = single::scale_down(self.scale);
                one(Notice::Status)
            },
            KeyCode::KeyR => {
                self.reset_history();
                one(Notice::HistoryReset)
            },
            KeyCode::KeyF => self.toggle_path(),
            KeyCode::KeyT => self.toggle_three_pass(),
            KeyCode::KeyG => {
                self.show_gpu = !self.show_gpu;
                one(Notice::Status)
            },
            KeyCode::KeyB => {
                self.show_pre = !self.show_pre;
                one(Notice::Showing(self.show_pre))
            },
            KeyCode::KeyZ | KeyCode::KeyX => {
                self.step_sharpness(code);
                one(Notice::Status)
            },
            KeyCode::Other => {
                let none: Vec<Notice> = Vec::new();
                none
            },
        }
    }
}

fn one(n: Notice) -> (r: Vec<Notice>)
    ensures
        r@ == seq![n],
{
    let mut r: Vec<Notice> = Vec::new();
    r.push(n);
    assert(r@ =~= seq![n]);
    r
}

/// Pixel sizes of a frame.
#[derive(Debug, Clone, Copy, PartialEq, Eq, Structural)]
pub struct Extents {
    pub display_w: u32,
    pub display_h: u32,
    pub render_w: u32,
    pub render_h: u32,
}

/// The display size is the window's, at least 320 by 200; the render size is
/// the scaled display size, at least 8 by 8.
pub open spec fn frame_extents(width: u32, height: u32, scale: Single) -> Extents {
    let display_w = single::larger(width as nat, 320) as u32;
    let display_h = single::larger(height as nat, 200) as u32;
    Extents {
        display_w,
        display_h,
        render_w: single::larger(single::extent(display_w, scale), 8) as u32,
        render_h: single::larger(single::extent(display_h, scale), 8) as u32,
    }
}

fn at_least(v: u32, least: u32) -> (r: u32)
    ensures
        r == single::larger(v as nat, least as nat),
{
    if v >= least {
        v
    } else {
        least
    }
}

/// What a frame starts with.
#[derive(Debug)]
pub struct FramePlan {
    pub extents: Extents,
    /// Set when the pipeline has to be rebuilt for new sizes.
    pub rebuild: Option<Rebuild>,
}

/// What follows a frame.
#[derive(Debug, Clone, Copy, PartialEq, Eq, Structural)]
pub struct FrameEnd {
    /// Write the frame to the dump path.
    pub dump: bool,
    /// Print the frame rate.
    pub report: bool,
}

/// The frame that is dumped.
pub const DUMP_FRAME: u64 = 120;

/// Frames between two frame rate reports.
pub const REPORT_EVERY: u64 = 600;

/// The window once a frame has ended; `reset` tells whether it started over.
pub open spec fn frame_ended(a: AppModel, reset: bool) -> AppModel {
    AppModel {
        same_camera: if reset {
            0
        } else {
            (a.same_camera + 1) as u32
        },
        frames: (a.frames + 1) as u64,
        ..a
    }
}

/// The frame that ends is to be dumped.
pub open spec fn is_dumped(a: AppModel) -> bool {
    a.dump_path is Some && a.frames == DUMP_FRAME
}

/// The frame rate is to be reported with the frame that ends.
pub open spec fn is_reported(a: AppModel) -> bool {
    (a.frames + 1) % REPORT_EVERY as int == 0
}

/// How long the camera has kept still, as the frame is told.
pub open spec fn camera_age(a: AppModel) -> u32 {
    a.same_camera
}

/// The sizes of a pipeline for a frame.
pub open spec fn sizes_of(e: Extents) -> Sizes {
    Sizes { render: (e.render_w, e.render_h), display: (e.display_w, e.display_h) }
}

/// The pipeline once it has been asked to take over the sizes `e`.
pub open spec fn resized(p: PipelineModel<Stage>, e: Extents) -> PipelineModel<Stage> {
    PipelineModel {
        table: Seq::empty(),
        stale: Seq::empty(),
        sizes: sizes_of(e),
        needs_reset: true,
        timer_frame: 0,
        ..p
    }
}

/// A pipeline has to be rebuilt for a frame: its sizes are not the frame's.
pub open spec fn needs_rebuild(p: PipelineModel<Stage>, e: Extents) -> bool {
    p.sizes != sizes_of(e)
}

impl App {
    /// The pixel sizes for a window.
    pub fn extents(&self, width: u32, height: u32) -> (r: Extents)
        requires
            self@.wf(),
        ensures
            r == frame_extents(width, height, self@.scale),
    {
        let display_w = at_least(width, 320);
        let display_h = at_least(height, 200);
        Extents {
            display_w,
            display_h,
            render_w: at_least(single::scaled_extent(display_w, self.scale), 8),
            render_h: at_least(single::scaled_extent(display_h, self.scale), 8),
        }
    }

    /// Starts a frame. When the render or the display size has changed, the
    /// pipeline gives up its resources and the history starts over. Nothing is
    /// planned without a pipeline.
    pub fn begin_draw(&mut self, width: u32, height: u32) -> (r: Option<FramePlan>)
        requires
            old(self)@.wf(),
        ensures
            final(self)@.wf(),
            old(self)@.pipeline is None ==> r is None && final(self)@ == old(self)@,
            old(self)@.pipeline is Some ==> {
                let e = frame_extents(width, height, old(self)@.scale);
                let p = old(self)@.pipeline->0;
                &&& r is Some
                &&& r->0.extents == e
                &&& r->0.rebuild is Some == (p.sizes != sizes_of(e))
                &&& r->0.rebuild is Some == needs_rebuild(p, e)
                &&& r->0.rebuild is None ==> final(self)@ == old(self)@
                &&& r->0.rebuild is Some ==> {
                    let b = r->0.rebuild->0;
                    &&& final(self)@ == (AppModel {
                        same_camera: 0,
                        ..old(self)@.with_pipeline(resized(p, e))
                    })
                    &&& b.release@ == p.holdings()
                    &&& resources::allocation_models(b.plan@) == resources::plan_of(
                        pipeline::declarations(p.passes),
                        resized(p, e).sizes,
                    )
                }
            },
    {
        let e = self.extents(width, height);
        let mut changed = false;
        let plan = match self.pipeline.as_mut() {
            Some(p) => {
                let (rw, rh) = p.render_size();
                let (dw, dh) = p.display_size();
                let rebuild = if rw != e.render_w || rh != e.render_h || dw != e.display_w || dh
                    != e.display_h {
                    changed = true;
                    Some(p.resize(e.render_w, e.render_h, e.display_w, e.display_h))
                } else {
                    None
                };
                Some(FramePlan { extents: e, rebuild })
            },
            None => None,
        };
        if changed {
            self.same_camera = 0;
        }
        plan
    }

    /// Ends a frame; `reset` tells whether it started over.
    pub fn end_draw(&mut self, reset: bool) -> (r: FrameEnd)
        requires
            old(self)@.wf(),
            !reset ==> old(self)@.same_camera < u32::MAX,
            old(self)@.frames < u64::MAX,
        ensures
            final(self)@ == (AppModel {
                same_camera: if reset {
                    0
                } else {
                    (old(self)@.same_camera + 1) as u32
                },
                frames: (old(self)@.frames + 1) as u64,
                ..old(self)@
            }),
            final(self)@.wf(),
            r.dump == (old(self)@.dump_path is Some && old(self)@.frames == DUMP_FRAME),
            r.report == ((old(self)@.frames + 1) % REPORT_EVERY as int == 0),
            final(self)@ == frame_ended(old(self)@, reset),
            r.dump == is_dumped(old(self)@),
            r.report == is_reported(old(self)@),
    {
        let dump = self.dump_path.is_some() && self.frames == DUMP_FRAME;
        self.same_camera = if reset {
            0
        } else {
            self.same_camera + 1
        };
        self.frames = self.frames + 1;
        FrameEnd { dump, report: self.frames % REPORT_EVERY == 0 }
    }

    /// Whether the self test is due; it is run once.
    pub fn selftest_due(&mut self) -> (r: bool)
        requires
            old(self)@.wf(),
        ensures
            r == (old(self)@.selftest && !old(self)@.selftest_done),
            r == is_due(old(self)@),
            final(self)@ == asked_for_selftest(old(self)@),
            final(self)@ == (AppModel {
                selftest_done: old(self)@.selftest || old(self)@.selftest_done,
                ..old(self)@
            }),
            final(self)@.wf(),
    {
        let due = self.selftest && !self.selftest_done;
        if due {
            self.selftest_done = true;
        }
        due
    }
}

/// `a` by `b`, as text.
pub open spec fn size_text(size: (u32, u32)) -> Seq<char> {
    text::decimal(size.0 as nat) + "x"@ + text::decimal(size.1 as nat)
}

/// The status line. `scale`, `sharp` and `gpu` are the scale, the sharpness
/// and the timing overlay as text.
pub open spec fn status_text(
    a: AppModel,
    scale: Seq<char>,
    sharp: Seq<char>,
    gpu: Seq<char>,
) -> Seq<char> {
    let (render, display, path, passes) = match a.pipeline {
        Some(p) => (
            p.sizes.render,
            p.sizes.display,
            if p.cfg.use_compute {
                "compute"@
            } else {
                "fragment"@
            },
            if p.cfg.three_pass && p.cfg.use_compute {
                "3"@
            } else {
                "2"@
            },
        ),
        None => ((0u32, 0u32), (0u32, 0u32), "?"@, "2"@),
    };
    "view="@ + view::name_of(a.view) + " scale="@ + scale + " sharp="@ + sharp + (if a.show_pre {
        " pre"@
    } else {
        ""@
    }) + " ("@ + size_text(render) + "->"@ + size_text(display) + ") path="@ + path + " passes="@
        + passes + " "@ + (if a.show_gpu && a.pipeline is Some {
        gpu
    } else {
        ""@
    })
}

/// Appends a size.
fn push_size(out: &mut String, size: (u32, u32))
    ensures
        final(out)@ == old(out)@ + size_text(size),
{
    text::push_decimal(out, size.0 as u64);
    out.append("x");
    text::push_decimal(out, size.1 as u64);
    assert(out@ =~= old(out)@ + size_text(size));
}

impl App {
    /// The status line; see [`status_text`].
    pub fn status(&self, scale: &str, sharp: &str, gpu: &str) -> (r: String)
        ensures
            r@ == status_text(self@, scale@, sharp@, gpu@),
    {
        let (render, display, path, passes): ((u32, u32), (u32, u32), &str, &str) =
            match &self.pipeline {
            Some(p) => (
                p.render_size(),
                p.display_size(),
                if p.use_compute() {
                    "compute"
                } else {
                    "fragment"
                },
                if p.three_pass() && p.use_compute() {
                    "3"
                } else {
                    "2"
                },
            ),
            None => ((0, 0), (0, 0), "?", "2"),
        };
        let mut s = String::new();
        s.append("view=");
        s.append(self.view.name());
        s.append(" scale=");
        s.append(scale);
        s.append(" sharp=");
        s.append(sharp);
        s.append(
            if self.show_pre {
                " pre"
            } else {
                ""
            },
        );
        s.append(" (");
        push_size(&mut s, render);
        s.append("->");
        push_size(&mut s, display);
        s.append(") path=");
        s.append(path);
        s.append(" passes=");
        s.append(passes);
        s.append(" ");
        s.append(
            if self.show_gpu && self.pipeline.is_some() {
                gpu
            } else {
                ""
            },
        );
        assert(s@ =~= status_text(self@, scale@, sharp@, gpu@));
        s
    }
}

/// Any key leaves a window without a pipeline without one, whatever the
/// window holds.
pub proof fn keys_are_safe_without_a_pipeline(a: AppModel, code: KeyCode, b: AppModel)
    requires
        a.wf(),
        a.pipeline is None,
        follows_key(a, code, b),
    ensures
        b.pipeline is None,
        b.same_camera == a.same_camera || b.same_camera == 0,
        b.wf(),
{
}

/// The overlay and the before/after toggle undo themselves.
pub proof fn toggles_undo_themselves(a: AppModel)
    ensures
        after_key(after_key(a, KeyCode::KeyG), KeyCode::KeyG) == a,
        after_key(after_key(a, KeyCode::KeyB), KeyCode::KeyB) == a,
{
}

/// Switching the number of passes twice leaves the pipeline as it was, with
/// its history started over.
pub proof fn three_pass_toggle_returns(a: AppModel)
    requires
        a.wf(),
        a.pipeline is Some,
    ensures
        after_key(after_key(a, KeyCode::KeyT), KeyCode::KeyT) == (AppModel {
            same_camera: 0,
            ..a.with_pipeline(restarted(a.pipeline->0))
        }),
{
    let p = a.pipeline->0;
    let q = after_key(after_key(a, KeyCode::KeyT), KeyCode::KeyT).pipeline->0;
    assert(q.enabled =~= p.enabled);
    assert(q.variant =~= p.variant);
}

/// Leaving the compute path and coming back leaves the pipeline as it was,
/// with its history started over.
pub proof fn path_toggle_returns(a: AppModel)
    requires
        a.wf(),
        a.pipeline is Some,
        a.pipeline->0.cfg.use_compute,
        could_compute(with_compute(a.pipeline->0, false)),
    ensures
        after_key(after_key(a, KeyCode::KeyF), KeyCode::KeyF) == (AppModel {
            same_camera: 0,
            ..a.with_pipeline(restarted(a.pipeline->0))
        }),
{
    let p = a.pipeline->0;
    let q = after_key(after_key(a, KeyCode::KeyF), KeyCode::KeyF).pipeline->0;
    assert(q.enabled =~= p.enabled);
    assert(q.variant =~= p.variant);
}

/// A render size is never below 8 by 8, and a display size never below 320
/// by 200.
pub proof fn extents_have_a_floor(width: u32, height: u32, scale: Single)
    ensures
        ({
            let e = frame_extents(width, height, scale);
            e.render_w >= 8 && e.render_h >= 8 && e.display_w >= 320 && e.display_h >= 200
        }),
{
}

/// The render size is never above the display size, for windows below 2^24
/// pixels per axis.
pub proof fn render_fits_the_display(width: u32, height: u32, scale: Single)
    requires
        single::is_scale(scale),
        width < 0x100_0000,
        height < 0x100_0000,
    ensures
        frame_extents(width, height, scale).render_w <= frame_extents(
            width,
            height,
            scale,
        ).display_w,
        frame_extents(width, height, scale).render_h <= frame_extents(
            width,
            height,
            scale,
        ).display_h,
{
    let e = frame_extents(width, height, scale);
    if !scale.is_nan() {
        single::scaling_never_enlarges(e.display_w, scale.magnitude());
        single::scaling_never_enlarges(e.display_h, scale.magnitude());
    }
}

} // verus!
