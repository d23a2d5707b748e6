//! What the keys of the window do, and what they leave alone.

use vstd::prelude::*;

#[allow(unused_imports)]
use crate::passes::stage::Stage;
#[allow(unused_imports)]
use crate::passes::Pass;
#[allow(unused_imports)]
use crate::pipeline::PipelineModel;
#[allow(unused_imports)]
use crate::single::Single;
#[allow(unused_imports)]
use crate::testbed::{AppModel, Extents, KeyCode, Notice};
#[allow(unused_imports)]
use crate::view::ViewMode;
use crate::{single, testbed, text, view};

verus! {

/// R makes the next frame start over and counts the camera as just cut; the
/// pipeline and the window stay as they were otherwise.
pub proof fn r_starts_the_history_over(a: AppModel, b: AppModel)
    requires
        testbed::follows_key(a, KeyCode::KeyR, b),
    ensures
        b.same_camera == 0,
        b.pipeline is Some == a.pipeline is Some,
        a.pipeline is Some ==> {
            &&& b.pipeline->0.needs_reset
            &&& testbed::starts_over(b)
            &&& b.pipeline->0 == (PipelineModel { needs_reset: true, ..a.pipeline->0 })
        },
        b == (AppModel { same_camera: 0, pipeline: b.pipeline, ..a }),
        testbed::key_notices(a, KeyCode::KeyR) == seq![Notice::HistoryReset],
{
}

/// F leaves the compute path at once. Back onto it, it starts the history
/// over, and it only goes there when every pass that would run has its compute
/// program.
pub proof fn f_switches_the_path(a: AppModel, b: AppModel)
    requires
        a.wf(),
        a.pipeline is Some,
        testbed::follows_key(a, KeyCode::KeyF, b),
    ensures
        ({
            let (p, q) = (a.pipeline->0, b.pipeline->0);
            let compiled = forall|i: int|
                0 <= i < p.passes.len() && p.passes[i].runs(p.cfg) ==> (
                #[trigger] p.progs[i]).compute is Some;
            &&& b.pipeline is Some
            &&& p.cfg.use_compute ==> !q.cfg.use_compute && q.needs_reset == p.needs_reset
                && b.same_camera == a.same_camera
            &&& !p.cfg.use_compute && compiled ==> q.cfg.use_compute && q.needs_reset
                && b.same_camera == 0
            &&& !p.cfg.use_compute && !compiled ==> b == a
        }),
{
    let p = a.pipeline->0;
    if !p.cfg.use_compute {
        let compiled = forall|i: int|
            0 <= i < p.passes.len() && p.passes[i].runs(p.cfg) ==> (
            #[trigger] p.progs[i]).compute is Some;
        assert(compiled == testbed::could_compute(p));
    }
}

/// T switches between two and three passes and starts the history over.
pub proof fn t_switches_the_passes(a: AppModel, b: AppModel)
    requires
        a.pipeline is Some,
        testbed::follows_key(a, KeyCode::KeyT, b),
    ensures
        b.pipeline is Some,
        b.pipeline->0.cfg.three_pass == !a.pipeline->0.cfg.three_pass,
        b.pipeline->0.needs_reset,
        b.same_camera == 0,
{
}

/// V goes on to the next view, from the frame over the scene, the split, the
/// motion and the luma to the clip view and back; M, H and C go straight to a
/// debug view.
pub proof fn view_keys(a: AppModel, b: AppModel)
    ensures
        testbed::follows_key(a, KeyCode::KeyV, b) ==> b == (AppModel { view: b.view, ..a }) && (
        a.view is Upscaled ==> b.view is Native) && (a.view is Native ==> b.view is Split) && (
        a.view is Split ==> b.view is Motion) && (a.view is Motion ==> b.view is Luma) && (
        a.view is Luma ==> b.view is Clip) && (a.view is Clip ==> b.view is Upscaled),
        testbed::follows_key(a, KeyCode::KeyM, b) ==> b == (AppModel {
            view: ViewMode::Motion,
            ..a
        }),
        testbed::follows_key(a, KeyCode::KeyH, b) ==> b == (AppModel { view: ViewMode::Luma, ..a }),
        testbed::follows_key(a, KeyCode::KeyC, b) ==> b == (AppModel { view: ViewMode::Clip, ..a }),
{
}

/// G shows or hides the timing overlay and B the frame before sharpening, and
/// neither does anything else.
pub proof fn display_toggles(a: AppModel, b: AppModel)
    ensures
        testbed::follows_key(a, KeyCode::KeyG, b) ==> b == (AppModel {
            show_gpu: !a.show_gpu,
            ..a
        }),
        testbed::follows_key(a, KeyCode::KeyB, b) ==> b == (AppModel {
            show_pre: !a.show_pre,
            ..a
        }),
{
}

/// What no key changes, and which keys change what.
pub proof fn keys_leave_the_rest_alone(a: AppModel, code: KeyCode, b: AppModel)
    requires
        testbed::follows_key(a, code, b),
    ensures
        b.force_fallback == a.force_fallback,
        b.three_pass == a.three_pass,
        b.selftest == a.selftest,
        b.selftest_done == a.selftest_done,
        b.dump_path == a.dump_path,
        b.debug_events == a.debug_events,
        b.init_sharp == a.init_sharp,
        b.frames == a.frames,
        b.same_camera == a.same_camera || b.same_camera == 0,
        b.view != a.view ==> code is KeyV || code is KeyM || code is KeyH || code is KeyC,
        b.show_gpu != a.show_gpu ==> code is KeyG,
        b.show_pre != a.show_pre ==> code is KeyB,
        b.scale != a.scale ==> code is Equal || code is NumpadAdd || code is Minus
            || code is NumpadSubtract,
        b.same_camera != a.same_camera ==> code is KeyR || code is KeyF || code is KeyT,
        code is Other ==> b == a,
        b.pipeline is Some == a.pipeline is Some,
        a.pipeline is Some ==> {
            let (p, q) = (a.pipeline->0, b.pipeline->0);
            &&& q.passes == p.passes
            &&& q.table == p.table
            &&& q.stale == p.stale
            &&& q.progs == p.progs
            &&& q.views == p.views
            &&& q.timers == p.timers
            &&& q.sizes == p.sizes
            &&& q.scene_fbo == p.scene_fbo
            &&& q.scene == p.scene
            &&& q.blit_prog == p.blit_prog
            &&& q.timer_supported == p.timer_supported
            &&& q.timer_frame == p.timer_frame
            &&& p.needs_reset ==> q.needs_reset
            &&& q.needs_reset != p.needs_reset ==> code is KeyR || code is KeyF || code is KeyT
            &&& q.cfg.use_compute != p.cfg.use_compute ==> code is KeyF
            &&& q.cfg.three_pass != p.cfg.three_pass ==> code is KeyT
            &&& q.cfg.sharpness != p.cfg.sharpness ==> code is KeyZ || code is KeyX
        },
{
}

/// What a key has the window tell is what the key has done.
pub proof fn notices_tell_the_truth(a: AppModel, code: KeyCode, b: AppModel)
    requires
        testbed::follows_key(a, code, b),
    ensures
        ({
            let told = testbed::key_notices(a, code);
            &&& told.contains(Notice::HistoryReset) == (code is KeyR)
            &&& told.contains(Notice::ForcedFragment) == (code is KeyF && a.pipeline is Some
                && a.pipeline->0.cfg.use_compute && !b.pipeline->0.cfg.use_compute)
            &&& told.contains(Notice::ComputePath) == (code is KeyF && a.pipeline is Some
                && !a.pipeline->0.cfg.use_compute && b.pipeline->0.cfg.use_compute)
            &&& told.contains(Notice::ComputeUnavailable) == (code is KeyF && a.pipeline is Some
                && !a.pipeline->0.cfg.use_compute && !b.pipeline->0.cfg.use_compute)
            &&& forall|on: bool| #[trigger]
                told.contains(Notice::ThreePass(on)) == (code is KeyT && a.pipeline is Some
                    && b.pipeline->0.cfg.three_pass == on)
            &&& forall|pre: bool| #[trigger]
                told.contains(Notice::Showing(pre)) == (code is KeyB && b.show_pre == pre)
            &&& told.contains(Notice::Status) == !(code is KeyR || code is KeyB || code is Other)
        }),
{
    let told = testbed::key_notices(a, code);
    assert(told.len() <= 2);
    if told.len() > 0 {
        assert(told.contains(told[0]));
    }
    if told.len() > 1 {
        assert(told.contains(told[1]));
    }
}

/// What is told of the path, the passes and the shown side of sharpening.
pub proof fn what_notices_say()
    ensures
        testbed::notice_text(Notice::HistoryReset) == "history reset (camera-cut path)"@,
        testbed::notice_text(Notice::ForcedFragment) == "forced fragment path"@,
        testbed::notice_text(Notice::ComputePath) == "compute path"@,
        testbed::notice_text(Notice::ComputeUnavailable)
            == "compute programs unavailable; staying fragment"@,
        testbed::notice_text(Notice::ThreePass(true)) == "three_pass=true"@,
        testbed::notice_text(Notice::ThreePass(false)) == "three_pass=false"@,
        testbed::notice_text(Notice::Showing(true)) == "showing pre-RCAS"@,
        testbed::notice_text(Notice::Showing(false)) == "showing post-RCAS"@,
{
}

/// A step of the scale is a twentieth, up to one part in 2^18, and stops at
/// 1.0 above and at 0.25 below.
pub proof fn scale_keys_step_by_a_twentieth(a: AppModel, code: KeyCode, b: AppModel)
    requires
        a.wf(),
        !a.scale.is_nan(),
        testbed::follows_key(a, code, b),
    ensures
        ({
            let (s, r, one) = (a.scale.magnitude(), b.scale.magnitude(), single::one());
            let slack = single::pow2(131);
            &&& code is Equal || code is NumpadAdd ==> {
                &&& b == (AppModel { scale: b.scale, ..a })
                &&& r <= one
                &&& 20 * r <= 20 * s + one + slack
                &&& r == one || 20 * s + one <= 20 * r + slack
            }
            &&& code is Minus || code is NumpadSubtract ==> {
                &&& b == (AppModel { scale: b.scale, ..a })
                &&& 4 * r >= one
                &&& 20 * s <= 20 * r + one + slack
                &&& 4 * r == one || 20 * r + one <= 20 * s + slack
            }
        }),
{
    if code is Equal || code is NumpadAdd {
        single::a_scale_step_is_a_twentieth(a.scale, b.scale);
    } else if code is Minus || code is NumpadSubtract {
        single::a_scale_step_is_a_twentieth(a.scale, b.scale);
    }
}

/// A step of the sharpness is a tenth, up to one part in 2^18, and stops at 1.0
/// above and at zero below.
pub proof fn sharpness_keys_step_by_a_tenth(a: AppModel, code: KeyCode, b: AppModel)
    requires
        a.wf(),
        a.pipeline is Some,
        !a.pipeline->0.cfg.sharpness.is_nan(),
        testbed::follows_key(a, code, b),
    ensures
        ({
            let (s, r, one) = (
                a.pipeline->0.cfg.sharpness.magnitude(),
                b.pipeline->0.cfg.sharpness.magnitude(),
                single::one(),
            );
            let slack = single::pow2(131);
            &&& code is KeyX ==> {
                &&& r <= one
                &&& 10 * r <= 10 * s + one + slack
                &&& r == one || 10 * s + one <= 10 * r + slack
            }
            &&& code is KeyZ ==> {
                &&& 10 * s <= 10 * r + one + slack
                &&& r == 0 || 10 * r + one <= 10 * s + slack
            }
        }),
{
    if code is KeyX || code is KeyZ {
        single::a_sharpness_step_is_a_tenth(
            a.pipeline->0.cfg.sharpness,
            b.pipeline->0.cfg.sharpness,
        );
    }
}

/// The window after `k` frames, none of which started over.
pub open spec fn after_still_frames(a: AppModel, k: nat) -> AppModel
    decreases k,
{
    if k == 0 {
        a
    } else {
        testbed::frame_ended(after_still_frames(a, (k - 1) as nat), false)
    }
}

/// A frame is told for how many frames the camera has kept still: none after a
/// frame that started over, and one more with each frame that did not.
pub proof fn the_camera_ages_by_the_frame(a: AppModel, k: nat)
    requires
        k <= u32::MAX,
        a.frames + 1 + k <= u64::MAX,
    ensures
        ({
            let b = after_still_frames(testbed::frame_ended(a, true), k);
            &&& testbed::camera_age(b) == k
            &&& b.frames == a.frames + 1 + k
            &&& b == (AppModel { same_camera: b.same_camera, frames: b.frames, ..a })
        }),
    decreases k,
{
    if k > 0 {
        the_camera_ages_by_the_frame(a, (k - 1) as nat);
    }
}

/// With a dump path, exactly the frame with the number 120 is dumped, counting
/// from zero; without one, none is. The frame rate is reported with every
/// 600th frame.
pub proof fn dumps_and_reports(a: AppModel)
    ensures
        testbed::is_dumped(a) == (a.dump_path is Some && a.frames == 120),
        testbed::is_reported(a) == ((a.frames as int + 1) % 600 == 0),
{
}

/// A requested number is kept where it is in range, and goes to the nearer end
/// of the range where it is not; zero counts as in range whatever its sign. A
/// pattern that is no number is kept.
pub proof fn requests_are_clamped(s: Single)
    ensures
        ({
            let r = single::requested_scale(s);
            let (m, one) = (s.magnitude(), single::one());
            &&& s.is_nan() ==> r == s
            &&& !s.is_nan() && (s.negative() || 4 * m < one) ==> r.bits == 0x3E80_0000
            &&& !s.is_nan() && !s.negative() && one <= 4 * m && m <= one ==> r == s
            &&& !s.is_nan() && !s.negative() && m > one ==> r.bits == 0x3F80_0000
        }),
        ({
            let r = single::requested_unit(s);
            let (m, one) = (s.magnitude(), single::one());
            &&& s.is_nan() || m == 0 ==> r == s
            &&& !s.is_nan() && s.negative() && m > 0 ==> r.bits == 0
            &&& !s.is_nan() && !s.negative() && m <= one ==> r == s
            &&& !s.is_nan() && !s.negative() && m > one ==> r.bits == 0x3F80_0000
        }),
{
    single::constant_magnitudes();
    vstd::arithmetic::power2::lemma_pow2_unfold(148);
    vstd::arithmetic::power2::lemma_pow2_unfold(149);
    vstd::arithmetic::power2::lemma_pow2_pos(147);
}

/// A pipeline that takes over new sizes has them, starts over, keeps its
/// passes, programs and configuration, and begins its turns anew.
pub proof fn new_sizes_start_over(p: PipelineModel<Stage>, e: Extents)
    ensures
        ({
            let q = testbed::resized(p, e);
            &&& q.sizes.render == (e.render_w, e.render_h)
            &&& q.sizes.display == (e.display_w, e.display_h)
            &&& q.needs_reset
            &&& q.table.len() == 0
            &&& q.stale.len() == 0
            &&& q.timer_frame == 0
            &&& q.passes == p.passes && q.progs == p.progs && q.cfg == p.cfg
            &&& q.enabled == p.enabled && q.variant == p.variant
            &&& q.views == p.views && q.timers == p.timers
            &&& q.scene_fbo == p.scene_fbo && q.scene == p.scene && q.blit_prog == p.blit_prog
        }),
        testbed::sizes_of(e).render == (e.render_w, e.render_h),
        testbed::sizes_of(e).display == (e.display_w, e.display_h),
{
}

/// The names of the views on the status line.
pub proof fn view_names()
    ensures
        view::name_of(ViewMode::Upscaled) == "upscaled"@,
        view::name_of(ViewMode::Native) == "native scene"@,
        view::name_of(ViewMode::Split) == "split native|upscaled"@,
        view::name_of(ViewMode::Motion) == "motion/disocc debug"@,
        view::name_of(ViewMode::Luma) == "luma-history debug"@,
        view::name_of(ViewMode::Clip) == "activate clip/edge debug"@,
{
}

/// The status line names the view, the scale, the sharpness and which side of
/// sharpening is shown, then the render and the display size, the path and the
/// number of passes, and ends in the timing overlay while that is shown.
pub proof fn the_status_line(a: AppModel, scale: Seq<char>, sharp: Seq<char>, gpu: Seq<char>)
    requires
        a.pipeline is Some,
    ensures
        ({
            let p = a.pipeline->0;
            let sizes = text::decimal(p.sizes.render.0 as nat) + "x"@ + text::decimal(
                p.sizes.render.1 as nat,
            ) + "->"@ + (text::decimal(p.sizes.display.0 as nat) + "x"@ + text::decimal(
                p.sizes.display.1 as nat,
            ));
            let line = testbed::status_text(a, scale, sharp, gpu);
            let shown = if a.show_pre {
                " pre"@
            } else {
                ""@
            };
            let path = if p.cfg.use_compute {
                "compute"@
            } else {
                "fragment"@
            };
            let count = if p.cfg.three_pass && p.cfg.use_compute {
                "3 "@
            } else {
                "2 "@
            };
            let overlay = if a.show_gpu {
                gpu
            } else {
                ""@
            };
            line == "view="@ + view::name_of(a.view) + " scale="@ + scale + " sharp="@ + sharp + shown
                + " ("@ + sizes + ") path="@ + path + " passes="@ + count + overlay
        }),
{
    reveal_strlit("2");
    reveal_strlit("3");
    reveal_strlit("2 ");
    reveal_strlit("3 ");
    reveal_strlit(" ");
    assert("2"@ + " "@ =~= "2 "@);
    assert("3"@ + " "@ =~= "3 "@);
    let p = a.pipeline->0;
    let count = if p.cfg.three_pass && p.cfg.use_compute {
        "3"@
    } else {
        "2"@
    };
    let sizes = testbed::size_text(p.sizes.render) + "->"@ + testbed::size_text(p.sizes.display);
    let shown = if a.show_pre {
        " pre"@
    } else {
        ""@
    };
    let path = if p.cfg.use_compute {
        "compute"@
    } else {
        "fragment"@
    };
    let overlay = if a.show_gpu {
        gpu
    } else {
        ""@
    };
    let head = "view="@ + view::name_of(a.view) + " scale="@ + scale + " sharp="@ + sharp + shown;
    assert(testbed::status_text(a, scale, sharp, gpu) =~= head + " ("@ + sizes + ") path="@ + path
        + " passes="@ + (count + " "@) + overlay);
}

} // verus!
