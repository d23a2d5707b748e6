use std::num::NonZeroU32;

use igsr::passes::stage::default_passes;
use igsr::pipeline::{collect_views, Pipeline, ProgramPair, SceneTargets};
use igsr::resources::Sizes;
use igsr::single::Single;
use igsr::sources::debug_views;
use igsr::testbed::{App, KeyCode, Notice};
use igsr::view::ViewMode;

fn headless_app() -> App {
    App::new(false, false, false, None, false)
}

fn f(s: Single) -> f32 {
    f32::from_bits(s.bits)
}

fn app_with_pipeline(compute: bool, with_programs: bool) -> App {
    let nz = |n: u32| NonZeroU32::new(n).unwrap();
    let passes = default_passes();
    let progs = (0..4u32)
        .map(|i| ProgramPair {
            compute: if with_programs { Some(glow::NativeProgram(nz(2 * i + 1))) } else { None },
            fragment: Some(glow::NativeProgram(nz(2 * i + 2))),
        })
        .collect();
    let views = collect_views(&debug_views(&passes), &vec![None, None, None]);
    let t = |n| glow::NativeTexture(nz(n));
    let scene = SceneTargets { color: t(1), velocity: t(2), depth: t(3) };
    let sizes = Sizes { render: (640, 360), display: (1280, 720) };
    let mut a = headless_app();
    a.pipeline = Some(Pipeline::new(passes, progs, views, &Vec::new(), compute, true, false, sizes,
        glow::NativeFramebuffer(nz(4)), scene, glow::NativeProgram(nz(99))));
    a
}

#[test]
fn view_cycles_all_modes() {
    let mut a = headless_app();
    let mut seen = vec![a.view];
    for _ in 0..5 {
        a.handle_key(KeyCode::KeyV);
        seen.push(a.view);
    }
    assert_eq!(
        seen,
        vec![
            ViewMode::Upscaled,
            ViewMode::Native,
            ViewMode::Split,
            ViewMode::Motion,
            ViewMode::Luma,
            ViewMode::Clip,
        ]
    );
    a.handle_key(KeyCode::KeyV);
    assert_eq!(a.view, ViewMode::Upscaled);
}

#[test]
fn direct_view_keys() {
    let mut a = headless_app();
    a.handle_key(KeyCode::KeyM);
    assert_eq!(a.view, ViewMode::Motion);
    a.handle_key(KeyCode::KeyH);
    assert_eq!(a.view, ViewMode::Luma);
    a.handle_key(KeyCode::KeyC);
    assert_eq!(a.view, ViewMode::Clip);
}

#[test]
fn scale_clamps() {
    let mut a = headless_app();
    for _ in 0..20 {
        a.handle_key(KeyCode::Equal);
    }
    assert!((f(a.scale) - 1.0).abs() < 1e-6);
    for _ in 0..30 {
        a.handle_key(KeyCode::Minus);
    }
    assert!((f(a.scale) - 0.25).abs() < 1e-6);
    a.handle_key(KeyCode::Equal);
    assert!(f(a.scale) > 0.25);
}

#[test]
fn toggles_safe_without_pipeline() {
    // No GL context here: every arm must degrade gracefully.
    let mut a = headless_app();
    a.handle_key(KeyCode::KeyR);
    a.handle_key(KeyCode::KeyF);
    a.handle_key(KeyCode::KeyT);
    a.handle_key(KeyCode::KeyG);
    assert!(!a.show_gpu);
    a.handle_key(KeyCode::KeyG);
    assert!(a.show_gpu);
    a.handle_key(KeyCode::KeyB);
    assert!(a.show_pre);
    a.handle_key(KeyCode::KeyX);
    a.handle_key(KeyCode::KeyX);
    a.handle_key(KeyCode::KeyZ);
    a.handle_key(KeyCode::KeyX); // unbound: no-op
    assert_eq!(a.same_camera, 0);
}

#[test]
fn keys_tell() {
    let mut a = headless_app();
    assert_eq!(a.handle_key(KeyCode::KeyV), vec![Notice::Status]);
    assert_eq!(a.handle_key(KeyCode::KeyR), vec![Notice::HistoryReset]);
    assert_eq!(a.handle_key(KeyCode::KeyB), vec![Notice::Showing(true)]);
    assert_eq!(a.handle_key(KeyCode::KeyF), vec![Notice::Status]);
    assert_eq!(a.handle_key(KeyCode::Other), vec![]);
    assert_eq!(Notice::Showing(true).text(), "showing pre-RCAS");
    assert_eq!(Notice::Showing(false).text(), "showing post-RCAS");
    assert_eq!(Notice::ThreePass(true).text(), "three_pass=true");
    assert_eq!(Notice::ThreePass(false).text(), "three_pass=false");
    assert_eq!(Notice::HistoryReset.text(), "history reset (camera-cut path)");
    assert_eq!(Notice::ForcedFragment.text(), "forced fragment path");
    assert_eq!(Notice::ComputePath.text(), "compute path");
    assert_eq!(
        Notice::ComputeUnavailable.text(),
        "compute programs unavailable; staying fragment"
    );
    assert_eq!(Notice::Status.text(), "");
}

#[test]
fn keys_reach_the_pipeline() {
    let mut a = app_with_pipeline(true, true);
    a.same_camera = 5;
    assert_eq!(a.handle_key(KeyCode::KeyF), vec![Notice::ForcedFragment, Notice::Status]);
    assert!(!a.pipeline.as_ref().unwrap().use_compute());
    assert_eq!(a.same_camera, 5);
    assert_eq!(a.handle_key(KeyCode::KeyF), vec![Notice::ComputePath, Notice::Status]);
    assert!(a.pipeline.as_ref().unwrap().use_compute());
    assert!(a.pipeline.as_ref().unwrap().resets());
    assert_eq!(a.same_camera, 0);
    assert_eq!(a.handle_key(KeyCode::KeyT), vec![Notice::ThreePass(false), Notice::Status]);
    assert_eq!(a.handle_key(KeyCode::KeyT), vec![Notice::ThreePass(true), Notice::Status]);
    a.handle_key(KeyCode::KeyX);
    assert_eq!(f(a.pipeline.as_ref().unwrap().sharpness()), 0.4);
    a.handle_key(KeyCode::KeyZ);
    a.handle_key(KeyCode::KeyZ);
    assert_eq!(f(a.pipeline.as_ref().unwrap().sharpness()), ((0.3f32 + 0.1) - 0.1) - 0.1);
    let mut b = app_with_pipeline(false, false);
    assert_eq!(b.handle_key(KeyCode::KeyF), vec![Notice::ComputeUnavailable, Notice::Status]);
    assert!(!b.pipeline.as_ref().unwrap().use_compute());
}

#[test]
fn status_lines() {
    let a = headless_app();
    assert_eq!(
        a.status("0.50", "0.00", "gpu=[x]"),
        "view=upscaled scale=0.50 sharp=0.00 (0x0->0x0) path=? passes=2 "
    );
    let mut b = app_with_pipeline(true, true);
    b.show_pre = true;
    assert_eq!(
        b.status("0.50", "0.30", "gpu=[x]"),
        "view=upscaled scale=0.50 sharp=0.30 pre (640x360->1280x720) path=compute passes=3 gpu=[x]"
    );
    b.handle_key(KeyCode::KeyF);
    b.handle_key(KeyCode::KeyG);
    b.handle_key(KeyCode::KeyM);
    assert_eq!(
        b.status("0.50", "0.30", "gpu=[x]"),
        "view=motion/disocc debug scale=0.50 sharp=0.30 pre (640x360->1280x720) path=fragment passes=2 "
    );
}

#[test]
fn frame_sizes() {
    let mut a = headless_app();
    let e = a.extents(1280, 720);
    assert_eq!((e.display_w, e.display_h, e.render_w, e.render_h), (1280, 720, 640, 360));
    let small = a.extents(1, 1);
    assert_eq!((small.display_w, small.display_h), (320, 200));
    assert_eq!((small.render_w, small.render_h), (160, 100));
    a.scale = Single { bits: f32::NAN.to_bits() };
    let n = a.extents(1280, 720);
    assert_eq!((n.render_w, n.render_h), (8, 8));
}

#[test]
fn frames_rebuild_on_a_new_render_size() {
    let mut a = headless_app();
    assert!(a.begin_draw(1280, 720).is_none());
    let mut b = app_with_pipeline(true, true);
    b.same_camera = 7;
    let same = b.begin_draw(1280, 720).unwrap();
    assert!(same.rebuild.is_none());
    assert_eq!(b.same_camera, 7);
    b.handle_key(KeyCode::Equal);
    let plan = b.begin_draw(1280, 720).unwrap();
    assert_eq!((plan.extents.render_w, plan.extents.render_h), (704, 396));
    let r = plan.rebuild.unwrap();
    assert_eq!(r.release.len(), 3);
    assert_eq!(r.plan.len(), 8);
    assert_eq!(b.same_camera, 0);
    assert_eq!(b.pipeline.as_ref().unwrap().render_size(), (704, 396));
}

#[test]
fn frames_rebuild_on_a_new_display_size() {
    let mut a = app_with_pipeline(true, true);
    let first = a.begin_draw(640, 400).unwrap();
    assert!(first.rebuild.is_some());
    a.same_camera = 5;
    assert!(a.begin_draw(640, 400).unwrap().rebuild.is_none());
    assert_eq!(a.same_camera, 5);
    let plan = a.begin_draw(641, 400).unwrap();
    assert_eq!((plan.extents.display_w, plan.extents.render_w), (641, 320));
    assert!(plan.rebuild.is_some());
    assert_eq!(a.same_camera, 0);
    let p = a.pipeline.as_ref().unwrap();
    assert_eq!(p.display_size(), (641, 400));
    assert_eq!(p.render_size(), (320, 200));
    assert!(p.resets());
}

#[test]
fn frames_are_counted() {
    let mut a = App::new(false, false, false, Some(String::from("/tmp/x.ppm")), false);
    let mut dumps = Vec::new();
    let mut reports = Vec::new();
    for i in 0..1200u64 {
        let e = a.end_draw(i == 3);
        if e.dump {
            dumps.push(i);
        }
        if e.report {
            reports.push(i);
        }
        if i == 3 {
            assert_eq!(a.same_camera, 0);
        }
    }
    assert_eq!(dumps, vec![120]);
    assert_eq!(reports, vec![599, 1199]);
    assert_eq!(a.frames, 1200);
    assert_eq!(a.same_camera, 1196);
    let mut b = headless_app();
    b.frames = 120;
    assert!(!b.end_draw(false).dump);
    b.same_camera = u32::MAX;
    b.end_draw(true);
    assert_eq!(b.same_camera, 0);
}

#[test]
fn pipelines_are_adopted() {
    let mut a = headless_app();
    a.set_init_sharp(Single { bits: 0.9f32.to_bits() });
    let p = app_with_pipeline(true, true).pipeline.unwrap();
    a.adopt(p);
    assert_eq!(f(a.pipeline.as_ref().unwrap().sharpness()), 0.9);
    let mut b = headless_app();
    b.adopt(app_with_pipeline(true, true).pipeline.unwrap());
    assert_eq!(f(b.pipeline.as_ref().unwrap().sharpness()), 0.3);
}

#[test]
fn inputs_of_a_frame() {
    let s = |v: f32| Single { bits: v.to_bits() };
    let mut a = app_with_pipeline(true, true);
    a.same_camera = 4;
    let col: [Single; 16] = std::array::from_fn(|i| s(i as f32));
    let i = a.frame_inputs([s(0.1), s(-0.2)], &col, s(0.77));
    assert_eq!(i.jitter.map(f), [0.1, -0.2]);
    assert_eq!(f(i.clip_to_prev[1]), 4.0);
    assert_eq!(f(i.clip_to_prev[4]), 1.0);
    assert_eq!((f(i.pre_exposure), f(i.camera_near), f(i.min_lerp)), (1.0, 0.1, 0.2));
    assert_eq!(f(i.camera_fov_hor), 0.77);
    assert_eq!(i.same_camera_frames, 4);
    assert!(i.reset);
    assert!(!headless_app().frame_inputs([s(0.0), s(0.0)], &col, s(1.0)).reset);
}

#[test]
fn selftest_runs_once() {
    let mut a = App::new(false, false, true, None, false);
    assert!(a.selftest_due());
    assert!(!a.selftest_due());
    assert!(!headless_app().selftest_due());
}
