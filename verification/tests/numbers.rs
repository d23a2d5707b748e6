use igsr::config::{FrameInputs, IgsrConfig, QualityMode};
use igsr::image::channel;
use igsr::mat4;
use igsr::single::{
    blend_in, percent, read_nanoseconds, scale_down, scale_up, scaled_extent, sharpen_down,
    sharpen_up, Single,
};
use igsr::testbed::App;

fn f(s: Single) -> f32 {
    f32::from_bits(s.bits)
}

fn s(v: f32) -> Single {
    Single { bits: v.to_bits() }
}

/// Values spread over `[lo, hi]`, ends included.
fn spread(lo: f32, hi: f32) -> Vec<f32> {
    let (a, b) = (lo.to_bits(), hi.to_bits());
    let mut out = vec![lo, hi];
    let mut x: u64 = 88172645463325252;
    for _ in 0..20000 {
        x ^= x << 13;
        x ^= x >> 7;
        x ^= x << 17;
        out.push(f32::from_bits(a + (x % (b - a + 1) as u64) as u32));
    }
    out
}

#[test]
fn integers_convert_like_the_hardware() {
    for n in [0u32, 1, 2, 7, 255, 320, 1280, 16777215, 16777216, 16777217, 16777219, 33554433,
        u32::MAX - 128, u32::MAX - 127, u32::MAX]
    {
        assert_eq!(Single::from_u32(n).bits, (n as f32).to_bits(), "{n}");
    }
    for k in 0..200000u32 {
        let n = k.wrapping_mul(2654435761);
        assert_eq!(Single::from_u32(n).bits, (n as f32).to_bits(), "{n}");
    }
}

#[test]
fn scale_steps_match_the_hardware() {
    for v in spread(0.25, 1.0) {
        assert_eq!(f(scale_up(s(v))), (v + 0.05).min(1.0), "{v}");
        assert_eq!(f(scale_down(s(v))), (v - 0.05).max(0.25), "{v}");
    }
    assert_eq!(f(scale_up(s(f32::NAN))), (f32::NAN + 0.05f32).min(1.0));
    assert_eq!(f(scale_down(s(f32::NAN))), (f32::NAN - 0.05f32).max(0.25));
}

#[test]
fn sharpness_steps_match_the_hardware() {
    for v in spread(0.0, 1.0) {
        assert_eq!(f(sharpen_up(s(v))), (v + 0.1).min(1.0), "{v}");
        assert_eq!(f(sharpen_down(s(v))), (v - 0.1).max(0.0), "{v}");
    }
    assert_eq!(f(sharpen_up(s(f32::NAN))), 1.0);
    assert_eq!(f(sharpen_down(s(f32::NAN))), 0.0);
}

#[test]
fn nanoseconds_match_the_hardware() {
    let mut counts: Vec<u32> = vec![0, 1, 2, 3, 999, 1000, 999_999, 1_000_000, u32::MAX];
    counts.extend((0..32).map(|k| 1u32 << k));
    counts.extend(spread(0.0, 1.0).iter().map(|v| v.to_bits().wrapping_mul(2654435761)));
    for ns in counts {
        assert_eq!(f(read_nanoseconds(ns)), ns as f32 / 1e6, "{ns}");
    }
}

#[test]
fn blending_matches_the_hardware() {
    let olds = spread(0.0, 4295.0);
    let mut news = spread(0.0, 8192.0);
    news.reverse();
    for (old, new) in olds.iter().zip(news.iter()) {
        assert_eq!(f(blend_in(s(*old), s(*new))), old * 0.95 + new * 0.05, "{old} {new}");
    }
    for old in [0.0, f32::from_bits(1), f32::from_bits(9), f32::MIN_POSITIVE, 1e-30, 8192.0] {
        for new in [0.0, f32::from_bits(11), 1e-38, 1e-9, 3.25, 8192.0] {
            assert_eq!(f(blend_in(s(old), s(new))), old * 0.95 + new * 0.05, "{old} {new}");
        }
    }
    assert_eq!(blend_in(s(2.0), s(4.0)).bits, 0x4006_6666);
}

#[test]
fn steps_have_exact_values() {
    assert_eq!(scale_up(s(0.5)).bits, 0.55f32.to_bits());
    assert_eq!(scale_down(s(0.25)).bits, 0.25f32.to_bits());
    assert_eq!(scale_up(s(1.0)).bits, 1.0f32.to_bits());
    assert_eq!(sharpen_up(s(0.3)).bits, 0.4f32.to_bits());
    assert_eq!(sharpen_down(s(0.05)).bits, 0.0f32.to_bits());
}

#[test]
fn extents_match_the_hardware() {
    for v in spread(0.25, 1.0).into_iter().take(2000) {
        for dim in [0u32, 1, 3, 320, 677, 720, 1080, 1280, 4096, 16777217, u32::MAX] {
            assert_eq!(scaled_extent(dim, s(v)), (dim as f32 * v) as u32, "{dim} {v}");
        }
    }
    assert_eq!(scaled_extent(1280, s(f32::NAN)), 0);
}

#[test]
fn extents_keep_the_order_of_dimensions() {
    for v in [0.25f32, 0.59, 0.67, 0.999, 1.0] {
        let mut last = 0;
        for dim in 0..4000u32 {
            let e = scaled_extent(dim, s(v));
            assert!(last <= e && e <= dim);
            last = e;
        }
    }
}

#[test]
fn clamps_match_the_hardware() {
    for v in [0.0f32, -0.0, -1.0, 0.1, 0.25, 0.3, 0.99, 1.0, 1.5, f32::INFINITY, f32::NEG_INFINITY]
    {
        assert_eq!(s(v).to_scale().bits, v.clamp(0.25, 1.0).to_bits(), "{v}");
        assert_eq!(s(v).to_unit().bits, v.clamp(0.0, 1.0).to_bits(), "{v}");
    }
    assert!(f(s(f32::NAN).to_scale()).is_nan());
    assert!(f(s(f32::NAN).to_unit()).is_nan());
    assert!(s(f32::NAN).nan());
    assert!(!s(f32::INFINITY).nan());
}

#[test]
fn percentages_match_the_hardware() {
    for p in 0..=255u8 {
        let want = (p.clamp(25, 100) as f32) / 100.0;
        assert_eq!(percent(p).bits, want.to_bits(), "{p}");
        assert_eq!(QualityMode::Custom(p).render_scale().bits, want.to_bits());
    }
    assert_eq!(f(QualityMode::Performance.render_scale()), 0.5);
    assert_eq!(f(QualityMode::Balanced.render_scale()), 0.59);
    assert_eq!(f(QualityMode::Quality.render_scale()), 0.67);
}

#[test]
fn render_sizes_match_the_hardware() {
    let modes = [
        QualityMode::Performance,
        QualityMode::Balanced,
        QualityMode::Quality,
        QualityMode::Custom(0),
        QualityMode::Custom(33),
        QualityMode::Custom(100),
        QualityMode::Custom(200),
    ];
    for m in modes {
        for (w, h) in [(1280u32, 720u32), (1, 1), (0, 3), (1920, 1080), (677, 760), (3, 5)] {
            let c = IgsrConfig::from_display(w, h, m);
            let sc = f(m.render_scale());
            assert_eq!(c.render_w, ((w as f32 * sc) as u32).max(1));
            assert_eq!(c.render_h, ((h as f32 * sc) as u32).max(1));
            assert!(c.render_w <= w.max(1) && c.render_h <= h.max(1));
            assert_eq!((c.display_w, c.display_h), (w, h));
            assert!(c.prefer_compute && !c.three_pass);
        }
    }
    let c = IgsrConfig::from_display(1280, 720, QualityMode::Balanced);
    assert_eq!((c.render_w, c.render_h), (755, 424));
}

#[test]
fn config_record() {
    let c = IgsrConfig::new(640, 360, 1280, 720);
    let r = c.to_ffi();
    assert_eq!((r.render_w, r.render_h, r.display_w, r.display_h), (640, 360, 1280, 720));
    assert_eq!((r.prefer_compute, r.three_pass, r.reset), (1, 0, 1));
}

#[test]
fn neutral_inputs() {
    let n = FrameInputs::reset_frame();
    assert_eq!(n.jitter.map(f), [0.0, 0.0]);
    let mut ident = [0.0f32; 16];
    for i in 0..4 {
        ident[i * 5] = 1.0;
    }
    assert_eq!(n.clip_to_prev.map(f), ident);
    assert_eq!(f(n.pre_exposure), 1.0);
    assert_eq!(f(n.camera_fov_hor), 1.0);
    assert_eq!(f(n.camera_near), 0.1);
    assert_eq!(f(n.min_lerp), 0.2);
    assert_eq!(n.same_camera_frames, 0);
    assert!(n.reset);
    let r = n.to_ffi();
    assert_eq!(r.reset, 1);
    assert_eq!(f(r.min_lerp_contrib), 0.2);
    assert_eq!(r.clip_to_prev.map(f), ident);
    let mut kept = n.clone();
    kept.reset = false;
    kept.same_camera_frames = 9;
    assert_eq!(kept.to_ffi().reset, 0);
    assert_eq!(kept.to_ffi().same_camera_frames, 9);
}

#[test]
fn matrices_transpose() {
    let m: [u32; 16] = std::array::from_fn(|i| i as u32);
    let t = mat4::transpose(&m);
    assert_eq!(t[1], 4);
    assert_eq!(t[4], 1);
    assert_eq!(t[11], 14);
    assert_eq!(mat4::transpose(&t), m);
    let i = mat4::identity();
    assert_eq!(mat4::transpose(&i), i);
    let tr = mat4::translate(s(1.5), s(-2.0), s(3.0));
    assert_eq!(tr.map(f)[12..], [1.5, -2.0, 3.0, 1.0]);
    assert_eq!(f(tr[0]), 1.0);
    assert_eq!(f(tr[4]), 0.0);
}

#[test]
fn channels_are_little_endian() {
    let mut px = [0u8; 16];
    for (k, v) in [0.2f32, -0.4, 0.6, 1.0].iter().enumerate() {
        px[4 * k..4 * k + 4].copy_from_slice(&v.to_le_bytes());
    }
    for (k, v) in [0.2f32, -0.4, 0.6, 1.0].iter().enumerate() {
        assert_eq!(f(channel(&px, k)), *v);
    }
}

#[test]
fn requested_values_are_clamped() {
    let mut a = App::new(false, false, false, None, false);
    a.set_scale(s(3.0));
    assert_eq!(f(a.scale), 1.0);
    a.set_scale(s(0.01));
    assert_eq!(f(a.scale), 0.25);
    a.set_init_sharp(s(-1.0));
    assert_eq!(a.init_sharp.map(f), Some(0.0));
    a.set_init_sharp(s(0.7));
    assert_eq!(a.init_sharp.map(f), Some(0.7));
}
