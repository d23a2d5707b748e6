use std::num::NonZeroU32;

use igsr::commands::{Command, UniformCache, UniformValue};
use igsr::passes::stage::{default_passes, Stage};
use igsr::passes::{Pass, PassCtx, ShaderSet, Variant, Variants};
use igsr::pipeline::{collect_views, scene_plan, Pipeline, ProgramPair, SceneTargets};
use igsr::records::IgsrParamsFfi;
use igsr::resources::{Allocation, Release, ResourceKind, SizeDomain, Sizes, TapHandles};
use igsr::single::Single;
use igsr::sources::{debug_views, missing_variants, pass_sources};
use igsr::timers::{fmt_ms, format_report, PassId, PassTimers};
use igsr::view::{blit_to_screen, blits, ViewMode};

fn nz(n: u32) -> NonZeroU32 {
    NonZeroU32::new(n).unwrap()
}

fn tex(n: u32) -> glow::NativeTexture {
    glow::NativeTexture(nz(n))
}

fn fbo(n: u32) -> glow::NativeFramebuffer {
    glow::NativeFramebuffer(nz(n))
}

fn prog(n: u32) -> glow::NativeProgram {
    glow::NativeProgram(nz(n))
}

fn query(n: u32) -> glow::NativeQuery {
    glow::NativeQuery(nz(n))
}

fn s(v: f32) -> Single {
    Single { bits: v.to_bits() }
}

const COLOR: u32 = 901;
const VELOCITY: u32 = 902;
const DEPTH: u32 = 903;
const BLIT: u32 = 77;

fn scene() -> SceneTargets {
    SceneTargets { color: tex(COLOR), velocity: tex(VELOCITY), depth: tex(DEPTH) }
}

fn params() -> IgsrParamsFfi {
    IgsrParamsFfi {
        render_size: [s(64.0), s(48.0)],
        display_size: [s(128.0), s(96.0)],
        render_size_rcp: [s(1.0 / 64.0), s(1.0 / 48.0)],
        display_size_rcp: [s(1.0 / 128.0), s(1.0 / 96.0)],
        jitter: [s(0.25), s(-0.125)],
        clip_to_prev_clip: std::array::from_fn(|i| s(i as f32)),
        pre_exposure: s(1.0),
        camera_fov_hor: s(0.8),
        camera_near: s(0.1),
        min_lerp_contrib: s(0.2),
        same_camera_frames: 2,
        reset: 1,
    }
}

fn shaders() -> ShaderSet {
    ShaderSet {
        fullscreen_vert: String::from("VERT"),
        convert_frag: String::from("CF"),
        convert_comp: String::from("CC"),
        activate_comp: String::from("AC"),
        upscale_frag: String::from("UF"),
        upscale_comp: String::from("UC"),
        sharpen_frag: String::from("SF"),
        sharpen_comp: String::from("SC"),
    }
}

/// Programs 1 to 8: compute and fragment of each pass; activate has no
/// fragment program.
fn programs() -> Vec<ProgramPair> {
    vec![
        ProgramPair { compute: Some(prog(1)), fragment: Some(prog(2)) },
        ProgramPair { compute: Some(prog(3)), fragment: None },
        ProgramPair { compute: Some(prog(5)), fragment: Some(prog(6)) },
        ProgramPair { compute: Some(prog(7)), fragment: Some(prog(8)) },
    ]
}

/// Handles for a plan: entry `e`, tap `t` gets texture 100 + 10 e + t and
/// framebuffer 200 + 10 e + t.
fn handles(plan: &Vec<Allocation>) -> Vec<TapHandles> {
    plan.iter()
        .enumerate()
        .map(|(e, a)| TapHandles {
            tex: (0..a.taps).map(|t| tex(100 + 10 * e as u32 + t as u32)).collect(),
            fbo: (0..a.taps).map(|t| fbo(200 + 10 * e as u32 + t as u32)).collect(),
        })
        .collect()
}

fn released_textures(list: &Vec<Release>) -> Vec<u32> {
    list.iter()
        .filter_map(|x| match x {
            Release::Texture(t) => Some(t.0.get()),
            Release::Framebuffer(_) => None,
        })
        .collect()
}

fn built(progs: Vec<ProgramPair>, compute: bool, three: bool, timers: bool) -> Pipeline<Stage> {
    let passes = default_passes();
    let offered = debug_views(&passes);
    let views = collect_views(&offered, &vec![Some(prog(51)), Some(prog(52)), Some(prog(53))]);
    let queries: Vec<glow::NativeQuery> = (1..=18).map(query).collect();
    let sizes = Sizes { render: (64, 48), display: (128, 96) };
    let mut p = Pipeline::new(passes, progs, views, &queries, compute, three, timers, sizes,
        fbo(999), scene(), prog(BLIT));
    let r = p.resize(64, 48, 128, 96);
    assert_eq!(released_textures(&r.release), vec![COLOR, VELOCITY, DEPTH]);
    let h = handles(&r.plan);
    let cleared = p.install(scene(), &r.plan, h);
    assert_eq!(cleared, vec![fbo(230), fbo(231), fbo(240), fbo(241)]);
    p
}

fn names(p: &Vec<Command>) -> Vec<String> {
    p.iter()
        .map(|c| match c {
            Command::BeginQuery(q) => format!("begin {}", q.0),
            Command::EndQuery => String::from("end"),
            Command::BindImage { unit, texture, format } => {
                format!("image {unit} {} {format:x}", texture.0)
            }
            Command::BindTarget { framebuffer, width, height } => {
                format!("target {} {width}x{height}", framebuffer.0)
            }
            Command::UseProgram(None) => String::from("use -"),
            Command::UseProgram(Some(p)) => format!("use {}", p.0),
            Command::BindTexture { unit, texture } => format!("tex {unit} {}", texture.0),
            Command::Uniform { key, program, name, value } => {
                let v = match value {
                    UniformValue::Float(v) => format!("{}", f32::from_bits(v.bits)),
                    UniformValue::Int(v) => format!("{v}"),
                    UniformValue::Pair(a, b) => {
                        format!("{},{}", f32::from_bits(a.bits), f32::from_bits(b.bits))
                    }
                    UniformValue::Matrix(m) => format!("m{}", f32::from_bits(m[1].bits)),
                };
                format!("{key}/{} {name}={v}", program.0)
            }
            Command::Dispatch { x, y, z } => format!("dispatch {x} {y} {z}"),
            Command::Draw => String::from("draw"),
        })
        .collect()
}

#[test]
fn report_formats() {
    let ms = |v: f32| format!("{v:.2}");
    assert_eq!(
        format_report(false, None, None, None, None, None, None),
        "gpu=[timer queries unsupported]"
    );
    assert_eq!(
        format_report(
            true,
            Some(ms(0.424).as_str()),
            None,
            Some(ms(1.096).as_str()),
            Some(ms(1.62).as_str()),
            Some(ms(0.31).as_str()),
            Some(ms(0.5).as_str())
        ),
        "gpu=[convert 0.42ms activate -- upscale 1.10ms sharp 0.31ms scene 0.50ms total 1.62ms]"
    );
    assert_eq!(
        format_report(
            true,
            Some(ms(0.424).as_str()),
            Some(ms(0.1).as_str()),
            None,
            None,
            None,
            None
        ),
        "gpu=[convert 0.42ms activate 0.10ms upscale -- sharp -- scene -- total --]"
    );
    assert_eq!(fmt_ms(None), "--");
    assert_eq!(fmt_ms(Some("1.00")), "1.00ms");
}

#[test]
fn compile_plan() {
    let passes = default_passes();
    let got = pass_sources(&passes, &shaders(), Some("PRE\n"));
    let compute: Vec<Option<String>> = got.iter().map(|g| g.compute.clone()).collect();
    assert_eq!(
        compute,
        ["PRE\nCC", "PRE\nAC", "PRE\nUC", "PRE\nSC"].map(|t| Some(t.to_string())).to_vec()
    );
    assert_eq!(got[0].fragment, Some((String::from("VERT"), String::from("CF"))));
    assert_eq!(got[1].fragment, None);
    assert_eq!(got[2].fragment, Some((String::from("VERT"), String::from("UF"))));
    assert_eq!(got[3].fragment, Some((String::from("VERT"), String::from("SF"))));
    let without = pass_sources(&passes, &shaders(), None);
    assert!(without.iter().all(|g| g.compute.is_none()));
    assert!(without[0].fragment.is_some());
}

#[test]
fn pass_declarations() {
    let passes = default_passes();
    let labels: Vec<&str> = passes.iter().map(|p| p.name()).collect();
    assert_eq!(labels, vec!["convert", "activate", "upscale", "sharpen"]);
    assert_eq!(passes[0].variants(), Variants::both());
    assert_eq!(passes[1].variants(), Variants::compute_only());
    assert_eq!(passes[3].io().final_output, Some("sharp"));
    assert_eq!(passes[2].io().reads, ["color", "data", "history"]);
    let missing: Vec<(&str, Variant)> =
        missing_variants(&passes).iter().map(|m| (m.pass, m.variant)).collect();
    assert_eq!(missing, vec![("activate", Variant::Fragment)]);
    let views = debug_views(&passes);
    let list: Vec<(&str, &str)> = views.iter().map(|v| (v.label, v.source)).collect();
    assert_eq!(list, vec![("motion", "data"), ("luma", "luma"), ("clip", "data")]);
    assert!(views[0].frag.contains("u_render_size"));
    let some = collect_views(&views, &vec![Some(prog(1)), None, Some(prog(3))]);
    let kept: Vec<&str> = some.iter().map(|v| v.label).collect();
    assert_eq!(kept, vec!["motion", "clip"]);
}

#[test]
fn resources_carry_gl_formats() {
    let mut all = Vec::new();
    for p in default_passes() {
        all.extend(p.resources());
    }
    let rows: Vec<_> = all
        .iter()
        .map(|r| (r.name, r.internal as u32, r.upload_format, r.upload_type, r.filter))
        .collect();
    assert_eq!(
        rows,
        vec![
            ("depth", glow::R32F, glow::RED, glow::FLOAT, glow::NEAREST),
            ("velocity", glow::RG32F, glow::RG, glow::FLOAT, glow::NEAREST),
            ("color", glow::RGBA8, glow::RGBA, glow::UNSIGNED_BYTE, glow::NEAREST),
            ("data", glow::RGBA16F, glow::RGBA, glow::HALF_FLOAT, glow::NEAREST),
            ("luma", glow::RG16F, glow::RG, glow::HALF_FLOAT, glow::NEAREST),
            ("history", glow::RGBA16F, glow::RGBA, glow::HALF_FLOAT, glow::LINEAR),
            ("scene_out", glow::RGBA16F, glow::RGBA, glow::HALF_FLOAT, glow::NEAREST),
            ("sharp", glow::RGBA16F, glow::RGBA, glow::HALF_FLOAT, glow::NEAREST),
        ]
    );
    assert_eq!(all[3].kind, ResourceKind::PingPong { taps: 2 });
    assert_eq!(all[5].domain, SizeDomain::Display);
    let targets = scene_plan(64, 48);
    let list: Vec<(&str, u32, u32)> =
        targets.iter().map(|a| (a.spec.name, a.width, a.height)).collect();
    assert_eq!(list, vec![("color", 64, 48), ("velocity", 64, 48), ("depth", 64, 48)]);
}

#[test]
fn fragment_frame() {
    let mut p = built(programs(), false, true, false);
    assert!(p.is_ready());
    let f = p.run(&params());
    assert_eq!(
        names(&f.commands),
        vec![
            "target 231 64x48", "use 2", "tex 0 903", "tex 1 902", "1/2 u_depth=0",
            "1/2 u_velocity=1", "1/2 u_render_size=64,48",
            "1/2 u_render_rcp=0.015625,0.020833334", "1/2 u_clip_to_prev=m4", "1/2 u_fov_hor=0.8",
            "draw", "use -",
            "target 251 128x96", "use 6", "tex 0 901", "tex 1 131", "tex 2 150", "5/6 u_color=0",
            "5/6 u_data=1", "5/6 u_history=2", "5/6 u_render_size=64,48",
            "5/6 u_render_rcp=0.015625,0.020833334", "5/6 u_display_size=128,96",
            "5/6 u_display_rcp=0.0078125,0.010416667", "5/6 u_jitter=0.25,-0.125", "5/6 u_reset=1",
            "5/6 u_min_lerp=0.2", "5/6 u_full_taps=1", "draw", "use -",
            "target 270 128x96", "use 8", "tex 0 151", "7/8 u_image=0", "7/8 u_display_size=128,96",
            "7/8 u_display_rcp=0.0078125,0.010416667", "7/8 u_sharp=0.3", "draw", "use -",
        ]
    );
    assert_eq!(f.output, tex(170));
    assert_eq!(p.pre_sharpen_tex(), tex(151));
    assert!(!p.resets());
    let again = p.run(&params());
    let list = names(&again.commands);
    assert!(list.contains(&String::from("target 230 64x48")));
    assert!(list.contains(&String::from("tex 2 151")));
    assert_eq!(p.pre_sharpen_tex(), tex(150));
}

#[test]
fn compute_frame() {
    let mut p = built(programs(), true, true, false);
    let f = p.run(&params());
    assert_eq!(
        names(&f.commands),
        vec![
            "image 0 131 881a", "use 1", "tex 0 903", "tex 1 902", "0/1 u_depth=0",
            "0/1 u_velocity=1", "0/1 u_render_size=64,48",
            "0/1 u_render_rcp=0.015625,0.020833334", "0/1 u_clip_to_prev=m4", "0/1 u_fov_hor=0.8",
            "dispatch 8 6 1", "use -",
            "image 0 130 881a", "image 1 141 822f", "use 3", "tex 0 131", "tex 1 901", "tex 2 140",
            "2/3 u_data=0", "2/3 u_color=1", "2/3 u_luma_prev=2", "2/3 u_render_size=64,48",
            "2/3 u_render_rcp=0.015625,0.020833334", "2/3 u_reset=1", "2/3 u_fov_hor=0.8",
            "dispatch 8 6 1", "use -",
            "image 0 151 881a", "image 1 160 881a", "use 5", "tex 0 901", "tex 1 130", "tex 2 150",
            "4/5 u_color=0", "4/5 u_data=1", "4/5 u_history=2", "4/5 u_render_size=64,48",
            "4/5 u_render_rcp=0.015625,0.020833334", "4/5 u_display_size=128,96",
            "4/5 u_display_rcp=0.0078125,0.010416667", "4/5 u_jitter=0.25,-0.125", "4/5 u_reset=1",
            "4/5 u_min_lerp=0.2", "4/5 u_full_taps=1", "dispatch 16 12 1", "use -",
            "image 0 170 881a", "use 7", "tex 0 151", "6/7 u_image=0", "6/7 u_display_size=128,96",
            "6/7 u_display_rcp=0.0078125,0.010416667", "6/7 u_sharp=0.3", "dispatch 16 12 1",
            "use -",
        ]
    );
    assert_eq!(f.output, tex(170));
    // Three passes flip `data` twice, so its readers are back at the first tap.
    assert_eq!(p.view_tex("motion"), Some(tex(130)));
    assert_eq!(p.view_tex("luma"), Some(tex(141)));
    p.set_three_pass(false);
    p.run(&params());
    assert_eq!(p.view_tex("motion"), Some(tex(131)));
    assert_eq!(p.view_tex("luma"), Some(tex(141)));
}

#[test]
fn full_taps_need_a_still_camera() {
    let mut p = built(programs(), false, false, false);
    let mut q = params();
    q.same_camera_frames = 1;
    q.reset = 0;
    let list = names(&p.run(&q).commands);
    assert!(list.contains(&String::from("5/6 u_full_taps=0")));
    assert!(list.contains(&String::from("5/6 u_reset=0")));
}

#[test]
fn variants_fall_back() {
    let progs = vec![
        ProgramPair { compute: None, fragment: Some(prog(2)) },
        ProgramPair { compute: Some(prog(3)), fragment: None },
        ProgramPair { compute: Some(prog(5)), fragment: None },
        ProgramPair { compute: None, fragment: None },
    ];
    let mut p = built(progs, true, false, false);
    assert!(!p.can_compute());
    let used = |p: &mut Pipeline<Stage>| -> Vec<String> {
        let f = p.run(&params());
        names(&f.commands).into_iter().filter(|n| n.starts_with("use ") && n != "use -").collect()
    };
    assert_eq!(used(&mut p), vec!["use 2", "use 5"]);
    // Pinned to the fragment path, a pass without a fragment program still
    // runs what it has.
    p.set_compute(false);
    assert_eq!(used(&mut p), vec!["use 2", "use 5"]);
    let f = p.run(&params());
    assert_eq!(f.output, tex(COLOR));
}

#[test]
fn pinned_fragment_path() {
    let mut p = built(programs(), true, true, false);
    assert!(p.can_compute() && p.use_compute() && p.three_pass());
    p.set_compute(false);
    let list = names(&p.run(&params()).commands);
    assert!(!list.iter().any(|n| n.starts_with("dispatch") || n.starts_with("image")));
    assert_eq!(list.iter().filter(|n| *n == "draw").count(), 3);
    p.set_compute(true);
    let list = names(&p.run(&params()).commands);
    assert_eq!(list.iter().filter(|n| n.starts_with("dispatch")).count(), 4);
}

#[test]
fn one_query_in_each_frame() {
    let mut p = built(programs(), true, true, true);
    assert!(p.timers_supported());
    let mut seen = Vec::new();
    for _ in 0..7 {
        p.begin_frame();
        let scene_query = p.timer_begin(PassId::Scene);
        assert_eq!(p.timer_end(PassId::Scene), scene_query.is_some());
        let list = names(&p.run(&params()).commands);
        let q: Vec<String> =
            list.into_iter().filter(|n| n.starts_with("begin") || n == "end").collect();
        assert!(q.is_empty() == scene_query.is_some());
        seen.push(q.join(" "));
    }
    assert_eq!(
        seen,
        vec!["begin 1 end", "begin 7 end", "begin 4 end", "begin 10 end", "begin 13 end", "",
            "begin 2 end"]
    );
    let pending: Vec<usize> = p.pending().iter().map(|q| q.at).collect();
    assert_eq!(pending, vec![0, 1, 3, 6, 9, 12, 15]);
}

#[test]
fn timing_results() {
    let mut p = built(programs(), true, true, true);
    p.begin_frame();
    assert!(p.timer_armed(PassId::Convert) && !p.timer_armed(PassId::Total));
    assert_eq!(p.timer_begin(PassId::Convert), Some(query(1)));
    assert_eq!(p.pending().len(), 1);
    assert_eq!(p.timing(PassId::Convert), None);
    let mut results = vec![None; 18];
    p.poll(&results);
    assert_eq!(p.timing(PassId::Convert), None);
    assert_eq!(p.pending().len(), 1);
    results[0] = Some(2_000_000);
    results[5] = Some(9_000_000);
    p.poll(&results);
    assert_eq!(p.timing(PassId::Convert), Some(s(2.0)));
    assert_eq!(p.timing(PassId::Activate), None);
    assert!(p.pending().is_empty());
    results[0] = Some(7_000_000);
    p.poll(&results);
    assert_eq!(p.timing(PassId::Convert), Some(s(2.0)));
    assert_eq!(p.timer_begin(PassId::Convert), Some(query(2)));
    results[1] = Some(4_000_000);
    p.poll(&results);
    assert_eq!(p.timing(PassId::Convert), Some(s(2.0 * 0.95 + 4.0 * 0.05)));
    p.poll(&results);
    assert_eq!(p.timing(PassId::Convert), Some(s(2.1)));
    assert!(p.pending().is_empty());
    let texts: Vec<String> = (0..6).map(|i| format!("{i}.00")).collect();
    assert_eq!(
        p.timers_report(&texts),
        "gpu=[convert 0.00ms activate -- upscale -- sharp -- scene -- total --]"
    );
}

#[test]
fn sections_take_turns() {
    let all = [PassId::Convert, PassId::Upscale, PassId::Activate, PassId::Total, PassId::Sharp,
        PassId::Scene];
    let armed = |p: &Pipeline<Stage>| -> Vec<PassId> {
        all.iter().copied().filter(|id| p.timer_armed(*id)).collect()
    };
    let mut p = built(programs(), true, true, true);
    for k in 0..8 {
        p.begin_frame();
        p.run(&params());
        p.request_reset();
        p.poll(&vec![Some(1000); 18]);
        assert_eq!(armed(&p), vec![all[k % 6]]);
    }
    p.resize(64, 48, 128, 96);
    p.begin_frame();
    assert_eq!(armed(&p), vec![PassId::Convert]);
    let mut q = built(programs(), true, true, false);
    assert!(armed(&q).is_empty());
    for _ in 0..7 {
        q.begin_frame();
        assert!(armed(&q).is_empty());
    }
}

#[test]
fn timers_without_enough_queries() {
    let few: Vec<glow::NativeQuery> = (1..=17).map(query).collect();
    let mut t = PassTimers::new(true, &few);
    assert!(!t.supported());
    assert_eq!(t.begin(PassId::Total), None);
    assert!(!t.end(PassId::Total));
    let all: Vec<glow::NativeQuery> = (1..=18).map(query).collect();
    let mut t = PassTimers::new(true, &all);
    assert!(t.timer_armed(PassId::Scene) && t.timer_armed(PassId::Convert));
    let got: Vec<_> = (0..4).map(|_| t.begin(PassId::Activate)).collect();
    assert_eq!(got, vec![Some(query(4)), Some(query(5)), Some(query(6)), Some(query(4))]);
    assert!(!PassTimers::new(false, &all).supported());
    assert_eq!(PassTimers::new(false, &all).ema(PassId::Sharp), None);
}

#[test]
fn resizing_gives_everything_up() {
    let mut p = built(programs(), true, true, false);
    p.run(&params());
    p.set_sharpness(s(0.8));
    let r = p.resize(32, 24, 256, 192);
    assert_eq!(p.render_size(), (32, 24));
    assert_eq!(p.display_size(), (256, 192));
    assert!(p.resets());
    assert_eq!(p.sharpness(), s(0.8));
    assert_eq!(
        released_textures(&r.release),
        vec![DEPTH, VELOCITY, COLOR, 130, 131, 140, 141, 150, 151, 160, 170, 120, 110, 100]
    );
    assert_eq!(r.release.len(), 14 + 11);
    let sizes: Vec<(&str, usize, u32, u32)> =
        r.plan.iter().map(|a| (a.spec.name, a.taps, a.width, a.height)).collect();
    assert_eq!(
        sizes,
        vec![("depth", 1, 1, 1), ("velocity", 1, 1, 1), ("color", 1, 1, 1), ("data", 2, 32, 24),
            ("luma", 2, 32, 24), ("history", 2, 256, 192), ("scene_out", 1, 256, 192),
            ("sharp", 1, 256, 192)]
    );
    p.set_compute(false);
    assert!(!p.is_ready());
    let h = handles(&r.plan);
    p.install(scene(), &r.plan, h);
    assert!(p.is_ready());
}

#[test]
fn sharpness_is_clamped() {
    let mut p = built(programs(), true, true, false);
    assert_eq!(p.sharpness(), s(0.3));
    p.set_sharpness(s(7.0));
    assert_eq!(p.sharpness(), s(1.0));
    p.sharpen();
    assert_eq!(p.sharpness(), s(1.0));
    p.set_sharpness(s(-7.0));
    assert_eq!(p.sharpness(), s(0.0));
    p.soften();
    assert_eq!(p.sharpness(), s(0.0));
    p.sharpen();
    assert_eq!(p.sharpness(), s(0.1));
    let list = names(&p.run(&params()).commands);
    assert!(list.contains(&String::from("6/7 u_sharp=0.1")));
}

#[test]
fn views_and_blits() {
    let mut p = built(programs(), false, false, false);
    let out = p.run(&params()).output;
    assert_eq!(p.view_program("luma"), Some(prog(52)));
    assert_eq!(p.view_program("nothing"), None);
    assert_eq!(p.view_tex("nothing"), None);
    let show = |mode, pre| -> Vec<(u32, u32, u32, u32, u32, u32)> {
        blits(&p, mode, pre, out, 101, 50)
            .iter()
            .map(|b| (b.texture.0.get(), b.program.0.get(), b.x, b.y, b.width, b.height))
            .collect()
    };
    assert_eq!(show(ViewMode::Upscaled, false), vec![(170, BLIT, 0, 0, 101, 50)]);
    assert_eq!(show(ViewMode::Upscaled, true), vec![(151, BLIT, 0, 0, 101, 50)]);
    assert_eq!(show(ViewMode::Native, true), vec![(COLOR, BLIT, 0, 0, 101, 50)]);
    assert_eq!(
        show(ViewMode::Split, false),
        vec![(COLOR, BLIT, 0, 0, 50, 50), (170, BLIT, 50, 0, 51, 50)]
    );
    assert_eq!(show(ViewMode::Motion, false), vec![(131, 51, 0, 0, 101, 50)]);
    assert_eq!(show(ViewMode::Luma, false), vec![(140, 52, 0, 0, 101, 50)]);
    assert_eq!(show(ViewMode::Clip, false), vec![(131, 53, 0, 0, 101, 50)]);
    let b = blit_to_screen(&p, tex(5), 4, 3);
    assert_eq!((b[0].texture, b[0].program, b.len()), (tex(5), prog(BLIT), 1));
    assert_eq!(p.scene_fbo(), fbo(999));
    assert_eq!(p.scene_color_tex(), tex(COLOR));
}

#[test]
fn missing_view_shows_the_frame() {
    let passes = default_passes();
    let views = collect_views(&debug_views(&passes), &vec![None, None, None]);
    let sizes = Sizes { render: (8, 8), display: (8, 8) };
    let p = Pipeline::new(passes, programs(), views, &Vec::new(), true, true, true, sizes, fbo(1),
        scene(), prog(BLIT));
    let b = blits(&p, ViewMode::Motion, false, tex(42), 10, 10);
    assert_eq!((b[0].texture, b[0].program), (tex(42), prog(BLIT)));
    assert_eq!(p.pre_sharpen_tex(), tex(COLOR));
}

#[test]
fn external_textures_replace_each_other() {
    let mut p = built(programs(), true, false, false);
    p.set_external("history", tex(500));
    assert_eq!(p.pre_sharpen_tex(), tex(500));
    p.set_external("unknown", tex(501));
    assert_eq!(p.pre_sharpen_tex(), tex(500));
    p.set_external("history", tex(502));
    p.set_external("luma", tex(502));
    let gone = released_textures(&p.resize(8, 8, 8, 8).release);
    for t in [140, 141, 150, 151, 502, COLOR, VELOCITY, DEPTH] {
        assert_eq!(gone.iter().filter(|g| **g == t).count(), 1, "{t}");
    }
    assert!(!gone.contains(&500) && !gone.contains(&501));
}

#[test]
fn uniform_locations_are_cached() {
    let loc = |n: u32| glow::NativeUniformLocation(n);
    let mut c = UniformCache::new();
    assert_eq!(c.lookup(1, "u_x"), None);
    c.insert(1, "u_x", Some(loc(4)));
    c.insert(1, "u_y", None);
    assert_eq!(c.lookup(1, "u_x"), Some(Some(loc(4))));
    assert_eq!(c.lookup(1, "u_y"), Some(None));
    assert_eq!(c.lookup(2, "u_x"), None);
    c.insert(1, "u_x", Some(loc(5)));
    assert_eq!(c.lookup(1, "u_x"), Some(Some(loc(5))));
}

#[test]
fn nothing_is_set_without_a_program() {
    let mut ctx = PassCtx::new(params());
    ctx.set1f("u_a", s(1.0));
    ctx.set2f("u_b", s(1.0), s(2.0));
    ctx.set1i("u_c", 3);
    assert!(ctx.commands.is_empty());
    ctx.set_active(Some(prog(9)), 4, Variant::Compute);
    ctx.set1i("u_c", 3);
    ctx.execute(1, 2, 3);
    ctx.cover((9, 16));
    assert_eq!(
        names(&ctx.commands),
        vec!["4/9 u_c=3", "dispatch 1 2 3", "dispatch 2 2 1"]
    );
}
