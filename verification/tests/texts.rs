use igsr::context::IgsrContext;
use igsr::config::IgsrConfig;
use igsr::image::{ppm, pre_path};
use igsr::options::parse;
use igsr::scene::{cube, floor, MeshId, Scene};
use igsr::selftest::{Action, Event, Phase, Selftest};
use igsr::text;
use igsr::view::ViewMode;

#[test]
fn whitespace_is_the_unicode_one() {
    for c in (0..=char::MAX as u32).filter_map(char::from_u32) {
        assert_eq!(text::space(c), c.is_whitespace(), "{c:?}");
    }
}

#[test]
fn words_are_counted() {
    for s in ["", " ", "a", " a ", "a b", "  a\tb\n c ", "x\u{3000}y"] {
        assert_eq!(text::count_words(s), s.split_whitespace().count());
    }
    assert!(text::contains_word("ab cd", "cd"));
    assert!(!text::contains_word("ab cde", "cd"));
}

#[test]
fn replacing_goes_left_to_right() {
    for (s, p, w) in [("aaa", "aa", "b"), ("", "x", "y"), ("a.ppm", ".ppm", "_pre.ppm"),
        ("x.ppm.ppm", ".ppm", ""), ("none", "zz", "y"), ("ababab", "ab", "ab!")]
    {
        assert_eq!(text::replace_all(s, p, w), s.replace(p, w));
    }
    assert_eq!(pre_path("/tmp/frag.ppm"), "/tmp/frag_pre.ppm");
    assert_eq!(pre_path("/tmp/frag"), "/tmp/frag");
}

#[test]
fn first_lines() {
    for s in ["", "a", "a\nb", "a\r\nb", "\nb", "\r\nb", "a\r", "a\rb\nc", "\r"] {
        assert_eq!(text::first_line(s), s.lines().next().unwrap_or("?"), "{s:?}");
    }
}

#[test]
fn numbers_as_text() {
    for n in [0u64, 9, 10, 99, 100, 12345, u64::MAX] {
        let mut s = String::from("<");
        text::push_decimal(&mut s, n);
        assert_eq!(s, format!("<{n}"));
    }
    for n in [0u32, 9, 10, 15, 16, 0x8cd5, 0xabcdef, u32::MAX] {
        let mut s = String::new();
        text::push_hexadecimal(&mut s, n);
        assert_eq!(s, format!("{n:x}"));
    }
    let list = vec![String::from("a"), String::from("b"), String::new()];
    assert_eq!(text::join(&list, " "), list.join(" "));
    assert_eq!(text::join(&Vec::new(), " "), "");
}

fn args(list: &[&str]) -> Vec<String> {
    list.iter().map(|s| s.to_string()).collect()
}

#[test]
fn options_default() {
    let o = parse(&args(&["igsr-testbed"]));
    assert!(!o.force_fallback && !o.three_pass && !o.selftest && !o.debug_events);
    assert_eq!(o.dump_path, None);
    assert_eq!(o.view, ViewMode::Upscaled);
    assert_eq!((o.spin, o.sharp, o.scale), (None, None, None));
}

#[test]
fn options_are_read() {
    let o = parse(&args(&["x", "-f", "--three-pass", "--view", "motion", "--dump", "/tmp/m.ppm",
        "--scale", "0.75", "--spin", "0", "--sharp", "0.9", "--selftest", "--debug-events"]));
    assert!(o.force_fallback && o.three_pass && o.selftest && o.debug_events);
    assert_eq!(o.dump_path.as_deref(), Some("/tmp/m.ppm"));
    assert_eq!(o.view, ViewMode::Motion);
    assert_eq!(o.scale.as_deref(), Some("0.75"));
    assert_eq!(o.spin.as_deref(), Some("0"));
    assert_eq!(o.sharp.as_deref(), Some("0.9"));
    assert!(parse(&args(&["x", "--force-fallback"])).force_fallback);
}

#[test]
fn options_edges() {
    assert_eq!(parse(&args(&["x", "--dump"])).dump_path, None);
    let twice = parse(&args(&["x", "--dump", "a", "--dump", "b"]));
    assert_eq!(twice.dump_path.as_deref(), Some("a"));
    assert_eq!(parse(&args(&["x", "--dump", "-f"])).dump_path.as_deref(), Some("-f"));
    for (name, mode) in [("native", ViewMode::Native), ("split", ViewMode::Split),
        ("motion", ViewMode::Motion), ("luma", ViewMode::Luma), ("clip", ViewMode::Clip),
        ("upscaled", ViewMode::Upscaled), ("bogus", ViewMode::Upscaled)]
    {
        assert_eq!(parse(&args(&["x", "--view", name])).view, mode);
    }
    assert_eq!(parse(&Vec::new()).view, ViewMode::Upscaled);
}

#[test]
fn dumps_are_turned_over() {
    let px: Vec<u8> = (0..24).collect();
    let mut want = b"P6\n2 3\n255\n".to_vec();
    want.extend_from_slice(&[16, 17, 18, 20, 21, 22, 8, 9, 10, 12, 13, 14, 0, 1, 2, 4, 5, 6]);
    assert_eq!(ppm(&px, 2, 3), want);
    assert_eq!(ppm(&Vec::new(), 0, 7), b"P6\n0 7\n255\n".to_vec());
}

#[test]
fn meshes() {
    let c = [[1.0, 0.25, 0.25], [0.25, 1.0, 0.25], [0.25, 0.25, 1.0], [1.0, 1.0, 0.25],
        [1.0, 0.25, 1.0], [0.25, 1.0, 1.0f32]];
    let p = [[-0.5, -0.5, -0.5], [0.5, -0.5, -0.5], [0.5, 0.5, -0.5], [-0.5, 0.5, -0.5],
        [-0.5, -0.5, 0.5], [0.5, -0.5, 0.5], [0.5, 0.5, 0.5], [-0.5, 0.5, 0.5f32]];
    let faces = [(1, 2, 6, 5, 0), (0, 4, 7, 3, 1), (3, 7, 6, 2, 2), (0, 1, 5, 4, 3),
        (4, 5, 6, 7, 4), (0, 3, 2, 1, 5usize)];
    let mut verts: Vec<f32> = Vec::new();
    let mut idx: Vec<u32> = Vec::new();
    for (a, b, cc, d, ci) in faces {
        let base = (verts.len() / 6) as u32;
        for vi in [a, b, cc, d] {
            let vi: usize = vi;
            verts.extend_from_slice(&[p[vi][0], p[vi][1], p[vi][2], c[ci][0], c[ci][1], c[ci][2]]);
        }
        idx.extend_from_slice(&[base, base + 1, base + 2, base, base + 2, base + 3]);
    }
    let got = cube();
    let bits: Vec<u32> = got.vertices.iter().map(|s| s.bits).collect();
    assert_eq!(bits, verts.iter().map(|v| v.to_bits()).collect::<Vec<u32>>());
    assert_eq!(got.indices, idx);
    let flat: [f32; 24] = [-5.0, -0.8, -5.0, 0.32, 0.33, 0.36, 5.0, -0.8, -5.0, 0.32, 0.33, 0.36,
        5.0, -0.8, 5.0, 0.36, 0.37, 0.40, -5.0, -0.8, 5.0, 0.36, 0.37, 0.40];
    let ground = floor();
    let bits: Vec<u32> = ground.vertices.iter().map(|s| s.bits).collect();
    assert_eq!(bits, flat.iter().map(|v| v.to_bits()).collect::<Vec<u32>>());
    assert_eq!(ground.indices, vec![0, 1, 2, 0, 2, 3]);
}

#[test]
fn scene_remembers_one_frame() {
    let mut s = Scene::new(0u32);
    let first = s.render(10, [1, 2, 3]);
    assert_eq!(first.vp_prev, 10);
    let list: Vec<(MeshId, u32)> = first.draws.iter().map(|d| (d.mesh, d.model)).collect();
    assert_eq!(list, vec![(MeshId::Floor, 3), (MeshId::Cube, 1), (MeshId::Cube, 2)]);
    assert!(first.draws.iter().all(|d| d.previous.is_none()));
    let second = s.render(20, [4, 5, 6]);
    assert_eq!(second.vp_prev, 10);
    let prev: Vec<_> = second.draws.iter().map(|d| (d.model, d.previous)).collect();
    assert_eq!(prev, vec![(6, Some((10, 3))), (4, Some((10, 1))), (5, Some((10, 2)))]);
}

#[test]
fn context_outcomes() {
    let c = IgsrConfig::new(4, 3, 8, 6);
    assert_eq!(
        IgsrContext::new(c.clone(), false).err(),
        Some("igsr_create failed: invalid sizes?")
    );
    let mut ctx = IgsrContext::new(c, true).unwrap();
    assert_eq!(ctx.resize(1, 2, 3, 4, -1), Err("igsr_resize failed"));
    assert_eq!(ctx.config().render_w, 4);
    assert_eq!(ctx.resize(1, 2, 3, 4, 0), Ok(()));
    let k = ctx.config();
    assert_eq!((k.render_w, k.render_h, k.display_w, k.display_h), (1, 2, 3, 4));
    assert_eq!(ctx.upscale_stub(), "upscale() not yet implemented (stages 3-4)");
    assert_eq!(igsr::version(), "0.1.0");
}

fn ok() -> Event {
    Event::Compiled
}

fn bad(log: &str) -> Event {
    Event::Refused(log.to_string())
}

#[test]
fn selftest_needs_gl4() {
    let t = Selftest::start(3, 3, true);
    assert_eq!(t.phase(), Phase::Failed);
    assert_eq!(
        t.lines(),
        &vec![String::from("GL 3.3 < 4.0: convert requires GLSL 4.20 (textureGather)")]
    );
}

#[test]
fn selftest_passes() {
    let mut t = Selftest::start(4, 2, true);
    assert!(matches!(t.action(), Action::CompileConvertFragment));
    t.on(&ok());
    assert!(matches!(t.action(), Action::ProbeConvert(p) if p.starts_with("#version 420 core")));
    t.on(&ok());
    assert!(matches!(t.action(), Action::ProbeConvert("#version 430 core\n")));
    t.on(&bad("compute: GLSL 4.30 is not supported\nmore"));
    assert!(matches!(t.action(), Action::BuildConvertTarget));
    t.on(&Event::Target(glow::FRAMEBUFFER_COMPLETE));
    assert!(matches!(t.action(), Action::DrawConvert));
    t.on(&Event::Drawn(glow::NO_ERROR));
    assert!(matches!(t.action(), Action::ReadConvert));
    t.on(&Event::Pixel(true, String::from("0.0000, 0.0000, 0.0000, 1.0000")));
    assert!(matches!(t.action(), Action::CompileUpscaleFragment));
    t.on(&ok());
    assert!(matches!(t.action(), Action::ProbeUpscale(p) if p.starts_with("#version 420 core")));
    t.on(&ok());
    assert!(matches!(t.action(), Action::ProbeActivate(_)));
    t.on(&bad("compute: no"));
    assert!(matches!(t.action(), Action::BuildUpscaleTarget));
    t.on(&Event::Target(glow::FRAMEBUFFER_COMPLETE));
    t.on(&Event::Drawn(glow::NO_ERROR));
    assert!(matches!(t.action(), Action::ReadUpscale));
    t.on(&Event::Pixel(true, String::from("0.2000, 0.4000, 0.6000")));
    assert_eq!(t.phase(), Phase::Passed);
    assert!(matches!(t.action(), Action::Report));
    assert_eq!(
        t.lines().join("\n"),
        "GL 4.2 >= 4.0: convert baseline met
convert.frag compiles: ok
convert.comp probe (#version 420 core...): ok
convert.comp probe (#version 430 core...): compute: GLSL 4.30 is not supported
convert FBO (RGBA16F, 64x64): complete
convert draw: no GL errors
convert readback center=(0.0000, 0.0000, 0.0000, 1.0000): ok
upscale.frag compiles: ok
upscale.comp probe (selected prelude): ok
activate.comp probe (selected prelude): compute: no
activate.comp probe: no working prelude (fragment path covers upscale; activate waits for stage 5)
upscale chain readback center=(0.2000, 0.4000, 0.6000): ok"
    );
    t.on(&Event::Drawn(7));
    assert_eq!(t.phase(), Phase::Passed);
}

#[test]
fn selftest_without_compute() {
    let mut t = Selftest::start(4, 1, false);
    t.on(&ok());
    assert!(matches!(t.action(), Action::ProbeConvert("#version 430 core\n")));
    t.on(&bad(""));
    t.on(&bad("x"));
    assert_eq!(t.phase(), Phase::ConvertTarget);
    t.on(&Event::Target(glow::FRAMEBUFFER_COMPLETE));
    t.on(&Event::Drawn(0));
    t.on(&Event::Pixel(true, String::from("p")));
    t.on(&ok());
    assert_eq!(t.phase(), Phase::UpscaleTarget);
    let l = t.lines();
    assert_eq!(l[2], "convert.comp probe (#version 430 core...): ?");
    assert_eq!(
        l[4],
        "convert.comp probe: no compute prelude worked (fragment fallback covers this)"
    );
    assert!(l[l.len() - 2].starts_with("upscale.comp probe: no working prelude"));
    assert!(l[l.len() - 1].starts_with("activate.comp probe: no working prelude"));
}

#[test]
fn selftest_failures() {
    let reach = |n: usize| {
        let mut t = Selftest::start(4, 3, false);
        let steps = [ok(), ok(), ok(), Event::Target(glow::FRAMEBUFFER_COMPLETE), Event::Drawn(0),
            Event::Pixel(true, String::new()), ok(), ok(), ok(),
            Event::Target(glow::FRAMEBUFFER_COMPLETE), Event::Drawn(0)];
        for e in steps.iter().take(n) {
            t.on(e);
        }
        t
    };
    let cases = [
        (0, bad("vertex: e"), "convert.frag compile FAILED: vertex: e"),
        (3, Event::Target(0x8cd6), "convert FBO incomplete: 0x8cd6"),
        (4, Event::Drawn(0x502), "GL error after convert draw: 0x502"),
        (5, Event::Pixel(false, String::from("[1.0]")),
            "convert readback center=([1.0]): expected ~(0,0,0,1)"),
        (6, bad("link: z"), "upscale.frag compile FAILED: link: z"),
        (9, Event::Target(0), "upscale FBO incomplete"),
        (10, Event::Drawn(0xabc), "GL error after upscale draw: 0xabc"),
        (11, Event::Pixel(false, String::from("[0.1]")),
            "upscale chain readback=([0.1]): expected ~(0.2,0.4,0.6)"),
    ];
    for (n, e, line) in cases {
        let mut t = reach(n);
        t.on(&e);
        assert_eq!(t.phase(), Phase::Failed, "{line}");
        assert_eq!(t.lines(), &vec![line.to_string()]);
    }
    let mut t = reach(0);
    t.on(&Event::Drawn(0));
    assert_eq!(t.phase(), Phase::ConvertFragment);
}
