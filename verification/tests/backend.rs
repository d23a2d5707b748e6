use igsr::backend::gl::{compute_prelude, detect_compute, gl_version, GlBackend};
use igsr::backend::vireo::VireoBackend;
use igsr::startup::{best_config, capabilities, context_versions, timer_supported};
use igsr::{ComputePath, GpuBackend};

#[test]
fn gl43_implies_compute() {
    assert!(detect_compute("4.5 (Core Profile) Mesa 26.1.2", ""));
}

#[test]
fn gl42_with_ext_has_compute() {
    assert!(detect_compute(
        "4.2 (Compatibility Profile) Mesa 26.1.2",
        "GL_ARB_compute_shader GL_ARB_vertex_shader"
    ));
}

#[test]
fn gl42_without_ext_no_compute() {
    assert!(!detect_compute("4.2 (Compatibility Profile) Mesa", "GL_ARB_vertex_shader"));
}

#[test]
fn gles31_implies_compute() {
    assert!(detect_compute("OpenGL ES 3.1 Mesa", ""));
}

#[test]
fn version_parses() {
    assert_eq!(gl_version("4.2 (Core Profile) Mesa 26.1.2"), (4, 2));
    assert_eq!(gl_version("OpenGL ES 3.1 Mesa"), (3, 1));
    assert_eq!(gl_version("3.3"), (3, 3));
}

#[test]
fn prelude_picks_per_driver() {
    assert!(compute_prelude(4, 5, false).unwrap().contains("430"));
    assert!(compute_prelude(4, 2, true).unwrap().contains("420"));
    assert!(compute_prelude(4, 2, true).unwrap().contains("GL_ARB_compute_shader"));
    assert!(compute_prelude(4, 2, false).is_none());
    assert!(compute_prelude(3, 3, false).is_none());
}

#[test]
fn preludes_are_exact() {
    assert_eq!(compute_prelude(4, 3, false), Some("#version 430 core\n"));
    assert_eq!(compute_prelude(5, 0, false), Some("#version 430 core\n"));
    assert_eq!(
        compute_prelude(4, 0, true),
        Some("#version 420 core\n#extension GL_ARB_compute_shader : require\n")
    );
    assert_eq!(compute_prelude(3, 9, true), None);
}

#[test]
fn version_edges() {
    assert!(detect_compute("4.3", ""));
    assert!(detect_compute("5.0", ""));
    assert!(!detect_compute("4.2", ""));
    assert!(!detect_compute("", ""));
    assert!(!detect_compute("no numbers here", ""));
    assert!(!detect_compute("OpenGL ES 3.0 Mesa", ""));
    assert!(detect_compute("OpenGL ES 4.0", ""));
    assert!(detect_compute("OpenGL ES 3.1-dev", ""));
    assert!(detect_compute("OpenGL ES 3.2-dev (git)", ""));
    assert!(detect_compute("OpenGL ES 3.1", ""));
    assert!(detect_compute("OpenGL ES 3.10", ""));
    assert!(detect_compute("OpenGL ES 3.1.x", ""));
    assert!(!detect_compute("OpenGL ES 3.0-dev", ""));
    assert!(!detect_compute("OpenGL ES 3 Mesa 22.1", ""));
    assert!(!detect_compute("OpenGL ES 3-1", ""));
    assert!(!detect_compute("OpenGL ES-CM 1.1", ""));
    assert!(!detect_compute("OpenGL ES", ""));
    assert!(detect_compute("OpenGL ES 3.0", "GL_A GL_ARB_compute_shader"));
    assert!(detect_compute("  4.6 padded ", ""));
    assert_eq!(gl_version(""), (0, 0));
    assert_eq!(gl_version("GL seven"), (0, 0));
    assert_eq!(gl_version("7"), (7, 0));
    assert_eq!(gl_version("99999999999.4.2"), (4, 2));
    assert_eq!(gl_version("OpenGL ES 3.2.1"), (3, 2));
}

#[test]
fn extension_is_matched_as_a_word() {
    assert!(!detect_compute("4.2", "GL_ARB_compute_shader_extra"));
    assert!(!detect_compute("4.2", "XGL_ARB_compute_shader"));
    assert!(detect_compute("4.2", "\tGL_ARB_compute_shader\n"));
    assert!(timer_supported("GL_A GL_ARB_timer_query GL_B"));
    assert!(!timer_supported("GL_ARB_timer_query2"));
    assert!(!timer_supported(""));
}

#[test]
fn backends_select_a_path() {
    let with = GlBackend::new(true);
    assert_eq!(with.name(), "OpenGL (glow)");
    assert_eq!(with.compute_path(), ComputePath::Compute);
    assert!(with.supports_compute());
    let pinned = with.with_forced_fallback();
    assert_eq!(pinned.compute_path(), ComputePath::FragmentFallback);
    assert!(!pinned.supports_compute());
    assert!(pinned.compute_available);
    assert_eq!(GlBackend::new(false).compute_path(), ComputePath::FragmentFallback);
    let stub = VireoBackend;
    assert_eq!(stub.name(), "Vireo (stub)");
    assert!(stub.supports_compute());
}

#[test]
fn capabilities_of_a_driver() {
    let list = vec![
        String::from("GL_ARB_compute_shader"),
        String::from("GL_ARB_timer_query"),
        String::from("GL_X"),
    ];
    let c = capabilities("4.2 (Core Profile) Mesa 26.1.2", &list, false);
    assert_eq!(c.version, (4, 2));
    assert_eq!(c.extensions, 3);
    assert!(c.compute);
    assert!(c.timers);
    assert!(c.backend.supports_compute());
    let forced = capabilities("4.2 (Core Profile) Mesa 26.1.2", &list, true);
    assert!(forced.compute);
    assert!(!forced.backend.supports_compute());
    let none = capabilities("3.3", &Vec::new(), false);
    assert_eq!(none.extensions, 0);
    assert!(!none.compute);
    assert!(!none.timers);
}

#[test]
fn contexts_and_configs() {
    assert_eq!(context_versions(), vec![(4, 2), (3, 3)]);
    assert_eq!(best_config(&vec![]), None);
    assert_eq!(best_config(&vec![0, 4, 8, 8, 2]), Some(2));
    assert_eq!(best_config(&vec![0, 0]), Some(0));
}
