//! OpenGL/GLES backend: version and extension strings, and the rules that
//! decide whether compute shaders can be used.

use vstd::prelude::*;

use crate::backend::{ComputePath, GpuBackend};
use crate::text;
use crate::text::{
    chars_of, contains_word, first_numbers, first_word_bounds, has_prefix, read_leading_version,
    trim_bounds, Separator,
};

verus! {

/// GL backend handle. `compute_available` comes from the runtime query in
/// [`detect_compute`].
#[derive(Debug, Clone, Copy)]
pub struct GlBackend {
    pub compute_available: bool,
    /// Force the fragment path even when compute exists (profiling knob).
    pub force_fallback: bool,
}

impl GlBackend {
    pub fn new(compute_available: bool) -> (r: Self)
        ensures
            r.compute_available == compute_available,
            !r.force_fallback,
    {
        GlBackend { compute_available, force_fallback: false }
    }

    /// The same backend, pinned to the fragment path.
    pub fn with_forced_fallback(self) -> (r: Self)
        ensures
            r.compute_available == self.compute_available,
            r.force_fallback,
            r.path() == ComputePath::FragmentFallback,
    {
        GlBackend { compute_available: self.compute_available, force_fallback: true }
    }
}

impl GpuBackend for GlBackend {
    open spec fn label(&self) -> Seq<char> {
        "OpenGL (glow)"@
    }

    open spec fn path(&self) -> ComputePath {
        if self.compute_available && !self.force_fallback {
            ComputePath::Compute
        } else {
            ComputePath::FragmentFallback
        }
    }

    fn name(&self) -> (r: &'static str) {
        "OpenGL (glow)"
    }

    fn compute_path(&self) -> (r: ComputePath) {
        if self.compute_available && !self.force_fallback {
            ComputePath::Compute
        } else {
            ComputePath::FragmentFallback
        }
    }
}

/// Version `major.minor` is at least `want.0.want.1`.
pub open spec fn at_least(major: u32, minor: u32, want: (u32, u32)) -> bool {
    major > want.0 || (major == want.0 && minor >= want.1)
}

/// The first two of `ns` form a version of at least `want`.
pub open spec fn version_at_least(ns: Seq<u32>, want: (u32, u32)) -> bool {
    ns.len() >= 2 && at_least(ns[0], ns[1], want)
}

/// A version string of an embedded-systems context.
pub open spec fn is_es(version: Seq<char>) -> bool {
    text::starts_with(text::trim(version), "OpenGL ES"@)
}

/// What follows the embedded-systems prefix.
pub open spec fn es_rest(version: Seq<char>) -> Seq<char> {
    text::trim(version).skip("OpenGL ES"@.len() as int)
}

/// The version alone implies compute shaders: embedded 3.1 or desktop 4.3.
///
/// The embedded version is read from the first word behind the prefix: its
/// fields parted by full stops, or the `major.minor` it begins with, so that a
/// suffix such as in "3.1-dev" does no harm. Whatever begins with
/// "OpenGL ES 3.1" counts. The desktop version is the first two digit runs of
/// the string.
pub open spec fn version_has_compute(version: Seq<char>) -> bool {
    if is_es(version) {
        let word = text::first_word(es_rest(version));
        ||| version_at_least(text::numbers(word, Separator::Dot), (3, 1))
        ||| text::leading_version(word) matches Some(v) && at_least(v.0, v.1, (3, 1))
        ||| text::starts_with(text::trim(version), "OpenGL ES 3.1"@)
    } else {
        version_at_least(text::numbers(text::trim(version), Separator::NonDigit), (4, 3))
    }
}

/// The compute extension is among the advertised ones.
pub open spec fn extension_has_compute(extensions: Seq<char>) -> bool {
    text::has_word(extensions, "GL_ARB_compute_shader"@)
}

/// The digit runs that carry the version number.
pub open spec fn version_numbers(version: Seq<char>) -> Seq<u32> {
    if is_es(version) {
        text::numbers(es_rest(version), Separator::NonDigit)
    } else {
        text::numbers(text::trim(version), Separator::NonDigit)
    }
}

/// Compute shaders are there, by version or by extension.
pub open spec fn has_compute(version: Seq<char>, extensions: Seq<char>) -> bool {
    version_has_compute(version) || extension_has_compute(extensions)
}

/// The version number of a version string; a missing number reads as zero.
pub open spec fn version_of(version: Seq<char>) -> (u32, u32) {
    (text::nth_or(version_numbers(version), 0, 0), text::nth_or(version_numbers(version), 1, 0))
}

fn lists_compute_extension(extensions: &str) -> (r: bool)
    ensures
        r == extension_has_compute(extensions@),
{
    proof {
        reveal_strlit("GL_ARB_compute_shader");
    }
    contains_word(extensions, "GL_ARB_compute_shader")
}

fn reaches(ns: (Option<u32>, Option<u32>), want: (u32, u32)) -> (r: bool)
    ensures
        r == match (ns.0, ns.1) {
            (Some(major), Some(minor)) => at_least(major, minor, want),
            _ => false,
        },
{
    match ns {
        (Some(major), Some(minor)) => major > want.0 || (major == want.0 && minor >= want.1),
        _ => false,
    }
}

/// Decides from a version string and an extension string whether compute
/// shaders are available.
///
/// - Desktop GL 4.3 and later implies compute.
/// - GLES 3.1 and later implies compute, and so does any version string that
///   begins with "OpenGL ES 3.1".
/// - Otherwise the extension string must list `GL_ARB_compute_shader`.
pub fn detect_compute(version: &str, extensions: &str) -> (r: bool)
    ensures
        r == (version_has_compute(version@) || extension_has_compute(extensions@)),
        r == has_compute(version@, extensions@),
{
    let cs = chars_of(version);
    let (lo, hi) = trim_bounds(&cs);
    proof {
        reveal_strlit("OpenGL ES");
    }
    if has_prefix(&cs, lo, hi, "OpenGL ES") {
        assert(cs@.subrange(lo + 9, hi as int) =~= es_rest(version@));
        let (from, to) = first_word_bounds(&cs, lo + 9, hi);
        let ns = first_numbers(&cs, from, to, Separator::Dot);
        if reaches(ns, (3, 1)) {
            return true;
        }
        if let Some(v) = read_leading_version(&cs, from, to) {
            if reaches((Some(v.0), Some(v.1)), (3, 1)) {
                return true;
            }
        }
        if has_prefix(&cs, lo, hi, "OpenGL ES 3.1") {
            return true;
        }
        return lists_compute_extension(extensions);
    }
    let ns = first_numbers(&cs, lo, hi, Separator::NonDigit);
    if reaches(ns, (4, 3)) {
        return true;
    }
    lists_compute_extension(extensions)
}

/// Parses the leading `major.minor` from a version string such as
/// "4.2 (...)" or "OpenGL ES 3.1 ...". A missing number reads as zero.
pub fn gl_version(version: &str) -> (r: (u32, u32))
    ensures
        r.0 == text::nth_or(version_numbers(version@), 0, 0),
        r.1 == text::nth_or(version_numbers(version@), 1, 0),
        r == version_of(version@),
{
    let cs = chars_of(version);
    let (lo, hi) = trim_bounds(&cs);
    proof {
        reveal_strlit("OpenGL ES");
    }
    let from: usize = if has_prefix(&cs, lo, hi, "OpenGL ES") {
        assert(cs@.subrange(lo + 9, hi as int) =~= es_rest(version@));
        lo + 9
    } else {
        lo
    };
    let ns = first_numbers(&cs, from, hi, Separator::NonDigit);
    let major: u32 = match ns.0 {
        Some(v) => v,
        None => 0,
    };
    let minor: u32 = match ns.1 {
        Some(v) => v,
        None => 0,
    };
    (major, minor)
}

/// Prelude for a context that speaks GLSL 4.30.
pub const PRELUDE_430: &'static str = "#version 430 core\n";

/// Prelude for a 4.x context with the compute extension.
pub const PRELUDE_420: &'static str = "#version 420 core\n#extension GL_ARB_compute_shader : require\n";

/// Version and extension prelude put in front of every compute shader body.
/// Compute sources carry no `#version` line of their own.
///
/// - GL 4.3 and later: `#version 430 core`.
/// - GL 4.x that advertises compute: `#version 420 core` and the extension
///   directive.
/// - Otherwise there is no compute path.
pub open spec fn prelude(major: u32, minor: u32, compute_advertised: bool) -> Option<Seq<char>> {
    if at_least(major, minor, (4, 3)) {
        Some(PRELUDE_430@)
    } else if major == 4 && compute_advertised {
        Some(PRELUDE_420@)
    } else {
        None
    }
}

/// See [`prelude`].
pub fn compute_prelude(major: u32, minor: u32, compute_advertised: bool) -> (r: Option<
    &'static str,
>)
    ensures
        r is Some == prelude(major, minor, compute_advertised) is Some,
        r is Some ==> r->0@ == prelude(major, minor, compute_advertised)->0,
{
    if major > 4 || (major == 4 && minor >= 3) {
        Some(PRELUDE_430)
    } else if major == 4 && compute_advertised {
        Some(PRELUDE_420)
    } else {
        None
    }
}

/// A desktop context whose version number implies compute always has a
/// prelude, whatever the extension string says.
pub proof fn desktop_version_has_prelude(version: Seq<char>, advertised: bool)
    requires
        !is_es(version),
        version_has_compute(version),
    ensures
        prelude(
            text::nth_or(version_numbers(version), 0, 0),
            text::nth_or(version_numbers(version), 1, 0),
            advertised,
        ) == Some(PRELUDE_430@),
{
}

/// A compute prelude exists only for GL 4.x and later contexts.
pub proof fn prelude_needs_gl4(major: u32, minor: u32, advertised: bool)
    ensures
        prelude(major, minor, advertised) is Some ==> major >= 4,
        prelude(4, minor, true) is Some,
        prelude(major, minor, false) is Some ==> prelude(major, minor, true) == prelude(
            major,
            minor,
            false,
        ),
{
}

/// Advertising more extensions never takes compute away.
pub proof fn more_extensions_keep_compute(extensions: Seq<char>, extra: Seq<char>)
    requires
        extension_has_compute(extensions),
    ensures
        extension_has_compute(extensions + seq![' '] + extra),
{
    let w = "GL_ARB_compute_shader"@;
    let i = choose|i: int| #[trigger] text::word_at(extensions, w, i);
    let all = extensions + seq![' '] + extra;
    assert(all.subrange(i, i + w.len()) =~= extensions.subrange(i, i + w.len()));
    assert(text::word_at(all, w, i));
}

/// A backend pinned to the fallback never selects compute.
pub proof fn forced_fallback_never_computes(backend: GlBackend)
    requires
        backend.force_fallback,
    ensures
        backend.path() == ComputePath::FragmentFallback,
{
}

} // verus!
