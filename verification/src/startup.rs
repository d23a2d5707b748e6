//! What the driver offers, and what is made of it.

use vstd::prelude::*;

use crate::backend::gl;
use crate::backend::gl::GlBackend;
use crate::text;

verus! {

/// Timer queries can be used: the extension is among the advertised ones.
pub open spec fn has_timers(extensions: Seq<char>) -> bool {
    text::has_word(extensions, "GL_ARB_timer_query"@)
}

/// Whether timer queries can be used.
pub fn timer_supported(extensions: &str) -> (r: bool)
    ensures
        r == has_timers(extensions@),
{
    proof {
        reveal_strlit("GL_ARB_timer_query");
    }
    text::contains_word(extensions, "GL_ARB_timer_query")
}

/// What the driver offers.
#[derive(Debug, Clone, Copy)]
pub struct Capabilities {
    /// Major and minor version.
    pub version: (u32, u32),
    /// Number of advertised extensions.
    pub extensions: usize,
    /// Compute shaders are there, by version or extension.
    pub compute: bool,
    pub backend: GlBackend,
    pub timers: bool,
}

/// The extension string made of the enumerated extensions.
pub open spec fn extension_string(list: Seq<String>) -> Seq<char> {
    text::joined(text::string_views(list), " "@)
}

/// `c` is what a version string and the enumerated extensions amount to.
pub open spec fn amounts_to(
    c: Capabilities,
    version: Seq<char>,
    extensions: Seq<String>,
    force_fallback: bool,
) -> bool {
    let all = extension_string(extensions);
    &&& c.version == gl::version_of(version)
    &&& c.extensions == text::word_count(all)
    &&& c.compute == gl::has_compute(version, all)
    &&& c.backend.compute_available == c.compute
    &&& c.backend.force_fallback == force_fallback
    &&& c.timers == has_timers(all)
}

/// Evaluates a version string and the enumerated extensions.
pub fn capabilities(version: &str, extensions: &Vec<String>, force_fallback: bool) -> (r:
    Capabilities)
    ensures
        r.version.0 == text::nth_or(gl::version_numbers(version@), 0, 0),
        r.version.1 == text::nth_or(gl::version_numbers(version@), 1, 0),
        r.extensions == text::word_count(extension_string(extensions@)),
        r.compute == (gl::version_has_compute(version@) || gl::extension_has_compute(
            extension_string(extensions@),
        )),
        r.backend == (GlBackend { compute_available: r.compute, force_fallback }),
        r.timers == has_timers(extension_string(extensions@)),
        amounts_to(r, version@, extensions@, force_fallback),
{
    let all = text::join(extensions, " ");
    let compute = gl::detect_compute(version, all.as_str());
    let backend = if force_fallback {
        GlBackend::new(compute).with_forced_fallback()
    } else {
        GlBackend::new(compute)
    };
    Capabilities {
        version: gl::gl_version(version),
        extensions: text::count_words(all.as_str()),
        compute,
        backend,
        timers: timer_supported(all.as_str()),
    }
}

/// Context versions to ask for, the preferred one first. The passes need
/// GLSL 4.20; a 3.3 context can only draw.
pub fn context_versions() -> (r: Vec<(u8, u8)>)
    ensures
        r@ == seq![(4u8, 2u8), (3u8, 3u8)],
{
    let mut r: Vec<(u8, u8)> = Vec::new();
    r.push((4, 2));
    r.push((3, 3));
    assert(r@ =~= seq![(4u8, 2u8), (3u8, 3u8)]);
    r
}

/// Configuration `i` is the first with the most samples.
pub open spec fn is_best(samples: Seq<u8>, i: int) -> bool {
    &&& 0 <= i < samples.len()
    &&& forall|k: int| 0 <= k < samples.len() ==> #[trigger] samples[k] <= samples[i]
    &&& forall|k: int| 0 <= k < i ==> #[trigger] samples[k] < samples[i]
}

/// The first framebuffer configuration with the most samples, given the
/// samples of each.
pub fn best_config(samples: &Vec<u8>) -> (r: Option<usize>)
    ensures
        r is Some == (samples@.len() > 0),
        r is Some ==> is_best(samples@, r->0 as int),
        r is Some ==> {
            &&& r->0 < samples@.len()
            &&& forall|i: int|
                0 <= i < samples@.len() ==> #[trigger] samples@[i] <= samples@[r->0 as int]
            &&& forall|i: int| 0 <= i < r->0 ==> #[trigger] samples@[i] < samples@[r->0 as int]
        },
{
    if samples.len() == 0 {
        return None;
    }
    let mut best: usize = 0;
    for i in 1..samples.len()
        invariant
            best < samples@.len(),
            best < i,
            forall|k: int| 0 <= k < i ==> #[trigger] samples@[k] <= samples@[best as int],
            forall|k: int| 0 <= k < best ==> #[trigger] samples@[k] < samples@[best as int],
    {
        if samples[i] > samples[best] {
            best = i;
        }
    }
    Some(best)
}

} // verus!
