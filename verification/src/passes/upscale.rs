//! Upscale (display resolution): upsampling and temporal blend.
//!
//! Reads `data` as the last writer left it, and the history; writes the next
//! tap of the history, which holds the unsharpened frame. The compute variant
//! also writes `scene_out`.

use vstd::prelude::*;

use crate::gpu;
#[allow(unused_imports)]
use crate::commands::CommandModel;
use crate::passes;
#[allow(unused_imports)]
use crate::passes::{
    DebugViewSpec, Flow, Inputs, Pass, PassConfig, PassCtx, PassIo, ShaderSet, Variant, Variants,
    ViewModel,
};
use crate::resources;
#[allow(unused_imports)]
use crate::resources::{ResourceKind, ResourceSpec, SizeDomain, SpecModel};
use crate::single;
use crate::single::Single;

verus! {

#[derive(Debug)]
pub struct Upscale;

impl Upscale {
    pub fn new() -> (r: Upscale)
        ensures
            r == Upscale,
    {
        Upscale
    }
}

/// Visualizes motion in render pixels and the disocclusion.
pub const MOTION_VIEW: &'static str = "#version 420 core
layout(location = 0) in vec2 v_uv;
layout(location = 0) out vec4 o_col;
uniform sampler2D u_tex;
uniform vec2 u_render_size;
void main() {
    vec4 d = texture(u_tex, v_uv);
    vec2 px = d.xy * u_render_size * 0.25;
    o_col = vec4(clamp(px * 0.5 + 0.5, 0.0, 1.0), d.z, 1.0);
}
";

/// `history`: the unsharpened frames at display resolution.
pub open spec fn history_spec() -> SpecModel {
    SpecModel {
        name: "history"@,
        kind: ResourceKind::PingPong { taps: 2 },
        internal: gpu::GL_RGBA16F as i32,
        upload_format: gpu::GL_RGBA,
        upload_type: gpu::GL_HALF_FLOAT,
        domain: SizeDomain::Display,
        filter: gpu::GL_LINEAR,
    }
}

/// `scene_out`: second image of the compute variant.
pub open spec fn scene_out_spec() -> SpecModel {
    SpecModel {
        name: "scene_out"@,
        kind: ResourceKind::Scratch,
        internal: gpu::GL_RGBA16F as i32,
        upload_format: gpu::GL_RGBA,
        upload_type: gpu::GL_HALF_FLOAT,
        domain: SizeDomain::Display,
        filter: gpu::GL_NEAREST,
    }
}

/// All taps are used once the camera has been still for two frames.
pub open spec fn full_taps(same_camera_frames: u32) -> Single {
    if same_camera_frames >= 2 {
        Single { bits: single::ONE_BITS }
    } else {
        Single { bits: single::ZERO_BITS }
    }
}

impl Pass for Upscale {
    open spec fn label(&self) -> Seq<char> {
        "upscale"@
    }

    open spec fn flow(&self) -> Flow {
        Flow {
            reads: seq!["color"@, "data"@, "history"@],
            writes: seq!["history"@, "scene_out"@],
            final_output: None,
        }
    }

    open spec fn offered(&self) -> Variants {
        Variants { compute: true, fragment: true }
    }

    open spec fn source_text(&self, variant: Variant, shaders: ShaderSet) -> Option<
        (Seq<char>, Seq<char>),
    > {
        match variant {
            Variant::Compute => Some((""@, shaders.upscale_comp@)),
            Variant::Fragment => Some((shaders.fullscreen_vert@, shaders.upscale_frag@)),
        }
    }

    open spec fn runs(&self, cfg: PassConfig) -> bool {
        true
    }

    open spec fn declared(&self) -> Seq<SpecModel> {
        seq![history_spec(), scene_out_spec()]
    }

    open spec fn offered_views(&self) -> Seq<ViewModel> {
        seq![ViewModel { label: "motion"@, source: "data"@, frag: MOTION_VIEW@ }]
    }

    open spec fn work(&self, i: Inputs) -> Seq<CommandModel> {
        passes::bind(0, i.reads[0]) + passes::bind(1, i.reads[1]) + passes::bind(2, i.reads[2])
            + passes::sampler(i, "u_color"@, 0) + passes::sampler(i, "u_data"@, 1)
            + passes::sampler(i, "u_history"@, 2) + passes::pair(
            i,
            "u_render_size"@,
            i.params.render_size@,
        ) + passes::pair(i, "u_render_rcp"@, i.params.render_size_rcp@) + passes::pair(
            i,
            "u_display_size"@,
            i.params.display_size@,
        ) + passes::pair(i, "u_display_rcp"@, i.params.display_size_rcp@) + passes::pair(
            i,
            "u_jitter"@,
            i.params.jitter@,
        ) + passes::float(i, "u_reset"@, single::of_u32(i.params.reset)) + passes::float(
            i,
            "u_min_lerp"@,
            i.params.min_lerp_contrib,
        ) + passes::float(i, "u_full_taps"@, full_taps(i.params.same_camera_frames))
            + passes::launch(i, i.display_size)
    }

    fn name(&self) -> (r: &'static str) {
        "upscale"
    }

    fn io(&self) -> (r: PassIo) {
        let r = PassIo {
            reads: &["color", "data", "history"],
            writes: &["history", "scene_out"],
            final_output: None,
        };
        assert(r@.reads =~= self.flow().reads);
        assert(r@.writes =~= self.flow().writes);
        r
    }

    fn variants(&self) -> (r: Variants) {
        Variants::both()
    }

    fn sources<'a>(&self, variant: Variant, shaders: &'a ShaderSet) -> (r: Option<
        (&'a str, &'a str),
    >) {
        match variant {
            Variant::Compute => Some(("", shaders.upscale_comp.as_str())),
            Variant::Fragment => Some(
                (shaders.fullscreen_vert.as_str(), shaders.upscale_frag.as_str()),
            ),
        }
    }

    fn enabled(&self, cfg: &PassConfig) -> (r: bool) {
        true
    }

    fn resources(&self) -> (r: Vec<ResourceSpec>) {
        let mut r: Vec<ResourceSpec> = Vec::new();
        r.push(
            ResourceSpec {
                name: "history",
                kind: ResourceKind::PingPong { taps: 2 },
                internal: gpu::rgba16f() as i32,
                upload_format: gpu::rgba(),
                upload_type: gpu::half_float(),
                domain: SizeDomain::Display,
                filter: gpu::linear(),
            },
        );
        r.push(
            ResourceSpec {
                name: "scene_out",
                kind: ResourceKind::Scratch,
                internal: gpu::rgba16f() as i32,
                upload_format: gpu::rgba(),
                upload_type: gpu::half_float(),
                domain: SizeDomain::Display,
                filter: gpu::nearest(),
            },
        );
        assert(resources::spec_models(r@) =~= self.declared());
        r
    }

    fn debug_views(&self) -> (r: Vec<DebugViewSpec>) {
        let mut r: Vec<DebugViewSpec> = Vec::new();
        r.push(DebugViewSpec { label: "motion", source: "data", frag: MOTION_VIEW });
        assert(passes::view_models(r@) =~= self.offered_views());
        r
    }

    fn dispatch(&self, ctx: &mut PassCtx) {
        let p = ctx.params;
        ctx.bind_tex(0, ctx.reads[0]);
        ctx.bind_tex(1, ctx.reads[1]);
        ctx.bind_tex(2, ctx.reads[2]);
        ctx.set_tex_unit("u_color", 0);
        ctx.set_tex_unit("u_data", 1);
        ctx.set_tex_unit("u_history", 2);
        ctx.set2f("u_render_size", p.render_size[0], p.render_size[1]);
        ctx.set2f("u_render_rcp", p.render_size_rcp[0], p.render_size_rcp[1]);
        ctx.set2f("u_display_size", p.display_size[0], p.display_size[1]);
        ctx.set2f("u_display_rcp", p.display_size_rcp[0], p.display_size_rcp[1]);
        ctx.set2f("u_jitter", p.jitter[0], p.jitter[1]);
        ctx.set1f("u_reset", Single::from_u32(p.reset));
        ctx.set1f("u_min_lerp", p.min_lerp_contrib);
        let full = if p.same_camera_frames >= 2 {
            Single { bits: single::ONE_BITS }
        } else {
            Single { bits: single::ZERO_BITS }
        };
        ctx.set1f("u_full_taps", full);
        ctx.cover(ctx.display_size);
        assert(ctx.recorded() =~= old(ctx).recorded() + self.work(old(ctx).inputs()));
    }
}

} // verus!
