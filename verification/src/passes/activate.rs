//! Activate (render resolution, three-pass quality only, compute-only).
//!
//! Refines convert's `data` into the next tap of the same resource and
//! tracks the luma history in a ping-pong resource of its own. The framework
//! disables it when there is no compute path.

use vstd::prelude::*;

use crate::gpu;
#[allow(unused_imports)]
use crate::commands::CommandModel;
use crate::passes;
#[allow(unused_imports)]
use crate::passes::{
    DebugViewSpec, Flow, Inputs, Pass, PassConfig, PassCtx, PassIo, ShaderSet, Variant, Variants,
    ViewModel,
};
use crate::resources;
#[allow(unused_imports)]
use crate::resources::{ResourceKind, ResourceSpec, SizeDomain, SpecModel};
use crate::single;
use crate::single::Single;

verus! {

#[derive(Debug)]
pub struct Activate;

impl Activate {
    pub fn new() -> (r: Activate)
        ensures
            r == Activate,
    {
        Activate
    }
}

/// Visualizes the luma history.
pub const LUMA_VIEW: &'static str = "#version 420 core
layout(location = 0) in vec2 v_uv;
layout(location = 0) out vec4 o_col;
uniform sampler2D u_tex;
void main() {
    vec2 l = texture(u_tex, v_uv).rg;
    float d = clamp(l.y * 8.0, -0.5, 0.5);
    o_col = vec4(l.x + d, l.x - abs(d) * 0.5, l.x - d, 1.0);
}
";

/// Visualizes the depth clip and the edge flag.
pub const CLIP_VIEW: &'static str = "#version 420 core
layout(location = 0) in vec2 v_uv;
layout(location = 0) out vec4 o_col;
uniform sampler2D u_tex;
void main() {
    vec4 d = texture(u_tex, v_uv);
    o_col = vec4(d.w, d.z, 0.0, 1.0);
}
";

/// `luma`: luma history at render resolution, written only by this pass.
pub open spec fn luma_spec() -> SpecModel {
    SpecModel {
        name: "luma"@,
        kind: ResourceKind::PingPong { taps: 2 },
        internal: gpu::GL_RG16F as i32,
        upload_format: gpu::GL_RG,
        upload_type: gpu::GL_HALF_FLOAT,
        domain: SizeDomain::Render,
        filter: gpu::GL_NEAREST,
    }
}

impl Pass for Activate {
    open spec fn label(&self) -> Seq<char> {
        "activate"@
    }

    open spec fn flow(&self) -> Flow {
        Flow {
            reads: seq!["data"@, "color"@, "luma"@],
            writes: seq!["data"@, "luma"@],
            final_output: None,
        }
    }

    open spec fn offered(&self) -> Variants {
        Variants { compute: true, fragment: false }
    }

    open spec fn source_text(&self, variant: Variant, shaders: ShaderSet) -> Option<
        (Seq<char>, Seq<char>),
    > {
        match variant {
            Variant::Compute => Some((""@, shaders.activate_comp@)),
            Variant::Fragment => None,
        }
    }

    open spec fn runs(&self, cfg: PassConfig) -> bool {
        cfg.three_pass && cfg.use_compute
    }

    open spec fn declared(&self) -> Seq<SpecModel> {
        seq![luma_spec()]
    }

    open spec fn offered_views(&self) -> Seq<ViewModel> {
        seq![
            ViewModel { label: "luma"@, source: "luma"@, frag: LUMA_VIEW@ },
            ViewModel { label: "clip"@, source: "data"@, frag: CLIP_VIEW@ },
        ]
    }

    open spec fn work(&self, i: Inputs) -> Seq<CommandModel> {
        passes::bind(0, i.reads[0]) + passes::bind(1, i.reads[1]) + passes::bind(2, i.reads[2])
            + passes::sampler(i, "u_data"@, 0) + passes::sampler(i, "u_color"@, 1)
            + passes::sampler(i, "u_luma_prev"@, 2) + passes::pair(
            i,
            "u_render_size"@,
            i.params.render_size@,
        ) + passes::pair(i, "u_render_rcp"@, i.params.render_size_rcp@) + passes::float(
            i,
            "u_reset"@,
            single::of_u32(i.params.reset),
        ) + passes::float(i, "u_fov_hor"@, i.params.camera_fov_hor) + passes::launch(
            i,
            i.render_size,
        )
    }

    fn name(&self) -> (r: &'static str) {
        "activate"
    }

    fn io(&self) -> (r: PassIo) {
        let r = PassIo {
            reads: &["data", "color", "luma"],
            writes: &["data", "luma"],
            final_output: None,
        };
        assert(r@.reads =~= self.flow().reads);
        assert(r@.writes =~= self.flow().writes);
        r
    }

    fn variants(&self) -> (r: Variants) {
        Variants::compute_only()
    }

    fn sources<'a>(&self, variant: Variant, shaders: &'a ShaderSet) -> (r: Option<
        (&'a str, &'a str),
    >) {
        match variant {
            Variant::Compute => Some(("", shaders.activate_comp.as_str())),
            Variant::Fragment => None,
        }
    }

    fn enabled(&self, cfg: &PassConfig) -> (r: bool) {
        cfg.three_pass && cfg.use_compute
    }

    fn resources(&self) -> (r: Vec<ResourceSpec>) {
        let mut r: Vec<ResourceSpec> = Vec::new();
        r.push(
            ResourceSpec {
                name: "luma",
                kind: ResourceKind::PingPong { taps: 2 },
                internal: gpu::rg16f() as i32,
                upload_format: gpu::rg(),
                upload_type: gpu::half_float(),
                domain: SizeDomain::Render,
                filter: gpu::nearest(),
            },
        );
        assert(resources::spec_models(r@) =~= self.declared());
        r
    }

    fn debug_views(&self) -> (r: Vec<DebugViewSpec>) {
        let mut r: Vec<DebugViewSpec> = Vec::new();
        r.push(DebugViewSpec { label: "luma", source: "luma", frag: LUMA_VIEW });
        r.push(DebugViewSpec { label: "clip", source: "data", frag: CLIP_VIEW });
        assert(passes::view_models(r@) =~= self.offered_views());
        r
    }

    fn dispatch(&self, ctx: &mut PassCtx) {
        let p = ctx.params;
        ctx.bind_tex(0, ctx.reads[0]);
        ctx.bind_tex(1, ctx.reads[1]);
        ctx.bind_tex(2, ctx.reads[2]);
        ctx.set_tex_unit("u_data", 0);
        ctx.set_tex_unit("u_color", 1);
        ctx.set_tex_unit("u_luma_prev", 2);
        ctx.set2f("u_render_size", p.render_size[0], p.render_size[1]);
        ctx.set2f("u_render_rcp", p.render_size_rcp[0], p.render_size_rcp[1]);
        ctx.set1f("u_reset", Single::from_u32(p.reset));
        ctx.set1f("u_fov_hor", p.camera_fov_hor);
        ctx.cover(ctx.render_size);
        assert(ctx.recorded() =~= old(ctx).recorded() + self.work(old(ctx).inputs()));
    }
}

} // verus!
