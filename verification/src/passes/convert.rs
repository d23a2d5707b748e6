//! Convert (render resolution): depth dilation and motion.
//!
//! Writes `data`, a ping-pong resource, so that a later pass can refine it
//! without a second name.

use vstd::prelude::*;

use crate::gpu;
#[allow(unused_imports)]
use crate::commands::{CommandModel, UniformModel};
use crate::mat4;
use crate::passes;
#[allow(unused_imports)]
use crate::passes::{
    DebugViewSpec, Flow, Inputs, Pass, PassConfig, PassCtx, PassIo, ShaderSet, Variant, Variants,
    ViewModel,
};
use crate::resources;
#[allow(unused_imports)]
use crate::resources::{ResourceKind, ResourceSpec, SizeDomain, SpecModel};

verus! {

#[derive(Debug)]
pub struct Convert;

impl Convert {
    pub fn new() -> (r: Convert)
        ensures
            r == Convert,
    {
        Convert
    }
}

/// `depth`: linear depth of the scene, provided from outside.
pub open spec fn depth_spec() -> SpecModel {
    SpecModel {
        name: "depth"@,
        kind: ResourceKind::External,
        internal: gpu::GL_R32F as i32,
        upload_format: gpu::GL_RED,
        upload_type: gpu::GL_FLOAT,
        domain: SizeDomain::Render,
        filter: gpu::GL_NEAREST,
    }
}

/// `velocity`: per-pixel motion of the scene, provided from outside.
pub open spec fn velocity_spec() -> SpecModel {
    SpecModel {
        name: "velocity"@,
        kind: ResourceKind::External,
        internal: gpu::GL_RG32F as i32,
        upload_format: gpu::GL_RG,
        upload_type: gpu::GL_FLOAT,
        domain: SizeDomain::Render,
        filter: gpu::GL_NEAREST,
    }
}

/// `color`: the scene, provided from outside.
pub open spec fn color_spec() -> SpecModel {
    SpecModel {
        name: "color"@,
        kind: ResourceKind::External,
        internal: gpu::GL_RGBA8 as i32,
        upload_format: gpu::GL_RGBA,
        upload_type: gpu::GL_UNSIGNED_BYTE,
        domain: SizeDomain::Render,
        filter: gpu::GL_NEAREST,
    }
}

/// `data`: motion and disocclusion at render resolution.
pub open spec fn data_spec() -> SpecModel {
    SpecModel {
        name: "data"@,
        kind: ResourceKind::PingPong { taps: 2 },
        internal: gpu::GL_RGBA16F as i32,
        upload_format: gpu::GL_RGBA,
        upload_type: gpu::GL_HALF_FLOAT,
        domain: SizeDomain::Render,
        filter: gpu::GL_NEAREST,
    }
}

/// Declares `depth`.
pub fn depth() -> (r: ResourceSpec)
    ensures
        r@ == depth_spec(),
{
    ResourceSpec {
        name: "depth",
        kind: ResourceKind::External,
        internal: gpu::r32f() as i32,
        upload_format: gpu::red(),
        upload_type: gpu::float(),
        domain: SizeDomain::Render,
        filter: gpu::nearest(),
    }
}

/// Declares `velocity`.
pub fn velocity() -> (r: ResourceSpec)
    ensures
        r@ == velocity_spec(),
{
    ResourceSpec {
        name: "velocity",
        kind: ResourceKind::External,
        internal: gpu::rg32f() as i32,
        upload_format: gpu::rg(),
        upload_type: gpu::float(),
        domain: SizeDomain::Render,
        filter: gpu::nearest(),
    }
}

/// Declares `color`.
pub fn color() -> (r: ResourceSpec)
    ensures
        r@ == color_spec(),
{
    ResourceSpec {
        name: "color",
        kind: ResourceKind::External,
        internal: gpu::rgba8() as i32,
        upload_format: gpu::rgba(),
        upload_type: gpu::unsigned_byte(),
        domain: SizeDomain::Render,
        filter: gpu::nearest(),
    }
}

/// Declares `data`.
pub fn data() -> (r: ResourceSpec)
    ensures
        r@ == data_spec(),
{
    ResourceSpec {
        name: "data",
        kind: ResourceKind::PingPong { taps: 2 },
        internal: gpu::rgba16f() as i32,
        upload_format: gpu::rgba(),
        upload_type: gpu::half_float(),
        domain: SizeDomain::Render,
        filter: gpu::nearest(),
    }
}

impl Pass for Convert {
    open spec fn label(&self) -> Seq<char> {
        "convert"@
    }

    open spec fn flow(&self) -> Flow {
        Flow {
            reads: seq!["depth"@, "velocity"@],
            writes: seq!["data"@],
            final_output: None,
        }
    }

    open spec fn offered(&self) -> Variants {
        Variants { compute: true, fragment: true }
    }

    open spec fn source_text(&self, variant: Variant, shaders: ShaderSet) -> Option<
        (Seq<char>, Seq<char>),
    > {
        match variant {
            Variant::Compute => Some((""@, shaders.convert_comp@)),
            Variant::Fragment => Some((shaders.fullscreen_vert@, shaders.convert_frag@)),
        }
    }

    open spec fn runs(&self, cfg: PassConfig) -> bool {
        true
    }

    open spec fn declared(&self) -> Seq<SpecModel> {
        seq![depth_spec(), velocity_spec(), color_spec(), data_spec()]
    }

    open spec fn offered_views(&self) -> Seq<ViewModel> {
        Seq::empty()
    }

    open spec fn work(&self, i: Inputs) -> Seq<CommandModel> {
        passes::bind(0, i.reads[0]) + passes::bind(1, i.reads[1]) + passes::sampler(
            i,
            "u_depth"@,
            0,
        ) + passes::sampler(i, "u_velocity"@, 1) + passes::pair(
            i,
            "u_render_size"@,
            i.params.render_size@,
        ) + passes::pair(i, "u_render_rcp"@, i.params.render_size_rcp@) + passes::uniform(
            i,
            "u_clip_to_prev"@,
            UniformModel::Matrix(mat4::transposed(i.params.clip_to_prev_clip@)),
        ) + passes::float(i, "u_fov_hor"@, i.params.camera_fov_hor) + passes::launch(
            i,
            i.render_size,
        )
    }

    fn name(&self) -> (r: &'static str) {
        "convert"
    }

    fn io(&self) -> (r: PassIo) {
        let r = PassIo { reads: &["depth", "velocity"], writes: &["data"], final_output: None };
        assert(r@.reads =~= self.flow().reads);
        assert(r@.writes =~= self.flow().writes);
        r
    }

    fn variants(&self) -> (r: Variants) {
        Variants::both()
    }

    fn sources<'a>(&self, variant: Variant, shaders: &'a ShaderSet) -> (r: Option<
        (&'a str, &'a str),
    >) {
        match variant {
            Variant::Compute => Some(("", shaders.convert_comp.as_str())),
            Variant::Fragment => Some(
                (shaders.fullscreen_vert.as_str(), shaders.convert_frag.as_str()),
            ),
        }
    }

    fn enabled(&self, cfg: &PassConfig) -> (r: bool) {
        true
    }

    /// Declares the externals too: convert is their first consumer.
    fn resources(&self) -> (r: Vec<ResourceSpec>) {
        let mut r: Vec<ResourceSpec> = Vec::new();
        r.push(depth());
        r.push(velocity());
        r.push(color());
        r.push(data());
        assert(resources::spec_models(r@) =~= self.declared());
        r
    }

    fn debug_views(&self) -> (r: Vec<DebugViewSpec>) {
        let r: Vec<DebugViewSpec> = Vec::new();
        assert(passes::view_models(r@) =~= self.offered_views());
        r
    }

    fn dispatch(&self, ctx: &mut PassCtx) {
        let p = ctx.params;
        ctx.bind_tex(0, ctx.reads[0]);
        ctx.bind_tex(1, ctx.reads[1]);
        ctx.set_tex_unit("u_depth", 0);
        ctx.set_tex_unit("u_velocity", 1);
        ctx.set2f("u_render_size", p.render_size[0], p.render_size[1]);
        ctx.set2f("u_render_rcp", p.render_size_rcp[0], p.render_size_rcp[1]);
        ctx.set_mat4_rowmajor("u_clip_to_prev", &p.clip_to_prev_clip);
        ctx.set1f("u_fov_hor", p.camera_fov_hor);
        ctx.cover(ctx.render_size);
        assert(ctx.recorded() =~= old(ctx).recorded() + self.work(old(ctx).inputs()));
    }
}

} // verus!
