//! Sharpen (display resolution): a strict post-process.
//!
//! Reads the upscaled frame and writes a target of its own. It declares no
//! ping-pong write, so sharpening never feeds back into the history.

use vstd::prelude::*;

use crate::gpu;
#[allow(unused_imports)]
use crate::commands::CommandModel;
use crate::passes;
#[allow(unused_imports)]
use crate::passes::{
    DebugViewSpec, Flow, Inputs, Pass, PassConfig, PassCtx, PassIo, ShaderSet, Variant, Variants,
    ViewModel,
};
use crate::resources;
#[allow(unused_imports)]
use crate::resources::{ResourceKind, ResourceSpec, SizeDomain, SpecModel};

verus! {

#[derive(Debug)]
pub struct Sharpen;

impl Sharpen {
    pub fn new() -> (r: Sharpen)
        ensures
            r == Sharpen,
    {
        Sharpen
    }
}

/// `sharp`: the final frame at display resolution.
pub open spec fn sharp_spec() -> SpecModel {
    SpecModel {
        name: "sharp"@,
        kind: ResourceKind::Scratch,
        internal: gpu::GL_RGBA16F as i32,
        upload_format: gpu::GL_RGBA,
        upload_type: gpu::GL_HALF_FLOAT,
        domain: SizeDomain::Display,
        filter: gpu::GL_NEAREST,
    }
}

impl Pass for Sharpen {
    open spec fn label(&self) -> Seq<char> {
        "sharpen"@
    }

    open spec fn flow(&self) -> Flow {
        Flow {
            reads: seq!["history"@],
            writes: seq!["sharp"@],
            final_output: Some("sharp"@),
        }
    }

    open spec fn offered(&self) -> Variants {
        Variants { compute: true, fragment: true }
    }

    open spec fn source_text(&self, variant: Variant, shaders: ShaderSet) -> Option<
        (Seq<char>, Seq<char>),
    > {
        match variant {
            Variant::Compute => Some((""@, shaders.sharpen_comp@)),
            Variant::Fragment => Some((shaders.fullscreen_vert@, shaders.sharpen_frag@)),
        }
    }

    open spec fn runs(&self, cfg: PassConfig) -> bool {
        true
    }

    open spec fn declared(&self) -> Seq<SpecModel> {
        seq![sharp_spec()]
    }

    open spec fn offered_views(&self) -> Seq<ViewModel> {
        Seq::empty()
    }

    open spec fn work(&self, i: Inputs) -> Seq<CommandModel> {
        passes::bind(0, i.reads[0]) + passes::sampler(i, "u_image"@, 0) + passes::pair(
            i,
            "u_display_size"@,
            i.params.display_size@,
        ) + passes::pair(i, "u_display_rcp"@, i.params.display_size_rcp@) + passes::float(
            i,
            "u_sharp"@,
            i.sharpness,
        ) + passes::launch(i, i.display_size)
    }

    fn name(&self) -> (r: &'static str) {
        "sharpen"
    }

    fn io(&self) -> (r: PassIo) {
        let r = PassIo { reads: &["history"], writes: &["sharp"], final_output: Some("sharp") };
        assert(r@.reads =~= self.flow().reads);
        assert(r@.writes =~= self.flow().writes);
        r
    }

    fn variants(&self) -> (r: Variants) {
        Variants::both()
    }

    fn sources<'a>(&self, variant: Variant, shaders: &'a ShaderSet) -> (r: Option<
        (&'a str, &'a str),
    >) {
        match variant {
            Variant::Compute => Some(("", shaders.sharpen_comp.as_str())),
            Variant::Fragment => Some(
                (shaders.fullscreen_vert.as_str(), shaders.sharpen_frag.as_str()),
            ),
        }
    }

    fn enabled(&self, cfg: &PassConfig) -> (r: bool) {
        true
    }

    fn resources(&self) -> (r: Vec<ResourceSpec>) {
        let mut r: Vec<ResourceSpec> = Vec::new();
        r.push(
            ResourceSpec {
                name: "sharp",
                kind: ResourceKind::Scratch,
                internal: gpu::rgba16f() as i32,
                upload_format: gpu::rgba(),
                upload_type: gpu::half_float(),
                domain: SizeDomain::Display,
                filter: gpu::nearest(),
            },
        );
        assert(resources::spec_models(r@) =~= self.declared());
        r
    }

    fn debug_views(&self) -> (r: Vec<DebugViewSpec>) {
        let r: Vec<DebugViewSpec> = Vec::new();
        assert(passes::view_models(r@) =~= self.offered_views());
        r
    }

    fn dispatch(&self, ctx: &mut PassCtx) {
        let p = ctx.params;
        ctx.bind_tex(0, ctx.reads[0]);
        ctx.set_tex_unit("u_image", 0);
        ctx.set2f("u_display_size", p.display_size[0], p.display_size[1]);
        ctx.set2f("u_display_rcp", p.display_size_rcp[0], p.display_size_rcp[1]);
        ctx.set1f("u_sharp", ctx.sharpness);
        ctx.cover(ctx.display_size);
        assert(ctx.recorded() =~= old(ctx).recorded() + self.work(old(ctx).inputs()));
    }
}

} // verus!
