//! The passes of the default pipeline as one type.

use vstd::prelude::*;

#[allow(unused_imports)]
use crate::commands::CommandModel;
use crate::passes::activate::Activate;
use crate::passes::convert::Convert;
use crate::passes::sharpen::Sharpen;
use crate::passes::upscale::Upscale;
#[allow(unused_imports)]
use crate::passes::{
    DebugViewSpec, Flow, Inputs, Pass, PassConfig, PassCtx, PassIo, ShaderSet, Variant, Variants,
    ViewModel,
};
#[allow(unused_imports)]
use crate::resources::{ResourceSpec, SpecModel};

verus! {

/// One of the four passes.
#[derive(Debug)]
pub enum Stage {
    Convert(Convert),
    Activate(Activate),
    Upscale(Upscale),
    Sharpen(Sharpen),
}

impl Pass for Stage {
    open spec fn label(&self) -> Seq<char> {
        match self {
            Stage::Convert(p) => p.label(),
            Stage::Activate(p) => p.label(),
            Stage::Upscale(p) => p.label(),
            Stage::Sharpen(p) => p.label(),
        }
    }

    open spec fn flow(&self) -> Flow {
        match self {
            Stage::Convert(p) => p.flow(),
            Stage::Activate(p) => p.flow(),
            Stage::Upscale(p) => p.flow(),
            Stage::Sharpen(p) => p.flow(),
        }
    }

    open spec fn offered(&self) -> Variants {
        match self {
            Stage::Convert(p) => p.offered(),
            Stage::Activate(p) => p.offered(),
            Stage::Upscale(p) => p.offered(),
            Stage::Sharpen(p) => p.offered(),
        }
    }

    open spec fn source_text(&self, variant: Variant, shaders: ShaderSet) -> Option<
        (Seq<char>, Seq<char>),
    > {
        match self {
            Stage::Convert(p) => p.source_text(variant, shaders),
            Stage::Activate(p) => p.source_text(variant, shaders),
            Stage::Upscale(p) => p.source_text(variant, shaders),
            Stage::Sharpen(p) => p.source_text(variant, shaders),
        }
    }

    open spec fn runs(&self, cfg: PassConfig) -> bool {
        match self {
            Stage::Convert(p) => p.runs(cfg),
            Stage::Activate(p) => p.runs(cfg),
            Stage::Upscale(p) => p.runs(cfg),
            Stage::Sharpen(p) => p.runs(cfg),
        }
    }

    open spec fn declared(&self) -> Seq<SpecModel> {
        match self {
            Stage::Convert(p) => p.declared(),
            Stage::Activate(p) => p.declared(),
            Stage::Upscale(p) => p.declared(),
            Stage::Sharpen(p) => p.declared(),
        }
    }

    open spec fn offered_views(&self) -> Seq<ViewModel> {
        match self {
            Stage::Convert(p) => p.offered_views(),
            Stage::Activate(p) => p.offered_views(),
            Stage::Upscale(p) => p.offered_views(),
            Stage::Sharpen(p) => p.offered_views(),
        }
    }

    open spec fn work(&self, i: Inputs) -> Seq<CommandModel> {
        match self {
            Stage::Convert(p) => p.work(i),
            Stage::Activate(p) => p.work(i),
            Stage::Upscale(p) => p.work(i),
            Stage::Sharpen(p) => p.work(i),
        }
    }

    fn name(&self) -> (r: &'static str) {
        match self {
            Stage::Convert(p) => p.name(),
            Stage::Activate(p) => p.name(),
            Stage::Upscale(p) => p.name(),
            Stage::Sharpen(p) => p.name(),
        }
    }

    fn io(&self) -> (r: PassIo) {
        match self {
            Stage::Convert(p) => p.io(),
            Stage::Activate(p) => p.io(),
            Stage::Upscale(p) => p.io(),
            Stage::Sharpen(p) => p.io(),
        }
    }

    fn variants(&self) -> (r: Variants) {
        match self {
            Stage::Convert(p) => p.variants(),
            Stage::Activate(p) => p.variants(),
            Stage::Upscale(p) => p.variants(),
            Stage::Sharpen(p) => p.variants(),
        }
    }

    fn sources<'a>(&self, variant: Variant, shaders: &'a ShaderSet) -> (r: Option<
        (&'a str, &'a str),
    >) {
        match self {
            Stage::Convert(p) => p.sources(variant, shaders),
            Stage::Activate(p) => p.sources(variant, shaders),
            Stage::Upscale(p) => p.sources(variant, shaders),
            Stage::Sharpen(p) => p.sources(variant, shaders),
        }
    }

    fn enabled(&self, cfg: &PassConfig) -> (r: bool) {
        match self {
            Stage::Convert(p) => p.enabled(cfg),
            Stage::Activate(p) => p.enabled(cfg),
            Stage::Upscale(p) => p.enabled(cfg),
            Stage::Sharpen(p) => p.enabled(cfg),
        }
    }

    fn resources(&self) -> (r: Vec<ResourceSpec>) {
        match self {
            Stage::Convert(p) => p.resources(),
            Stage::Activate(p) => p.resources(),
            Stage::Upscale(p) => p.resources(),
            Stage::Sharpen(p) => p.resources(),
        }
    }

    fn debug_views(&self) -> (r: Vec<DebugViewSpec>) {
        match self {
            Stage::Convert(p) => p.debug_views(),
            Stage::Activate(p) => p.debug_views(),
            Stage::Upscale(p) => p.debug_views(),
            Stage::Sharpen(p) => p.debug_views(),
        }
    }

    fn dispatch(&self, ctx: &mut PassCtx) {
        match self {
            Stage::Convert(p) => p.dispatch(ctx),
            Stage::Activate(p) => p.dispatch(ctx),
            Stage::Upscale(p) => p.dispatch(ctx),
            Stage::Sharpen(p) => p.dispatch(ctx),
        }
    }
}

/// The default pipeline: convert, activate, upscale, sharpen.
pub open spec fn is_default(passes: Seq<Stage>) -> bool {
    &&& passes.len() == 4
    &&& passes[0] is Convert
    &&& passes[1] is Activate
    &&& passes[2] is Upscale
    &&& passes[3] is Sharpen
}

/// The passes of the default pipeline, in order.
pub fn default_passes() -> (r: Vec<Stage>)
    ensures
        is_default(r@),
{
    let mut r: Vec<Stage> = Vec::new();
    r.push(Stage::Convert(Convert::new()));
    r.push(Stage::Activate(Activate::new()));
    r.push(Stage::Upscale(Upscale::new()));
    r.push(Stage::Sharpen(Sharpen::new()));
    r
}

} // verus!
