//! IGSR: orchestration of a temporal upscaler.

use vstd::prelude::*;

pub mod backend;
pub mod commands;
pub mod config;
pub mod context;
pub mod gpu;
pub mod image;
pub mod laws;
pub mod mat4;
pub mod options;
pub mod passes;
pub mod pipeline;
pub mod records;
pub mod resources;
pub mod scene;
pub mod selftest;
pub mod single;
pub mod sources;
pub mod startup;
pub mod testbed;
pub mod text;
pub mod timers;
pub mod view;

pub use backend::{ComputePath, GpuBackend};
pub use config::{IgsrConfig, QualityMode};
pub use context::IgsrContext;

verus! {

/// The version of this crate.
pub fn version() -> (r: &'static str)
    ensures
        r@ == "0.1.0"@,
{
    "0.1.0"
}

} // verus!
