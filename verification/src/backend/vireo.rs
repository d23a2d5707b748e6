//! Vireo backend: a stub that keeps the seam stable.

use vstd::prelude::*;

use crate::backend::{ComputePath, GpuBackend};

verus! {

pub struct VireoBackend;

impl GpuBackend for VireoBackend {
    open spec fn label(&self) -> Seq<char> {
        "Vireo (stub)"@
    }

    open spec fn path(&self) -> ComputePath {
        ComputePath::Compute
    }

    fn name(&self) -> (r: &'static str) {
        "Vireo (stub)"
    }

    fn compute_path(&self) -> (r: ComputePath) {
        ComputePath::Compute
    }
}

} // verus!
