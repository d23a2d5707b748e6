//! The backend seam: which shader path the passes run on.

use vstd::prelude::*;

pub mod gl;
pub mod vireo;

verus! {

/// Which shader path a pass should use. Not every driver exposes compute,
/// so every compute pass has a fragment fallback.
#[derive(Debug, Clone, Copy, PartialEq, Eq, Structural)]
pub enum ComputePath {
    Compute,
    FragmentFallback,
}

/// Minimal backend interface.
pub trait GpuBackend {
    /// The backend's display name.
    spec fn label(&self) -> Seq<char>;

    /// The shader path the backend selects.
    spec fn path(&self) -> ComputePath;

    fn name(&self) -> (r: &'static str)
        ensures
            r@ == self.label(),
    ;

    fn compute_path(&self) -> (r: ComputePath)
        ensures
            r == self.path(),
    ;

    /// Whether passes run on the compute path.
    fn supports_compute(&self) -> (r: bool)
        ensures
            r == (self.path() == ComputePath::Compute),
    {
        self.compute_path() == ComputePath::Compute
    }
}

} // verus!
