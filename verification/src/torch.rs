//! Stand-in policy that will wrap a libtorch module checkpoint loader.
use vstd::prelude::*;

verus! {

/// Stub policy that will wrap a libtorch module checkpoint loader.
#[derive(Debug, Clone)]
pub struct TorchPolicy {
    loaded: bool,
}

impl Default for TorchPolicy {
    fn default() -> (r: Self)
        ensures
            !r.loaded(),
    {
        TorchPolicy { loaded: false }
    }
}

impl TorchPolicy {
    /// Whether the placeholder checkpoint has been loaded.
    pub closed spec fn loaded(&self) -> bool {
        self.loaded
    }

    pub fn new() -> (r: Self)
        ensures
            !r.loaded(),
    {
        TorchPolicy { loaded: false }
    }

    /// Marks the policy as ready (placeholder for checkpoint load).
    pub fn load_stub(&mut self)
        ensures
            final(self).loaded(),
    {
        self.loaded = true;
    }

    pub fn is_loaded(&self) -> (r: bool)
        ensures
            r == self.loaded(),
    {
        self.loaded
    }
}

} // verus!
