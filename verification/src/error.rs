//! Failures that end a frame's draw phase.

use vstd::prelude::*;
use crate::texture::TextureId;

verus! {

/// Why a texture delta or a frame could not be carried out.
#[derive(Clone, Copy, Debug, PartialEq, Eq, Structural)]
pub enum RenderError {
    /// No room was left for the texture: the memory budget would be exceeded,
    /// or no handle is left to give out.
    AllocationFailed(TextureId),
    /// A mesh or a patch names a texture that the cache does not hold.
    DanglingReference(TextureId),
    /// A patch has another pixel format than its texture, or reaches beyond it.
    InvalidPatch(TextureId),
}

impl RenderError {
    /// The texture that the failure is about.
    pub open spec fn subject(self) -> TextureId {
        match self {
            RenderError::AllocationFailed(id) => id,
            RenderError::DanglingReference(id) => id,
            RenderError::InvalidPatch(id) => id,
        }
    }

    /// The texture that the failure is about.
    pub fn texture(&self) -> (id: TextureId)
        ensures
            id == self.subject(),
    {
        match self {
            RenderError::AllocationFailed(id) => *id,
            RenderError::DanglingReference(id) => *id,
            RenderError::InvalidPatch(id) => *id,
        }
    }
}

} // verus!
