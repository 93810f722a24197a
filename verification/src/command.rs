//! What the backend is told to do on the GPU.

use vstd::prelude::*;
use crate::geometry::Scissor;
use crate::texture::PixelFormat;

verus! {

/// One step for the GPU backend. A frame is a list of these, carried out in
/// order. Textures are named by the handle that the cache gave them; pixel
/// payloads and meshes by their index in the delta and in the list of
/// primitives that the frame was painted from.
#[derive(Clone, Copy, Debug, PartialEq, Eq, Structural)]
pub enum GpuCommand {
    /// Set the viewport to the framebuffer's size in physical pixels.
    SetViewport { width: u32, height: u32 },
    /// Give the texture storage of this size and format; what it held is lost.
    AllocateTexture { handle: u64, width: u32, height: u32, format: PixelFormat },
    /// Write the payload of update number `update` into the rectangle at
    /// (`x`, `y`) of the texture.
    UploadPixels { handle: u64, x: u32, y: u32, width: u32, height: u32, update: usize },
    /// Draw the mesh of primitive number `primitive` as an indexed triangle
    /// list with this texture bound, writing inside the scissor rectangle only.
    DrawMesh { primitive: usize, handle: u64, scissor: Scissor, index_count: usize },
    /// Hand control to the callback of primitive number `primitive`.
    RunCallback { primitive: usize, scissor: Scissor },
    /// Destroy the texture.
    ReleaseTexture { handle: u64 },
}

impl GpuCommand {
    /// Whether the command draws with a texture bound.
    pub open spec fn is_draw(self) -> bool {
        self is DrawMesh
    }

    /// Whether the command destroys a texture.
    pub open spec fn is_release(self) -> bool {
        self is ReleaseTexture
    }

    /// Whether the command belongs to the draw phase: it draws a mesh or runs a
    /// callback.
    pub open spec fn is_paint(self) -> bool {
        self is DrawMesh || self is RunCallback
    }

    /// Whether the command paints primitive number `k`.
    pub open spec fn paints(self, k: int) -> bool {
        match self {
            GpuCommand::DrawMesh { primitive, .. } => primitive == k,
            GpuCommand::RunCallback { primitive, .. } => primitive == k,
            _ => false,
        }
    }

    /// Whether the command draws with the texture `handle` bound.
    pub open spec fn draws_with(self, handle: u64) -> bool {
        self matches GpuCommand::DrawMesh { handle: h, .. } && h == handle
    }

    /// Whether the command destroys the texture `handle`.
    pub open spec fn releases(self, handle: u64) -> bool {
        self matches GpuCommand::ReleaseTexture { handle: h } && h == handle
    }
}

} // verus!
