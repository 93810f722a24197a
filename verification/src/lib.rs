//! A bridge between an immediate-mode GUI and a GPU backend: textures kept in
//! step with the GUI's texture deltas, clipped meshes turned into draw
//! commands, and window events gathered into one input record per frame.
//!
//! The library computes; it touches neither window nor GPU. What has to happen
//! on the GPU comes out as a list of [`command::GpuCommand`]s, in the order in
//! which the backend must carry them out.

pub mod command;
pub mod error;
pub mod geometry;
pub mod texture;
pub mod render;
pub mod input;
pub mod frame;
