//! Core model of a one-pass, depth-tested 3D renderer.
//!
//! The crate owns the decision logic of the rendering core: merging scene
//! meshes into flat vertex/index buffers, deduplicating textures by render
//! key, laying out uniform data at device-aligned offsets, recording draw
//! command lists grouped by texture, and driving the per-frame
//! acquire/submit/present protocol together with swapchain recreation.
//! Device work itself (buffer creation, queue submission, presentation) is
//! performed by the embedding application, which feeds the outcomes back
//! into this model.

pub mod bytes;
pub mod commands;
pub mod drawer;
pub mod geometry;
pub mod memory;
pub mod presenter;
pub mod texture;
pub mod uniform;
