//! Core of a node-diagram editor: rectangular blocks on a 2D canvas,
//! directed links drawn as cubic Bezier curves between them, and the
//! interaction state machine (focus, hit-testing, creation, deletion)
//! that turns mouse and keyboard events into graph mutations.
//!
//! Rendering and windowing are kept outside: the scene only decides
//! *what* geometry to draw, emitting plain draw commands that a
//! platform layer rasterizes.

use vstd::prelude::*;

pub mod block;
pub mod context;
pub mod draw;
pub mod geometry;
pub mod link;

verus! {

/// Event injected into the platform event queue by the timer thread:
/// either a fixed-rate tick or a request to redraw the scene.
#[derive(PartialEq, Debug, Clone)]
pub enum AppEvent {
    Update,
    Redraw,
}

} // verus!
