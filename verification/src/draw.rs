//! Plain draw commands.
//!
//! The scene never touches a graphics context: its render entry points
//! append commands to a list, and the platform layer turns each command
//! into primitive draw calls. This keeps every geometric decision (what
//! to draw, where, in which color) inside the verified core.

use vstd::prelude::*;

use crate::geometry::Point;

verus! {

/// The palette the scene draws with.
#[derive(Clone, Copy, PartialEq, Eq, Structural, Debug)]
pub enum Color {
    /// Border of a focused block.
    Black,
    /// Border of an unfocused block.
    MidGray,
    /// Body of every block.
    LightGray,
}

/// One drawing instruction, in canvas units.
#[derive(Clone, Copy, PartialEq, Eq, Structural, Debug)]
pub enum DrawCommand {
    /// A rounded rectangle with a border: a block's body.
    RoundedRect {
        x: i64,
        y: i64,
        width: i64,
        height: i64,
        radius: i64,
        fill: Color,
        border: Color,
    },
    /// A cubic Bezier curve: a link.
    Curve { start: Point, control1: Point, control2: Point, end: Point },
}

} // verus!
