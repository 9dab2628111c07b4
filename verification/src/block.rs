//! Blocks: positioned, sized rectangles with a focus flag.
//!
//! A block's bounding box is the half-open rectangle
//! `[pos.x, pos.x + width) x [pos.y, pos.y + height)`: left and top
//! edges belong to the block, right and bottom edges do not. Hit
//! testing uses exactly this rule.

use vstd::prelude::*;

use crate::draw::{Color, DrawCommand};
use crate::geometry::{point_in_range, Point, COORD_MAX};

verus! {

/// Width a freshly created block gets.
pub const DEFAULT_BLOCK_WIDTH: i64 = 150;

/// Height a freshly created block gets.
pub const DEFAULT_BLOCK_HEIGHT: i64 = 80;

/// Corner radius used when a block is drawn.
pub const BLOCK_CORNER_RADIUS: i64 = 5;

/// A rectangular node on the canvas. `pos` is the top-left corner.
/// `id` identifies the block inside a scene: links refer to blocks by
/// id, never by position in the collection, so deleting one block
/// cannot redirect a link to another.
#[derive(Clone, Copy, PartialEq, Eq, Structural, Debug)]
pub struct Block {
    pub pos: Point,
    pub width: i64,
    pub height: i64,
    pub is_focused: bool,
    pub id: u64,
}

impl Block {
    /// Geometry stays inside the coordinate band, and the box has
    /// non-negative extent.
    pub open spec fn wf(self) -> bool {
        &&& point_in_range(self.pos)
        &&& 0 <= self.width <= COORD_MAX
        &&& 0 <= self.height <= COORD_MAX
    }

    /// The half-open bounding-box rule.
    pub open spec fn contains_spec(self, p: Point) -> bool {
        &&& self.pos.x <= p.x < self.pos.x + self.width
        &&& self.pos.y <= p.y < self.pos.y + self.height
    }

    /// What the block contributes to a frame: its body with a border
    /// whose color tells focused and unfocused blocks apart.
    pub open spec fn draw_command_spec(self) -> DrawCommand {
        DrawCommand::RoundedRect {
            x: self.pos.x,
            y: self.pos.y,
            width: self.width,
            height: self.height,
            radius: BLOCK_CORNER_RADIUS,
            fill: Color::LightGray,
            border: if self.is_focused {
                Color::Black
            } else {
                Color::MidGray
            },
        }
    }

    /// A new, unfocused block of default size at `pos`. The id is left
    /// at zero; the scene assigns the real one when it adopts the block.
    pub fn new(pos: Point) -> (b: Block)
        ensures
            b == (Block {
                pos,
                width: DEFAULT_BLOCK_WIDTH,
                height: DEFAULT_BLOCK_HEIGHT,
                is_focused: false,
                id: 0,
            }),
    {
        Block { pos, width: DEFAULT_BLOCK_WIDTH, height: DEFAULT_BLOCK_HEIGHT, is_focused: false, id: 0 }
    }

    /// Flip the focus flag; nothing else changes.
    pub fn toggle_focus(&mut self)
        ensures
            final(self).is_focused == !old(self).is_focused,
            final(self).pos == old(self).pos,
            final(self).width == old(self).width,
            final(self).height == old(self).height,
            final(self).id == old(self).id,
    {
        self.is_focused = !self.is_focused;
    }

    /// Whether `p` lies in the block's bounding box, under the
    /// half-open rule: left and top edges hit, right and bottom do not.
    pub fn contains(&self, p: Point) -> (r: bool)
        requires
            self.wf(),
        ensures
            r == self.contains_spec(p),
    {
        self.pos.x <= p.x && p.x < self.pos.x + self.width && self.pos.y <= p.y && p.y
            < self.pos.y + self.height
    }

    /// Append this block's draw command to `out`.
    pub fn render(&self, out: &mut Vec<DrawCommand>)
        ensures
            final(out)@ == old(out)@.push(self.draw_command_spec()),
    {
        out.push(
            DrawCommand::RoundedRect {
                x: self.pos.x,
                y: self.pos.y,
                width: self.width,
                height: self.height,
                radius: BLOCK_CORNER_RADIUS,
                fill: Color::LightGray,
                border: if self.is_focused {
                    Color::Black
                } else {
                    Color::MidGray
                },
            },
        );
    }
}

impl Default for Block {
    /// A default block sits at (400, 200), matching the default window
    /// proportions, and is otherwise an ordinary new block.
    fn default() -> (b: Self)
        ensures
            b == (Block {
                pos: Point { x: 400, y: 200 },
                width: DEFAULT_BLOCK_WIDTH,
                height: DEFAULT_BLOCK_HEIGHT,
                is_focused: false,
                id: 0,
            }),
    {
        Block::new(Point { x: 400, y: 200 })
    }
}

} // verus!
