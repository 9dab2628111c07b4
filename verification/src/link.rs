//! Links: directed connections between two blocks, drawn as cubic
//! Bezier curves.
//!
//! A link holds the id of its `from` block and, once completed, the id
//! of its `to` block. While the user is still drawing it, `to` is
//! unset and the curve ends at the cursor instead, on a transient
//! block-sized endpoint that never enters the scene.

use vstd::prelude::*;

use crate::block::Block;
use crate::draw::DrawCommand;
use crate::geometry::{point_in_range, Point};

verus! {

/// A directed connection. `from` is set at creation; `to` stays `None`
/// until the link is completed by a click on a different block.
#[derive(Clone, Copy, PartialEq, Eq, Debug)]
pub struct Link {
    pub from: u64,
    pub to: Option<u64>,
}

/// The transient endpoint a still-incomplete link is drawn towards: a
/// default-sized, unfocused block whose top-left corner is the cursor.
pub open spec fn virtual_block_spec(cursor: Point) -> Block {
    Block {
        pos: cursor,
        width: crate::block::DEFAULT_BLOCK_WIDTH,
        height: crate::block::DEFAULT_BLOCK_HEIGHT,
        is_focused: false,
        id: 0,
    }
}

/// Horizontal inset of the two control points: half the horizontal
/// distance between the endpoints, scaled down to four fifths.
pub open spec fn control_inset_spec(from: Block, to: Block) -> int {
    let dist = from.pos.x - to.pos.x;
    let offset = (if dist < 0 {
        -dist
    } else {
        dist
    }) / 2;
    offset * 4 / 5
}

/// The curve drawn for a pair of endpoint blocks. The endpoint with
/// the smaller x position is the curve's start (at equal x positions
/// the `to` endpoint starts). Anchors sit at the vertical mid-right of
/// the start block and the vertical mid-left of the end block; the
/// control points are inset horizontally towards each other by
/// `control_inset_spec`, at the same heights as the anchors.
pub open spec fn link_curve_spec(from: Block, to: Block) -> DrawCommand {
    let start = if from.pos.x - to.pos.x >= 0 {
        to
    } else {
        from
    };
    let end = if from.pos.x - to.pos.x >= 0 {
        from
    } else {
        to
    };
    let inset = control_inset_spec(from, to);
    let start_anchor = Point {
        x: (start.pos.x + start.width) as i64,
        y: (start.pos.y + start.height / 2) as i64,
    };
    let end_anchor = Point { x: end.pos.x, y: (end.pos.y + end.height / 2) as i64 };
    DrawCommand::Curve {
        start: start_anchor,
        control1: Point { x: (start_anchor.x + inset) as i64, y: start_anchor.y },
        control2: Point { x: (end_anchor.x - inset) as i64, y: end_anchor.y },
        end: end_anchor,
    }
}

/// The curve for one link, given its two resolved endpoint blocks.
pub fn link_curve(from: &Block, to: &Block) -> (c: DrawCommand)
    requires
        from.wf(),
        to.wf(),
    ensures
        c == link_curve_spec(*from, *to),
{
    let dist: i64 = from.pos.x - to.pos.x;
    let offset: i64 = (if dist < 0 {
        -dist
    } else {
        dist
    }) / 2;
    let inset: i64 = offset * 4 / 5;
    let (start, end): (&Block, &Block) = if dist >= 0 {
        (to, from)
    } else {
        (from, to)
    };
    let start_anchor = Point { x: start.pos.x + start.width, y: start.pos.y + start.height / 2 };
    let end_anchor = Point { x: end.pos.x, y: end.pos.y + end.height / 2 };
    DrawCommand::Curve {
        start: start_anchor,
        control1: Point { x: start_anchor.x + inset, y: start_anchor.y },
        control2: Point { x: end_anchor.x - inset, y: end_anchor.y },
        end: end_anchor,
    }
}

impl Link {
    /// A fresh, incomplete link out of the block with id `from`.
    pub fn new(from: u64) -> (l: Link)
        ensures
            l == (Link { from, to: None::<u64> }),
    {
        Link { from, to: None }
    }

    /// Complete the link towards the block with id `to_id`. A self-loop
    /// is rejected silently: if `to_id` equals the `from` id the link is
    /// left exactly as it was.
    pub fn to(&mut self, to_id: u64)
        ensures
            final(self).from == old(self).from,
            final(self).to == (if to_id == old(self).from {
                old(self).to
            } else {
                Some(to_id)
            }),
    {
        if to_id == self.from {
            return ;
        }
        self.to = Some(to_id);
    }

    /// Append this link's curve to `out`. `from` must be the block this
    /// link leaves from, and `to` the block it enters, if it has one;
    /// an incomplete link is drawn towards the transient cursor
    /// endpoint instead.
    pub fn render(&self, from: &Block, to: Option<&Block>, cursor: Point, out: &mut Vec<
        DrawCommand,
    >)
        requires
            from.wf(),
            (match to {
                Some(b) => b.wf(),
                None => point_in_range(cursor),
            }),
        ensures
            final(out)@ == old(out)@.push(
                link_curve_spec(
                    *from,
                    (match to {
                        Some(b) => *b,
                        None => virtual_block_spec(cursor),
                    }),
                ),
            ),
    {
        let command = match to {
            Some(b) => link_curve(from, b),
            None => {
                let virtual_endpoint = Block::new(cursor);
                link_curve(from, &virtual_endpoint)
            },
        };
        out.push(command);
    }
}

} // verus!
