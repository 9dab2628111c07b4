//! The scene: ordered collections of blocks and links, the current
//! mouse position, and the interaction state machine that turns raw
//! input events (clicks, keystrokes, moves) into graph mutations.
//!
//! Every operation is total: an empty hit test, a self-loop completion
//! attempt, a delete with nothing focused or an unrecognized key are
//! silent no-ops, never errors. The scene is the sole mutator of block
//! and link state; links refer to blocks by id, and the deletion
//! protocol removes every link whose endpoint goes away, so no link
//! ever references a block that is no longer in the collection.

use vstd::prelude::*;
use vstd::string::StrSliceExecFns;

use crate::block::{Block, DEFAULT_BLOCK_HEIGHT, DEFAULT_BLOCK_WIDTH};
use crate::draw::DrawCommand;
use crate::geometry::{
    clamp_coord, clamp_coord_spec, clamp_point, clamp_point_spec, coord_in_range, point_in_range,
    Point,
};
use crate::link::{link_curve_spec, virtual_block_spec, Link};

verus! {

broadcast use {
    vstd::seq_lib::group_filter_ensures,
    vstd::seq_lib::group_seq_properties,
    vstd::prelude::Seq::lemma_filter_push,
    vstd::prelude::Seq::lemma_take_succ_push,
    vstd::prelude::Seq::lemma_push_map_commute,
};

/// The mouse button a click event carries. Only `Left` (the primary
/// button) drives the scene; every other button is ignored.
#[derive(Clone, Copy, PartialEq, Eq, Structural, Debug)]
pub enum MouseButton {
    Left,
    Middle,
    Right,
    Other(u16),
}

/// Which typed characters reach the scene at all: printable ASCII, or
/// anything from inverted-exclamation upward; control characters and
/// the delete range are dropped by the platform layer.
pub open spec fn keyboard_char_accepted_spec(c: char) -> bool {
    (' ' <= c <= '~') || c >= '\u{a1}'
}

/// Decide whether a typed character is forwarded to `on_keydown`.
pub fn keyboard_char_accepted(c: char) -> (r: bool)
    ensures
        r == keyboard_char_accepted_spec(c),
{
    (' ' <= c && c <= '~') || c >= '\u{a1}'
}

/// Some block in `bs` carries the id `id`.
pub open spec fn has_block_with_id(bs: Seq<Block>, id: u64) -> bool {
    exists|i: int| 0 <= i < bs.len() && bs[i].id == id
}

/// Some focused block in `bs` carries the id `id`.
pub open spec fn id_is_focused(bs: Seq<Block>, id: u64) -> bool {
    exists|i: int| 0 <= i < bs.len() && bs[i].id == id && bs[i].is_focused
}

/// No two blocks share an id.
pub open spec fn distinct_ids(bs: Seq<Block>) -> bool {
    forall|i: int, j: int|
        #![trigger bs[i].id, bs[j].id]
        0 <= i < j < bs.len() ==> bs[i].id != bs[j].id
}

/// Every block is geometrically well-formed and carries an id below
/// `next_id`, and no id repeats.
pub open spec fn blocks_wf(bs: Seq<Block>, next_id: u64) -> bool {
    &&& forall|i: int| 0 <= i < bs.len() ==> (#[trigger] bs[i]).wf()
    &&& forall|i: int| 0 <= i < bs.len() ==> (#[trigger] bs[i]).id < next_id
    &&& distinct_ids(bs)
}

/// A link references only blocks that are present, and never both ends
/// on the same block.
pub open spec fn link_ok(bs: Seq<Block>, l: Link) -> bool {
    &&& has_block_with_id(bs, l.from)
    &&& (l.to matches Some(t) ==> has_block_with_id(bs, t) && t != l.from)
}

/// `bs[i]` is the first block (in collection order) whose box contains `p`.
pub open spec fn is_first_hit(bs: Seq<Block>, p: Point, i: int) -> bool {
    &&& 0 <= i < bs.len()
    &&& bs[i].contains_spec(p)
    &&& forall|j: int| 0 <= j < i ==> !(#[trigger] bs[j]).contains_spec(p)
}

/// No block's box contains `p`.
pub open spec fn no_hit(bs: Seq<Block>, p: Point) -> bool {
    forall|j: int| 0 <= j < bs.len() ==> !(#[trigger] bs[j]).contains_spec(p)
}

/// `b` with its focus flag set to `focused` and everything else kept.
pub open spec fn with_focus(b: Block, focused: bool) -> Block {
    Block { pos: b.pos, width: b.width, height: b.height, is_focused: focused, id: b.id }
}

/// The block collection after a click: focus cleared everywhere except
/// at index `target` (pass a negative `target` to clear everything).
pub open spec fn focus_only(bs: Seq<Block>, target: int) -> Seq<Block> {
    Seq::new(bs.len(), |j: int| with_focus(bs[j], j == target))
}

/// The block a fresh "add block" command appends: default-sized,
/// unfocused, at the current mouse position, carrying the next free id.
pub open spec fn new_block_of(pre: Context) -> Block {
    Block {
        pos: pre.mouse_position,
        width: DEFAULT_BLOCK_WIDTH,
        height: DEFAULT_BLOCK_HEIGHT,
        is_focused: false,
        id: pre.next_id,
    }
}

pub open spec fn focused_pred() -> spec_fn(Block) -> bool {
    |b: Block| b.is_focused
}

pub open spec fn unfocused_pred() -> spec_fn(Block) -> bool {
    |b: Block| !b.is_focused
}

pub open spec fn new_link_fn() -> spec_fn(Block) -> Link {
    |b: Block| Link { from: b.id, to: None::<u64> }
}

/// The links an "add link" command appends: one incomplete link per
/// focused block, in collection order.
pub open spec fn new_links_of(bs: Seq<Block>) -> Seq<Link> {
    bs.filter(focused_pred()).map_values(new_link_fn())
}

/// The link collection after a click that hit the block with id
/// `hit_id`: if the newest link exists and is incomplete it is
/// completed towards `hit_id`, except that a self-loop leaves it
/// untouched; everything else is kept as it was.
pub open spec fn complete_last_spec(ls: Seq<Link>, hit_id: u64) -> Seq<Link> {
    if ls.len() > 0 && ls.last().to is None {
        ls.update(
            ls.len() - 1,
            (Link {
                from: ls.last().from,
                to: if hit_id == ls.last().from {
                    None
                } else {
                    Some(hit_id)
                },
            }),
        )
    } else {
        ls
    }
}

/// A link survives a deletion exactly when neither of its endpoints is
/// a focused block.
pub open spec fn link_survives(bs: Seq<Block>, l: Link) -> bool {
    &&& !id_is_focused(bs, l.from)
    &&& (l.to matches Some(t) ==> !id_is_focused(bs, t))
}

pub open spec fn survivor_pred(bs: Seq<Block>) -> spec_fn(Link) -> bool {
    |l: Link| link_survives(bs, l)
}

/// How "add block" changes the scene: one block appended, nothing else
/// touched.
pub open spec fn block_added(pre: Context, post: Context) -> bool {
    &&& post.blocks@ == pre.blocks@.push(new_block_of(pre))
    &&& post.links@ == pre.links@
    &&& post.drag == pre.drag
    &&& post.mouse_position == pre.mouse_position
    &&& post.next_id == pre.next_id + 1
}

/// How "add link" changes the scene: one incomplete link appended per
/// focused block, nothing else touched.
pub open spec fn links_added(pre: Context, post: Context) -> bool {
    &&& post.blocks@ == pre.blocks@
    &&& post.links@ == pre.links@ + new_links_of(pre.blocks@)
    &&& post.drag == pre.drag
    &&& post.mouse_position == pre.mouse_position
    &&& post.next_id == pre.next_id
}

/// How a primary click changes the scene. If nothing is hit, every
/// focus flag is cleared and the links are untouched. If the first hit
/// is at index `i`, exactly that block ends up focused, and the newest
/// link, if incomplete, is completed towards the hit block (self-loops
/// rejected).
pub open spec fn primary_click_rel(pre: Context, post: Context) -> bool {
    &&& post.drag == pre.drag
    &&& post.mouse_position == pre.mouse_position
    &&& post.next_id == pre.next_id
    &&& (no_hit(pre.blocks@, pre.mouse_position) ==> post.blocks@ == focus_only(pre.blocks@, -1)
        && post.links@ == pre.links@)
    &&& forall|i: int|
        #![trigger is_first_hit(pre.blocks@, pre.mouse_position, i)]
        is_first_hit(pre.blocks@, pre.mouse_position, i) ==> post.blocks@ == focus_only(
            pre.blocks@,
            i,
        ) && post.links@ == complete_last_spec(pre.links@, pre.blocks@[i].id)
}

/// `b` translated by `(dx, dy)`, the result clamped into the
/// coordinate band; size, focus and id are kept.
pub open spec fn moved_block(b: Block, dx: int, dy: int) -> Block {
    Block {
        pos: Point {
            x: clamp_coord_spec(b.pos.x + dx) as i64,
            y: clamp_coord_spec(b.pos.y + dy) as i64,
        },
        width: b.width,
        height: b.height,
        is_focused: b.is_focused,
        id: b.id,
    }
}

/// How a move changes the scene: with the delta taken from the stored
/// mouse position to `np`, every focused block is translated by it and
/// every other block — and everything else, the stored mouse position
/// included — is untouched.
pub open spec fn move_rel(pre: Context, post: Context, np: Point) -> bool {
    let dx = np.x - pre.mouse_position.x;
    let dy = np.y - pre.mouse_position.y;
    &&& post.blocks@.len() == pre.blocks@.len()
    &&& forall|j: int|
        0 <= j < pre.blocks@.len() ==> post.blocks@[j] == (if pre.blocks@[j].is_focused {
            moved_block(#[trigger] pre.blocks@[j], dx, dy)
        } else {
            pre.blocks@[j]
        })
    &&& post.links@ == pre.links@
    &&& post.drag == pre.drag
    &&& post.mouse_position == pre.mouse_position
    &&& post.next_id == pre.next_id
}

/// How a delete changes the scene: the focused blocks leave, every
/// link touching one of them leaves, and the survivors keep their
/// relative order.
pub open spec fn delete_rel(pre: Context, post: Context) -> bool {
    &&& post.blocks@ == pre.blocks@.filter(unfocused_pred())
    &&& post.links@ == pre.links@.filter(survivor_pred(pre.blocks@))
    &&& post.drag == pre.drag
    &&& post.mouse_position == pre.mouse_position
    &&& post.next_id == pre.next_id
}

/// The block that carries `id` (meaningful only when one exists and
/// ids are distinct).
pub open spec fn block_with_id(bs: Seq<Block>, id: u64) -> Block {
    bs[choose|i: int| 0 <= i < bs.len() && bs[i].id == id]
}

/// The draw command of one link inside `ctx`: its curve between the
/// `from` block and either the `to` block or the transient cursor
/// endpoint.
pub open spec fn link_draw_spec(ctx: Context, l: Link) -> DrawCommand {
    link_curve_spec(
        block_with_id(ctx.blocks@, l.from),
        (match l.to {
            Some(t) => block_with_id(ctx.blocks@, t),
            None => virtual_block_spec(ctx.mouse_position),
        }),
    )
}

pub open spec fn block_draw_fn() -> spec_fn(Block) -> DrawCommand {
    |b: Block| b.draw_command_spec()
}

pub open spec fn link_draw_fn(ctx: Context) -> spec_fn(Link) -> DrawCommand {
    |l: Link| link_draw_spec(ctx, l)
}

/// Everything one frame draws: all blocks in collection order, then
/// all links in collection order, so curves appear on top.
pub open spec fn render_spec(ctx: Context) -> Seq<DrawCommand> {
    ctx.blocks@.map_values(block_draw_fn()) + ctx.links@.map_values(link_draw_fn(ctx))
}

/// The scene.
pub struct Context {
    /// Blocks, in creation order.
    pub blocks: Vec<Block>,
    /// Links, in creation order.
    pub links: Vec<Link>,
    /// Whether a drag is in progress (maintained by the platform
    /// layer; no scene operation changes it).
    pub drag: bool,
    /// Where the cursor is, as last reported.
    pub mouse_position: Point,
    /// The id the next created block will get.
    pub next_id: u64,
}

impl Context {
    /// The scene invariant: blocks are well-formed with distinct ids
    /// all below `next_id`, every link references present blocks and
    /// is no self-loop, and the mouse lies in the coordinate band.
    pub open spec fn wf(self) -> bool {
        &&& blocks_wf(self.blocks@, self.next_id)
        &&& forall|k: int|
            0 <= k < self.links@.len() ==> link_ok(self.blocks@, #[trigger] self.links@[k])
        &&& point_in_range(self.mouse_position)
    }

    /// An empty scene with the cursor at the origin.
    pub fn new() -> (c: Context)
        ensures
            c.blocks@ =~= Seq::<Block>::empty(),
            c.links@ =~= Seq::<Link>::empty(),
            !c.drag,
            c.mouse_position == (Point { x: 0, y: 0 }),
            c.next_id == 0,
            c.wf(),
    {
        Context {
            blocks: Vec::new(),
            links: Vec::new(),
            drag: false,
            mouse_position: Point { x: 0, y: 0 },
            next_id: 0,
        }
    }

    /// Record the cursor position, clamped into the coordinate band.
    pub fn set_mouse_position(&mut self, p: Point)
        ensures
            final(self).mouse_position == clamp_point_spec(p.x as int, p.y as int),
            final(self).blocks == old(self).blocks,
            final(self).links == old(self).links,
            final(self).drag == old(self).drag,
            final(self).next_id == old(self).next_id,
            old(self).wf() ==> final(self).wf(),
    {
        self.mouse_position = clamp_point(p);
    }

    /// Append a fresh, unfocused, default-sized block at the mouse
    /// position and hand it the next free id.
    pub fn add_block(&mut self)
        requires
            old(self).wf(),
            old(self).next_id < u64::MAX,
        ensures
            final(self).wf(),
            block_added(*old(self), *final(self)),
    {
        let mut block = Block::new(self.mouse_position);
        block.id = self.next_id;
        self.next_id = self.next_id + 1;
        self.blocks.push(block);
        proof {
            assert forall|k: int| 0 <= k < self.links@.len() implies link_ok(
                self.blocks@,
                #[trigger] self.links@[k],
            ) by {
                let l = self.links@[k];
                assert(link_ok(old(self).blocks@, l));
                let w = choose|i: int|
                    0 <= i < old(self).blocks@.len() && old(self).blocks@[i].id == l.from;
                assert(self.blocks@[w].id == l.from);
                if l.to is Some {
                    let t = l.to->Some_0;
                    let w2 = choose|i: int|
                        0 <= i < old(self).blocks@.len() && old(self).blocks@[i].id == t;
                    assert(self.blocks@[w2].id == t);
                }
            }
        }
    }

    /// Append one incomplete link for every focused block, in
    /// collection order.
    pub fn add_link(&mut self)
        requires
            old(self).wf(),
        ensures
            final(self).wf(),
            links_added(*old(self), *final(self)),
    {
        let ghost pre = *old(self);
        let mut i: usize = 0;
        while i < self.blocks.len()
            invariant
                pre.wf(),
                i <= pre.blocks@.len(),
                self.blocks@ == pre.blocks@,
                self.drag == pre.drag,
                self.mouse_position == pre.mouse_position,
                self.next_id == pre.next_id,
                self.links@ == pre.links@ + new_links_of(pre.blocks@.take(i as int)),
            decreases pre.blocks@.len() - i,
        {
            let b = self.blocks[i];
            if b.is_focused {
                self.links.push(Link { from: b.id, to: None });
            }
            proof {
                let bs = pre.blocks@;
                assert(bs.take(i + 1) == bs.take(i as int).push(bs[i as int]));
                assert(new_link_fn()(bs[i as int]) == (Link {
                    from: bs[i as int].id,
                    to: None::<u64>,
                }));
                assert(self.links@ =~= pre.links@ + new_links_of(bs.take(i + 1)));
            }
            i = i + 1;
        }
        proof {
            assert(pre.blocks@.take(pre.blocks@.len() as int) == pre.blocks@);
            assert forall|k: int| 0 <= k < self.links@.len() implies link_ok(
                self.blocks@,
                #[trigger] self.links@[k],
            ) by {
                let l = self.links@[k];
                if k < pre.links@.len() {
                    assert(link_ok(pre.blocks@, l));
                } else {
                    let fs = pre.blocks@.filter(focused_pred());
                    let n = k - pre.links@.len();
                    assert(l == new_link_fn()(fs[n]));
                    assert(pre.blocks@.contains(fs[n])) by {
                        assert(fs.contains(fs[n]));
                        lemma_filter_subset(pre.blocks@, focused_pred());
                    }
                    let w = choose|i2: int|
                        0 <= i2 < pre.blocks@.len() && pre.blocks@[i2] == fs[n];
                    assert(self.blocks@[w].id == l.from);
                }
            }
        }
    }

    /// Dispatch one typed key: `"n"` or `"a"` adds a block at the
    /// mouse position, `"l"` adds a link out of every focused block,
    /// anything else is ignored.
    pub fn on_keydown(&mut self, string: String)
        requires
            old(self).wf(),
            old(self).next_id < u64::MAX,
        ensures
            final(self).wf(),
            (string@ == seq!['n'] || string@ == seq!['a']) ==> block_added(
                *old(self),
                *final(self),
            ),
            string@ == seq!['l'] ==> links_added(*old(self), *final(self)),
            !(string@ == seq!['n'] || string@ == seq!['a'] || string@ == seq!['l'])
                ==> *final(self) == *old(self),
    {
        let s = string.as_str();
        if s.unicode_len() == 1 {
            let c = s.get_char(0);
            proof {
                assert(string@ =~= seq![string@[0]]);
            }
            if c == 'n' || c == 'a' {
                self.add_block();
            } else if c == 'l' {
                self.add_link();
            }
        } else {
            proof {
                assert(string@.len() != 1);
                assert(string@ != seq!['n'] && string@ != seq!['a'] && string@ != seq!['l']);
            }
        }
    }

    /// The first block (in collection order) whose box contains `pos`,
    /// as an index, or `None` when no block is hit.
    pub fn get_block_at(&self, pos: Point) -> (r: Option<usize>)
        requires
            self.wf(),
        ensures
            (match r {
                Some(i) => is_first_hit(self.blocks@, pos, i as int),
                None => no_hit(self.blocks@, pos),
            }),
    {
        let mut i: usize = 0;
        while i < self.blocks.len()
            invariant
                self.wf(),
                i <= self.blocks@.len(),
                forall|j: int| 0 <= j < i ==> !(#[trigger] self.blocks@[j]).contains_spec(pos),
            decreases self.blocks@.len() - i,
        {
            let b = self.blocks[i];
            if b.contains(pos) {
                return Some(i);
            }
            i = i + 1;
        }
        None
    }

    /// The indices of the focused blocks, in collection order.
    pub fn get_focused_blocks(&self) -> (r: Vec<usize>)
        ensures
            forall|k: int|
                0 <= k < r@.len() ==> r@[k] < self.blocks@.len() && (#[trigger] self.blocks@[r@[k] as int]).is_focused,
            forall|k1: int, k2: int| 0 <= k1 < k2 < r@.len() ==> r@[k1] < r@[k2],
            forall|j: int|
                0 <= j < self.blocks@.len() && (#[trigger] self.blocks@[j]).is_focused
                    ==> r@.contains(j as usize),
    {
        let mut r: Vec<usize> = Vec::new();
        let mut i: usize = 0;
        while i < self.blocks.len()
            invariant
                i <= self.blocks@.len(),
                forall|k: int|
                    #![trigger r@[k]]
                    0 <= k < r@.len() ==> r@[k] < i && self.blocks@[r@[k] as int].is_focused,
                forall|k1: int, k2: int| 0 <= k1 < k2 < r@.len() ==> r@[k1] < r@[k2],
                forall|j: int|
                    0 <= j < i && (#[trigger] self.blocks@[j]).is_focused ==> r@.contains(
                        j as usize,
                    ),
            decreases self.blocks@.len() - i,
        {
            let ghost r0 = r@;
            let b = self.blocks[i];
            if b.is_focused {
                r.push(i);
                proof {
                    assert(r@ =~= r0.push(i as usize));
                    assert forall|k: int|
                        #![trigger r@[k]]
                        0 <= k < r@.len() implies r@[k] < i + 1 && self.blocks@[r@[k] as int].is_focused by {
                        if k < r0.len() {
                            assert(r@[k] == r0[k]);
                            assert(r0[k] < i);
                            assert(self.blocks@[r0[k] as int].is_focused);
                        } else {
                            assert(r@[k] == i as usize);
                            assert(self.blocks@[i as int].is_focused);
                        }
                    }
                    assert forall|j: int|
                        0 <= j < i + 1 && (#[trigger] self.blocks@[j]).is_focused implies r@.contains(
                        j as usize,
                    ) by {
                        if j < i {
                            assert(r0.contains(j as usize));
                            let w = choose|w: int| 0 <= w < r0.len() && r0[w] == j as usize;
                            assert(r@[w] == j as usize);
                        } else {
                            assert(r@[r0.len() as int] == i as usize);
                        }
                    }
                }
            }
            i = i + 1;
        }
        r
    }

    /// Whether the block carrying `id` is focused.
    pub fn is_id_focused(&self, id: u64) -> (r: bool)
        ensures
            r == id_is_focused(self.blocks@, id),
    {
        let mut i: usize = 0;
        while i < self.blocks.len()
            invariant
                i <= self.blocks@.len(),
                forall|j: int|
                    0 <= j < i ==> !((#[trigger] self.blocks@[j]).id == id
                        && self.blocks@[j].is_focused),
            decreases self.blocks@.len() - i,
        {
            let b = self.blocks[i];
            if b.id == id && b.is_focused {
                return true;
            }
            i = i + 1;
        }
        false
    }

    /// React to a mouse click. Only the primary button does anything:
    /// it clears all focus, focuses the first block under the cursor
    /// if there is one, and lets that block complete the newest link
    /// when that link is still incomplete (a self-loop is rejected and
    /// the link stays incomplete).
    pub fn on_mouse_clicked(&mut self, button: MouseButton)
        requires
            old(self).wf(),
        ensures
            final(self).wf(),
            button == MouseButton::Left ==> primary_click_rel(*old(self), *final(self)),
            button != MouseButton::Left ==> *final(self) == *old(self),
    {
        match button {
            MouseButton::Left => {
                let ghost pre = *old(self);
                let hit = self.get_block_at(self.mouse_position);
                let mut i: usize = 0;
                while i < self.blocks.len()
                    invariant
                        pre.wf(),
                        i <= pre.blocks@.len(),
                        self.blocks@.len() == pre.blocks@.len(),
                        forall|j: int|
                            0 <= j < i ==> self.blocks@[j] == with_focus(
                                #[trigger] pre.blocks@[j],
                                false,
                            ),
                        forall|j: int|
                            i <= j < pre.blocks@.len() ==> self.blocks@[j] == #[trigger] pre.blocks@[j],
                        self.links@ == pre.links@,
                        self.drag == pre.drag,
                        self.mouse_position == pre.mouse_position,
                        self.next_id == pre.next_id,
                    decreases pre.blocks@.len() - i,
                {
                    let b = self.blocks[i];
                    self.blocks.set(
                        i,
                        Block {
                            pos: b.pos,
                            width: b.width,
                            height: b.height,
                            is_focused: false,
                            id: b.id,
                        },
                    );
                    i = i + 1;
                }
                match hit {
                    None => {
                        proof {
                            assert(self.blocks@ =~= focus_only(pre.blocks@, -1));
                            lemma_focus_only_wf(pre, *self, -1);
                        }
                    },
                    Some(h) => {
                        let mut b = self.blocks[h];
                        b.toggle_focus();
                        let hit_id = b.id;
                        self.blocks.set(h, b);
                        proof {
                            assert(self.blocks@ =~= focus_only(pre.blocks@, h as int));
                        }
                        let n = self.links.len();
                        if n > 0 {
                            let last = self.links[n - 1];
                            if last.to.is_none() {
                                let mut l = last;
                                l.to(hit_id);
                                self.links.set(n - 1, l);
                            }
                        }
                        proof {
                            assert(hit_id == pre.blocks@[h as int].id);
                            assert(self.links@ == complete_last_spec(pre.links@, hit_id)) by {
                                if pre.links@.len() > 0 && pre.links@.last().to is None {
                                    assert(self.links@ =~= complete_last_spec(
                                        pre.links@,
                                        hit_id,
                                    ));
                                }
                            }
                            lemma_focus_only_wf(pre, *self, h as int);
                            assert forall|i1: int|
                                is_first_hit(pre.blocks@, pre.mouse_position, i1) implies
                                self.blocks@ == focus_only(pre.blocks@, i1) && self.links@
                                == complete_last_spec(pre.links@, pre.blocks@[i1].id) by {
                                lemma_first_hit_unique(
                                    pre.blocks@,
                                    pre.mouse_position,
                                    i1,
                                    h as int,
                                );
                            }
                        }
                    },
                }
            },
            _ => {},
        }
    }

    /// Translate every focused block by the vector from the stored
    /// mouse position to `new_position` (results clamped into the
    /// coordinate band). The stored mouse position itself is not
    /// updated; that is the caller's responsibility.
    pub fn move_block(&mut self, new_position: Point)
        requires
            old(self).wf(),
            point_in_range(new_position),
        ensures
            final(self).wf(),
            move_rel(*old(self), *final(self), new_position),
    {
        let ghost pre = *old(self);
        let dx: i64 = new_position.x - self.mouse_position.x;
        let dy: i64 = new_position.y - self.mouse_position.y;
        let mut i: usize = 0;
        while i < self.blocks.len()
            invariant
                pre.wf(),
                point_in_range(new_position),
                i <= pre.blocks@.len(),
                dx == new_position.x - pre.mouse_position.x,
                dy == new_position.y - pre.mouse_position.y,
                self.blocks@.len() == pre.blocks@.len(),
                forall|j: int|
                    0 <= j < i ==> self.blocks@[j] == (if pre.blocks@[j].is_focused {
                        moved_block(#[trigger] pre.blocks@[j], dx as int, dy as int)
                    } else {
                        pre.blocks@[j]
                    }),
                forall|j: int|
                    i <= j < pre.blocks@.len() ==> self.blocks@[j] == #[trigger] pre.blocks@[j],
                self.links@ == pre.links@,
                self.drag == pre.drag,
                self.mouse_position == pre.mouse_position,
                self.next_id == pre.next_id,
            decreases pre.blocks@.len() - i,
        {
            let b = self.blocks[i];
            proof {
                assert(b == pre.blocks@[i as int]);
                assert(b.wf());
                assert(coord_in_range(pre.mouse_position.x as int));
                assert(coord_in_range(pre.mouse_position.y as int));
                assert(-3_000_000_000_000 <= b.pos.x + dx <= 3_000_000_000_000);
                assert(-3_000_000_000_000 <= b.pos.y + dy <= 3_000_000_000_000);
            }
            if b.is_focused {
                let moved = Block {
                    pos: Point { x: clamp_coord(b.pos.x + dx), y: clamp_coord(b.pos.y + dy) },
                    width: b.width,
                    height: b.height,
                    is_focused: b.is_focused,
                    id: b.id,
                };
                self.blocks.set(i, moved);
                proof {
                    assert(self.blocks@[i as int] == moved_block(
                        pre.blocks@[i as int],
                        dx as int,
                        dy as int,
                    ));
                }
            }
            i = i + 1;
        }
        proof {
            assert forall|j: int| 0 <= j < pre.blocks@.len() implies (
            #[trigger] self.blocks@[j]).id == pre.blocks@[j].id && self.blocks@[j].wf() by {
                assert(pre.blocks@[j].wf());
            }
            assert forall|k: int| 0 <= k < self.links@.len() implies link_ok(
                self.blocks@,
                #[trigger] self.links@[k],
            ) by {
                lemma_link_ok_same_ids(pre.blocks@, self.blocks@, self.links@[k]);
            }
        }
    }

    /// Delete every focused block, and with it every link that has an
    /// endpoint on one of them. Untouched blocks and links keep their
    /// relative order.
    pub fn delete_focused_block(&mut self)
        requires
            old(self).wf(),
        ensures
            final(self).wf(),
            delete_rel(*old(self), *final(self)),
    {
        let ghost pre = *old(self);
        // Links first: which ones survive is judged against the block
        // collection as it is now, before any block goes away.
        let mut kept_links: Vec<Link> = Vec::new();
        let mut i: usize = 0;
        while i < self.links.len()
            invariant
                pre.wf(),
                *self == pre,
                i <= pre.links@.len(),
                kept_links@ == pre.links@.take(i as int).filter(survivor_pred(pre.blocks@)),
            decreases pre.links@.len() - i,
        {
            let l = self.links[i];
            let from_focused = self.is_id_focused(l.from);
            let to_focused = match l.to {
                Some(t) => self.is_id_focused(t),
                None => false,
            };
            if !from_focused && !to_focused {
                kept_links.push(l);
            }
            proof {
                let ls = pre.links@;
                assert(ls.take(i + 1) == ls.take(i as int).push(ls[i as int]));
                assert(survivor_pred(pre.blocks@)(ls[i as int]) == (!from_focused
                    && !to_focused));
            }
            i = i + 1;
        }
        proof {
            assert(pre.links@.take(pre.links@.len() as int) == pre.links@);
        }
        self.links = kept_links;
        // Now the blocks.
        let mut kept_blocks: Vec<Block> = Vec::new();
        let mut j: usize = 0;
        while j < self.blocks.len()
            invariant
                pre.wf(),
                self.blocks@ == pre.blocks@,
                j <= pre.blocks@.len(),
                kept_blocks@ == pre.blocks@.take(j as int).filter(unfocused_pred()),
            decreases pre.blocks@.len() - j,
        {
            let b = self.blocks[j];
            if !b.is_focused {
                kept_blocks.push(b);
            }
            proof {
                let bs = pre.blocks@;
                assert(bs.take(j + 1) == bs.take(j as int).push(bs[j as int]));
            }
            j = j + 1;
        }
        proof {
            assert(pre.blocks@.take(pre.blocks@.len() as int) == pre.blocks@);
        }
        self.blocks = kept_blocks;
        proof {
            lemma_delete_wf(pre, *self);
        }
    }

    /// Reserved extension point for time-driven behavior; one tick
    /// currently changes nothing.
    pub fn update(&mut self, _elapsed_ms: u64)
        ensures
            *final(self) == *old(self),
    {
    }

    /// The index of the block carrying `id`.
    fn find_block_index(&self, id: u64) -> (r: usize)
        requires
            self.wf(),
            has_block_with_id(self.blocks@, id),
        ensures
            r < self.blocks@.len(),
            self.blocks@[r as int].id == id,
            self.blocks@[r as int] == block_with_id(self.blocks@, id),
    {
        let mut i: usize = 0;
        while i < self.blocks.len()
            invariant
                self.wf(),
                has_block_with_id(self.blocks@, id),
                i <= self.blocks@.len(),
                forall|j: int| 0 <= j < i ==> (#[trigger] self.blocks@[j]).id != id,
            decreases self.blocks@.len() - i,
        {
            let b = self.blocks[i];
            if b.id == id {
                proof {
                    lemma_block_with_id_is(self.blocks@, id, i as int);
                }
                return i;
            }
            i = i + 1;
        }
        proof {
            let w = choose|k: int| 0 <= k < self.blocks@.len() && self.blocks@[k].id == id;
            assert(false);
        }
        0
    }

    /// Append one frame's draw commands to `out`: every block in
    /// collection order, then every link in collection order.
    pub fn render(&self, out: &mut Vec<DrawCommand>)
        requires
            self.wf(),
        ensures
            final(out)@ == old(out)@ + render_spec(*self),
    {
        let ghost base = old(out)@;
        let mut i: usize = 0;
        while i < self.blocks.len()
            invariant
                self.wf(),
                i <= self.blocks@.len(),
                out@ == base + self.blocks@.take(i as int).map_values(block_draw_fn()),
            decreases self.blocks@.len() - i,
        {
            let b = self.blocks[i];
            b.render(out);
            proof {
                let bs = self.blocks@;
                assert(bs.take(i + 1) == bs.take(i as int).push(bs[i as int]));
                assert(block_draw_fn()(bs[i as int]) == bs[i as int].draw_command_spec());
                assert(out@ =~= base + bs.take(i + 1).map_values(block_draw_fn()));
            }
            i = i + 1;
        }
        proof {
            assert(self.blocks@.take(self.blocks@.len() as int) == self.blocks@);
        }
        let ghost mid = base + self.blocks@.map_values(block_draw_fn());
        let mut k: usize = 0;
        while k < self.links.len()
            invariant
                self.wf(),
                k <= self.links@.len(),
                out@ == mid + self.links@.take(k as int).map_values(link_draw_fn(*self)),
            decreases self.links@.len() - k,
        {
            let l = self.links[k];
            let fi = self.find_block_index(l.from);
            let from_block = self.blocks[fi];
            match l.to {
                Some(t) => {
                    proof {
                        assert(link_ok(self.blocks@, self.links@[k as int]));
                    }
                    let ti = self.find_block_index(t);
                    let to_block = self.blocks[ti];
                    l.render(&from_block, Some(&to_block), self.mouse_position, out);
                },
                None => {
                    l.render(&from_block, None, self.mouse_position, out);
                },
            }
            proof {
                let ls = self.links@;
                assert(ls.take(k + 1) == ls.take(k as int).push(ls[k as int]));
                assert(link_draw_fn(*self)(ls[k as int]) == link_draw_spec(*self, ls[k as int]));
                assert(out@ =~= mid + ls.take(k + 1).map_values(link_draw_fn(*self)));
            }
            k = k + 1;
        }
        proof {
            assert(self.links@.take(self.links@.len() as int) == self.links@);
        }
    }
}

/// Every element the filter keeps was an element of the input.
pub proof fn lemma_filter_subset<A>(s: Seq<A>, pred: spec_fn(A) -> bool)
    ensures
        forall|i: int|
            0 <= i < s.filter(pred).len() ==> s.contains(#[trigger] s.filter(pred)[i]),
    decreases s.len(),
{
    reveal(Seq::filter);
    if s.len() > 0 {
        let rest = s.drop_last();
        lemma_filter_subset(rest, pred);
        assert forall|i: int|
            0 <= i < s.filter(pred).len() implies s.contains(#[trigger] s.filter(pred)[i]) by {
            let out = s.filter(pred);
            if pred(s.last()) && i == out.len() - 1 {
                assert(s[s.len() - 1] == out[i]);
            } else {
                assert(rest.filter(pred).contains(out[i]));
                let w = choose|j: int| 0 <= j < rest.len() && rest[j] == out[i];
                assert(s[w] == out[i]);
            }
        }
    }
}

/// The first hit index is unique.
pub proof fn lemma_first_hit_unique(bs: Seq<Block>, p: Point, i: int, j: int)
    requires
        is_first_hit(bs, p, i),
        is_first_hit(bs, p, j),
    ensures
        i == j,
{
}

/// Identifies `block_with_id` with a concrete index, under distinct ids.
pub proof fn lemma_block_with_id_is(bs: Seq<Block>, id: u64, j: int)
    requires
        distinct_ids(bs),
        0 <= j < bs.len(),
        bs[j].id == id,
    ensures
        block_with_id(bs, id) == bs[j],
{
    let w = choose|i: int| 0 <= i < bs.len() && bs[i].id == id;
    assert(0 <= w < bs.len() && bs[w].id == id);
    if w != j {
        if w < j {
            assert(bs[w].id != bs[j].id);
        } else {
            assert(bs[j].id != bs[w].id);
        }
        assert(false);
    }
}

/// A link stays well-formed when the block collection keeps its length
/// and every id (focus and geometry may change freely).
proof fn lemma_link_ok_same_ids(pre_bs: Seq<Block>, post_bs: Seq<Block>, l: Link)
    requires
        link_ok(pre_bs, l),
        post_bs.len() == pre_bs.len(),
        forall|i: int| 0 <= i < pre_bs.len() ==> (#[trigger] post_bs[i]).id == pre_bs[i].id,
    ensures
        link_ok(post_bs, l),
{
    let w = choose|i: int| 0 <= i < pre_bs.len() && pre_bs[i].id == l.from;
    assert(post_bs[w].id == l.from);
    if l.to is Some {
        let t = l.to->Some_0;
        let w2 = choose|i: int| 0 <= i < pre_bs.len() && pre_bs[i].id == t;
        assert(post_bs[w2].id == t);
    }
}

/// After a click, the scene stays well-formed: `focus_only` keeps ids
/// and geometry, and the completed link, if any, points at a block
/// that is present and different from its origin.
proof fn lemma_focus_only_wf(pre: Context, post: Context, target: int)
    requires
        pre.wf(),
        post.blocks@ == focus_only(pre.blocks@, target),
        post.next_id == pre.next_id,
        post.mouse_position == pre.mouse_position,
        0 <= target < pre.blocks@.len() ==> post.links@ == complete_last_spec(
            pre.links@,
            pre.blocks@[target].id,
        ),
        !(0 <= target < pre.blocks@.len()) ==> post.links@ == pre.links@,
    ensures
        post.wf(),
{
    let bs = post.blocks@;
    assert(bs.len() == pre.blocks@.len());
    assert forall|i: int| 0 <= i < bs.len() implies (#[trigger] bs[i]).wf() by {
        assert(pre.blocks@[i].wf());
    }
    assert forall|i: int| 0 <= i < bs.len() implies (#[trigger] bs[i]).id < post.next_id by {
        assert(pre.blocks@[i].id < pre.next_id);
    }
    assert forall|i: int, j: int|
        #![trigger bs[i].id, bs[j].id]
        0 <= i < j < bs.len() implies bs[i].id != bs[j].id by {
        assert(pre.blocks@[i].id != pre.blocks@[j].id);
    }
    assert forall|k: int| 0 <= k < post.links@.len() implies link_ok(
        bs,
        #[trigger] post.links@[k],
    ) by {
        let l = post.links@[k];
        if 0 <= target < pre.blocks@.len() && pre.links@.len() > 0 && pre.links@.last().to is None
            && k == pre.links@.len() - 1 {
            let hit_id = pre.blocks@[target].id;
            let orig = pre.links@[k];
            lemma_link_ok_same_ids(pre.blocks@, bs, orig);
            if hit_id != orig.from {
                assert(l == (Link { from: orig.from, to: Some(hit_id) }));
                assert(bs[target].id == hit_id);
            } else {
                assert(l == (Link { from: orig.from, to: None::<u64> }));
            }
        } else {
            assert(l == pre.links@[k]);
            lemma_link_ok_same_ids(pre.blocks@, bs, l);
        }
    }
}

/// After a delete, the scene stays well-formed: every surviving link's
/// endpoints are unfocused and hence survive as blocks.
proof fn lemma_delete_wf(pre: Context, post: Context)
    requires
        pre.wf(),
        post.blocks@ == pre.blocks@.filter(unfocused_pred()),
        post.links@ == pre.links@.filter(survivor_pred(pre.blocks@)),
        post.next_id == pre.next_id,
        post.mouse_position == pre.mouse_position,
    ensures
        post.wf(),
{
    let bs = post.blocks@;
    lemma_filter_subset(pre.blocks@, unfocused_pred());
    lemma_filter_subset(pre.links@, survivor_pred(pre.blocks@));
    assert forall|i: int| 0 <= i < bs.len() implies (#[trigger] bs[i]).wf() && bs[i].id
        < post.next_id by {
        assert(pre.blocks@.contains(bs[i]));
        let w = choose|j: int| 0 <= j < pre.blocks@.len() && pre.blocks@[j] == bs[i];
        assert(pre.blocks@[w].wf());
        assert(pre.blocks@[w].id < pre.next_id);
    }
    assert forall|i: int, j: int|
        #![trigger bs[i].id, bs[j].id]
        0 <= i < j < bs.len() implies bs[i].id != bs[j].id by {
        lemma_filter_distinct_ids(pre.blocks@, unfocused_pred(), i, j);
    }
    assert forall|k: int| 0 <= k < post.links@.len() implies link_ok(
        bs,
        #[trigger] post.links@[k],
    ) by {
        let l = post.links@[k];
        assert(pre.links@.contains(l));
        let w = choose|j: int| 0 <= j < pre.links@.len() && pre.links@[j] == l;
        assert(link_ok(pre.blocks@, l));
        assert(link_survives(pre.blocks@, l));
        lemma_unfocused_endpoint_survives(pre.blocks@, l.from);
        if l.to is Some {
            lemma_unfocused_endpoint_survives(pre.blocks@, l.to->Some_0);
        }
    }
}

/// An id that belongs to some block but to no focused block still
/// belongs to a block after the focused ones are filtered out.
proof fn lemma_unfocused_endpoint_survives(bs: Seq<Block>, id: u64)
    requires
        has_block_with_id(bs, id),
        !id_is_focused(bs, id),
    ensures
        has_block_with_id(bs.filter(unfocused_pred()), id),
{
    let w = choose|i: int| 0 <= i < bs.len() && bs[i].id == id;
    assert(!bs[w].is_focused);
    assert(unfocused_pred()(bs[w]));
    assert(bs.filter(unfocused_pred()).contains(bs[w]));
    let k = choose|j: int|
        0 <= j < bs.filter(unfocused_pred()).len() && bs.filter(unfocused_pred())[j] == bs[w];
    assert(bs.filter(unfocused_pred())[k].id == id);
}

/// Distinct ids survive filtering: the two filtered elements at
/// distinct positions come from distinct positions of the input.
proof fn lemma_filter_distinct_ids(bs: Seq<Block>, pred: spec_fn(Block) -> bool, i: int, j: int)
    requires
        distinct_ids(bs),
        0 <= i < j < bs.filter(pred).len(),
    ensures
        bs.filter(pred)[i].id != bs.filter(pred)[j].id,
    decreases bs.len(),
{
    reveal(Seq::filter);
    let out = bs.filter(pred);
    if bs.len() > 0 {
        let rest = bs.drop_last();
        let sub = rest.filter(pred);
        assert(distinct_ids(rest)) by {
            assert forall|a: int, b: int|
                #![trigger rest[a].id, rest[b].id]
                0 <= a < b < rest.len() implies rest[a].id != rest[b].id by {
                assert(bs[a].id != bs[b].id);
            }
        }
        if pred(bs.last()) && j == out.len() - 1 {
            // out == sub.push(bs.last()); out[i] is in sub, so in rest.
            lemma_filter_subset(rest, pred);
            assert(out[i] == sub[i]);
            assert(rest.contains(sub[i]));
            let w = choose|a: int| 0 <= a < rest.len() && rest[a] == sub[i];
            assert(bs[w].id != bs[bs.len() - 1].id);
        } else {
            lemma_filter_distinct_ids(rest, pred, i, j);
            if pred(bs.last()) {
                assert(out[i] == sub[i] && out[j] == sub[j]);
            }
        }
    }
}

/// Focus is exclusive after a primary click: if nothing was hit, no
/// block is focused; if the first hit was at index `i`, exactly the
/// block at `i` is focused.
pub proof fn lemma_focus_exclusive_after_click(pre: Context, post: Context)
    requires
        primary_click_rel(pre, post),
    ensures
        no_hit(pre.blocks@, pre.mouse_position) ==> forall|j: int|
            0 <= j < post.blocks@.len() ==> !(#[trigger] post.blocks@[j]).is_focused,
        forall|i: int, j: int|
            #![trigger is_first_hit(pre.blocks@, pre.mouse_position, i), post.blocks@[j]]
            is_first_hit(pre.blocks@, pre.mouse_position, i) && 0 <= j < post.blocks@.len()
                ==> (post.blocks@[j].is_focused <==> j == i),
{
    if no_hit(pre.blocks@, pre.mouse_position) {
        assert forall|j: int|
            0 <= j < post.blocks@.len() implies !(#[trigger] post.blocks@[j]).is_focused by {
            assert(post.blocks@[j] == with_focus(pre.blocks@[j], false));
        }
    }
    assert forall|i: int, j: int|
        #![trigger is_first_hit(pre.blocks@, pre.mouse_position, i), post.blocks@[j]]
        is_first_hit(pre.blocks@, pre.mouse_position, i) && 0 <= j < post.blocks@.len() implies (
    post.blocks@[j].is_focused <==> j == i) by {
        assert(post.blocks@ == focus_only(pre.blocks@, i));
        assert(post.blocks@[j] == with_focus(pre.blocks@[j], j == i));
    }
}

/// A self-loop completion attempt is rejected: when the newest link is
/// incomplete and the click hits the very block it comes from, the
/// link count is unchanged and the newest link stays incomplete.
pub proof fn lemma_self_loop_rejected(pre: Context, post: Context, i: int)
    requires
        primary_click_rel(pre, post),
        is_first_hit(pre.blocks@, pre.mouse_position, i),
        pre.links@.len() > 0,
        pre.links@.last().to is None,
        pre.blocks@[i].id == pre.links@.last().from,
    ensures
        post.links@.len() == pre.links@.len(),
        post.links@.last().to is None,
        post.links@.last().from == pre.links@.last().from,
{
    assert(is_first_hit(pre.blocks@, pre.mouse_position, i));
    assert(post.links@ == complete_last_spec(pre.links@, pre.blocks@[i].id));
    assert(post.links@.last() == (Link { from: pre.links@.last().from, to: None::<u64> }));
}

/// Deletion restores referential integrity: no focused block survives,
/// no surviving block's id was focused, and no surviving link has an
/// endpoint on a block that was focused. Survivors are exactly the
/// filtered subsequences, so their relative order is kept.
pub proof fn lemma_delete_referential_integrity(pre: Context, post: Context)
    requires
        pre.wf(),
        delete_rel(pre, post),
    ensures
        forall|j: int| 0 <= j < post.blocks@.len() ==> !(#[trigger] post.blocks@[j]).is_focused,
        forall|j: int|
            0 <= j < post.blocks@.len() ==> !id_is_focused(
                pre.blocks@,
                (#[trigger] post.blocks@[j]).id,
            ),
        forall|k: int|
            0 <= k < post.links@.len() ==> !id_is_focused(
                pre.blocks@,
                (#[trigger] post.links@[k]).from,
            ),
        forall|k: int|
            0 <= k < post.links@.len() ==> ((#[trigger] post.links@[k]).to matches Some(t)
                ==> !id_is_focused(pre.blocks@, t)),
{
    lemma_filter_subset(pre.blocks@, unfocused_pred());
    assert forall|j: int| 0 <= j < post.blocks@.len() implies !id_is_focused(
        pre.blocks@,
        (#[trigger] post.blocks@[j]).id,
    ) by {
        assert(unfocused_pred()(post.blocks@[j]));
        assert(pre.blocks@.contains(post.blocks@[j]));
        let w = choose|a: int| 0 <= a < pre.blocks@.len() && pre.blocks@[a] == post.blocks@[j];
        if id_is_focused(pre.blocks@, post.blocks@[j].id) {
            let f = choose|b: int|
                0 <= b < pre.blocks@.len() && pre.blocks@[b].id == post.blocks@[j].id
                    && pre.blocks@[b].is_focused;
            if f < w {
                assert(pre.blocks@[f].id != pre.blocks@[w].id);
            } else if w < f {
                assert(pre.blocks@[w].id != pre.blocks@[f].id);
            }
            assert(false);
        }
    }
}

/// A move translates exactly the focused blocks: when no clamp fires,
/// each focused block's position shifts by precisely the mouse delta,
/// and every unfocused block — and the rest of the scene — is
/// untouched.
pub proof fn lemma_move_translates_focused(pre: Context, post: Context, np: Point)
    requires
        pre.wf(),
        move_rel(pre, post, np),
        forall|j: int|
            0 <= j < pre.blocks@.len() && (#[trigger] pre.blocks@[j]).is_focused ==> {
                &&& coord_in_range(pre.blocks@[j].pos.x + (np.x - pre.mouse_position.x))
                &&& coord_in_range(pre.blocks@[j].pos.y + (np.y - pre.mouse_position.y))
            },
    ensures
        post.blocks@.len() == pre.blocks@.len(),
        forall|j: int|
            0 <= j < pre.blocks@.len() && (#[trigger] pre.blocks@[j]).is_focused ==> {
                &&& post.blocks@[j].pos.x == pre.blocks@[j].pos.x + (np.x
                    - pre.mouse_position.x)
                &&& post.blocks@[j].pos.y == pre.blocks@[j].pos.y + (np.y
                    - pre.mouse_position.y)
                &&& post.blocks@[j].width == pre.blocks@[j].width
                &&& post.blocks@[j].height == pre.blocks@[j].height
                &&& post.blocks@[j].is_focused == pre.blocks@[j].is_focused
                &&& post.blocks@[j].id == pre.blocks@[j].id
            },
        forall|j: int|
            0 <= j < pre.blocks@.len() && !(#[trigger] pre.blocks@[j]).is_focused
                ==> post.blocks@[j] == pre.blocks@[j],
        post.links@ == pre.links@,
{
}

} // verus!
