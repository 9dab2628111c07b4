//! End-to-end tests of the scene graph and interaction model.

use block_one::block::Block;
use block_one::context::{keyboard_char_accepted, Context, MouseButton};
use block_one::draw::{Color, DrawCommand};
use block_one::geometry::{clamp_coord, Point, COORD_MAX, COORD_MIN};
use block_one::link::Link;

fn pt(x: i64, y: i64) -> Point {
    Point::new(x, y)
}

#[test]
fn block_contains_half_open_box() {
    let b = Block::new(pt(10, 10));
    // Default size is 150 x 80, so the box is [10, 160) x [10, 90).
    assert!(b.contains(pt(10, 10)));
    assert!(b.contains(pt(159, 89)));
    assert!(b.contains(pt(50, 50)));
    assert!(!b.contains(pt(9, 50)));
    assert!(!b.contains(pt(160, 50)));
    assert!(!b.contains(pt(50, 9)));
    assert!(!b.contains(pt(50, 90)));
    assert!(!b.contains(pt(160, 90)));
}

#[test]
fn block_contains_zero_size() {
    let mut b = Block::new(pt(0, 0));
    b.width = 0;
    b.height = 0;
    assert!(!b.contains(pt(0, 0)));
}

#[test]
fn block_toggle_focus_flips() {
    let mut b = Block::new(pt(0, 0));
    assert!(!b.is_focused);
    b.toggle_focus();
    assert!(b.is_focused);
    b.toggle_focus();
    assert!(!b.is_focused);
}

#[test]
fn block_default_position() {
    let b = Block::default();
    assert_eq!(b.pos, pt(400, 200));
    assert_eq!(b.width, 150);
    assert_eq!(b.height, 80);
    assert!(!b.is_focused);
}

#[test]
fn clamp_coord_band() {
    assert_eq!(clamp_coord(5), 5);
    assert_eq!(clamp_coord(COORD_MAX + 1), COORD_MAX);
    assert_eq!(clamp_coord(COORD_MIN - 1), COORD_MIN);
    assert_eq!(clamp_coord(i64::MAX), COORD_MAX);
    assert_eq!(clamp_coord(i64::MIN), COORD_MIN);
}

#[test]
fn new_context_is_empty() {
    let c = Context::new();
    assert_eq!(c.blocks.len(), 0);
    assert_eq!(c.links.len(), 0);
    assert!(!c.drag);
    assert_eq!(c.mouse_position, pt(0, 0));
}

#[test]
fn keydown_n_and_a_add_blocks_at_mouse() {
    let mut c = Context::new();
    c.set_mouse_position(pt(10, 10));
    c.on_keydown("n".to_string());
    c.set_mouse_position(pt(300, 300));
    c.on_keydown("a".to_string());
    assert_eq!(c.blocks.len(), 2);
    assert_eq!(c.blocks[0].pos, pt(10, 10));
    assert_eq!(c.blocks[1].pos, pt(300, 300));
    assert!(!c.blocks[0].is_focused);
    assert!(!c.blocks[1].is_focused);
    assert_ne!(c.blocks[0].id, c.blocks[1].id);
    assert_eq!(c.links.len(), 0);
}

#[test]
fn keydown_other_characters_are_ignored() {
    let mut c = Context::new();
    c.set_mouse_position(pt(10, 10));
    c.on_keydown("x".to_string());
    c.on_keydown("N".to_string());
    c.on_keydown("nn".to_string());
    c.on_keydown("".to_string());
    assert_eq!(c.blocks.len(), 0);
    assert_eq!(c.links.len(), 0);
}

#[test]
fn keydown_l_adds_one_link_per_focused_block() {
    let mut c = Context::new();
    c.set_mouse_position(pt(0, 0));
    c.on_keydown("n".to_string());
    c.set_mouse_position(pt(500, 0));
    c.on_keydown("n".to_string());
    c.set_mouse_position(pt(1000, 0));
    c.on_keydown("n".to_string());
    // Focus the first two by hand (clicks keep focus exclusive).
    c.blocks[0].toggle_focus();
    c.blocks[1].toggle_focus();
    c.on_keydown("l".to_string());
    assert_eq!(c.links.len(), 2);
    assert_eq!(c.links[0].from, c.blocks[0].id);
    assert_eq!(c.links[1].from, c.blocks[1].id);
    assert_eq!(c.links[0].to, None);
    assert_eq!(c.links[1].to, None);
}

#[test]
fn keydown_l_with_nothing_focused_adds_nothing() {
    let mut c = Context::new();
    c.on_keydown("n".to_string());
    c.on_keydown("l".to_string());
    assert_eq!(c.links.len(), 0);
}

#[test]
fn click_focuses_only_hit_block() {
    let mut c = Context::new();
    c.set_mouse_position(pt(10, 10));
    c.on_keydown("n".to_string());
    c.set_mouse_position(pt(300, 300));
    c.on_keydown("n".to_string());
    c.blocks[0].toggle_focus();
    // Click inside the second block: focus moves there exclusively.
    c.set_mouse_position(pt(310, 320));
    c.on_mouse_clicked(MouseButton::Left);
    assert!(!c.blocks[0].is_focused);
    assert!(c.blocks[1].is_focused);
}

#[test]
fn click_on_empty_canvas_clears_all_focus() {
    let mut c = Context::new();
    c.set_mouse_position(pt(10, 10));
    c.on_keydown("n".to_string());
    c.blocks[0].toggle_focus();
    c.set_mouse_position(pt(5000, 5000));
    c.on_mouse_clicked(MouseButton::Left);
    assert_eq!(c.blocks.len(), 1);
    assert!(!c.blocks[0].is_focused);
}

#[test]
fn click_prefers_first_block_in_collection_order() {
    let mut c = Context::new();
    // Two overlapping blocks; the first one created wins the hit test.
    c.set_mouse_position(pt(0, 0));
    c.on_keydown("n".to_string());
    c.set_mouse_position(pt(50, 50));
    c.on_keydown("n".to_string());
    c.set_mouse_position(pt(60, 60));
    c.on_mouse_clicked(MouseButton::Left);
    assert!(c.blocks[0].is_focused);
    assert!(!c.blocks[1].is_focused);
}

#[test]
fn non_primary_clicks_are_ignored() {
    let mut c = Context::new();
    c.set_mouse_position(pt(10, 10));
    c.on_keydown("n".to_string());
    c.blocks[0].toggle_focus();
    c.set_mouse_position(pt(20, 20));
    c.on_mouse_clicked(MouseButton::Right);
    c.on_mouse_clicked(MouseButton::Middle);
    c.on_mouse_clicked(MouseButton::Other(7));
    assert!(c.blocks[0].is_focused);
}

#[test]
fn get_block_at_and_focused_indices() {
    let mut c = Context::new();
    c.set_mouse_position(pt(0, 0));
    c.on_keydown("n".to_string());
    c.set_mouse_position(pt(500, 500));
    c.on_keydown("n".to_string());
    assert_eq!(c.get_block_at(pt(10, 10)), Some(0));
    assert_eq!(c.get_block_at(pt(510, 510)), Some(1));
    assert_eq!(c.get_block_at(pt(300, 300)), None);
    c.blocks[1].toggle_focus();
    assert_eq!(c.get_focused_blocks(), vec![1]);
    assert!(c.is_id_focused(c.blocks[1].id));
    assert!(!c.is_id_focused(c.blocks[0].id));
}

#[test]
fn link_completion_unit_rules() {
    let mut l = Link::new(5);
    assert_eq!(l.to, None);
    l.to(5);
    assert_eq!(l.to, None, "self-loop must be rejected");
    l.to(6);
    assert_eq!(l.to, Some(6));
}

#[test]
fn scenario_connect_two_blocks() {
    // Create at (10,10), create at (300,300), focus block 1, press "l",
    // click inside block 2: two blocks, one completed link 1 -> 2.
    let mut c = Context::new();
    c.set_mouse_position(pt(10, 10));
    c.on_keydown("n".to_string());
    c.set_mouse_position(pt(300, 300));
    c.on_keydown("a".to_string());
    c.set_mouse_position(pt(50, 50));
    c.on_mouse_clicked(MouseButton::Left);
    assert!(c.blocks[0].is_focused);
    c.on_keydown("l".to_string());
    assert_eq!(c.links.len(), 1);
    assert_eq!(c.links[0].to, None);
    c.set_mouse_position(pt(310, 320));
    c.on_mouse_clicked(MouseButton::Left);
    assert_eq!(c.blocks.len(), 2);
    assert_eq!(c.links.len(), 1);
    assert_eq!(c.links[0].from, c.blocks[0].id);
    assert_eq!(c.links[0].to, Some(c.blocks[1].id));
}

#[test]
fn scenario_self_loop_click_leaves_link_incomplete() {
    // A link out of block A stays incomplete when A itself is clicked.
    let mut c = Context::new();
    c.set_mouse_position(pt(10, 10));
    c.on_keydown("n".to_string());
    c.set_mouse_position(pt(50, 50));
    c.on_mouse_clicked(MouseButton::Left);
    c.on_keydown("l".to_string());
    c.on_mouse_clicked(MouseButton::Left);
    assert_eq!(c.links.len(), 1);
    assert_eq!(c.links[0].to, None);
    assert!(c.blocks[0].is_focused);
}

#[test]
fn scenario_empty_click_keeps_link_incomplete() {
    // One block, focused, "l", then a click on empty canvas: the link
    // stays incomplete and focus is cleared.
    let mut c = Context::new();
    c.set_mouse_position(pt(10, 10));
    c.on_keydown("n".to_string());
    c.set_mouse_position(pt(50, 50));
    c.on_mouse_clicked(MouseButton::Left);
    c.on_keydown("l".to_string());
    c.set_mouse_position(pt(4000, 4000));
    c.on_mouse_clicked(MouseButton::Left);
    assert_eq!(c.links.len(), 1);
    assert_eq!(c.links[0].to, None);
    assert!(!c.blocks[0].is_focused);
}

#[test]
fn scenario_delete_from_block_removes_link() {
    // Two connected blocks; deleting the focused "from" block leaves
    // one block and no links.
    let mut c = Context::new();
    c.set_mouse_position(pt(10, 10));
    c.on_keydown("n".to_string());
    c.set_mouse_position(pt(300, 300));
    c.on_keydown("n".to_string());
    c.set_mouse_position(pt(50, 50));
    c.on_mouse_clicked(MouseButton::Left);
    c.on_keydown("l".to_string());
    c.set_mouse_position(pt(310, 320));
    c.on_mouse_clicked(MouseButton::Left);
    assert_eq!(c.links.len(), 1);
    // Focus the "from" block again and delete it.
    c.set_mouse_position(pt(50, 50));
    c.on_mouse_clicked(MouseButton::Left);
    assert!(c.blocks[0].is_focused);
    c.delete_focused_block();
    assert_eq!(c.blocks.len(), 1);
    assert_eq!(c.links.len(), 0);
    assert_eq!(c.blocks[0].pos, pt(300, 300));
}

#[test]
fn delete_keeps_unrelated_blocks_and_links() {
    // Three blocks; a link between the two survivors is kept, links
    // touching the deleted block go away, order is preserved.
    let mut c = Context::new();
    c.set_mouse_position(pt(0, 0));
    c.on_keydown("n".to_string());
    c.set_mouse_position(pt(500, 0));
    c.on_keydown("n".to_string());
    c.set_mouse_position(pt(1000, 0));
    c.on_keydown("n".to_string());
    let id0 = c.blocks[0].id;
    let id1 = c.blocks[1].id;
    let id2 = c.blocks[2].id;
    // Link 1 -> 2 (kept) and 0 -> 1 ... then delete block 0.
    c.blocks[1].toggle_focus();
    c.on_keydown("l".to_string());
    c.set_mouse_position(pt(1010, 10));
    c.on_mouse_clicked(MouseButton::Left); // completes 1 -> 2, focuses block 2
    c.blocks[0].toggle_focus(); // focused: blocks 0 and 2
    c.on_keydown("l".to_string()); // incomplete links from 0 and from 2
    c.blocks[2].toggle_focus(); // focused: block 0 only
    assert_eq!(c.links.len(), 3);
    c.delete_focused_block(); // block 0 focused
    assert_eq!(c.blocks.len(), 2);
    assert_eq!(c.blocks[0].id, id1);
    assert_eq!(c.blocks[1].id, id2);
    assert_eq!(c.links.len(), 2);
    assert_eq!(c.links[0].from, id1);
    assert_eq!(c.links[0].to, Some(id2));
    assert_eq!(c.links[1].from, id2);
    assert_eq!(c.links[1].to, None);
    assert!(!c.links.iter().any(|l| l.from == id0 || l.to == Some(id0)));
}

#[test]
fn delete_with_nothing_focused_is_a_noop() {
    let mut c = Context::new();
    c.set_mouse_position(pt(10, 10));
    c.on_keydown("n".to_string());
    c.delete_focused_block();
    assert_eq!(c.blocks.len(), 1);
}

#[test]
fn move_translates_only_focused_blocks() {
    let mut c = Context::new();
    c.set_mouse_position(pt(0, 0));
    c.on_keydown("n".to_string());
    c.set_mouse_position(pt(500, 500));
    c.on_keydown("n".to_string());
    c.set_mouse_position(pt(1000, 0));
    c.on_keydown("n".to_string());
    c.blocks[0].toggle_focus();
    c.blocks[2].toggle_focus();
    // Mouse sits at (1000, 0); moving to (1025, -40) is a delta of (25, -40).
    c.move_block(pt(1025, -40));
    assert_eq!(c.blocks[0].pos, pt(25, -40));
    assert_eq!(c.blocks[1].pos, pt(500, 500));
    assert_eq!(c.blocks[2].pos, pt(1025, -40));
    // The stored mouse position is not updated by the move itself.
    assert_eq!(c.mouse_position, pt(1000, 0));
}

#[test]
fn update_changes_nothing() {
    let mut c = Context::new();
    c.set_mouse_position(pt(10, 10));
    c.on_keydown("n".to_string());
    c.blocks[0].toggle_focus();
    let blocks_before = c.blocks.clone();
    c.update(16);
    c.update(0);
    assert_eq!(c.blocks, blocks_before);
    assert_eq!(c.links.len(), 0);
    assert_eq!(c.mouse_position, pt(10, 10));
}

#[test]
fn render_block_border_tracks_focus() {
    let mut out: Vec<DrawCommand> = Vec::new();
    let mut b = Block::new(pt(10, 10));
    b.render(&mut out);
    b.toggle_focus();
    b.render(&mut out);
    match out[0] {
        DrawCommand::RoundedRect { x, y, width, height, radius, fill, border } => {
            assert_eq!((x, y, width, height, radius), (10, 10, 150, 80, 5));
            assert_eq!(fill, Color::LightGray);
            assert_eq!(border, Color::MidGray);
        }
        _ => panic!("expected a rounded rectangle"),
    }
    match out[1] {
        DrawCommand::RoundedRect { border, .. } => assert_eq!(border, Color::Black),
        _ => panic!("expected a rounded rectangle"),
    }
}

#[test]
fn render_incomplete_link_curves_to_cursor() {
    let mut c = Context::new();
    c.set_mouse_position(pt(10, 10));
    c.on_keydown("n".to_string());
    c.set_mouse_position(pt(50, 50));
    c.on_mouse_clicked(MouseButton::Left);
    c.on_keydown("l".to_string());
    c.set_mouse_position(pt(300, 300));
    let mut out: Vec<DrawCommand> = Vec::new();
    c.render(&mut out);
    assert_eq!(out.len(), 2);
    // Block at (10,10) 150x80, cursor endpoint at (300,300) 150x80:
    // the block starts the curve; offset = 290/2 = 145, inset = 145*4/5 = 116.
    match out[1] {
        DrawCommand::Curve { start, control1, control2, end } => {
            assert_eq!(start, pt(160, 50));
            assert_eq!(control1, pt(276, 50));
            assert_eq!(control2, pt(184, 340));
            assert_eq!(end, pt(300, 340));
        }
        _ => panic!("expected a curve"),
    }
}

#[test]
fn render_completed_link_between_blocks() {
    let mut c = Context::new();
    c.set_mouse_position(pt(300, 300));
    c.on_keydown("n".to_string());
    c.set_mouse_position(pt(10, 10));
    c.on_keydown("n".to_string());
    c.set_mouse_position(pt(310, 310));
    c.on_mouse_clicked(MouseButton::Left);
    c.on_keydown("l".to_string());
    c.set_mouse_position(pt(50, 50));
    c.on_mouse_clicked(MouseButton::Left);
    assert_eq!(c.links[0].to, Some(c.blocks[1].id));
    // Move the cursor somewhere irrelevant: a completed link must not care.
    c.set_mouse_position(pt(9000, 9000));
    let mut out: Vec<DrawCommand> = Vec::new();
    c.render(&mut out);
    assert_eq!(out.len(), 3);
    // from-block at (300,300), to-block at (10,10): the to-block is the
    // start (smaller x); offset = 290/2 = 145, inset = 116.
    match out[2] {
        DrawCommand::Curve { start, control1, control2, end } => {
            assert_eq!(start, pt(160, 50));
            assert_eq!(control1, pt(276, 50));
            assert_eq!(control2, pt(184, 340));
            assert_eq!(end, pt(300, 340));
        }
        _ => panic!("expected a curve"),
    }
    // Blocks come first, in collection order.
    assert!(matches!(out[0], DrawCommand::RoundedRect { x: 300, .. }));
    assert!(matches!(out[1], DrawCommand::RoundedRect { x: 10, .. }));
}

#[test]
fn mouse_position_is_clamped() {
    let mut c = Context::new();
    c.set_mouse_position(pt(i64::MAX, i64::MIN));
    assert_eq!(c.mouse_position, pt(COORD_MAX, COORD_MIN));
}

#[test]
fn keyboard_char_filter() {
    assert!(keyboard_char_accepted(' '));
    assert!(keyboard_char_accepted('~'));
    assert!(keyboard_char_accepted('n'));
    assert!(keyboard_char_accepted('\u{a1}'));
    assert!(keyboard_char_accepted('\u{e9}'));
    assert!(!keyboard_char_accepted('\t'));
    assert!(!keyboard_char_accepted('\n'));
    assert!(!keyboard_char_accepted('\u{7f}'));
    assert!(!keyboard_char_accepted('\u{a0}'));
}

#[test]
fn move_clamps_at_band_edge() {
    let mut c = Context::new();
    c.set_mouse_position(pt(COORD_MAX - 10, 0));
    c.on_keydown("n".to_string()); // block sits 10 units from the edge
    c.blocks[0].toggle_focus();
    c.set_mouse_position(pt(0, 0));
    // Delta of (+20, 0) would leave the band; the position clamps.
    c.move_block(pt(20, 0));
    assert_eq!(c.blocks[0].pos, pt(COORD_MAX, 0));
}

#[test]
fn focused_indices_in_order() {
    let mut c = Context::new();
    for x in [0i64, 500, 1000, 1500] {
        c.set_mouse_position(pt(x, 0));
        c.on_keydown("n".to_string());
    }
    c.blocks[3].toggle_focus();
    c.blocks[0].toggle_focus();
    c.blocks[2].toggle_focus();
    assert_eq!(c.get_focused_blocks(), vec![0, 2, 3]);
}
