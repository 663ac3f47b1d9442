use life_sandbox::cells::CellSet;
use life_sandbox::editor::{brush, grid_cell, key_pressed, selector, Key, Model};
use life_sandbox::speed::parse_speed;

fn sorted(s: &CellSet) -> Vec<(i32, i32)> {
    let mut v: Vec<(i32, i32)> = (0..s.len()).map(|i| s.get(i)).collect();
    v.sort();
    v
}

#[test]
fn set_alive_twice_is_set_alive_once() {
    let mut m = Model::new(50, 20);
    assert!(m.set_alive((3, 4)));
    assert!(!m.set_alive((3, 4)));
    assert_eq!(sorted(&m.live), vec![(3, 4)]);
    assert!(m.set_dead((3, 4)));
    assert!(!m.set_dead((3, 4)));
    assert_eq!(m.live.len(), 0);
}

#[test]
fn toggle_twice_restores() {
    let mut m = Model::new(50, 20);
    m.set_alive((0, 0));
    m.toggle((2, 2));
    assert!(m.is_alive((2, 2)));
    m.toggle((2, 2));
    assert!(!m.is_alive((2, 2)));
    m.toggle((0, 0));
    m.toggle((0, 0));
    assert_eq!(sorted(&m.live), vec![(0, 0)]);
}

#[test]
fn select_rect_is_half_open() {
    let r = CellSet::select_rect((0, 0), (3, 3));
    let mut expected = Vec::new();
    for x in 0..3 {
        for y in 0..3 {
            expected.push((x, y));
        }
    }
    assert_eq!(sorted(&r), expected);
    assert!(!r.contains((3, 3)));
    assert!(!r.contains((0, 3)));
}

#[test]
fn select_rect_orders_corners() {
    let r = CellSet::select_rect((2, -1), (0, 1));
    assert_eq!(sorted(&r), vec![(0, -1), (0, 0), (1, -1), (1, 0)]);
    assert_eq!(CellSet::select_rect((4, 4), (4, 9)).len(), 0);
}

#[test]
fn selector_drag_builds_selection() {
    let mut m = Model::new(50, 20);
    selector(&mut m, true, (1, 1));
    assert!(m.selector_active);
    assert_eq!(m.start_pos, (1, 1));
    selector(&mut m, true, (3, 2));
    assert_eq!(m.current_pos, (3, 2));
    assert_eq!(sorted(&m.sel_points), vec![(1, 1), (2, 1)]);
    selector(&mut m, false, (9, 9));
    assert!(!m.selector_active);
    assert_eq!(sorted(&m.sel_points), vec![(1, 1), (2, 1)]);
}

#[test]
fn copy_paste_round_trip_restores_pattern() {
    let mut m = Model::new(50, 20);
    m.set_alive((0, 0));
    m.set_alive((1, 1));
    selector(&mut m, true, (0, 0));
    selector(&mut m, true, (2, 2));
    selector(&mut m, false, (2, 2));
    key_pressed(&mut m, Key::C, true);
    assert_eq!(m.clipboard.len(), 4);
    // Change the pattern: kill a live cell, revive a dead one.
    m.set_dead((0, 0));
    m.set_alive((1, 0));
    key_pressed(&mut m, Key::V, true);
    assert_eq!(sorted(&m.live), vec![(0, 0), (1, 1)]);
}

#[test]
fn paste_lands_shifted_by_pan() {
    let mut m = Model::new(50, 20);
    m.set_alive((0, 0));
    selector(&mut m, true, (0, 0));
    selector(&mut m, true, (1, 1));
    selector(&mut m, false, (1, 1));
    key_pressed(&mut m, Key::C, true);
    key_pressed(&mut m, Key::Right, false);
    assert_eq!(m.offset, (-1, 0));
    key_pressed(&mut m, Key::V, true);
    assert_eq!(sorted(&m.live), vec![(0, 0), (1, 0)]);
}

#[test]
fn copy_needs_control_and_no_drag() {
    let mut m = Model::new(50, 20);
    m.set_alive((0, 0));
    selector(&mut m, true, (0, 0));
    selector(&mut m, true, (1, 1));
    key_pressed(&mut m, Key::C, true);
    assert_eq!(m.clipboard.len(), 0);
    selector(&mut m, false, (1, 1));
    key_pressed(&mut m, Key::C, false);
    assert_eq!(m.clipboard.len(), 0);
    key_pressed(&mut m, Key::C, true);
    assert_eq!(m.clipboard.len(), 1);
}

#[test]
fn paint_latch_toggles_once_per_drag() {
    let mut m = Model::new(50, 20);
    for _ in 0..5 {
        brush(&mut m, true, (2, 3));
    }
    assert_eq!(sorted(&m.live), vec![(2, 3)]);
    assert!(m.painted);
    brush(&mut m, false, (2, 3));
    assert!(!m.painted && !m.erased);
    for _ in 0..5 {
        brush(&mut m, true, (2, 3));
    }
    assert_eq!(m.live.len(), 0);
    assert!(m.erased);
}

#[test]
fn painting_drag_does_not_erase() {
    let mut m = Model::new(50, 20);
    m.set_alive((1, 0));
    brush(&mut m, true, (0, 0));
    brush(&mut m, true, (1, 0));
    brush(&mut m, true, (2, 0));
    assert_eq!(sorted(&m.live), vec![(0, 0), (1, 0), (2, 0)]);
}

#[test]
fn brush_is_idle_while_running() {
    let mut m = Model::new(50, 20);
    key_pressed(&mut m, Key::Return, false);
    brush(&mut m, true, (0, 0));
    assert_eq!(m.live.len(), 0);
}

#[test]
fn brush_subtracts_pan_offset() {
    let mut m = Model::new(50, 20);
    key_pressed(&mut m, Key::Left, false);
    key_pressed(&mut m, Key::Up, false);
    assert_eq!(m.offset, (1, -1));
    brush(&mut m, true, (0, 0));
    assert_eq!(sorted(&m.live), vec![(-1, 1)]);
}

#[test]
fn grid_cell_outside_lattice_is_none() {
    assert_eq!(grid_cell((5, 6), (1, -2)), Some((4, 8)));
    assert_eq!(grid_cell((i32::MIN, 0), (1, 0)), None);
    assert_eq!(grid_cell((0, i32::MAX), (0, -1)), None);
}

#[test]
fn marker_toggles_center_cell() {
    let mut m = Model::new(50, 20);
    key_pressed(&mut m, Key::Space, false);
    assert_eq!(m.live.len(), 0);
    key_pressed(&mut m, Key::Tab, false);
    assert!(m.marker_mode);
    key_pressed(&mut m, Key::Left, false);
    key_pressed(&mut m, Key::Space, false);
    assert_eq!(sorted(&m.live), vec![(-1, 0)]);
    key_pressed(&mut m, Key::Space, false);
    assert_eq!(m.live.len(), 0);
}

#[test]
fn edits_are_disabled_while_running() {
    let mut m = Model::new(50, 20);
    key_pressed(&mut m, Key::Return, false);
    key_pressed(&mut m, Key::Tab, false);
    assert!(!m.marker_mode);
    key_pressed(&mut m, Key::Down, false);
    assert_eq!(m.offset, (0, 1));
}

#[test]
fn zoom_steps_and_clamps() {
    let mut m = Model::new(50, 4);
    key_pressed(&mut m, Key::I, false);
    assert_eq!(m.zoom_halves, 5);
    key_pressed(&mut m, Key::O, false);
    key_pressed(&mut m, Key::O, false);
    key_pressed(&mut m, Key::O, false);
    assert_eq!(m.zoom_halves, 3);
}

#[test]
fn pan_stops_at_bound() {
    let mut m = Model::new(50, 20);
    m.offset = (i32::MAX, -i32::MAX);
    key_pressed(&mut m, Key::Left, false);
    key_pressed(&mut m, Key::Up, false);
    assert_eq!(m.offset, (i32::MAX, -i32::MAX));
}

#[test]
fn other_keys_change_nothing() {
    let mut m = Model::new(50, 20);
    m.set_alive((0, 0));
    key_pressed(&mut m, Key::Other, true);
    assert_eq!(sorted(&m.live), vec![(0, 0)]);
    assert_eq!(m.offset, (0, 0));
    assert!(!m.running);
}

#[test]
fn parse_speed_reads_positive_decimal() {
    assert_eq!(parse_speed(b"250\n"), Some(250));
    assert_eq!(parse_speed(b"  007 \r\n"), Some(7));
    assert_eq!(parse_speed(b"18446744073709551615"), Some(u64::MAX));
}

#[test]
fn parse_speed_rejects_other_lines() {
    assert_eq!(parse_speed(b""), None);
    assert_eq!(parse_speed(b"   \n"), None);
    assert_eq!(parse_speed(b"0"), None);
    assert_eq!(parse_speed(b"12ms"), None);
    assert_eq!(parse_speed(b"1 2"), None);
    assert_eq!(parse_speed(b"-5"), None);
    assert_eq!(parse_speed(b"18446744073709551616"), None);
}
