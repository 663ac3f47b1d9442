use life_sandbox::cells::CellSet;
use life_sandbox::editor::{key_pressed, Key, Model};
use life_sandbox::life::{count_neighbors, next_generation};

fn set_of(points: &[(i32, i32)]) -> CellSet {
    let mut s = CellSet::new();
    for p in points {
        s.insert(*p);
    }
    s
}

fn sorted(s: &CellSet) -> Vec<(i32, i32)> {
    let mut v: Vec<(i32, i32)> = (0..s.len()).map(|i| s.get(i)).collect();
    v.sort();
    v
}

fn sorted_points(points: &[(i32, i32)]) -> Vec<(i32, i32)> {
    let mut v = points.to_vec();
    v.sort();
    v
}

#[test]
fn block_is_still_life() {
    let block = [(0, 0), (1, 0), (0, 1), (1, 1)];
    let next = next_generation(&set_of(&block));
    assert_eq!(sorted(&next), sorted_points(&block));
}

#[test]
fn blinker_oscillates() {
    let vertical = [(1, 0), (1, 1), (1, 2)];
    let horizontal = [(0, 1), (1, 1), (2, 1)];
    let first = next_generation(&set_of(&vertical));
    assert_eq!(sorted(&first), sorted_points(&horizontal));
    let second = next_generation(&first);
    assert_eq!(sorted(&second), sorted_points(&vertical));
}

#[test]
fn isolated_cell_dies() {
    let next = next_generation(&set_of(&[(5, -7)]));
    assert_eq!(next.len(), 0);
    assert!(!next.contains((5, -7)));
}

#[test]
fn empty_world_stays_empty() {
    let next = next_generation(&CellSet::new());
    assert_eq!(next.len(), 0);
}

#[test]
fn dead_cell_with_three_neighbors_is_born() {
    let live = set_of(&[(-1, -1), (1, -1), (0, 1)]);
    assert_eq!(count_neighbors(&live, 0, 0), 3);
    let next = next_generation(&live);
    assert!(next.contains((0, 0)));
}

#[test]
fn dead_cell_with_two_neighbors_stays_dead() {
    let live = set_of(&[(-1, -1), (1, 1)]);
    assert_eq!(count_neighbors(&live, 0, 0), 2);
    assert!(!next_generation(&live).contains((0, 0)));
}

#[test]
fn dead_cell_with_four_neighbors_stays_dead() {
    let live = set_of(&[(-1, -1), (1, -1), (-1, 1), (1, 1)]);
    assert_eq!(count_neighbors(&live, 0, 0), 4);
    assert!(!next_generation(&live).contains((0, 0)));
}

#[test]
fn crowded_cell_dies() {
    let live = set_of(&[(0, 0), (-1, 0), (1, 0), (0, -1), (0, 1)]);
    assert_eq!(count_neighbors(&live, 0, 0), 4);
    let next = next_generation(&live);
    assert!(!next.contains((0, 0)));
    assert!(next.contains((1, 1)));
}

#[test]
fn glider_moves_diagonally() {
    let glider = [(1, 0), (2, 1), (0, 2), (1, 2), (2, 2)];
    let mut s = set_of(&glider);
    for _ in 0..4 {
        s = next_generation(&s);
    }
    let moved: Vec<(i32, i32)> = glider.iter().map(|p| (p.0 + 1, p.1 + 1)).collect();
    assert_eq!(sorted(&s), sorted_points(&moved));
}

#[test]
fn generation_is_deterministic() {
    let live = set_of(&[(0, 0), (1, 0), (2, 0), (2, 1), (1, 2), (7, 7)]);
    let a = next_generation(&live);
    let b = next_generation(&live);
    assert_eq!(sorted(&a), sorted(&b));
    let reordered = set_of(&[(7, 7), (1, 2), (2, 1), (2, 0), (1, 0), (0, 0)]);
    assert_eq!(sorted(&next_generation(&reordered)), sorted(&a));
}

#[test]
fn update_steps_only_while_running() {
    let mut m = Model::new(100, 20);
    m.set_alive((1, 0));
    m.set_alive((1, 1));
    m.set_alive((1, 2));
    assert!(!m.update());
    assert_eq!(sorted(&m.live), vec![(1, 0), (1, 1), (1, 2)]);
    key_pressed(&mut m, Key::Return, false);
    assert!(m.running);
    assert!(m.update());
    assert_eq!(sorted(&m.live), vec![(0, 1), (1, 1), (2, 1)]);
}

#[test]
fn update_refuses_cells_at_lattice_edge() {
    let mut m = Model::new(100, 20);
    m.set_alive((i32::MAX, 0));
    m.running = true;
    assert!(!m.can_step());
    assert!(!m.update());
    assert!(m.is_alive((i32::MAX, 0)));
}
