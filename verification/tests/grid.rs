use lifelike::canvas::{mod_idx, Canvas, Colorize};
use lifelike::cell::Cell;

#[test]
fn wraps_negative_indices_to_the_end() {
    assert_eq!(mod_idx(-1, 5), 4);
    assert_eq!(mod_idx(-6, 5), 4);
    assert_eq!(mod_idx(-5, 5), 0);
    assert_eq!(mod_idx(-4, 5), 1);
}

#[test]
fn wraps_large_indices_to_the_start() {
    assert_eq!(mod_idx(7, 5), 2);
    assert_eq!(mod_idx(5, 5), 0);
    assert_eq!(mod_idx(0, 5), 0);
    assert_eq!(mod_idx(4, 5), 4);
}

#[test]
fn wraps_on_a_ring_of_one() {
    assert_eq!(mod_idx(0, 1), 0);
    assert_eq!(mod_idx(-1, 1), 0);
    assert_eq!(mod_idx(12345, 1), 0);
}

#[test]
fn wraps_the_extreme_indices() {
    // isize::MIN is -(isize::MAX) - 1, and isize::MAX % 10 is 7 on 64 bits.
    let top = (isize::MAX % 10) as usize;
    assert_eq!(mod_idx(isize::MAX, 10), top);
    assert_eq!(mod_idx(isize::MIN, 10), (10 - 1 - top) % 10);
    assert_eq!(mod_idx(isize::MIN, usize::MAX), (usize::MAX - 1) / 2);
    assert_eq!(mod_idx(-1, usize::MAX), usize::MAX - 1);
}

#[test]
fn wrapped_index_is_congruent_and_in_range() {
    for n in 1..9usize {
        for i in -40..40isize {
            let r = mod_idx(i, n);
            assert!(r < n);
            assert_eq!((i - r as isize).rem_euclid(n as isize), 0);
            assert_eq!(r as isize, i.rem_euclid(n as isize));
        }
    }
}

#[test]
fn new_canvas_is_filled_with_the_initial_cell() {
    let g = Canvas::new(2, 3, Cell::new());
    assert_eq!(g.rows(), 2);
    assert_eq!(g.cols(), 3);
    for i in 0..2 {
        for j in 0..3 {
            assert!(!g.index([i, j]).curr);
            assert!(!g.index([i, j]).succ);
        }
    }
}

#[test]
fn index_mut_changes_one_cell() {
    let mut g = Canvas::new(2, 3, Cell::new());
    g.index_mut([1, 2]).birth();
    for i in 0..2 {
        for j in 0..3 {
            assert_eq!(g.index([i, j]).succ, i == 1 && j == 2);
        }
    }
}

#[test]
fn canvas_mod_idx_wraps_both_coordinates() {
    let mut g = Canvas::new(3, 4, Cell::new());
    g.mod_idx(-1, 5).birth();
    for i in 0..3 {
        for j in 0..4 {
            assert_eq!(g.index([i, j]).succ, i == 2 && j == 1);
        }
    }
    g.mod_idx(2, -3).kill();
    assert!(!g.index([2, 1]).succ);
}

#[test]
fn cell_starts_dead() {
    let c = Cell::new();
    assert!(!c.is_alive());
    assert!(!c.curr);
    assert!(!c.succ);
}

#[test]
fn cell_birth_is_pending_until_update() {
    let mut c = Cell::new();
    c.birth();
    assert!(!c.is_alive());
    let (mut born, mut dead) = (0usize, 0usize);
    c.update(&mut born, &mut dead);
    assert!(c.is_alive());
    assert_eq!((born, dead), (1, 0));
}

#[test]
fn cell_update_counts_only_changes() {
    let mut c = Cell::new();
    let (mut born, mut dead) = (10usize, 20usize);
    c.update(&mut born, &mut dead);
    assert_eq!((born, dead), (10, 20));
    c.birth();
    c.update(&mut born, &mut dead);
    assert_eq!((born, dead), (11, 20));
    c.birth();
    c.update(&mut born, &mut dead);
    assert_eq!((born, dead), (11, 20));
    c.kill();
    assert!(c.is_alive());
    c.update(&mut born, &mut dead);
    assert!(!c.is_alive());
    assert_eq!((born, dead), (11, 21));
    c.kill();
    c.update(&mut born, &mut dead);
    assert_eq!((born, dead), (11, 21));
}

#[test]
fn cell_last_mark_wins() {
    let mut c = Cell::new();
    c.birth();
    c.kill();
    let (mut born, mut dead) = (0usize, 0usize);
    c.update(&mut born, &mut dead);
    assert!(!c.is_alive());
    assert_eq!((born, dead), (0, 0));
}

#[test]
fn cell_colour_follows_current_state() {
    let mut c = Cell::new();
    assert_eq!(c.color(), (0, 0, 0));
    c.birth();
    assert_eq!(c.color(), (0, 0, 0));
    let (mut born, mut dead) = (0usize, 0usize);
    c.update(&mut born, &mut dead);
    assert_eq!(c.color(), (25, 25, 25));
}
