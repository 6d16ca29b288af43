use lifelike::error::LifeError;
use lifelike::lifelike::LifeLike;

fn living(life: &LifeLike) -> Vec<(usize, usize)> {
    let mut v = Vec::new();
    for i in 0..life.rows() {
        for j in 0..life.cols() {
            if life.field().index([i, j]).is_alive() {
                v.push((i, j));
            }
        }
    }
    v
}

fn seeded(h: usize, w: usize, rules: &str, cells: &[(isize, isize)]) -> LifeLike {
    let mut life = LifeLike::new(h, w, rules).unwrap();
    for &(i, j) in cells {
        life.birth(i, j);
    }
    life.update();
    life
}

#[test]
fn new_automaton_is_dead() {
    let life = LifeLike::new(4, 7, "3-23").unwrap();
    assert_eq!(life.rows(), 4);
    assert_eq!(life.cols(), 7);
    assert_eq!(life.alive(), 0);
    assert_eq!(life.born(), 0);
    assert_eq!(life.dead(), 0);
    assert_eq!(living(&life), vec![]);
    assert_eq!(life.rescan(), 0);
}

#[test]
fn new_automaton_keeps_its_rule() {
    let life = LifeLike::new(1, 1, "36-23").unwrap();
    let f = false;
    let t = true;
    assert_eq!(life.rules().b, [f, f, f, t, f, f, t, f, f]);
    assert_eq!(life.rules().s, [f, f, t, t, f, f, f, f, f]);
}

#[test]
fn new_automaton_refuses_a_bad_rule() {
    assert_eq!(LifeLike::new(3, 3, "3-2-3").err(), Some(LifeError::RuleFormat));
    assert_eq!(LifeLike::new(3, 3, "39-2").err(), Some(LifeError::RuleFormat));
    assert_eq!(LifeLike::new(3, 3, "life").err(), Some(LifeError::RuleFormat));
}

#[test]
fn birth_shows_only_after_update() {
    let mut life = LifeLike::new(3, 3, "3-23").unwrap();
    life.birth(1, 1);
    assert_eq!(life.alive(), 0);
    assert_eq!(living(&life), vec![]);
    assert!(life.field().index([1, 1]).succ);
    life.update();
    assert_eq!(life.alive(), 1);
    assert_eq!(life.born(), 1);
    assert_eq!(life.dead(), 0);
    assert_eq!(living(&life), vec![(1, 1)]);
}

#[test]
fn birth_and_kill_wrap_around() {
    let mut life = LifeLike::new(3, 4, "3-23").unwrap();
    life.birth(-1, 5);
    life.birth(3, -4);
    life.update();
    assert_eq!(living(&life), vec![(0, 0), (2, 1)]);
    life.kill(5, -3);
    life.update();
    assert_eq!(living(&life), vec![(0, 0)]);
    assert_eq!(life.born(), 0);
    assert_eq!(life.dead(), 1);
    assert_eq!(life.alive(), 1);
}

#[test]
fn update_counts_births_and_deaths_of_one_pass() {
    let mut life = seeded(3, 3, "3-23", &[(0, 0), (0, 1), (0, 2)]);
    assert_eq!((life.alive(), life.born(), life.dead()), (3, 3, 0));
    life.kill(0, 0);
    life.kill(0, 1);
    life.birth(2, 2);
    life.birth(0, 2);
    life.kill(1, 1);
    life.update();
    assert_eq!((life.alive(), life.born(), life.dead()), (2, 1, 2));
    life.update();
    assert_eq!((life.alive(), life.born(), life.dead()), (2, 0, 0));
}

#[test]
fn index_move_wraps_at_the_edges() {
    let life = LifeLike::new(3, 5, "3-23").unwrap();
    assert_eq!(life.index_move(0, 0, -1, -1), [2, 4]);
    assert_eq!(life.index_move(2, 4, 1, 1), [0, 0]);
    assert_eq!(life.index_move(1, 2, 0, 0), [1, 2]);
    assert_eq!(life.index_move(1, 2, -1, 1), [0, 3]);
    assert_eq!(life.index_move(0, 4, 1, 1), [1, 0]);
    assert_eq!(life.index_move(2, 0, 1, -1), [0, 4]);
}

#[test]
fn index_move_on_a_single_cell() {
    let life = LifeLike::new(1, 1, "3-23").unwrap();
    for mvi in -1..=1 {
        for mvj in -1..=1 {
            assert_eq!(life.index_move(0, 0, mvi, mvj), [0, 0]);
        }
    }
}

#[test]
fn count_neigh_counts_the_eight_around() {
    let life = seeded(5, 5, "3-23", &[(1, 1), (1, 2), (1, 3), (2, 1), (2, 3), (3, 1), (3, 2), (3, 3)]);
    assert_eq!(life.count_neigh(2, 2), 8);
    assert_eq!(life.count_neigh(1, 1), 2);
    assert_eq!(life.count_neigh(0, 0), 1);
    assert_eq!(life.count_neigh(0, 2), 3);
    assert_eq!(life.count_neigh(4, 4), 1);
    assert_eq!(life.count_neigh(4, 2), 3);
}

#[test]
fn count_neigh_does_not_count_the_cell_itself() {
    let life = seeded(5, 5, "3-23", &[(2, 2)]);
    assert_eq!(life.count_neigh(2, 2), 0);
    assert_eq!(life.count_neigh(1, 1), 1);
}

#[test]
fn count_neigh_looks_across_the_edges() {
    let life = seeded(4, 4, "3-23", &[(3, 3), (0, 3), (3, 0)]);
    assert_eq!(life.count_neigh(0, 0), 3);
    assert_eq!(life.count_neigh(1, 1), 0);
}

#[test]
fn count_neigh_on_a_single_cell_counts_it_eight_times() {
    let life = seeded(1, 1, "3-23", &[(0, 0)]);
    assert_eq!(life.count_neigh(0, 0), 8);
}

#[test]
fn count_neigh_ignores_pending_states() {
    let mut life = seeded(3, 3, "3-23", &[(0, 0)]);
    life.birth(0, 1);
    life.kill(0, 0);
    assert_eq!(life.count_neigh(1, 1), 1);
    assert_eq!(life.count_neigh(0, 2), 1);
}

#[test]
fn every_cell_is_born_at_once() {
    let mut life = LifeLike::new(3, 3, "0-").unwrap();
    life.next();
    assert_eq!(living(&life).len(), 9);
    assert_eq!((life.alive(), life.born(), life.dead()), (9, 9, 0));
    // Every cell now has eight living neighbours and nothing survives.
    life.next();
    assert_eq!(living(&life), vec![]);
    assert_eq!((life.alive(), life.born(), life.dead()), (0, 0, 9));
}

#[test]
fn a_step_reads_only_the_old_generation() {
    // Birth on exactly one neighbour, no survival. From a single cell the
    // eight cells around it are born; a pass that saw its own births would
    // count more than one neighbour for most of them.
    let mut life = seeded(5, 5, "1-", &[(2, 2)]);
    life.next();
    assert_eq!(
        living(&life),
        vec![(1, 1), (1, 2), (1, 3), (2, 1), (2, 3), (3, 1), (3, 2), (3, 3)]
    );
    assert_eq!((life.alive(), life.born(), life.dead()), (8, 8, 1));
}

#[test]
fn blinker_oscillates() {
    let mut life = seeded(5, 5, "3-23", &[(2, 1), (2, 2), (2, 3)]);
    life.next();
    assert_eq!(living(&life), vec![(1, 2), (2, 2), (3, 2)]);
    assert_eq!((life.alive(), life.born(), life.dead()), (3, 2, 2));
    life.next();
    assert_eq!(living(&life), vec![(2, 1), (2, 2), (2, 3)]);
}

#[test]
fn block_is_still() {
    let mut life = seeded(4, 4, "3-23", &[(1, 1), (1, 2), (2, 1), (2, 2)]);
    for _ in 0..5 {
        life.next();
        assert_eq!(living(&life), vec![(1, 1), (1, 2), (2, 1), (2, 2)]);
        assert_eq!((life.alive(), life.born(), life.dead()), (4, 0, 0));
    }
}

#[test]
fn glider_moves_one_cell_diagonally_in_four_generations() {
    let glider = [(0, 1), (1, 2), (2, 0), (2, 1), (2, 2)];
    let mut life = seeded(5, 5, "3-23", &glider);
    for _ in 0..4 {
        life.next();
        assert_eq!(life.alive(), 5);
    }
    let mut moved: Vec<(usize, usize)> =
        glider.iter().map(|&(i, j)| ((i as usize + 1) % 5, (j as usize + 1) % 5)).collect();
    moved.sort();
    assert_eq!(living(&life), moved);
}

#[test]
fn glider_comes_home_around_the_torus() {
    let glider = [(0, 1), (1, 2), (2, 0), (2, 1), (2, 2)];
    let mut life = seeded(5, 5, "3-23", &glider);
    for _ in 0..20 {
        life.next();
    }
    let mut home: Vec<(usize, usize)> =
        glider.iter().map(|&(i, j)| (i as usize, j as usize)).collect();
    home.sort();
    assert_eq!(living(&life), home);
}

#[test]
fn next_overrides_marks_left_uncommitted() {
    let mut life = seeded(4, 4, "3-23", &[(1, 1), (1, 2), (2, 1), (2, 2)]);
    life.kill(1, 1);
    life.birth(3, 3);
    life.next();
    assert_eq!(living(&life), vec![(1, 1), (1, 2), (2, 1), (2, 2)]);
}

#[test]
fn count_of_living_cells_matches_a_rescan() {
    let mut life = LifeLike::new(6, 7, "36-23").unwrap();
    assert_eq!(life.alive(), life.rescan());
    let marks: [(isize, isize); 9] =
        [(0, 0), (1, 1), (1, 2), (2, 1), (-1, -1), (9, 9), (3, 3), (3, 4), (4, 3)];
    for (n, &(i, j)) in marks.iter().enumerate() {
        life.birth(i, j);
        assert_eq!(life.alive(), life.rescan());
        if n % 3 == 2 {
            life.update();
            assert_eq!(life.alive(), life.rescan());
            assert_eq!(life.alive(), living(&life).len());
        }
    }
    for &(i, j) in marks.iter().take(4) {
        life.kill(i, j);
        assert_eq!(life.alive(), life.rescan());
    }
    life.update();
    assert_eq!(life.alive(), life.rescan());
    assert_eq!(life.alive(), 5);
    for _ in 0..10 {
        life.next();
        assert_eq!(life.alive(), life.rescan());
        assert_eq!(life.alive(), living(&life).len());
    }
}

#[test]
fn seeds_rule_kills_every_living_cell() {
    let mut life = seeded(6, 6, "2-", &[(2, 2), (2, 3)]);
    life.next();
    assert_eq!(living(&life), vec![(1, 2), (1, 3), (3, 2), (3, 3)]);
    assert_eq!((life.alive(), life.born(), life.dead()), (4, 4, 2));
}
