use lifelike::canvas::Canvas;
use lifelike::cell::Cell;
use lifelike::error::LifeError;
use lifelike::lifelike::LifeLike;
use lifelike::pattern::{load, FileFormat};
use lifelike::transform::{
    t_db, t_db_sym, t_lt, t_lt_sym, t_none, t_none_sym, t_rt, t_rt_sym, Transform,
};

/// The cells marked alive, row by row.
fn marked(g: &Canvas<Cell>) -> Vec<(usize, usize)> {
    let mut v = Vec::new();
    for i in 0..g.rows() {
        for j in 0..g.cols() {
            if g.index([i, j]).succ {
                v.push((i, j));
            }
        }
    }
    v
}

/// A grid whose every cell is marked alive, so that dead marks show.
fn all_marked(h: usize, w: usize) -> Canvas<Cell> {
    let mut g = Canvas::new(h, w, Cell::new());
    for i in 0..h {
        for j in 0..w {
            g.index_mut([i, j]).birth();
        }
    }
    g
}

/// The cells marked dead on a grid that started all marked alive.
fn unmarked(g: &Canvas<Cell>) -> Vec<(usize, usize)> {
    let mut v = Vec::new();
    for i in 0..g.rows() {
        for j in 0..g.cols() {
            if !g.index([i, j]).succ {
                v.push((i, j));
            }
        }
    }
    v
}

fn placed(
    text: &str,
    format: FileFormat,
    origin: (isize, isize),
    t: Transform,
    h: usize,
    w: usize,
) -> Vec<(usize, usize)> {
    let mut g = Canvas::new(h, w, Cell::new());
    load(text, format, origin.0, origin.1, t, &mut g).unwrap();
    marked(&g)
}

#[test]
fn extension_selects_the_format() {
    assert_eq!(FileFormat::of_name("glider.txt"), Ok(FileFormat::Txt));
    assert_eq!(FileFormat::of_name("glider.lif"), Ok(FileFormat::Lif));
    assert_eq!(FileFormat::of_name("glider.cells"), Ok(FileFormat::Cells));
    assert_eq!(FileFormat::of_name("glider.rle"), Ok(FileFormat::Rle));
}

#[test]
fn extension_is_what_follows_the_last_dot() {
    assert_eq!(FileFormat::of_name("a.txt.rle"), Ok(FileFormat::Rle));
    assert_eq!(FileFormat::of_name("dir.d/gun.cells"), Ok(FileFormat::Cells));
    assert_eq!(FileFormat::of_name(".lif"), Ok(FileFormat::Lif));
    assert_eq!(FileFormat::of_name("rle"), Ok(FileFormat::Rle));
}

#[test]
fn unknown_extension_is_refused() {
    for name in ["glider.png", "glider", "glider.", "", "glider.TXT", "glider.rle ", "a.txt.bak", "x.cell", "x.rles"] {
        assert_eq!(FileFormat::of_name(name), Err(LifeError::UnsupportedFormat));
    }
}

#[test]
fn format_symbols() {
    assert_eq!(FileFormat::Txt.alive_byte(), b'x');
    assert_eq!(FileFormat::Lif.alive_byte(), b'*');
    assert_eq!(FileFormat::Cells.alive_byte(), b'O');
    assert_eq!(FileFormat::Rle.alive_byte(), b'o');
    assert_eq!(FileFormat::Txt.dead_byte(), b'.');
    assert_eq!(FileFormat::Lif.dead_byte(), b'.');
    assert_eq!(FileFormat::Cells.dead_byte(), b'.');
    assert_eq!(FileFormat::Rle.dead_byte(), b'b');
    assert!(!FileFormat::Txt.opens_comment(b'#'));
    assert!(FileFormat::Lif.opens_comment(b'#'));
    assert!(!FileFormat::Lif.opens_comment(b'!'));
    assert!(FileFormat::Cells.opens_comment(b'!'));
    assert!(FileFormat::Rle.opens_comment(b'#'));
    assert!(FileFormat::Rle.opens_comment(b'x'));
    assert!(!FileFormat::Rle.opens_comment(b'!'));
}

#[test]
fn txt_places_a_glider() {
    let text = ".x.\n..x\nxxx\n";
    assert_eq!(
        placed(text, FileFormat::Txt, (0, 0), t_none(), 5, 5),
        vec![(0, 1), (1, 2), (2, 0), (2, 1), (2, 2)]
    );
}

#[test]
fn txt_dot_marks_dead_and_blank_skips() {
    let mut g = all_marked(2, 4);
    assert_eq!(load(". .x\n x .", FileFormat::Txt, 0, 0, t_none(), &mut g), Ok(()));
    assert_eq!(unmarked(&g), vec![(0, 0), (0, 2), (1, 3)]);
}

#[test]
fn txt_ignores_carriage_returns() {
    assert_eq!(
        placed("x.\r\n.x\r\n", FileFormat::Txt, (0, 0), t_none(), 3, 3),
        vec![(0, 0), (1, 1)]
    );
}

#[test]
fn txt_has_no_comments() {
    let mut g = Canvas::new(3, 3, Cell::new());
    assert_eq!(
        load("x#\n", FileFormat::Txt, 0, 0, t_none(), &mut g),
        Err(LifeError::UnrecognizedSymbol { symbol: b'#', offset: 1 })
    );
}

#[test]
fn txt_stops_at_an_unknown_symbol() {
    let mut g = Canvas::new(3, 3, Cell::new());
    assert_eq!(
        load("xx\nx?x\nxxx", FileFormat::Txt, 0, 0, t_none(), &mut g),
        Err(LifeError::UnrecognizedSymbol { symbol: b'?', offset: 4 })
    );
    // What was read before the symbol stays marked; nothing after it is.
    assert_eq!(marked(&g), vec![(0, 0), (0, 1), (1, 0)]);
}

#[test]
fn unknown_symbol_commits_nothing() {
    let mut life = LifeLike::new(3, 3, "3-23").unwrap();
    life.birth(2, 2);
    life.update();
    let r = life.add_pattern("x.x?x", FileFormat::Txt, 0, 0, t_none());
    assert_eq!(r, Err(LifeError::UnrecognizedSymbol { symbol: b'?', offset: 3 }));
    assert_eq!((life.alive(), life.born(), life.dead()), (1, 1, 0));
    assert_eq!(life.alive(), life.rescan());
    assert!(life.field().index([2, 2]).is_alive());
    assert!(!life.field().index([0, 0]).is_alive());
    assert_eq!(marked(life.field()), vec![(0, 0), (0, 2), (2, 2)]);
    // The marks left behind are committed with the next commit.
    life.update();
    assert_eq!((life.alive(), life.born(), life.dead()), (3, 2, 0));
}

#[test]
fn first_byte_of_a_longer_character_is_the_symbol() {
    let mut g = Canvas::new(3, 3, Cell::new());
    assert_eq!(
        load("x\u{e9}x", FileFormat::Txt, 0, 0, t_none(), &mut g),
        Err(LifeError::UnrecognizedSymbol { symbol: 0xc3, offset: 1 })
    );
}

#[test]
fn lif_places_cells_and_skips_comments() {
    let text = "#Life 1.05\n#D a glider\n#P 0 0\n.*.\n..*\n***\n";
    assert_eq!(
        placed(text, FileFormat::Lif, (0, 0), t_none(), 5, 5),
        vec![(0, 1), (1, 2), (2, 0), (2, 1), (2, 2)]
    );
}

#[test]
fn lif_comment_takes_its_line_end_with_it() {
    // The comment after the first cell swallows the line break, so the
    // second cell follows on the same line.
    assert_eq!(
        placed("*#\n*\n*", FileFormat::Lif, (0, 0), t_none(), 3, 3),
        vec![(0, 0), (0, 1), (1, 0)]
    );
}

#[test]
fn lif_comment_may_end_the_text() {
    assert_eq!(placed("*\n# no line end", FileFormat::Lif, (0, 0), t_none(), 3, 3), vec![(0, 0)]);
}

#[test]
fn lif_refuses_the_symbols_of_other_formats() {
    for (text, symbol) in [("*x", b'x'), ("*O", b'O'), ("* ", b' '), ("*!", b'!'), ("*o", b'o')] {
        let mut g = Canvas::new(3, 3, Cell::new());
        assert_eq!(
            load(text, FileFormat::Lif, 0, 0, t_none(), &mut g),
            Err(LifeError::UnrecognizedSymbol { symbol, offset: 1 })
        );
        assert_eq!(marked(&g), vec![(0, 0)]);
    }
}

#[test]
fn cells_places_cells_and_skips_comments() {
    let text = "!Name: Glider\n!\n.O.\r\n..O\r\nOOO\r\n";
    assert_eq!(
        placed(text, FileFormat::Cells, (0, 0), t_none(), 5, 5),
        vec![(0, 1), (1, 2), (2, 0), (2, 1), (2, 2)]
    );
}

#[test]
fn cells_refuses_the_symbols_of_other_formats() {
    for (text, symbol) in [("O*", b'*'), ("Ox", b'x'), ("O ", b' '), ("O#", b'#'), ("O0", b'0')] {
        let mut g = Canvas::new(3, 3, Cell::new());
        assert_eq!(
            load(text, FileFormat::Cells, 0, 0, t_none(), &mut g),
            Err(LifeError::UnrecognizedSymbol { symbol, offset: 1 })
        );
    }
}

#[test]
fn rle_decodes_runs() {
    let mut life = LifeLike::new(3, 6, "3-23").unwrap();
    life.birth(0, 2);
    life.update();
    assert_eq!(life.add_pattern("2ob2o$!", FileFormat::Rle, 0, 0, t_none()), Ok(()));
    let f = life.field();
    assert!(f.index([0, 0]).is_alive());
    assert!(f.index([0, 1]).is_alive());
    assert!(!f.index([0, 2]).is_alive());
    assert!(f.index([0, 3]).is_alive());
    assert!(f.index([0, 4]).is_alive());
    assert!(!f.index([0, 5]).is_alive());
    assert_eq!((life.alive(), life.born(), life.dead()), (4, 4, 1));
}

#[test]
fn rle_takes_a_blank_for_an_unknown_symbol() {
    let mut g = Canvas::new(3, 6, Cell::new());
    assert_eq!(
        load("2o b2o$!", FileFormat::Rle, 0, 0, t_none(), &mut g),
        Err(LifeError::UnrecognizedSymbol { symbol: b' ', offset: 2 })
    );
    assert_eq!(marked(&g), vec![(0, 0), (0, 1)]);
}

#[test]
fn rle_reads_nothing_after_the_end_mark() {
    assert_eq!(
        placed("2ob2o$!??? o5o\n", FileFormat::Rle, (0, 0), t_none(), 3, 6),
        vec![(0, 0), (0, 1), (0, 3), (0, 4)]
    );
    assert_eq!(placed("!o", FileFormat::Rle, (0, 0), t_none(), 3, 3), vec![]);
}

#[test]
fn rle_places_a_glider_with_its_header() {
    let text = "#N Glider\n#C the smallest spaceship\nx = 3, y = 3, rule = B3/S23\nbob$2bo$3o!\n";
    assert_eq!(
        placed(text, FileFormat::Rle, (0, 0), t_none(), 5, 5),
        vec![(0, 1), (1, 2), (2, 0), (2, 1), (2, 2)]
    );
}

#[test]
fn rle_tag_without_count_stands_for_one() {
    assert_eq!(placed("o$o$o", FileFormat::Rle, (0, 0), t_none(), 4, 4), vec![(0, 0), (1, 0), (2, 0)]);
}

#[test]
fn rle_count_of_zero_stands_for_one() {
    assert_eq!(placed("0o0$0o", FileFormat::Rle, (0, 0), t_none(), 4, 4), vec![(0, 0), (1, 0)]);
    assert_eq!(placed("00o", FileFormat::Rle, (0, 0), t_none(), 4, 4), vec![(0, 0)]);
}

#[test]
fn rle_counts_have_several_digits() {
    assert_eq!(
        placed("12o", FileFormat::Rle, (0, 0), t_none(), 2, 20),
        (0..12).map(|j| (0, j)).collect::<Vec<_>>()
    );
    assert_eq!(placed("10$o", FileFormat::Rle, (0, 0), t_none(), 12, 2), vec![(10, 0)]);
}

#[test]
fn rle_line_breaks_come_in_runs() {
    assert_eq!(placed("o3$o", FileFormat::Rle, (0, 0), t_none(), 5, 5), vec![(0, 0), (3, 0)]);
}

#[test]
fn rle_line_ends_mean_nothing_and_keep_the_count() {
    assert_eq!(
        placed("2\r\n3o", FileFormat::Rle, (0, 0), t_none(), 2, 30),
        (0..23).map(|j| (0, j)).collect::<Vec<_>>()
    );
    assert_eq!(placed("o\no\r\no", FileFormat::Rle, (0, 0), t_none(), 2, 5), vec![(0, 0), (0, 1), (0, 2)]);
}

#[test]
fn rle_comment_keeps_the_count() {
    assert_eq!(
        placed("3#three\no", FileFormat::Rle, (0, 0), t_none(), 2, 5),
        vec![(0, 0), (0, 1), (0, 2)]
    );
}

#[test]
fn rle_tag_clears_the_count() {
    assert_eq!(
        placed("3obo", FileFormat::Rle, (0, 0), t_none(), 2, 8),
        vec![(0, 0), (0, 1), (0, 2), (0, 4)]
    );
}

#[test]
fn rle_count_at_the_end_does_nothing() {
    assert_eq!(placed("o5", FileFormat::Rle, (0, 0), t_none(), 2, 8), vec![(0, 0)]);
}

#[test]
fn rle_dead_run_marks_dead() {
    let mut g = all_marked(2, 6);
    assert_eq!(load("b2o3b$2bo", FileFormat::Rle, 0, 0, t_none(), &mut g), Ok(()));
    assert_eq!(unmarked(&g), vec![(0, 0), (0, 3), (0, 4), (0, 5), (1, 0), (1, 1)]);
}

#[test]
fn rle_refuses_the_symbols_of_other_formats() {
    for (text, symbol) in [("o.", b'.'), ("o*", b'*'), ("oO", b'O'), ("o?", b'?'), ("oB", b'B')] {
        let mut g = Canvas::new(3, 3, Cell::new());
        assert_eq!(
            load(text, FileFormat::Rle, 0, 0, t_none(), &mut g),
            Err(LifeError::UnrecognizedSymbol { symbol, offset: 1 })
        );
        assert_eq!(marked(&g), vec![(0, 0)]);
    }
}

#[test]
fn rle_run_longer_than_the_line_goes_around() {
    // Seven cells on a ring of five: the whole row, and the next cell is
    // the third of it.
    assert_eq!(
        placed("7o", FileFormat::Rle, (1, 0), t_none(), 3, 5),
        vec![(1, 0), (1, 1), (1, 2), (1, 3), (1, 4)]
    );
    let mut g = all_marked(3, 5);
    assert_eq!(load("7ob", FileFormat::Rle, 1, 0, t_none(), &mut g), Ok(()));
    assert_eq!(unmarked(&g), vec![(1, 2)]);
}

#[test]
fn rle_count_beyond_any_integer_goes_around() {
    // The count is 10^40 + 7. On a grid of 3 by 5 it ends where a count of
    // its remainder by 5 ends: 2 cells on.
    let count = "10000000000000000000000000000000000000007";
    let mut g = all_marked(3, 5);
    let text = format!("{}ob", count);
    assert_eq!(load(&text, FileFormat::Rle, 0, 0, t_none(), &mut g), Ok(()));
    assert_eq!(unmarked(&g), vec![(0, 2)]);
    // As line breaks it ends where its remainder by 3 ends: 10^40 + 7 = 2 (mod 3).
    let text = format!("{}$o", count);
    assert_eq!(placed(&text, FileFormat::Rle, (0, 0), t_none(), 3, 5), vec![(2, 0)]);
    // Sideways a line is a column, 3 cells long.
    let text = format!("{}ob", count);
    let mut g = all_marked(3, 5);
    assert_eq!(load(&text, FileFormat::Rle, 0, 0, t_rt(), &mut g), Ok(()));
    assert_eq!(unmarked(&g), vec![(2, 0)]);
}

#[test]
fn rle_long_run_leaves_other_lines_alone() {
    let text = "1000000000000000000000o";
    assert_eq!(placed(text, FileFormat::Rle, (1, 3), t_none(), 3, 4), vec![(1, 0), (1, 1), (1, 2), (1, 3)]);
    assert_eq!(placed(text, FileFormat::Rle, (1, 3), t_lt(), 3, 4), vec![(0, 3), (1, 3), (2, 3)]);
}

#[test]
fn pattern_wraps_around_the_edges() {
    assert_eq!(
        placed("xxx\nx.x", FileFormat::Txt, (2, 3), t_none(), 3, 4),
        vec![(0, 1), (0, 3), (2, 0), (2, 1), (2, 3)]
    );
}

#[test]
fn origin_wraps_around_the_edges() {
    assert_eq!(placed("xx\nx", FileFormat::Txt, (-1, -1), t_none(), 3, 4), vec![(0, 3), (2, 0), (2, 3)]);
    assert_eq!(placed("xx\nx", FileFormat::Txt, (302, 403), t_none(), 3, 4), vec![(0, 3), (2, 0), (2, 3)]);
    assert_eq!(
        placed("xx\nx", FileFormat::Txt, (isize::MIN, isize::MAX), t_none(), 4, 4),
        vec![(0, 0), (0, 3), (1, 3)]
    );
}

// The pattern used below, an L of four cells:
//   xx.
//   x..
//   x..
const ELL: &str = "xx.\nx..\nx..\n";

#[test]
fn identity_places_the_pattern_as_written() {
    assert_eq!(placed(ELL, FileFormat::Txt, (3, 3), t_none(), 7, 7), vec![(3, 3), (3, 4), (4, 3), (5, 3)]);
}

#[test]
fn mirror_reverses_the_lines() {
    assert_eq!(
        placed(ELL, FileFormat::Txt, (3, 3), t_none_sym(), 7, 7),
        vec![(3, 2), (3, 3), (4, 3), (5, 3)]
    );
}

#[test]
fn half_turn_reverses_lines_and_their_order() {
    assert_eq!(placed(ELL, FileFormat::Txt, (3, 3), t_db(), 7, 7), vec![(1, 3), (2, 3), (3, 2), (3, 3)]);
    assert_eq!(
        placed(ELL, FileFormat::Txt, (3, 3), t_db_sym(), 7, 7),
        vec![(1, 3), (2, 3), (3, 3), (3, 4)]
    );
}

#[test]
fn left_turn_lays_lines_upwards_side_by_side() {
    assert_eq!(placed(ELL, FileFormat::Txt, (3, 3), t_lt(), 7, 7), vec![(2, 3), (3, 3), (3, 4), (3, 5)]);
    assert_eq!(
        placed(ELL, FileFormat::Txt, (3, 3), t_lt_sym(), 7, 7),
        vec![(2, 3), (3, 1), (3, 2), (3, 3)]
    );
}

#[test]
fn right_turn_lays_lines_downwards_side_by_side() {
    assert_eq!(placed(ELL, FileFormat::Txt, (3, 3), t_rt(), 7, 7), vec![(3, 1), (3, 2), (3, 3), (4, 3)]);
    assert_eq!(
        placed(ELL, FileFormat::Txt, (3, 3), t_rt_sym(), 7, 7),
        vec![(3, 3), (3, 4), (3, 5), (4, 3)]
    );
}

#[test]
fn rle_runs_follow_the_placement() {
    assert_eq!(placed("3o$o", FileFormat::Rle, (3, 3), t_rt(), 7, 7), vec![(3, 2), (3, 3), (4, 3), (5, 3)]);
    assert_eq!(placed("3o2$o", FileFormat::Rle, (3, 3), t_db(), 7, 7), vec![(1, 3), (3, 1), (3, 2), (3, 3)]);
}

#[test]
fn add_pattern_commits_the_pattern() {
    let mut life = LifeLike::new(5, 5, "3-23").unwrap();
    assert_eq!(life.add_pattern(".x.\n..x\nxxx\n", FileFormat::Txt, 0, 0, t_none()), Ok(()));
    assert_eq!((life.alive(), life.born(), life.dead()), (5, 5, 0));
    assert_eq!(life.alive(), life.rescan());
    // A second pattern over the first kills what it marks dead.
    assert_eq!(life.add_pattern("...\n...\n.x.\n.x.", FileFormat::Txt, 0, 0, t_none()), Ok(()));
    assert_eq!((life.alive(), life.born(), life.dead()), (2, 1, 4));
    assert_eq!(life.alive(), life.rescan());
}

#[test]
fn loaded_glider_flies() {
    let mut life = LifeLike::new(5, 5, "3-23").unwrap();
    life.add_pattern("bob$2bo$3o!", FileFormat::Rle, 0, 0, t_none()).unwrap();
    for _ in 0..4 {
        life.next();
    }
    let mut v = Vec::new();
    for i in 0..5 {
        for j in 0..5 {
            if life.field().index([i, j]).is_alive() {
                v.push((i, j));
            }
        }
    }
    assert_eq!(v, vec![(1, 2), (2, 3), (3, 1), (3, 2), (3, 3)]);
}

#[test]
fn add_from_text_goes_by_the_extension() {
    let mut life = LifeLike::new(4, 4, "3-23").unwrap();
    assert_eq!(life.add_from_text("two.cells", "!two\nOO\n", 1, 1, t_none()), Ok(()));
    assert_eq!(life.alive(), 2);
    // The same text is no plain text.
    assert_eq!(
        life.add_from_text("two.txt", "!two\nOO\n", 1, 1, t_none()),
        Err(LifeError::UnrecognizedSymbol { symbol: b'!', offset: 0 })
    );
    assert_eq!(life.alive(), 2);
}

#[test]
fn add_from_text_refuses_an_unknown_extension() {
    let mut life = LifeLike::new(4, 4, "3-23").unwrap();
    assert_eq!(
        life.add_from_text("two.png", "xx", 0, 0, t_none()),
        Err(LifeError::UnsupportedFormat)
    );
    assert_eq!((life.alive(), life.born(), life.dead()), (0, 0, 0));
    assert_eq!(marked(life.field()), vec![]);
}

#[test]
fn empty_text_places_nothing_and_commits() {
    let mut life = LifeLike::new(4, 4, "3-23").unwrap();
    life.birth(0, 0);
    for format in [FileFormat::Txt, FileFormat::Lif, FileFormat::Cells, FileFormat::Rle] {
        assert_eq!(life.add_pattern("", format, 0, 0, t_none()), Ok(()));
    }
    assert_eq!(life.alive(), 1);
}
