use bingo_solver::color::{has_board_shape, Color};
use bingo_solver::generator::{
    count_white, enforce_min_white, generate_color_grid, palette, whiten_nth, MIN_WHITE,
};
use bingo_solver::puzzle::{generate_puzzle, try_layout};

#[test]
fn palette_holds_the_nine_colours() {
    assert_eq!(
        palette(),
        vec![
            Color::Red,
            Color::Blue,
            Color::Black,
            Color::Green,
            Color::Yellow,
            Color::Purple,
            Color::White,
            Color::Orange,
            Color::Cyan,
        ]
    );
}

#[test]
fn generated_layouts_are_five_by_five_with_ten_whites() {
    assert_eq!(MIN_WHITE, 10);
    for _ in 0..500 {
        let layout = generate_color_grid();
        assert!(has_board_shape(&layout));
        assert_eq!(layout.len(), 5);
        let mut whites = 0;
        for row in &layout {
            assert_eq!(row.len(), 5);
            whites += row.iter().filter(|color| **color == Color::White).count();
        }
        assert!(whites >= 10);
        assert_eq!(count_white(&layout), whites);
    }
}

#[test]
fn generated_layouts_differ_and_use_more_than_one_colour() {
    let layouts: Vec<Vec<Vec<Color>>> = (0..50).map(|_| generate_color_grid()).collect();
    assert!(layouts.iter().any(|layout| *layout != layouts[0]));
    assert!(layouts
        .iter()
        .any(|layout| layout.iter().flatten().any(|color| *color != Color::White)));
}

#[test]
fn count_white_counts_white_cells() {
    let mut layout = vec![vec![Color::Red; 5]; 5];
    assert_eq!(count_white(&layout), 0);
    layout[0][0] = Color::White;
    layout[2][3] = Color::White;
    layout[4][4] = Color::White;
    assert_eq!(count_white(&layout), 3);
    assert_eq!(count_white(&vec![vec![Color::White; 5]; 5]), 25);
}

#[test]
fn whiten_nth_picks_among_the_cells_that_are_not_white() {
    let mut layout = vec![vec![Color::White; 5]; 5];
    layout[0][2] = Color::Red;
    layout[1][0] = Color::Blue;
    layout[3][4] = Color::Black;
    let mut first = layout.clone();
    assert_eq!(whiten_nth(&mut first, 0), (0, 2));
    let mut expected = layout.clone();
    expected[0][2] = Color::White;
    assert_eq!(first, expected);
    let mut second = layout.clone();
    assert_eq!(whiten_nth(&mut second, 1), (1, 0));
    let mut expected = layout.clone();
    expected[1][0] = Color::White;
    assert_eq!(second, expected);
    let mut third = layout.clone();
    assert_eq!(whiten_nth(&mut third, 2), (3, 4));
    assert_eq!(count_white(&third), 23);
}

#[test]
fn whiten_nth_on_a_board_without_white_counts_every_cell() {
    for k in 0..25 {
        let mut layout = vec![vec![Color::Green; 5]; 5];
        assert_eq!(whiten_nth(&mut layout, k), (k / 5, k % 5));
        assert_eq!(count_white(&layout), 1);
        assert_eq!(layout[k / 5][k % 5], Color::White);
    }
}

#[test]
fn board_shape_is_five_rows_of_five() {
    assert!(has_board_shape(&vec![vec![Color::Red; 5]; 5]));
    assert!(!has_board_shape(&vec![vec![Color::Red; 5]; 4]));
    assert!(!has_board_shape(&vec![vec![Color::Red; 5]; 6]));
    assert!(!has_board_shape(&vec![vec![Color::Red; 4]; 5]));
    let mut ragged = vec![vec![Color::Red; 5]; 5];
    ragged[4].push(Color::Blue);
    assert!(!has_board_shape(&ragged));
    assert!(!has_board_shape(&[]));
}

#[test]
fn a_layout_without_solution_makes_no_puzzle() {
    assert!(try_layout(vec![vec![Color::Black; 5]; 5], 24).is_none());
    assert!(try_layout(vec![vec![Color::White; 5]; 5], 4).is_none());
}

#[test]
fn a_layout_with_solutions_makes_a_puzzle_of_them() {
    let black = vec![vec![Color::Black; 5]; 5];
    let puzzle = try_layout(black.clone(), 25).unwrap();
    assert_eq!(puzzle.color_grid, black);
    assert_eq!(puzzle.solutions.len(), 1);
    let white = vec![vec![Color::White; 5]; 5];
    let puzzle = try_layout(white.clone(), 5).unwrap();
    assert_eq!(puzzle.color_grid, white);
    assert_eq!(puzzle.solutions.len(), 12);
}

#[test]
fn no_attempt_or_no_room_for_a_line_makes_no_puzzle() {
    assert!(generate_puzzle(25, 0).is_none());
    assert!(generate_puzzle(0, 20).is_none());
    assert!(generate_puzzle(4, 20).is_none());
}

#[test]
fn a_generated_puzzle_has_ten_whites_and_valid_solutions() {
    let mut made = 0;
    for _ in 0..15 {
        if let Some(puzzle) = generate_puzzle(7, 5) {
            made += 1;
            assert!(has_board_shape(&puzzle.color_grid));
            assert!(count_white(&puzzle.color_grid) >= 10);
            assert!(!puzzle.solutions.is_empty());
            for solution in &puzzle.solutions {
                assert!(solution.is_well_formed());
                assert!(solution.check_all_rules());
                assert!(solution.has_five_in_a_row());
                assert!(solution.check_total_checked(7));
                for r in 0..5 {
                    for c in 0..5 {
                        assert_eq!(solution.0[r][c].color, puzzle.color_grid[r][c]);
                        assert!(solution.0[r][c].color != Color::Black || solution.0[r][c].checked);
                    }
                }
            }
        }
    }
    assert!(made > 0);
}

#[test]
fn a_layout_with_ten_whites_or_more_stays_as_it_is() {
    let mut rng = rand::thread_rng();
    let mut layout = vec![vec![Color::Purple; 5]; 5];
    for p in [0, 3, 4, 7, 9, 12, 13, 18, 21, 24] {
        layout[p / 5][p % 5] = Color::White;
    }
    let before = layout.clone();
    enforce_min_white(&mut layout, &mut rng);
    assert_eq!(layout, before);
    layout[1][1] = Color::White;
    let before = layout.clone();
    enforce_min_white(&mut layout, &mut rng);
    assert_eq!(layout, before);
    let mut white = vec![vec![Color::White; 5]; 5];
    enforce_min_white(&mut white, &mut rng);
    assert_eq!(white, vec![vec![Color::White; 5]; 5]);
}

#[test]
fn a_layout_short_of_whites_ends_with_exactly_ten() {
    let mut rng = rand::thread_rng();
    for whites in 0..10 {
        for _ in 0..50 {
            let mut layout = vec![vec![Color::Cyan; 5]; 5];
            layout[2][2] = Color::Black;
            for p in 0..whites {
                layout[(3 * p) / 5][(3 * p) % 5] = Color::White;
            }
            let before = layout.clone();
            assert_eq!(count_white(&before), whites);
            enforce_min_white(&mut layout, &mut rng);
            assert!(has_board_shape(&layout));
            assert_eq!(count_white(&layout), 10);
            for r in 0..5 {
                for c in 0..5 {
                    assert!(layout[r][c] == before[r][c] || layout[r][c] == Color::White);
                }
            }
        }
    }
}

#[test]
fn the_white_quota_reaches_every_cell_that_is_not_white() {
    let mut rng = rand::thread_rng();
    let mut whitened = vec![vec![false; 5]; 5];
    for _ in 0..400 {
        let mut layout = vec![vec![Color::Red; 5]; 5];
        enforce_min_white(&mut layout, &mut rng);
        for r in 0..5 {
            for c in 0..5 {
                whitened[r][c] = whitened[r][c] || layout[r][c] == Color::White;
            }
        }
    }
    assert!(whitened.iter().flatten().all(|hit| *hit));
}
