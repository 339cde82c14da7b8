use bingo_solver::color::Color;
use bingo_solver::grid::Grid;
use bingo_solver::solver::Solver;

fn uniform(color: Color) -> Vec<Vec<Color>> {
    vec![vec![color; 5]; 5]
}

fn white_except(cells: &[(usize, usize, Color)]) -> Vec<Vec<Color>> {
    let mut layout = uniform(Color::White);
    for &(r, c, color) in cells {
        layout[r][c] = color;
    }
    layout
}

fn bit(mask: u32, r: usize, c: usize) -> bool {
    mask & (1 << (5 * r + c)) != 0
}

fn mask_of(grid: &Grid) -> u32 {
    let mut mask = 0u32;
    for r in 0..5 {
        for c in 0..5 {
            if grid.0[r][c].checked {
                mask |= 1 << (5 * r + c);
            }
        }
    }
    mask
}

fn line_masks() -> Vec<u32> {
    let mut lines = Vec::new();
    for r in 0..5 {
        lines.push((0..5).map(|c| 1u32 << (5 * r + c)).sum());
    }
    for c in 0..5 {
        lines.push((0..5).map(|r| 1u32 << (5 * r + c)).sum());
    }
    lines.push((0..5).map(|i| 1u32 << (6 * i)).sum());
    lines.push((0..5).map(|i| 1u32 << (5 * i + 4 - i)).sum());
    lines
}

fn has_line(mask: u32, lines: &[u32]) -> bool {
    lines.iter().any(|&line| mask & line == line)
}

/// Runs the search once for each way to fill the first row whose number, read
/// as five bits, lies in `rows`, and hands every board that is found to
/// `visit`. Returns the number of boards found.
fn search_by_first_row(
    solver: &Solver,
    rows: std::ops::Range<u32>,
    mut visit: impl FnMut(&Grid),
) -> usize {
    let mut found = 0;
    for row in rows {
        let mut grid = solver.initialize_grid();
        let mut allowed = true;
        for c in 0..5 {
            let wanted = row & (1 << c) != 0;
            if solver.color_grid[0][c] == Color::Black {
                allowed = allowed && wanted;
            } else {
                grid.set_checked(0, c, wanted);
            }
        }
        if !allowed {
            continue;
        }
        let checked = grid.count_total_checked();
        let mut solutions = Vec::new();
        solver.backtrack(1, 0, &mut grid, &mut solutions, checked);
        for solution in &solutions {
            assert_eq!(mask_of(solution) & 31, row);
            visit(solution);
        }
        found += solutions.len();
    }
    found
}

/// Compares what the search returns for the first rows in `rows` with
/// `expected`, asked of each check state with such a first row: the search
/// must return exactly the states that `expected` accepts, each once.
fn assert_solutions_are(
    solver: &Solver,
    rows: std::ops::Range<u32>,
    expected: impl Fn(u32) -> bool,
) -> usize {
    let mut seen = vec![false; 1 << 25];
    let found = search_by_first_row(solver, rows.clone(), |grid| {
        let mask = mask_of(grid) as usize;
        assert!(!seen[mask], "check state {mask:#x} was returned twice");
        seen[mask] = true;
    });
    let mut count = 0;
    for rest in 0u32..(1 << 20) {
        for row in rows.clone() {
            let mask = (rest << 5) | row;
            assert_eq!(seen[mask as usize], expected(mask), "check state {mask:#x}");
            if seen[mask as usize] {
                count += 1;
            }
        }
    }
    assert_eq!(found, count);
    count
}

/// The number of check states with a completed line, by inclusion and
/// exclusion over the twelve lines.
fn states_with_a_line() -> i64 {
    let lines = line_masks();
    let mut total = 0i64;
    for chosen in 1u32..(1 << 12) {
        let mut cells = 0u32;
        for (k, line) in lines.iter().enumerate() {
            if chosen & (1 << k) != 0 {
                cells |= line;
            }
        }
        let free = 25 - cells.count_ones();
        let sign = if chosen.count_ones() % 2 == 1 { 1 } else { -1 };
        total += sign * (1i64 << free);
    }
    total
}

const WHITE_PARTS: [usize; 8] =
    [791_811, 975_308, 975_308, 1_150_361, 1_141_114, 1_298_713, 1_299_655, 2_084_839];

fn all_white_part(part: u32) {
    let solver = Solver::new(uniform(Color::White), 25);
    let lines = line_masks();
    let count =
        assert_solutions_are(&solver, 4 * part..4 * part + 4, |mask| has_line(mask, &lines));
    assert_eq!(count, WHITE_PARTS[part as usize]);
}

#[test]
fn all_white_board_has_as_many_solutions_as_states_with_a_line() {
    assert_eq!(states_with_a_line(), 9_717_109);
    assert_eq!(WHITE_PARTS.iter().sum::<usize>(), 9_717_109);
}

#[test]
fn all_white_board_first_rows_0_to_3() {
    all_white_part(0);
}

#[test]
fn all_white_board_first_rows_4_to_7() {
    all_white_part(1);
}

#[test]
fn all_white_board_first_rows_8_to_11() {
    all_white_part(2);
}

#[test]
fn all_white_board_first_rows_12_to_15() {
    all_white_part(3);
}

#[test]
fn all_white_board_first_rows_16_to_19() {
    all_white_part(4);
}

#[test]
fn all_white_board_first_rows_20_to_23() {
    all_white_part(5);
}

#[test]
fn all_white_board_first_rows_24_to_27() {
    all_white_part(6);
}

#[test]
fn all_white_board_first_rows_28_to_31() {
    all_white_part(7);
}

#[test]
fn all_white_board_with_cap_five_returns_the_twelve_lines() {
    let solver = Solver::new(uniform(Color::White), 5);
    let solutions = solver.solve();
    let lines = line_masks();
    assert_eq!(solutions.len(), 12);
    let mut masks: Vec<u32> = solutions.iter().map(mask_of).collect();
    masks.sort();
    let mut expected = lines.clone();
    expected.sort();
    assert_eq!(masks, expected);
}

#[test]
fn all_white_board_with_cap_six_adds_one_cell_to_a_line() {
    let solver = Solver::new(uniform(Color::White), 6);
    let solutions = solver.solve();
    assert_eq!(solutions.len(), 12 + 12 * 20);
    let lines = line_masks();
    for solution in &solutions {
        let mask = mask_of(solution);
        assert!(has_line(mask, &lines));
        assert!(mask.count_ones() <= 6);
    }
}

#[test]
fn all_white_board_with_cap_four_has_no_solution() {
    let solver = Solver::new(uniform(Color::White), 4);
    assert!(solver.solve().is_empty());
}

#[test]
fn all_black_board_has_one_solution_with_every_cell_checked() {
    for cap in [25usize, 26, 100, usize::MAX] {
        let solver = Solver::new(uniform(Color::Black), cap);
        let solutions = solver.solve();
        assert_eq!(solutions.len(), 1);
        let solution = &solutions[0];
        assert_eq!(mask_of(solution), (1 << 25) - 1);
        assert!(solution.check_all_rules());
        assert!(solution.has_five_in_a_row());
        for r in 0..5 {
            for c in 0..5 {
                assert_eq!(solution.0[r][c].color, Color::Black);
                assert_eq!((solution.0[r][c].x, solution.0[r][c].y), (r, c));
            }
        }
    }
}

#[test]
fn all_black_board_under_cap_24_has_no_solution() {
    let solver = Solver::new(uniform(Color::Black), 24);
    assert!(solver.solve().is_empty());
}

const RED_PARTS: [usize; 8] =
    [790_819, 974_316, 974_316, 1_149_369, 1_139_190, 1_296_789, 1_297_731, 2_079_413];

fn red_centre_part(part: u32) {
    let solver = Solver::new(white_except(&[(2, 2, Color::Red)]), 25);
    let lines = line_masks();
    let around: u32 = [(1, 1), (1, 2), (1, 3), (2, 1), (2, 3), (3, 1), (3, 2), (3, 3)]
        .iter()
        .map(|&(r, c)| 1u32 << (5 * r + c))
        .sum();
    let count = assert_solutions_are(&solver, 4 * part..4 * part + 4, |mask| {
        has_line(mask, &lines) && mask & around != 0
    });
    assert_eq!(count, RED_PARTS[part as usize]);
}

#[test]
fn red_centre_first_rows_0_to_3() {
    red_centre_part(0);
}

#[test]
fn red_centre_first_rows_4_to_7() {
    red_centre_part(1);
}

#[test]
fn red_centre_first_rows_8_to_11() {
    red_centre_part(2);
}

#[test]
fn red_centre_first_rows_12_to_15() {
    red_centre_part(3);
}

#[test]
fn red_centre_first_rows_16_to_19() {
    red_centre_part(4);
}

#[test]
fn red_centre_first_rows_20_to_23() {
    red_centre_part(5);
}

#[test]
fn red_centre_first_rows_24_to_27() {
    red_centre_part(6);
}

#[test]
fn red_centre_first_rows_28_to_31() {
    red_centre_part(7);
}

fn cyan_corner_part(rows: std::ops::Range<u32>) -> usize {
    let layout =
        white_except(&[(0, 0, Color::Cyan), (0, 1, Color::Black), (1, 0, Color::Black)]);
    let solver = Solver::new(layout, 25);
    let lines = line_masks();
    let mut seen = vec![false; 1 << 25];
    let found = search_by_first_row(&solver, rows.clone(), |grid| {
        let mask = mask_of(grid);
        assert!(!bit(mask, 0, 0) || bit(mask, 0, 1) || bit(mask, 1, 0));
        assert!(bit(mask, 0, 1) && bit(mask, 1, 0));
        assert!(has_line(mask, &lines));
        assert!(!seen[mask as usize]);
        seen[mask as usize] = true;
    });
    for rest in 0u32..(1 << 20) {
        for row in rows.clone() {
            let mask = (rest << 5) | row;
            let expected = bit(mask, 0, 1) && bit(mask, 1, 0) && has_line(mask, &lines);
            assert_eq!(seen[mask as usize], expected, "check state {mask:#x}");
        }
    }
    found
}

#[test]
fn cyan_corner_between_blacks_first_rows_0_to_15() {
    assert_eq!(cyan_corner_part(0..16), 1_239_677);
}

#[test]
fn cyan_corner_between_blacks_first_rows_16_to_31() {
    assert_eq!(cyan_corner_part(16..32), 1_814_412);
}

fn green_corner_part(rows: std::ops::Range<u32>) -> usize {
    let solver = Solver::new(white_except(&[(0, 0, Color::Green)]), 25);
    let lines = line_masks();
    let row: u32 = (0..5).map(|c| 1u32 << c).sum();
    let col: u32 = (0..5).map(|r| 1u32 << (5 * r)).sum();
    assert_solutions_are(&solver, rows, |mask| {
        has_line(mask, &lines) && (mask & row).count_ones() == (mask & col).count_ones()
    })
}

#[test]
fn green_corner_balances_row_and_column_first_rows_0_to_15() {
    assert_eq!(green_corner_part(0..16), 942_395);
}

#[test]
fn green_corner_balances_row_and_column_first_rows_16_to_31() {
    assert_eq!(green_corner_part(16..32), 1_401_498);
}

#[test]
fn solve_agrees_with_the_search_by_first_row() {
    let layout = white_except(&[
        (0, 0, Color::Black),
        (0, 3, Color::Blue),
        (1, 1, Color::Red),
        (1, 4, Color::Purple),
        (2, 2, Color::Yellow),
        (3, 0, Color::Orange),
        (3, 3, Color::Cyan),
        (4, 1, Color::Green),
        (4, 4, Color::Black),
    ]);
    let solver = Solver::new(layout, 9);
    let solutions = solver.solve();
    let mut whole: Vec<u32> = solutions.iter().map(mask_of).collect();
    let mut parts = Vec::new();
    search_by_first_row(&solver, 0..32, |grid| parts.push(mask_of(grid)));
    whole.sort();
    parts.sort();
    assert_eq!(whole, parts);
    assert!(!whole.is_empty());
    for pair in whole.windows(2) {
        assert!(pair[0] != pair[1]);
    }
    for solution in &solutions {
        assert!(solution.is_well_formed());
        assert!(solution.check_all_rules());
        assert!(solution.has_five_in_a_row());
        assert!(solution.check_total_checked(9));
        assert!(solution.0[0][0].checked && solution.0[4][4].checked);
    }
}

#[test]
fn solver_is_deterministic_as_a_set() {
    let layout = white_except(&[(1, 1, Color::Red), (2, 3, Color::Blue), (4, 0, Color::Black)]);
    let first = Solver::new(layout.clone(), 7).solve();
    let second = Solver::new(layout, 7).solve();
    let mut a: Vec<u32> = first.iter().map(mask_of).collect();
    let mut b: Vec<u32> = second.iter().map(mask_of).collect();
    a.sort();
    b.sort();
    assert!(!a.is_empty());
    assert_eq!(a, b);
}

#[test]
fn lowering_the_cap_keeps_the_solutions_within_it() {
    let layout = white_except(&[(1, 1, Color::Red), (2, 3, Color::Blue), (4, 0, Color::Black)]);
    let wide: Vec<u32> = Solver::new(layout.clone(), 7).solve().iter().map(mask_of).collect();
    let mut narrow: Vec<u32> = Solver::new(layout, 6).solve().iter().map(mask_of).collect();
    let mut kept: Vec<u32> = wide.into_iter().filter(|mask| mask.count_ones() <= 6).collect();
    narrow.sort();
    kept.sort();
    assert_eq!(narrow, kept);
}

#[test]
fn backtrack_skips_what_the_list_already_holds() {
    let solver = Solver::new(uniform(Color::White), 5);
    let first = solver.solve();
    let mut solutions = vec![first[3].clone(), first[7].clone()];
    let mut grid = solver.initialize_grid();
    solver.backtrack(0, 0, &mut grid, &mut solutions, 0);
    assert_eq!(solutions.len(), 12);
    assert_eq!(mask_of(&solutions[0]), mask_of(&first[3]));
    assert_eq!(mask_of(&solutions[1]), mask_of(&first[7]));
    let mut masks: Vec<u32> = solutions.iter().map(mask_of).collect();
    masks.sort();
    masks.dedup();
    assert_eq!(masks.len(), 12);
    assert_eq!(mask_of(&grid), 0);
}

#[test]
fn next_position_walks_the_board_in_row_major_order() {
    let solver = Solver::new(uniform(Color::White), 25);
    assert_eq!(solver.next_position(0, 0), (0, 1));
    assert_eq!(solver.next_position(0, 4), (1, 0));
    assert_eq!(solver.next_position(2, 3), (2, 4));
    assert_eq!(solver.next_position(4, 4), (5, 0));
}

#[test]
fn initialize_grid_checks_exactly_the_black_cells() {
    let layout = white_except(&[(1, 2, Color::Black), (3, 4, Color::Black), (2, 2, Color::Red)]);
    let solver = Solver::new(layout.clone(), 25);
    let grid = solver.initialize_grid();
    assert!(grid.is_well_formed());
    for r in 0..5 {
        for c in 0..5 {
            assert_eq!(grid.0[r][c].color, layout[r][c]);
            assert_eq!(grid.0[r][c].checked, layout[r][c] == Color::Black);
        }
    }
    assert_eq!(grid.count_total_checked(), 2);
}
