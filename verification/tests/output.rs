use bingo_solver::archive::{same_text, should_archive};
use bingo_solver::color::Color;
use bingo_solver::export::{color_tag, solution_record};
use bingo_solver::grid::{Cell, Grid};
use bingo_solver::solver::Solver;
use bingo_solver::text::{color_glyph, format_grid_colors};
use serde_json::{Number, Value};

fn sample_layout() -> Vec<Vec<Color>> {
    let mut layout = vec![vec![Color::White; 5]; 5];
    layout[0][0] = Color::Black;
    layout[0][3] = Color::Blue;
    layout[1][1] = Color::Red;
    layout[1][4] = Color::Purple;
    layout[2][2] = Color::Yellow;
    layout[3][0] = Color::Orange;
    layout[3][3] = Color::Cyan;
    layout[4][1] = Color::Green;
    layout[4][4] = Color::Black;
    layout
}

fn color_of_tag(tag: &str) -> Color {
    match tag {
        "Red" => Color::Red,
        "Blue" => Color::Blue,
        "Black" => Color::Black,
        "Green" => Color::Green,
        "Yellow" => Color::Yellow,
        "Purple" => Color::Purple,
        "White" => Color::White,
        "Orange" => Color::Orange,
        "Cyan" => Color::Cyan,
        other => panic!("unknown colour {other}"),
    }
}

fn grid_to_json(grid: &Grid) -> Value {
    let mut rows = Vec::new();
    for row in &grid.0 {
        let mut cells = Vec::new();
        for cell in row {
            let mut object = serde_json::Map::new();
            object.insert("x".to_string(), Value::Number(Number::from(cell.x as u64)));
            object.insert("y".to_string(), Value::Number(Number::from(cell.y as u64)));
            object.insert("color".to_string(), Value::String(color_tag(cell.color).to_string()));
            object.insert("checked".to_string(), Value::Bool(cell.checked));
            cells.push(Value::Object(object));
        }
        rows.push(Value::Array(cells));
    }
    Value::Array(rows)
}

fn grid_from_json(value: &Value) -> Grid {
    let mut rows = Vec::new();
    for row in value.as_array().unwrap() {
        let mut cells = Vec::new();
        for cell in row.as_array().unwrap() {
            cells.push(Cell {
                x: cell["x"].as_u64().unwrap() as usize,
                y: cell["y"].as_u64().unwrap() as usize,
                color: color_of_tag(cell["color"].as_str().unwrap()),
                checked: cell["checked"].as_bool().unwrap(),
            });
        }
        rows.push(cells);
    }
    Grid(rows)
}

#[test]
fn solutions_written_as_json_validate_when_read_back() {
    let solver = Solver::new(sample_layout(), 9);
    let solutions = solver.solve();
    assert!(!solutions.is_empty());
    let record = solution_record(&solutions);
    let mut top = serde_json::Map::new();
    top.insert(
        "solutions".to_string(),
        Value::Array(record.solutions.iter().map(grid_to_json).collect()),
    );
    top.insert(
        "total_solutions".to_string(),
        Value::Number(Number::from(record.total_solutions as u64)),
    );
    let text = Value::Object(top).to_string();

    let parsed: Value = serde_json::from_str(&text).unwrap();
    let grids = parsed["solutions"].as_array().unwrap();
    assert_eq!(parsed["total_solutions"].as_u64().unwrap() as usize, solutions.len());
    assert_eq!(grids.len(), solutions.len());
    for (value, solution) in grids.iter().zip(&solutions) {
        let grid = grid_from_json(value);
        assert_eq!(&grid, solution);
        assert!(grid.is_well_formed());
        assert!(grid.check_all_rules());
        assert!(grid.has_five_in_a_row());
        assert!(grid.check_total_checked(9));
    }
}

#[test]
fn solution_record_copies_the_boards_and_counts_them() {
    let solver = Solver::new(vec![vec![Color::White; 5]; 5], 5);
    let solutions = solver.solve();
    let record = solution_record(&solutions);
    assert_eq!(record.total_solutions, 12);
    assert_eq!(record.solutions, solutions);
    let empty = solution_record(&[]);
    assert_eq!(empty.total_solutions, 0);
    assert!(empty.solutions.is_empty());
}

#[test]
fn colour_tags_are_the_capitalised_names() {
    let tags: Vec<&str> = [
        Color::Red,
        Color::Blue,
        Color::Black,
        Color::Green,
        Color::Yellow,
        Color::Purple,
        Color::White,
        Color::Orange,
        Color::Cyan,
    ]
    .iter()
    .map(|color| color_tag(*color))
    .collect();
    assert_eq!(
        tags,
        vec!["Red", "Blue", "Black", "Green", "Yellow", "Purple", "White", "Orange", "Cyan"]
    );
    for tag in tags {
        assert_eq!(color_tag(color_of_tag(tag)), tag);
        assert_eq!(format!("{:?}", color_of_tag(tag)), tag);
    }
}

#[test]
fn cells_row_major_lists_colour_and_check_of_each_cell() {
    let mut grid = Grid::new_blank(&sample_layout());
    grid.set_checked(0, 0, true);
    grid.set_checked(3, 3, true);
    let layout = sample_layout();
    let shown = grid.cells_row_major(true);
    let blank = grid.cells_row_major(false);
    assert_eq!(shown.len(), 25);
    assert_eq!(blank.len(), 25);
    for r in 0..5 {
        for c in 0..5 {
            let checked = (r, c) == (0, 0) || (r, c) == (3, 3);
            assert_eq!(shown[5 * r + c], (layout[r][c], checked));
            assert_eq!(blank[5 * r + c], (layout[r][c], false));
        }
    }
}

#[test]
fn layout_is_formatted_one_line_per_row() {
    let text = format_grid_colors(&sample_layout());
    assert_eq!(text, "黑 白 白 蓝 白\n白 红 白 白 紫\n白 白 黄 白 白\n橙 白 白 青 白\n白 绿 白 白 黑");
}

#[test]
fn formatting_takes_layouts_of_any_shape() {
    assert_eq!(format_grid_colors(&[]), "");
    assert_eq!(format_grid_colors(&[vec![]]), "");
    assert_eq!(format_grid_colors(&[vec![Color::Cyan]]), "青");
    assert_eq!(format_grid_colors(&[vec![], vec![Color::Red, Color::Green], vec![]]), "\n红 绿\n");
}

#[test]
fn each_colour_has_its_glyph() {
    assert_eq!(color_glyph(Color::Red), "红");
    assert_eq!(color_glyph(Color::Blue), "蓝");
    assert_eq!(color_glyph(Color::Black), "黑");
    assert_eq!(color_glyph(Color::Green), "绿");
    assert_eq!(color_glyph(Color::Yellow), "黄");
    assert_eq!(color_glyph(Color::Purple), "紫");
    assert_eq!(color_glyph(Color::White), "白");
    assert_eq!(color_glyph(Color::Orange), "橙");
    assert_eq!(color_glyph(Color::Cyan), "青");
}

#[test]
fn reserved_files_and_folders_stay_in_the_data_directory() {
    assert!(!should_archive(true, "solutions.json", "2024-05-01"));
    assert!(!should_archive(true, "blank.png", "2024-05-01"));
    assert!(!should_archive(true, "2024-05-01", "2024-05-01"));
    assert!(!should_archive(false, "solution_0.png", "2024-05-01"));
    assert!(!should_archive(false, "2024-04-30", "2024-05-01"));
    assert!(should_archive(true, "solution_0.png", "2024-05-01"));
    assert!(should_archive(true, "2024-04-30", "2024-05-01"));
    assert!(should_archive(true, "Blank.png", "2024-05-01"));
    assert!(should_archive(true, "solutions.json.bak", "2024-05-01"));
    assert!(should_archive(true, "", "2024-05-01"));
}

#[test]
fn same_text_compares_character_by_character() {
    assert!(same_text("", ""));
    assert!(same_text("abc", "abc"));
    assert!(same_text("黑白", "黑白"));
    assert!(!same_text("abc", "abd"));
    assert!(!same_text("abc", "ab"));
    assert!(!same_text("黑白", "黑红"));
    assert!(!same_text("é", "e"));
}
