use bingo_solver::color::Color;
use bingo_solver::render::{
    count_text_lines, line_feeds, picture_layout, tile_rgb, PictureLayout, CELL_SIZE,
    FOOTER_HEIGHT, LINE_SPACING, MARGIN, MAX_TEXT_LINES, RULE_COLUMN_WIDTH,
};

#[test]
fn picture_constants_have_their_values() {
    assert_eq!(CELL_SIZE, 90);
    assert_eq!(LINE_SPACING, 22);
    assert_eq!(MARGIN, 12);
    assert_eq!(RULE_COLUMN_WIDTH, 310);
    assert_eq!(FOOTER_HEIGHT, 30);
}

#[test]
fn tiles_are_painted_in_their_colours() {
    assert_eq!(tile_rgb(Color::Red), (255, 50, 50));
    assert_eq!(tile_rgb(Color::Blue), (70, 130, 180));
    assert_eq!(tile_rgb(Color::Black), (40, 40, 40));
    assert_eq!(tile_rgb(Color::Green), (50, 205, 50));
    assert_eq!(tile_rgb(Color::Yellow), (255, 215, 0));
    assert_eq!(tile_rgb(Color::Purple), (128, 0, 128));
    assert_eq!(tile_rgb(Color::White), (255, 255, 255));
    assert_eq!(tile_rgb(Color::Orange), (255, 165, 0));
    assert_eq!(tile_rgb(Color::Cyan), (0, 255, 255));
}

#[test]
fn line_feeds_are_counted() {
    assert_eq!(line_feeds(""), 0);
    assert_eq!(line_feeds("abc"), 0);
    assert_eq!(line_feeds("a\nb"), 1);
    assert_eq!(line_feeds("\n\n\n"), 3);
    assert_eq!(line_feeds("黑格必须勾。\n"), 1);
}

#[test]
fn texts_take_one_line_more_than_they_have_line_feeds() {
    assert_eq!(count_text_lines(&[]), Some(0));
    assert_eq!(count_text_lines(&[" "]), Some(1));
    assert_eq!(count_text_lines(&["a", "b\nc", "", "\n\n"]), Some(1 + 2 + 1 + 3));
}

#[test]
fn too_many_lines_of_text_are_refused() {
    let long = "\n".repeat(MAX_TEXT_LINES as usize / 8 + 1);
    let texts = vec![long.as_str(); 8];
    assert_eq!(count_text_lines(&texts[..7]), Some(7 * (MAX_TEXT_LINES / 8 + 2)));
    assert_eq!(count_text_lines(&texts), None);
}

#[test]
fn picture_with_little_text_is_as_high_as_the_board() {
    let expected = PictureLayout { width: 796, height: 504, grid_start_x: 322, grid_start_y: 15 };
    assert_eq!(picture_layout(0), expected);
    assert_eq!(picture_layout(19), expected);
    assert_eq!(picture_layout(21), expected);
}

#[test]
fn picture_with_much_text_is_as_high_as_the_text() {
    assert_eq!(
        picture_layout(22),
        PictureLayout { width: 796, height: 12 + 22 * 22 + 30, grid_start_x: 322, grid_start_y: 26 }
    );
    assert_eq!(
        picture_layout(100),
        PictureLayout { width: 796, height: 2242, grid_start_x: 322, grid_start_y: 884 }
    );
    let largest = picture_layout(MAX_TEXT_LINES);
    assert_eq!(largest.height, 12 + 22 * MAX_TEXT_LINES + 30);
    assert!(largest.height <= i32::MAX as u32);
}

#[test]
fn tiles_stand_side_by_side_from_the_start_of_the_board() {
    let layout = picture_layout(19);
    assert_eq!(layout.tile_origin(0, 0), (322, 15));
    assert_eq!(layout.tile_origin(0, 4), (322 + 360, 15));
    assert_eq!(layout.tile_origin(3, 1), (322 + 90, 15 + 270));
    assert_eq!(layout.tile_origin(4, 4), (682, 375));
    assert_eq!(layout.footer_baseline(), 504 - 30 + 8);
}

#[test]
fn a_layout_is_well_formed_when_the_board_fits() {
    assert!(picture_layout(0).is_well_formed());
    assert!(picture_layout(MAX_TEXT_LINES).is_well_formed());
    let good = PictureLayout { width: 450, height: 450, grid_start_x: 0, grid_start_y: 0 };
    assert!(good.is_well_formed());
    assert!(!PictureLayout { width: 449, ..good }.is_well_formed());
    assert!(!PictureLayout { grid_start_y: 1, ..good }.is_well_formed());
    assert!(!PictureLayout { grid_start_x: u32::MAX, ..good }.is_well_formed());
    let flat = PictureLayout { width: 0, height: 29, grid_start_x: 0, grid_start_y: 0 };
    assert!(!flat.is_well_formed());
}
