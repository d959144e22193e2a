use sudoku::layout::{
    GridLayout, CANDIDATE_PADDING, CANDIDATE_SIZE, FONT_SIZE, PADDING, SIZE,
};

#[test]
fn measures() {
    assert_eq!(SIZE, 600);
    assert_eq!(PADDING, 3);
    assert_eq!(FONT_SIZE, 50);
    assert_eq!(CANDIDATE_SIZE, 15);
    assert_eq!(CANDIDATE_PADDING, 2);
    assert_eq!(GridLayout::new().cell_size, 66);
}

#[test]
fn cell_corners() {
    let layout = GridLayout::new();
    assert_eq!(layout.get_cell_pos(0, 0), (3, 3));
    assert_eq!(layout.get_cell_pos(1, 0), (69, 3));
    assert_eq!(layout.get_cell_pos(0, 1), (3, 69));
    assert_eq!(layout.get_cell_pos(8, 8), (531, 531));
    assert_eq!(layout.get_cell_pos(2, 7), (135, 465));
    let small = GridLayout { cell_size: 10 };
    assert_eq!(small.get_cell_pos(3, 4), (33, 43));
}

#[test]
fn digit_anchors() {
    let layout = GridLayout::new();
    assert_eq!(layout.digit_anchor(0, 0), (36, 40));
    assert_eq!(layout.digit_anchor(2, 7), (498, 172));
    assert_eq!(layout.digit_anchor(8, 8), (564, 568));
}

#[test]
fn candidate_anchors() {
    let layout = GridLayout::new();
    // A cell of 66 pixels leaves 62 between the margins: steps of 10.
    assert_eq!(layout.candidate_anchor(0, 0, 0), (15, 18));
    assert_eq!(layout.candidate_anchor(0, 0, 1), (35, 18));
    assert_eq!(layout.candidate_anchor(0, 0, 2), (55, 18));
    assert_eq!(layout.candidate_anchor(0, 0, 3), (15, 38));
    assert_eq!(layout.candidate_anchor(0, 0, 4), (35, 38));
    assert_eq!(layout.candidate_anchor(0, 0, 8), (55, 58));
    assert_eq!(layout.candidate_anchor(2, 7, 5), (465 + 2 + 50, 135 + 5 + 30));
}

#[test]
fn grid_lines() {
    let layout = GridLayout::new();
    assert_eq!(layout.grid_lines(), vec![3, 69, 135, 201, 267, 333, 399, 465, 531, 597]);
    assert_eq!(layout.line_end(), 598);
    let small = GridLayout { cell_size: 60 };
    assert_eq!(small.grid_lines(), vec![3, 63, 123, 183, 243, 303, 363, 423, 483, 543]);
    assert_eq!(small.line_end(), 544);
    let smaller = GridLayout { cell_size: 59 };
    assert_eq!(smaller.grid_lines().len(), 11);
    assert_eq!(smaller.grid_lines()[10], 593);
}

#[test]
fn box_lines_are_heavy() {
    let heavy: Vec<bool> = (0..10).map(GridLayout::is_box_line).collect();
    assert_eq!(heavy, [true, false, false, true, false, false, true, false, false, true]);
}
