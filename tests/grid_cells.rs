use neuroswarm::grid::{cell_id, neighbour_positions, GridPos};

fn pos(row: u32, col: u32) -> GridPos {
    GridPos { row, col }
}

#[test]
fn cells_are_numbered_row_major() {
    assert_eq!(cell_id(0, 0, 10), Some(0));
    assert_eq!(cell_id(2, 3, 10), Some(23));
    assert_eq!(cell_id(9, 9, 10), Some(99));
}

#[test]
fn cell_numbers_beyond_u32_do_not_exist() {
    assert_eq!(cell_id(u32::MAX, 0, 2), None);
    assert_eq!(cell_id(1, u32::MAX, 1), None);
    assert_eq!(cell_id(0, u32::MAX, 7), Some(u32::MAX));
}

#[test]
fn interior_cell_has_four_neighbours() {
    assert_eq!(neighbour_positions(5, 5, 10, 10), vec![pos(4, 5), pos(6, 5), pos(5, 4), pos(5, 6)]);
}

#[test]
fn corner_cells_have_two_neighbours() {
    assert_eq!(neighbour_positions(0, 0, 10, 10), vec![pos(1, 0), pos(0, 1)]);
    assert_eq!(neighbour_positions(9, 9, 10, 10), vec![pos(8, 9), pos(9, 8)]);
    assert!(neighbour_positions(0, 0, 1, 1).is_empty());
}
