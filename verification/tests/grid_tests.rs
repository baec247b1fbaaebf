use blazeterm::grid::{Cell, CellFlags, Color, Grid, FLAG_BOLD};

#[test]
fn test_grid_basic() {
    let mut grid = Grid::new(80, 24);

    grid.set(0, 0, Cell { character: 'A', ..Default::default() });

    assert_eq!(grid.get(0, 0).unwrap().character, 'A');
}

#[test]
fn grid_test_scroll() {
    let mut grid = Grid::new(80, 3);
    grid.set(0, 0, Cell { character: 'A', ..Default::default() });
    grid.set(0, 1, Cell { character: 'B', ..Default::default() });
    grid.set(0, 2, Cell { character: 'C', ..Default::default() });

    grid.scroll_up(1);

    assert_eq!(grid.get(0, 0).unwrap().character, 'B');
    assert_eq!(grid.get(0, 1).unwrap().character, 'C');
    assert_eq!(grid.get(0, 2).unwrap().character, ' ');
}

#[test]
fn grid_scroll_past_height_clears() {
    let mut grid = Grid::new(4, 3);
    grid.set(1, 1, Cell { character: 'X', ..Default::default() });
    grid.scroll_up(3);
    for row in 0..3 {
        for col in 0..4 {
            assert_eq!(grid.get(col, row).unwrap().character, ' ');
        }
    }
}

#[test]
fn grid_resize_keeps_overlap() {
    let mut grid = Grid::new(4, 4);
    grid.set(1, 2, Cell { character: 'Q', ..Default::default() });
    grid.set(3, 3, Cell { character: 'Z', ..Default::default() });
    grid.resize(2, 3);
    assert_eq!(grid.cols, 2);
    assert_eq!(grid.rows, 3);
    assert_eq!(grid.get(1, 2).unwrap().character, 'Q');
    assert!(grid.get(3, 3).is_none());
    assert!(grid.is_dirty(0) && grid.is_dirty(1) && grid.is_dirty(2));
}

#[test]
fn grid_out_of_bounds_get_is_none() {
    let grid = Grid::new(8, 2);
    assert!(grid.get(8, 0).is_none());
    assert!(grid.get(0, 2).is_none());
    assert!(grid.get(7, 1).is_some());
}

#[test]
fn grid_get_mut_writes_through() {
    let mut grid = Grid::new(4, 2);
    if let Some(cell) = grid.get_mut(2, 1) {
        cell.character = 'M';
    }
    assert_eq!(grid.get(2, 1).unwrap().character, 'M');
    assert!(grid.is_dirty(1));
    assert!(grid.get_mut(4, 0).is_none());
}

#[test]
fn grid_dirty_tracking() {
    let mut grid = Grid::new(8, 2);
    grid.clear_dirty();
    assert!(!grid.is_dirty(0));
    grid.set(3, 1, Cell { character: 'x', ..Default::default() });
    assert!(grid.is_dirty(1));
    assert!(!grid.is_dirty(0));
    grid.mark_all_dirty();
    assert!(grid.is_dirty(0));
}

#[test]
fn grid_row_slice_reads_row() {
    let mut grid = Grid::new(3, 2);
    grid.set(2, 1, Cell { character: 'R', ..Default::default() });
    let row = grid.row_slice(1);
    assert_eq!(row.len(), 3);
    assert_eq!(row[2].character, 'R');
}

#[test]
fn color_from_ansi256_palette() {
    assert_eq!(Color::from_ansi256(1), Color::rgb(128, 0, 0));
    assert_eq!(Color::from_ansi256(9), Color::rgb(255, 0, 0));
    // cube entry 196 = 16 + 36*5: full red channel
    assert_eq!(Color::from_ansi256(196), Color::rgb(255, 0, 0));
    // the gray ramp starts at 8 and steps by 10
    assert_eq!(Color::from_ansi256(232), Color::rgb(8, 8, 8));
    assert_eq!(Color::from_ansi256(255), Color::rgb(238, 238, 238));
}

#[test]
fn cell_flags_bits() {
    let mut f = CellFlags::empty();
    assert!(!f.contains(FLAG_BOLD));
    f.insert(FLAG_BOLD);
    assert!(f.contains(FLAG_BOLD));
    f.remove(FLAG_BOLD);
    assert!(!f.contains(FLAG_BOLD));
}
