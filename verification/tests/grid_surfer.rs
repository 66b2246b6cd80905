use star_battle::{CellValue, Grid, GridHandler, GridParser, GridSurfer, LineColumn};

fn get_test_grid() -> (GridHandler, Grid) {
    let parser = GridParser::try_from(vec!["ABBBB", "ABBBB", "CCBBB", "DDDDD", "DEEED"]).unwrap();
    let grid_handler = GridHandler::new(&parser, 1);
    let grid = Grid::from(&grid_handler);
    (grid_handler, grid)
}

#[test]
fn test_all_cells() {
    let (grid_handler, grid) = get_test_grid();
    let surfer = grid_handler.surfer(&grid, &GridSurfer::AllCells);
    assert_eq!(surfer.len(), grid_handler.nb_lines() * grid_handler.nb_columns());
}

#[test]
fn test_region() {
    let (grid_handler, grid) = get_test_grid();
    let surfer = grid_handler.surfer(&grid, &GridSurfer::Region('A'));
    assert_eq!(surfer, vec![LineColumn::new(0, 0), LineColumn::new(1, 0)]);
}

#[test]
fn grid_surfer_test_adjacent() {
    let (grid_handler, grid) = get_test_grid();
    let surfer = grid_handler.surfer(&grid, &GridSurfer::Adjacent(LineColumn::new(2, 2)));
    assert_eq!(surfer.len(), 8);
}

#[test]
fn test_line() {
    let (grid_handler, grid) = get_test_grid();
    let surfer = grid_handler.surfer(&grid, &GridSurfer::Line(1));
    assert_eq!(surfer.len(), 5);
    assert_eq!(surfer.iter().filter(|line_column| line_column.line == 1).count(), 5);
}

#[test]
fn test_column() {
    let (grid_handler, grid) = get_test_grid();
    let surfer = grid_handler.surfer(&grid, &GridSurfer::Column(1));
    assert_eq!(surfer.len(), 5);
    assert_eq!(surfer.iter().filter(|line_column| line_column.column == 1).count(), 5);
}

#[test]
fn test_multi_lines() {
    let (grid_handler, grid) = get_test_grid();
    let surfer = grid_handler.surfer(&grid, &GridSurfer::Lines(1, 3));
    assert_eq!(surfer.len(), 15);
    assert_eq!(
        surfer.iter().filter(|line_column| (1..=3).contains(&line_column.line)).count(),
        15
    );
}

#[test]
fn test_multi_columns() {
    let (grid_handler, grid) = get_test_grid();
    let surfer = grid_handler.surfer(&grid, &GridSurfer::Columns(3, 4));
    assert_eq!(surfer.len(), 10);
    assert_eq!(
        surfer.iter().filter(|line_column| (3..=4).contains(&line_column.column)).count(),
        10
    );
}

#[test]
fn test_surfer_cells_count() {
    let (grid_handler, grid) = get_test_grid();
    assert_eq!(grid_handler.surfer_cells_count(&grid, &GridSurfer::Region('A')), 2);
}

#[test]
fn test_surfer_cells_with_value_count() {
    let (grid_handler, mut grid) = get_test_grid();

    grid.cell_mut(LineColumn::new(0, 1)).value = CellValue::Star;
    grid.cell_mut(LineColumn::new(0, 3)).value = CellValue::NoStar;

    assert_eq!(
        grid_handler.surfer_cells_with_value_count(&grid, &GridSurfer::Line(0), &CellValue::Star),
        1
    );
    assert_eq!(
        grid_handler.surfer_cells_with_value_count(&grid, &GridSurfer::Line(0), &CellValue::NoStar),
        1
    );
    assert_eq!(
        grid_handler.surfer_cells_with_value_count(
            &grid,
            &GridSurfer::Line(0),
            &CellValue::Unknown
        ),
        3
    );
}

#[test]
fn test_surfer_is_row_major_and_ignores_values() {
    let (grid_handler, mut grid) = get_test_grid();
    let zones = [
        GridSurfer::AllCells,
        GridSurfer::Region('B'),
        GridSurfer::Adjacent(LineColumn::new(0, 0)),
        GridSurfer::Adjacent(LineColumn::new(4, 2)),
        GridSurfer::Line(4),
        GridSurfer::Column(0),
        GridSurfer::Lines(0, 1),
        GridSurfer::Columns(2, 2),
        GridSurfer::Lines(3, 1),
        GridSurfer::Line(9),
    ];
    let before: Vec<Vec<LineColumn>> =
        zones.iter().map(|zone| grid_handler.surfer(&grid, zone)).collect();
    grid.cell_mut(LineColumn::new(0, 1)).value = CellValue::Star;
    grid.cell_mut(LineColumn::new(4, 4)).value = CellValue::NoStar;
    for (zone, cells) in zones.iter().zip(before.iter()) {
        assert_eq!(&grid_handler.surfer(&grid, zone), cells);
        for pair in cells.windows(2) {
            assert!((pair[0].line, pair[0].column) < (pair[1].line, pair[1].column));
        }
    }
    assert_eq!(
        before[2],
        vec![LineColumn::new(0, 1), LineColumn::new(1, 0), LineColumn::new(1, 1)]
    );
    assert_eq!(
        before[3],
        vec![
            LineColumn::new(3, 1),
            LineColumn::new(3, 2),
            LineColumn::new(3, 3),
            LineColumn::new(4, 1),
            LineColumn::new(4, 3)
        ]
    );
    assert_eq!(before[7].len(), 5);
    assert!(before[8].is_empty());
    assert!(before[9].is_empty());
}
