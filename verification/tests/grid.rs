use star_battle::{CellValue, Grid, GridAction, GridHandler, GridParser, LineColumn};

#[test]
fn test_from_grid_handler() {
    let parser = GridParser::try_from(vec!["ABBBB", "ABBBB", "CCBBB", "DDDDD", "DEEED"]).unwrap();
    let handler = GridHandler::new(&parser, 1);
    let grid = Grid::from(&handler);

    assert_eq!(grid.nb_lines(), 5);
    assert_eq!(grid.nb_columns(), 5);

    for line in 0..grid.nb_lines() {
        for column in 0..grid.nb_columns() {
            let line_column = LineColumn::new(line, column);
            assert_eq!(grid.cell(line_column).value, CellValue::Unknown);
        }
    }
}

#[test]
fn test_clone_cell_mut() {
    let parser = GridParser::try_from(vec!["ABBBB", "ABBBB", "CCBBB", "DDDDD", "DEEED"]).unwrap();
    let handler = GridHandler::new(&parser, 1);
    let grid = Grid::from(&handler);

    let mut grid_cloned = grid.clone();
    let line_column = LineColumn::new(0, 0);
    grid_cloned.cell_mut(line_column).value = CellValue::Star;
    assert_eq!(grid.cell(line_column).value, CellValue::Unknown);
    assert_eq!(grid_cloned.cell(line_column).value, CellValue::Star);
}

#[test]
fn test_new_grid_cells_know_their_place_and_region() {
    let parser = GridParser::try_from(vec!["ABBBB", "ABBBB", "CCBBB", "DDDDD", "DEEED"]).unwrap();
    let handler = GridHandler::new(&parser, 1);
    let grid = Grid::from(&handler);
    for line in 0..5 {
        for column in 0..5 {
            let line_column = LineColumn::new(line, column);
            assert_eq!(grid.cell(line_column).line_column, line_column);
            assert_eq!(grid.cell(line_column).region, handler.cell_region(line_column));
        }
    }
    assert_eq!(grid.cell(LineColumn::new(4, 1)).region, 'E');
}

#[test]
fn test_apply_action_sets_one_cell() {
    let parser = GridParser::try_from(vec!["ABBBB", "ABBBB", "CCBBB", "DDDDD", "DEEED"]).unwrap();
    let handler = GridHandler::new(&parser, 1);
    let mut grid = Grid::from(&handler);

    grid.apply_action(&GridAction::SetStar(LineColumn::new(1, 1)));
    assert_eq!(grid.cell(LineColumn::new(1, 1)).value, CellValue::Star);
    assert_eq!(grid.cell(LineColumn::new(1, 1)).region, 'B');
    assert_eq!(grid.cell(LineColumn::new(1, 2)).value, CellValue::Unknown);
    assert_eq!(grid.cell(LineColumn::new(0, 1)).value, CellValue::Unknown);

    GridAction::SetNoStar(LineColumn::new(1, 1)).apply_action(&mut grid);
    assert_eq!(grid.cell(LineColumn::new(1, 1)).value, CellValue::NoStar);

    GridAction::SetUnknown(LineColumn::new(1, 1)).apply_action(&mut grid);
    assert_eq!(grid.cell(LineColumn::new(1, 1)).value, CellValue::Unknown);
}

#[test]
fn test_same_action_twice_changes_nothing_more() {
    let parser = GridParser::try_from(vec!["ABBBB", "ABBBB", "CCBBB", "DDDDD", "DEEED"]).unwrap();
    let handler = GridHandler::new(&parser, 1);
    let mut grid = Grid::from(&handler);
    let action = GridAction::SetStar(LineColumn::new(3, 2));
    grid.apply_action(&action);
    let once = grid.clone();
    grid.apply_action(&action);
    grid.apply_action(&action);
    for line in 0..5 {
        for column in 0..5 {
            let line_column = LineColumn::new(line, column);
            assert_eq!(grid.cell(line_column), once.cell(line_column));
        }
    }
}

#[test]
fn test_apply_actions_in_order() {
    let parser = GridParser::try_from(vec!["ABBBB", "ABBBB", "CCBBB", "DDDDD", "DEEED"]).unwrap();
    let handler = GridHandler::new(&parser, 1);
    let mut grid = Grid::from(&handler);
    let actions = vec![
        GridAction::SetStar(LineColumn::new(0, 0)),
        GridAction::SetNoStar(LineColumn::new(0, 1)),
        GridAction::SetNoStar(LineColumn::new(0, 0)),
    ];
    grid.apply_actions(&actions);
    assert_eq!(grid.cell(LineColumn::new(0, 0)).value, CellValue::NoStar);
    assert_eq!(grid.cell(LineColumn::new(0, 1)).value, CellValue::NoStar);
    assert_eq!(grid.cell(LineColumn::new(0, 2)).value, CellValue::Unknown);
}

#[test]
fn test_action_accessors() {
    let lc = LineColumn::new(2, 3);
    assert_eq!(GridAction::SetUnknown(lc).line_column(), lc);
    assert_eq!(GridAction::SetStar(lc).line_column(), lc);
    assert_eq!(GridAction::SetNoStar(lc).line_column(), lc);
    assert_eq!(GridAction::SetUnknown(lc).value(), CellValue::Unknown);
    assert_eq!(GridAction::SetStar(lc).value(), CellValue::Star);
    assert_eq!(GridAction::SetNoStar(lc).value(), CellValue::NoStar);
}
