use star_battle::{
    check_bad_rules, BadRuleError, CellValue, Grid, GridHandler, GridParser, GridSurfer,
    LineColumn,
};

fn get_test_grid() -> (GridHandler, Grid) {
    let grid_parser =
        GridParser::try_from(vec!["ABBBB", "ABBBB", "CCBBB", "DDDDD", "DEEED"]).unwrap();
    let grid_handler = GridHandler::new(&grid_parser, 1);
    let grid = Grid::from(&grid_handler);
    (grid_handler, grid)
}

#[test]
fn test_no_star_adjacent() {
    let (grid_handler, mut grid) = get_test_grid();

    grid.cell_mut(LineColumn::new(0, 0)).value = CellValue::Star;
    grid.cell_mut(LineColumn::new(1, 1)).value = CellValue::Star;

    match check_bad_rules(&grid_handler, &grid) {
        Err(BadRuleError::StarAdjacent(_, _)) => (),
        _ => panic!("two touching stars were not detected"),
    }
}

#[test]
fn test_too_many_stars_in_region() {
    let (grid_handler, mut grid) = get_test_grid();

    assert!(check_bad_rules(&grid_handler, &grid).is_ok());

    grid.cell_mut(LineColumn::new(0, 1)).value = CellValue::Star;
    grid.cell_mut(LineColumn::new(0, 4)).value = CellValue::Star;

    if let Err(BadRuleError::TooManyStarsInZone(GridSurfer::Region(region))) =
        check_bad_rules(&grid_handler, &grid)
    {
        assert_eq!(region, 'B', "too many stars in region 'B' (region '{region}' found)");
    } else {
        panic!("too many stars in a region were not detected");
    }
}

#[test]
fn test_not_enough_stars_in_region() {
    let (grid_handler, mut grid) = get_test_grid();

    assert!(check_bad_rules(&grid_handler, &grid).is_ok());

    grid.cell_mut(LineColumn::new(0, 0)).value = CellValue::NoStar;
    grid.cell_mut(LineColumn::new(1, 0)).value = CellValue::NoStar;

    if let Err(BadRuleError::NotEnoughStarsInZone(GridSurfer::Region(region))) =
        check_bad_rules(&grid_handler, &grid)
    {
        assert_eq!(region, 'A', "no star possible in region 'A' (region '{region}' found)");
    } else {
        panic!("a region without room for its star was not detected");
    }
}

#[test]
fn test_too_many_stars_in_line() {
    let (grid_handler, mut grid) = get_test_grid();

    assert!(check_bad_rules(&grid_handler, &grid).is_ok());

    grid.cell_mut(LineColumn::new(1, 0)).value = CellValue::Star;
    grid.cell_mut(LineColumn::new(1, 4)).value = CellValue::Star;

    if let Err(BadRuleError::TooManyStarsInZone(GridSurfer::Line(line))) =
        check_bad_rules(&grid_handler, &grid)
    {
        assert_eq!(line, 1, "too many stars in line '1' (line '{line}' found)");
    } else {
        panic!("too many stars in a line were not detected");
    }
}

#[test]
fn test_not_enough_stars_in_line() {
    let (grid_handler, mut grid) = get_test_grid();

    assert!(check_bad_rules(&grid_handler, &grid).is_ok());

    for column in 0..grid_handler.nb_columns() {
        grid.cell_mut(LineColumn::new(1, column)).value = CellValue::NoStar;
    }

    if let Err(BadRuleError::NotEnoughStarsInZone(GridSurfer::Line(line))) =
        check_bad_rules(&grid_handler, &grid)
    {
        assert_eq!(line, 1, "no star possible in line '1' (line '{line}' found)");
    } else {
        panic!("a line without room for its star was not detected");
    }
}

#[test]
fn test_too_many_stars_in_column() {
    let (grid_handler, mut grid) = get_test_grid();

    assert!(check_bad_rules(&grid_handler, &grid).is_ok());

    grid.cell_mut(LineColumn::new(0, 1)).value = CellValue::Star;
    grid.cell_mut(LineColumn::new(4, 1)).value = CellValue::Star;

    if let Err(BadRuleError::TooManyStarsInZone(GridSurfer::Column(column))) =
        check_bad_rules(&grid_handler, &grid)
    {
        assert_eq!(column, 1, "too many stars in column '1' (column '{column}' found)");
    } else {
        panic!("too many stars in a column were not detected");
    }
}

#[test]
fn test_not_enough_stars_in_colonne() {
    let (grid_handler, mut grid) = get_test_grid();

    assert!(check_bad_rules(&grid_handler, &grid).is_ok());

    for line in 0..grid_handler.nb_lines() {
        grid.cell_mut(LineColumn::new(line, 1)).value = CellValue::NoStar;
    }

    if let Err(BadRuleError::NotEnoughStarsInZone(GridSurfer::Column(column))) =
        check_bad_rules(&grid_handler, &grid)
    {
        assert_eq!(column, 1, "no star possible in column '1' (column '{column}' found)");
    } else {
        panic!("a column without room for its star was not detected");
    }
}

#[test]
fn test_empty_grid_is_consistent() {
    let (grid_handler, grid) = get_test_grid();
    assert_eq!(check_bad_rules(&grid_handler, &grid), Ok(()));
}

#[test]
fn test_exact_errors() {
    let (grid_handler, grid) = get_test_grid();

    let mut touching = grid.clone();
    touching.cell_mut(LineColumn::new(0, 0)).value = CellValue::Star;
    touching.cell_mut(LineColumn::new(1, 1)).value = CellValue::Star;
    assert_eq!(
        check_bad_rules(&grid_handler, &touching),
        Err(BadRuleError::StarAdjacent(LineColumn::new(0, 0), LineColumn::new(1, 1)))
    );

    let mut too_many = grid.clone();
    too_many.cell_mut(LineColumn::new(0, 1)).value = CellValue::Star;
    too_many.cell_mut(LineColumn::new(0, 4)).value = CellValue::Star;
    assert_eq!(
        check_bad_rules(&grid_handler, &too_many),
        Err(BadRuleError::TooManyStarsInZone(GridSurfer::Region('B')))
    );

    let mut not_enough = grid.clone();
    not_enough.cell_mut(LineColumn::new(0, 0)).value = CellValue::NoStar;
    not_enough.cell_mut(LineColumn::new(1, 0)).value = CellValue::NoStar;
    assert_eq!(
        check_bad_rules(&grid_handler, &not_enough),
        Err(BadRuleError::NotEnoughStarsInZone(GridSurfer::Region('A')))
    );

    // touching stars are reported before a zone with too many stars
    let mut both = grid.clone();
    both.cell_mut(LineColumn::new(3, 0)).value = CellValue::Star;
    both.cell_mut(LineColumn::new(3, 4)).value = CellValue::Star;
    both.cell_mut(LineColumn::new(4, 4)).value = CellValue::Star;
    assert_eq!(
        check_bad_rules(&grid_handler, &both),
        Err(BadRuleError::StarAdjacent(LineColumn::new(3, 4), LineColumn::new(4, 4)))
    );
}
