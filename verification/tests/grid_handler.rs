use std::collections::HashSet;

use star_battle::{CellValue, Grid, GridHandler, GridParser, LineColumn};

#[test]
fn test_ok() {
    let parser = GridParser::try_from(vec!["ABBBB", "ABBBB", "CCBBB", "DDDDD", "DEEED"]).unwrap();
    let handler = GridHandler::new(&parser, 1);

    assert_eq!(handler.nb_lines(), 5);
    assert_eq!(handler.nb_columns(), 5);
    assert_eq!(handler.nb_stars(), 1);
    for region in ['A', 'B', 'C', 'D', 'E'] {
        assert!(handler.regions().contains(&region));
    }

    // Region A
    assert_eq!(handler.cell_region(LineColumn::new(0, 0)), 'A');
    assert_eq!(handler.cell_region(LineColumn::new(1, 0)), 'A');

    // Region B
    assert_eq!(handler.cell_region(LineColumn::new(0, 1)), 'B');
    assert_eq!(handler.cell_region(LineColumn::new(0, 2)), 'B');
    assert_eq!(handler.cell_region(LineColumn::new(0, 3)), 'B');
    assert_eq!(handler.cell_region(LineColumn::new(0, 4)), 'B');

    assert_eq!(handler.cell_region(LineColumn::new(1, 1)), 'B');
    assert_eq!(handler.cell_region(LineColumn::new(1, 2)), 'B');
    assert_eq!(handler.cell_region(LineColumn::new(1, 3)), 'B');
    assert_eq!(handler.cell_region(LineColumn::new(1, 4)), 'B');

    assert_eq!(handler.cell_region(LineColumn::new(2, 2)), 'B');
    assert_eq!(handler.cell_region(LineColumn::new(2, 3)), 'B');
    assert_eq!(handler.cell_region(LineColumn::new(2, 4)), 'B');

    // Region C
    assert_eq!(handler.cell_region(LineColumn::new(2, 0)), 'C');
    assert_eq!(handler.cell_region(LineColumn::new(2, 1)), 'C');

    // Region D
    assert_eq!(handler.cell_region(LineColumn::new(3, 0)), 'D');
    assert_eq!(handler.cell_region(LineColumn::new(3, 1)), 'D');
    assert_eq!(handler.cell_region(LineColumn::new(3, 2)), 'D');
    assert_eq!(handler.cell_region(LineColumn::new(3, 3)), 'D');
    assert_eq!(handler.cell_region(LineColumn::new(3, 4)), 'D');

    assert_eq!(handler.cell_region(LineColumn::new(4, 0)), 'D');
    assert_eq!(handler.cell_region(LineColumn::new(4, 4)), 'D');

    // Region E
    assert_eq!(handler.cell_region(LineColumn::new(4, 1)), 'E');
    assert_eq!(handler.cell_region(LineColumn::new(4, 2)), 'E');
    assert_eq!(handler.cell_region(LineColumn::new(4, 3)), 'E');
}

fn assert_adjacents(handler: &GridHandler, (line, column): (usize, usize), expected: Vec<(usize, usize)>) {
    let adjacent_cells: HashSet<LineColumn> =
        handler.adjacent_cells(LineColumn::new(line, column)).into_iter().collect();
    let expected_cells: HashSet<LineColumn> =
        expected.into_iter().map(|(line, column)| LineColumn::new(line, column)).collect();
    assert_eq!(adjacent_cells, expected_cells);
}

#[test]
fn grid_handler_test_adjacent() {
    //  A A A
    //  B B B
    //  C C C
    let parser = GridParser::try_from(vec!["AAA", "BBB", "CCC"]).unwrap();
    let handler = GridHandler::new(&parser, 1);

    assert_adjacents(&handler, (0, 0), vec![(0, 1), (1, 0), (1, 1)]);
    assert_adjacents(&handler, (0, 1), vec![(0, 0), (0, 2), (1, 0), (1, 1), (1, 2)]);
    assert_adjacents(&handler, (0, 2), vec![(0, 1), (1, 1), (1, 2)]);
    assert_adjacents(&handler, (1, 0), vec![(0, 0), (0, 1), (1, 1), (2, 0), (2, 1)]);
    assert_adjacents(
        &handler,
        (1, 1),
        vec![(0, 0), (0, 1), (0, 2), (1, 0), (1, 2), (2, 0), (2, 1), (2, 2)],
    );
    assert_adjacents(&handler, (1, 2), vec![(0, 1), (0, 2), (1, 1), (2, 1), (2, 2)]);
    assert_adjacents(&handler, (2, 0), vec![(1, 0), (1, 1), (2, 1)]);
    assert_adjacents(&handler, (2, 1), vec![(1, 0), (1, 1), (1, 2), (2, 0), (2, 2)]);
    assert_adjacents(&handler, (2, 2), vec![(1, 1), (1, 2), (2, 1)]);
}

#[test]
fn test_is_star_adjacent() {
    let parser = GridParser::try_from(vec!["AAA", "BBB", "CCC"]).unwrap();
    let handler = GridHandler::new(&parser, 1);
    let mut grid = Grid::from(&handler);

    let line_column = LineColumn::new(0, 0);
    assert!(!handler.is_star_adjacent(&grid, line_column));

    let adjacent_line_column = LineColumn::new(1, 1);
    grid.cell_mut(adjacent_line_column).value = CellValue::Star;
    assert!(handler.is_star_adjacent(&grid, line_column));
}

#[test]
fn test_adjacent_cells_in_order() {
    let parser = GridParser::try_from(vec!["AAA", "BBB", "CCC"]).unwrap();
    let handler = GridHandler::new(&parser, 1);
    let cells: Vec<(usize, usize)> = handler
        .adjacent_cells(LineColumn::new(1, 1))
        .iter()
        .map(|lc| (lc.line, lc.column))
        .collect();
    assert_eq!(cells, vec![(0, 1), (0, 0), (0, 2), (1, 0), (2, 0), (2, 1), (2, 2), (1, 2)]);
    // outside the grid: only the cells of the grid that touch the place
    let cells: Vec<(usize, usize)> = handler
        .adjacent_cells(LineColumn::new(3, 1))
        .iter()
        .map(|lc| (lc.line, lc.column))
        .collect();
    assert_eq!(cells, vec![(2, 1), (2, 0), (2, 2)]);
    assert!(handler.adjacent_cells(LineColumn::new(7, 7)).is_empty());
    assert!(handler.adjacent_cells(LineColumn::new(usize::MAX, usize::MAX)).is_empty());
}

#[test]
fn test_regions_smallest_first() {
    let parser = GridParser::try_from(vec!["ABBBB", "ABBBB", "CCBBB", "DDDDD", "DEEED"]).unwrap();
    assert_eq!(parser.regions(), vec!['A', 'B', 'C', 'D', 'E']);
    let handler = GridHandler::new(&parser, 1);
    // sizes: A 2, B 11, C 2, D 7, E 3; A stays before C
    assert_eq!(handler.regions(), vec!['A', 'C', 'E', 'D', 'B']);
    assert_eq!(handler.region_nb_cells('A'), 2);
    assert_eq!(handler.region_nb_cells('B'), 11);
    assert_eq!(handler.region_nb_cells('C'), 2);
    assert_eq!(handler.region_nb_cells('D'), 7);
    assert_eq!(handler.region_nb_cells('E'), 3);
    assert_eq!(handler.region_nb_cells('Z'), 0);
}

#[test]
fn test_try_new() {
    let parser = GridParser::try_from(vec!["ABBBB", "ABBBB", "CCBBB", "DDDDD", "DEEED"]).unwrap();
    assert!(GridHandler::try_new(&parser, 0).is_none());
    let handler = GridHandler::try_new(&parser, 1).unwrap();
    assert_eq!(handler.nb_stars(), 1);
    assert_eq!(handler.regions(), vec!['A', 'C', 'E', 'D', 'B']);
    // region A has 2 cells: too few for 2 stars, which need 3
    assert!(GridHandler::try_new(&parser, 2).is_none());
    assert!(GridHandler::try_new(&parser, usize::MAX).is_none());
    let parser = GridParser::try_from(vec!["AAA", "BBB", "CCC"]).unwrap();
    assert!(GridHandler::try_new(&parser, 2).is_some());
    assert!(GridHandler::try_new(&parser, 3).is_none());
}

#[test]
fn test_is_done() {
    let parser = GridParser::try_from(vec!["ABBBB", "ABBBB", "CCBBB", "DDDDD", "DEEED"]).unwrap();
    let handler = GridHandler::new(&parser, 1);
    let mut grid = Grid::from(&handler);
    assert!(!handler.is_done(&grid));
    let stars = [(0, 0), (1, 3), (2, 1), (3, 4), (4, 2)];
    for line in 0..5 {
        for column in 0..5 {
            grid.cell_mut(LineColumn::new(line, column)).value =
                if stars.contains(&(line, column)) { CellValue::Star } else { CellValue::NoStar };
        }
    }
    assert!(handler.is_done(&grid));
    // one cell unknown again: not done, though nothing is wrong
    grid.cell_mut(LineColumn::new(4, 4)).value = CellValue::Unknown;
    assert!(!handler.is_done(&grid));
    assert!(star_battle::check_bad_rules(&handler, &grid).is_ok());
    // every cell known but a rule broken: not done
    grid.cell_mut(LineColumn::new(4, 4)).value = CellValue::Star;
    assert!(!handler.is_done(&grid));
}
