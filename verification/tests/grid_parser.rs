use star_battle::{CellValue, Checker, GridParseError, GridParser, LineColumn};

#[test]
fn grid_parser_test_try_from_ok() {
    let result_grid = GridParser::try_from(
        "
            # Exemple de grille 1★
            ABBBB
            ABBBB
            CCBBB
            DDDDD
            DEEED
        ",
    );
    assert!(result_grid.is_ok());

    let grid = result_grid.unwrap();
    assert_eq!(grid.nb_lines(), 5);
    assert_eq!(grid.nb_columns(), 5);

    // Region A
    assert_eq!(grid.cell_region(LineColumn::new(0, 0)), 'A');
    assert_eq!(grid.cell_region(LineColumn::new(1, 0)), 'A');

    // Region B
    assert_eq!(grid.cell_region(LineColumn::new(0, 1)), 'B');
    assert_eq!(grid.cell_region(LineColumn::new(0, 2)), 'B');
    assert_eq!(grid.cell_region(LineColumn::new(0, 3)), 'B');
    assert_eq!(grid.cell_region(LineColumn::new(0, 4)), 'B');

    assert_eq!(grid.cell_region(LineColumn::new(1, 1)), 'B');
    assert_eq!(grid.cell_region(LineColumn::new(1, 2)), 'B');
    assert_eq!(grid.cell_region(LineColumn::new(1, 3)), 'B');
    assert_eq!(grid.cell_region(LineColumn::new(1, 4)), 'B');

    assert_eq!(grid.cell_region(LineColumn::new(2, 2)), 'B');
    assert_eq!(grid.cell_region(LineColumn::new(2, 3)), 'B');
    assert_eq!(grid.cell_region(LineColumn::new(2, 4)), 'B');

    // Region C
    assert_eq!(grid.cell_region(LineColumn::new(2, 0)), 'C');
    assert_eq!(grid.cell_region(LineColumn::new(2, 1)), 'C');

    // Region D
    assert_eq!(grid.cell_region(LineColumn::new(3, 0)), 'D');
    assert_eq!(grid.cell_region(LineColumn::new(3, 1)), 'D');
    assert_eq!(grid.cell_region(LineColumn::new(3, 2)), 'D');
    assert_eq!(grid.cell_region(LineColumn::new(3, 3)), 'D');
    assert_eq!(grid.cell_region(LineColumn::new(3, 4)), 'D');

    assert_eq!(grid.cell_region(LineColumn::new(4, 0)), 'D');
    assert_eq!(grid.cell_region(LineColumn::new(4, 4)), 'D');

    // Region E
    assert_eq!(grid.cell_region(LineColumn::new(4, 1)), 'E');
    assert_eq!(grid.cell_region(LineColumn::new(4, 2)), 'E');
    assert_eq!(grid.cell_region(LineColumn::new(4, 3)), 'E');
}

fn invalid_grids() -> Vec<&'static str> {
    vec![
        "
            # Grille invalide: Vide de toute définition
            # Manque des définitions de symboles
        ",
        "
            # Grille invalide: Symboles non admissibles
            A\tA
            BBB
        ",
        "
            # Grille invalide: Nombre inconsistant de colonnes
            AAA
            BB
        ",
        "
            # Grille invalide: Zone inconsistante
            AAA
            BBA
            AAB
        ",
    ]
}

#[test]
fn grid_parser_test_try_from_nok() {
    for s in invalid_grids() {
        let grid = GridParser::try_from(s);
        assert!(grid.is_err());
    }
}

#[test]
fn parser_test_try_from_ok() {
    let lines: Vec<Vec<char>> = vec![
        "".chars().collect(),
        "            # Exemple de grille 1★".chars().collect(),
        "            ABBBB".chars().collect(),
        "            ABBBB".chars().collect(),
        "            CCBBB".chars().collect(),
        "            DDDDD".chars().collect(),
        "            DEEED".chars().collect(),
        "        ".chars().collect(),
    ];
    let result_grid = GridParser::try_from_text_lines(&lines);
    assert!(result_grid.is_ok());

    let grid = result_grid.unwrap();
    assert_eq!(grid.nb_lines(), 5);
    assert_eq!(grid.nb_columns(), 5);

    let expected = ["ABBBB", "ABBBB", "CCBBB", "DDDDD", "DEEED"];
    for (line, row) in expected.iter().enumerate() {
        for (column, region) in row.chars().enumerate() {
            assert_eq!(grid.cell_region(LineColumn::new(line, column)), region);
        }
    }
}

#[test]
fn parser_test_try_from_nok() {
    for s in invalid_grids() {
        let lines: Vec<Vec<char>> = s.split('\n').map(|line| line.chars().collect()).collect();
        let grid = GridParser::try_from_text_lines(&lines);
        assert!(grid.is_err());
    }
}

#[test]
fn test_each_parse_error() {
    let grids = invalid_grids();
    assert_eq!(GridParser::try_from(grids[0]).unwrap_err(), GridParseError::NoRegion);
    assert_eq!(
        GridParser::try_from(grids[1]).unwrap_err(),
        GridParseError::IllegalRegionChar(2, '\t')
    );
    assert_eq!(
        GridParser::try_from(grids[2]).unwrap_err(),
        GridParseError::InconsistentLineLength(3)
    );
    assert_eq!(
        GridParser::try_from(grids[3]).unwrap_err(),
        GridParseError::RegionNotConnected('A')
    );
    assert_eq!(GridParser::try_from("").unwrap_err(), GridParseError::NoRegion);
    assert_eq!(
        GridParser::try_from(vec!["AB", "A B"]).unwrap_err(),
        GridParseError::IllegalRegionChar(1, ' ')
    );
    assert_eq!(
        GridParser::try_from(vec!["AB", "BA"]).unwrap_err(),
        GridParseError::RegionNotConnected('A')
    );
}

#[test]
fn test_comment_marks_and_blank_lines_are_skipped() {
    let parser = GridParser::try_from(vec![
        "# a comment",
        "; another",
        "@ a third",
        "",
        "   \t ",
        "  AAB  ",
        "\tABB",
    ])
    .unwrap();
    assert_eq!(parser.nb_lines(), 2);
    assert_eq!(parser.nb_columns(), 3);
    assert_eq!(parser.regions(), vec!['A', 'B']);
    // '*' and '/' are region names like any other
    let parser = GridParser::try_from(vec!["*/", "*/"]).unwrap();
    assert_eq!(parser.regions(), vec!['*', '/']);
}

#[test]
fn test_the_five_sources_agree() {
    let strs = vec!["ABBBB", "ABBBB", "CCBBB", "DDDDD", "DEEED"];
    let strings: Vec<String> = strs.iter().map(|s| s.to_string()).collect();
    let text = "ABBBB\nABBBB\nCCBBB\nDDDDD\nDEEED";
    let from_strs = GridParser::try_from(strs).unwrap();
    let from_ref = GridParser::try_from(&strings).unwrap();
    let from_strings = GridParser::try_from(strings.clone()).unwrap();
    let from_text = GridParser::try_from(text).unwrap();
    let from_slice = GridParser::try_from(&strings[..]).unwrap();
    assert_eq!(from_strs.list_cells(), from_slice.list_cells());
    let copy = from_slice.clone();
    assert_eq!(copy.list_cells(), from_slice.list_cells());
    assert_eq!(copy.regions(), from_slice.regions());
    assert_eq!(from_strs.list_cells(), from_ref.list_cells());
    assert_eq!(from_strs.list_cells(), from_strings.list_cells());
    assert_eq!(from_strs.list_cells(), from_text.list_cells());
    assert_eq!(from_text.regions(), vec!['A', 'B', 'C', 'D', 'E']);
}

#[test]
fn test_cells_of_parser() {
    let parser = GridParser::try_from(vec!["AAB", "ABB"]).unwrap();
    let cell = parser.cell(LineColumn::new(1, 1)).unwrap();
    assert_eq!(cell.line_column, LineColumn::new(1, 1));
    assert_eq!(cell.region, 'B');
    assert_eq!(cell.value, CellValue::Unknown);
    assert!(parser.cell(LineColumn::new(2, 0)).is_none());
    assert!(parser.cell(LineColumn::new(0, 3)).is_none());
    let cells = parser.list_cells();
    assert_eq!(cells.len(), 6);
    let places: Vec<(usize, usize)> =
        cells.iter().map(|c| (c.line_column.line, c.line_column.column)).collect();
    assert_eq!(places, vec![(0, 0), (0, 1), (0, 2), (1, 0), (1, 1), (1, 2)]);
    let region_b: Vec<(usize, usize)> = parser
        .region_cells('B')
        .iter()
        .map(|c| (c.line_column.line, c.line_column.column))
        .collect();
    assert_eq!(region_b, vec![(0, 2), (1, 1), (1, 2)]);
    assert!(parser.region_cells('Z').is_empty());
}

#[test]
fn test_checker_on_each_region() {
    let parser = GridParser::try_from(vec!["AAB", "ABB", "CCC"]).unwrap();
    let checker = Checker::new(parser.clone());
    assert!(checker.check().is_ok());
    assert!(checker.region_ok('A'));
    assert!(checker.region_ok('B'));
    assert!(checker.region_ok('C'));
    assert!(!checker.region_ok('Z'));
}

#[test]
fn test_a_region_that_only_touches_by_a_corner_is_in_two_pieces() {
    assert_eq!(
        GridParser::try_from(vec!["AB", "BA"]).unwrap_err(),
        GridParseError::RegionNotConnected('A')
    );
    assert_eq!(
        GridParser::try_from(vec!["AAA", "BBB", "ABA"]).unwrap_err(),
        GridParseError::RegionNotConnected('A')
    );
    assert!(GridParser::try_from(vec!["ABA", "ABA", "AAA"]).is_ok());
}
