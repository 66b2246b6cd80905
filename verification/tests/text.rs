use star_battle::grid_good_ruler::good_rule::display_vec_regions;
use star_battle::{
    display_column, display_line, display_vec_actions, BadRuleError, CellValue, GoodRule, Grid,
    GridAction, GridHandler, GridParseError, GridParser, GridSurfer, LineColumn,
};

fn get_test_grid() -> (GridHandler, Grid) {
    let grid_parser =
        GridParser::try_from(vec!["ABBBB", "ABBBB", "CCBBB", "DDDDD", "DEEED"]).unwrap();
    let grid_handler = GridHandler::new(&grid_parser, 1);
    let grid = Grid::from(&grid_handler);
    (grid_handler, grid)
}

#[test]
fn test_display_line() {
    assert_eq!(display_line(0), "1");
    assert_eq!(display_line(8), "9");
    assert_eq!(display_line(9), "10");
    assert_eq!(display_line(99), "100");
    assert_eq!(display_line(1234566), "1234567");
    for line in 0..2000usize {
        assert_eq!(display_line(line), format!("{}", line + 1));
    }
    assert_eq!(display_line(usize::MAX), format!("{}", usize::MAX as u128 + 1));
}

#[test]
fn test_display_column() {
    assert_eq!(display_column(0), "A");
    assert_eq!(display_column(1), "B");
    assert_eq!(display_column(25), "Z");
    assert_eq!(display_column(26), "[");
    for column in 0..2000usize {
        let expected = std::char::from_u32(u32::from(b'A') + u32::try_from(column).unwrap())
            .unwrap()
            .to_string();
        assert_eq!(display_column(column), expected);
    }
    assert_eq!(display_column(0xD7FF - 65), "\u{D7FF}");
    assert_eq!(display_column(0xE000 - 65), "\u{E000}");
    assert_eq!(display_column(0x10FFFF - 65), "\u{10FFFF}");
}

#[test]
fn test_line_column_text() {
    assert_eq!(LineColumn::new(0, 0).to_text(), "A1");
    assert_eq!(LineColumn::new(2, 1).to_text(), "B3");
    assert_eq!(LineColumn::new(11, 4).to_text(), "E12");
}

#[test]
fn test_action_text() {
    let lc = LineColumn::new(0, 1);
    assert_eq!(GridAction::SetUnknown(lc).to_text(), "B1-> Inconnu");
    assert_eq!(GridAction::SetStar(lc).to_text(), "B1->Etoile");
    assert_eq!(GridAction::SetNoStar(lc).to_text(), "B1->Pas d'étoile");
}

#[test]
fn test_display_vec_actions() {
    assert_eq!(display_vec_actions(&vec![]), "");
    assert_eq!(display_vec_actions(&vec![GridAction::SetStar(LineColumn::new(0, 0))]), "A1->Etoile");
    assert_eq!(
        display_vec_actions(&vec![
            GridAction::SetStar(LineColumn::new(0, 0)),
            GridAction::SetNoStar(LineColumn::new(0, 1)),
            GridAction::SetUnknown(LineColumn::new(9, 2)),
        ]),
        "A1->Etoile, B1->Pas d'étoile, C10-> Inconnu"
    );
}

#[test]
fn test_display_vec_regions() {
    assert_eq!(display_vec_regions(&vec![]), "");
    assert_eq!(display_vec_regions(&vec!['A']), "A");
    assert_eq!(display_vec_regions(&vec!['A', 'é', 'C']), "A+é+C");
}

#[test]
fn test_zone_text() {
    assert_eq!(GridSurfer::AllCells.to_text(), "Toute la grille");
    assert_eq!(GridSurfer::Region('B').to_text(), "Region 'B'");
    assert_eq!(
        GridSurfer::Adjacent(LineColumn::new(1, 2)).to_text(),
        "Cases adjacentes à 'C2'"
    );
    assert_eq!(GridSurfer::Line(0).to_text(), "Ligne 1");
    assert_eq!(GridSurfer::Column(0).to_text(), "Colonne A");
    assert_eq!(GridSurfer::Lines(1, 3).to_text(), "Lignes 2-4");
    assert_eq!(GridSurfer::Columns(3, 4).to_text(), "Colonnes D-E");
}

#[test]
fn test_bad_rule_text() {
    assert_eq!(
        BadRuleError::StarAdjacent(LineColumn::new(0, 0), LineColumn::new(1, 1)).to_text(),
        "Etoile A1 adjacente à l'étoile B2"
    );
    assert_eq!(
        BadRuleError::TooManyStarsInZone(GridSurfer::Region('B')).to_text(),
        "Trop d'étoiles dans 'Region 'B''"
    );
    assert_eq!(
        BadRuleError::NotEnoughStarsInZone(GridSurfer::Line(1)).to_text(),
        "Impossible de placer toutes les étoiles dans 'Ligne 2'"
    );
}

#[test]
fn test_good_rule_text() {
    let actions = vec![
        GridAction::SetNoStar(LineColumn::new(0, 1)),
        GridAction::SetNoStar(LineColumn::new(1, 1)),
    ];
    let shown = "B1->Pas d'étoile, B2->Pas d'étoile";
    assert_eq!(
        GoodRule::NoStarAdjacentToStar(LineColumn::new(0, 0), actions.clone()).to_text(),
        format!("Les cases adjacentes à l'étoile en A1 ne peuvent pas contenir une étoile : {shown}")
    );
    assert_eq!(
        GoodRule::ZoneNoStarCompleted(GridSurfer::Line(0), actions.clone()).to_text(),
        format!("Les cases restantes pour Ligne 1 ne peuvent pas contenir une étoile : {shown}")
    );
    assert_eq!(
        GoodRule::ZoneExclusions(vec!['A', 'C'], GridSurfer::Columns(0, 1), actions.clone())
            .to_text(),
        format!("Les cases restantes des regions A+C qui ne sont pas dans Colonnes A-B ne peuvent être une étoile : {shown}")
    );
    assert_eq!(
        GoodRule::ZoneCombinations(vec!['A'], GridSurfer::Columns(0, 0), actions.clone()).to_text(),
        format!("Les cases restantes sur Colonnes A-A qui ne sont pas dans les régions A ne peuvent être une étoile : {shown}")
    );
    assert_eq!(
        GoodRule::ZoneStarCompleted(
            GridSurfer::Region('A'),
            vec![GridAction::SetStar(LineColumn::new(0, 0))]
        )
        .to_text(),
        "Les cases restantes pour Region 'A' peuvent être qu'une étoile : A1->Etoile"
    );
    assert_eq!(
        GoodRule::InvariantWithZone(GridSurfer::Region('A'), actions).to_text(),
        format!("Toutes les possibilités pour Region 'A' impliquent la seule possibilité : {shown}")
    );
}

#[test]
fn test_parse_error_text() {
    assert_eq!(
        GridParseError::IllegalRegionChar(1, '\t').to_text(),
        "Erreur à la ligne #2: Le caractère '\t' n'est pas valide pour identifier une région"
    );
    assert_eq!(
        GridParseError::InconsistentLineLength(0).to_text(),
        "Erreur à la ligne #1: La ligne de la grille n'est pas la même longueur"
    );
    assert_eq!(GridParseError::NoRegion.to_text(), "La grille n'a aucune région définie");
    assert_eq!(
        GridParseError::RegionNotConnected('A').to_text(),
        "La region 'A' n'est pas un bloc consistant dans cette grille"
    );
}

fn expected_display(handler: &GridHandler, grid: &Grid, with_coordinates: bool) -> String {
    let mut output = String::new();
    if with_coordinates {
        output.push_str("   ");
        for column in 0..handler.nb_columns() {
            output.push_str(&format!(" {:<2}", display_column(column)));
        }
        output.push('\n');
        output.push_str("   ");
        for _ in 0..handler.nb_columns() {
            output.push_str("---");
        }
        output.push('\n');
    }
    for line in 0..handler.nb_lines() {
        if with_coordinates {
            output.push_str(&format!("{:>2}|", display_line(line)));
        }
        for column in 0..handler.nb_columns() {
            let line_column = LineColumn::new(line, column);
            let region = handler.cell_region(line_column);
            match grid.cell(line_column).value {
                CellValue::Star => output.push_str(&format!(" {region}*")),
                CellValue::Unknown => output.push_str(&format!(" {region}?")),
                CellValue::NoStar => output.push_str(&format!(" {region}-")),
            }
        }
        output.push('\n');
    }
    output
}

#[test]
fn test_display() {
    let (handler, mut grid) = get_test_grid();
    grid.apply_action(&GridAction::SetStar(LineColumn::new(0, 0)));
    grid.apply_action(&GridAction::SetNoStar(LineColumn::new(0, 1)));
    assert_eq!(
        handler.display(&grid, false),
        " A* B- B? B? B?\n A? B? B? B? B?\n C? C? B? B? B?\n D? D? D? D? D?\n D? E? E? E? D?\n"
    );
    assert_eq!(
        handler.display(&grid, true),
        "    A  B  C  D  E \n   ---------------\n 1| A* B- B? B? B?\n 2| A? B? B? B? B?\n 3| C? C? B? B? B?\n 4| D? D? D? D? D?\n 5| D? E? E? E? D?\n"
    );
    assert_eq!(handler.display(&grid, true), expected_display(&handler, &grid, true));
    assert_eq!(handler.display(&grid, false), expected_display(&handler, &grid, false));
    // more than 9 lines: the labels of the lines take two characters
    let rows: Vec<String> = (0..12).map(|line| ((b'a' + line) as char).to_string().repeat(3)).collect();
    let parser = GridParser::try_from(&rows).unwrap();
    let handler = GridHandler::new(&parser, 1);
    let grid = Grid::from(&handler);
    let shown = handler.display(&grid, true);
    assert_eq!(shown, expected_display(&handler, &grid, true));
    assert!(shown.contains("\n 9| i? i? i?\n10| j? j? j?\n"));
}
