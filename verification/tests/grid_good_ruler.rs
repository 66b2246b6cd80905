use star_battle::grid_good_ruler::collector::{count_ones, Collector};
use star_battle::grid_good_ruler::rule_generic_possible_stars::{
    combinaisons_count, rule_generic_possible_stars, try_star_complete, ZoneToExamine,
};
use star_battle::grid_good_ruler::rule_no_star_adjacent_to_star::rule_no_star_adjacent_to_star;
use star_battle::grid_good_ruler::rule_region_combinations::{
    rule_region_1_combinations, rule_region_2_combinations, rule_region_combinations_among,
    rule_region_generic_combinations,
};
use star_battle::grid_good_ruler::rule_region_exclusions::{
    rule_region_1_exclusions, rule_region_4_exclusions, rule_region_generic_exclusions,
};
use star_battle::grid_good_ruler::rule_region_possible_stars::rule_region_possible_stars;
use star_battle::grid_good_ruler::rule_value_completed::{rule_value_completed, try_value_completed};
use star_battle::grid_good_ruler::rule_zone_possible_stars::{
    rule_line_column_recursive_possible_stars, rule_multi_2_lines_columns_recursive_possible_stars,
    rule_multi_3_lines_columns_recursive_possible_stars,
    rule_multi_4_lines_columns_recursive_possible_stars, rule_region_recursive_possible_stars,
};
use star_battle::grid_good_ruler::star_adjacent::StarAdjacent;
use star_battle::grid_good_ruler::variant::Variant;
use star_battle::{
    check_bad_rules, get_good_rule, BadRuleError, CellValue, GoodRule, Grid, GridAction,
    GridHandler, GridParser, GridSurfer, LineColumn,
};

fn get_test_grid() -> (GridHandler, Grid) {
    let grid_parser =
        GridParser::try_from(vec!["ABBBB", "ABBBB", "CCBBB", "DDDDD", "DEEED"]).unwrap();
    let grid_handler = GridHandler::new(&grid_parser, 1);
    let grid = Grid::from(&grid_handler);
    (grid_handler, grid)
}

fn get_reference_grid() -> (GridHandler, Grid) {
    let grid_text = "
# Exemple de grille 2★
AABBBCCCC
AAABBCCCC
AAABBCCCC
ADDEEEDCF
ADDDDDDFF
DDDDDGGGF
HDHHDFGGF
HHHHIFFFF
HHHIIIIIF
        ";
    let grid_parser = GridParser::try_from(grid_text).unwrap();
    let grid_handler = GridHandler::new(&grid_parser, 2);
    let grid = Grid::from(&grid_handler);
    (grid_handler, grid)
}

fn no_star_cells(actions: &[GridAction]) -> Vec<(usize, usize)> {
    actions
        .iter()
        .map(|action| match action {
            GridAction::SetNoStar(lc) => (lc.line, lc.column),
            _ => panic!("an action other than SetNoStar"),
        })
        .collect()
}

fn check_no_star_around_center(good_rule: Option<GoodRule>, grid_handler: &GridHandler, grid: &Grid) {
    let center_line_column = LineColumn::new(2, 2);
    match good_rule {
        Some(GoodRule::NoStarAdjacentToStar(line_column, actions)) => {
            assert_eq!(line_column, center_line_column);
            assert_eq!(actions.len(), 8);
            let adjacent_to_center_line_column =
                grid_handler.surfer(grid, &GridSurfer::Adjacent(center_line_column));
            for action in actions {
                match action {
                    GridAction::SetNoStar(line_column) => {
                        assert!(adjacent_to_center_line_column.contains(&line_column));
                    }
                    _ => panic!("the action was not found"),
                }
            }
        }
        _ => panic!("the rule was not found"),
    }
}

#[test]
fn grid_good_ruler_test_no_star_adjacent_to_star() {
    let (grid_handler, mut grid) = get_test_grid();
    grid.apply_action(&GridAction::SetStar(LineColumn::new(2, 2)));
    let good_rule = rule_no_star_adjacent_to_star(&grid_handler, &grid);
    check_no_star_around_center(good_rule, &grid_handler, &grid);
}

#[test]
fn rule_no_star_adjacent_to_star_test_no_star_adjacent_to_star() {
    let (grid_handler, mut grid) = get_test_grid();
    grid.apply_action(&GridAction::SetStar(LineColumn::new(2, 2)));
    let good_rule = rule_no_star_adjacent_to_star(&grid_handler, &grid);
    check_no_star_around_center(good_rule, &grid_handler, &grid);
}

#[test]
fn test_no_star_adjacent_lists_unknown_neighbours_in_order() {
    let (grid_handler, mut grid) = get_test_grid();
    assert!(rule_no_star_adjacent_to_star(&grid_handler, &grid).is_none());
    grid.apply_action(&GridAction::SetStar(LineColumn::new(4, 4)));
    grid.apply_action(&GridAction::SetStar(LineColumn::new(0, 0)));
    grid.apply_action(&GridAction::SetNoStar(LineColumn::new(1, 1)));
    match rule_no_star_adjacent_to_star(&grid_handler, &grid) {
        Some(GoodRule::NoStarAdjacentToStar(line_column, actions)) => {
            assert_eq!(line_column, LineColumn::new(0, 0));
            assert_eq!(no_star_cells(&actions), vec![(1, 0), (0, 1)]);
        }
        _ => panic!("the rule was not found"),
    }
    grid.apply_action(&GridAction::SetNoStar(LineColumn::new(1, 0)));
    grid.apply_action(&GridAction::SetNoStar(LineColumn::new(0, 1)));
    match rule_no_star_adjacent_to_star(&grid_handler, &grid) {
        Some(GoodRule::NoStarAdjacentToStar(line_column, actions)) => {
            assert_eq!(line_column, LineColumn::new(4, 4));
            assert_eq!(no_star_cells(&actions), vec![(3, 4), (3, 3), (4, 3)]);
        }
        _ => panic!("the rule was not found"),
    }
}

fn all_variant_pairs() -> Vec<((Variant, Variant), Variant)> {
    vec![
        ((Variant::Init, Variant::Init), Variant::Init),
        ((Variant::Init, Variant::Star), Variant::Star),
        ((Variant::Init, Variant::NoStar), Variant::NoStar),
        ((Variant::Init, Variant::Unknown), Variant::Unknown),
        ((Variant::Init, Variant::Variable), Variant::Variable),
        ((Variant::Star, Variant::Init), Variant::Star),
        ((Variant::NoStar, Variant::Init), Variant::NoStar),
        ((Variant::Unknown, Variant::Init), Variant::Unknown),
        ((Variant::Variable, Variant::Init), Variant::Variable),
        ((Variant::Star, Variant::Star), Variant::Star),
        ((Variant::Star, Variant::NoStar), Variant::Variable),
        ((Variant::Star, Variant::Unknown), Variant::Variable),
        ((Variant::Star, Variant::Variable), Variant::Variable),
        ((Variant::NoStar, Variant::Star), Variant::Variable),
        ((Variant::NoStar, Variant::NoStar), Variant::NoStar),
        ((Variant::NoStar, Variant::Unknown), Variant::Variable),
        ((Variant::NoStar, Variant::Variable), Variant::Variable),
        ((Variant::Unknown, Variant::Star), Variant::Variable),
        ((Variant::Unknown, Variant::NoStar), Variant::Variable),
        ((Variant::Unknown, Variant::Unknown), Variant::Unknown),
        ((Variant::Unknown, Variant::Variable), Variant::Variable),
        ((Variant::Variable, Variant::Star), Variant::Variable),
        ((Variant::Variable, Variant::NoStar), Variant::Variable),
        ((Variant::Variable, Variant::Unknown), Variant::Variable),
        ((Variant::Variable, Variant::Variable), Variant::Variable),
    ]
}

#[test]
fn invariant_test_combine_variants() {
    for ((v1, v2), expected) in all_variant_pairs() {
        assert_eq!(v1.combine(v2), expected);
    }
}

#[test]
fn rule_star_complete_test_combine_variants() {
    for ((v1, v2), expected) in all_variant_pairs() {
        assert_eq!(v1.combine(v2), expected);
    }
}

#[test]
fn test_combine_is_a_commutative_monoid() {
    let all =
        [Variant::Init, Variant::Star, Variant::NoStar, Variant::Unknown, Variant::Variable];
    for a in all {
        assert_eq!(Variant::Init.combine(a), a);
        assert_eq!(a.combine(Variant::Init), a);
        for b in all {
            assert_eq!(a.combine(b), b.combine(a));
            for c in all {
                assert_eq!(a.combine(b).combine(c), a.combine(b.combine(c)));
            }
        }
    }
}

fn check_combinaisons_count() {
    let (grid_handler, mut grid) = get_test_grid();

    assert_eq!(combinaisons_count(&grid_handler, &grid, &GridSurfer::Region('A'), 1), 2);
    assert_eq!(combinaisons_count(&grid_handler, &grid, &GridSurfer::Line(0), 2), 20);

    grid.cell_mut(LineColumn::new(0, 0)).value = CellValue::Star;

    assert_eq!(combinaisons_count(&grid_handler, &grid, &GridSurfer::Column(0), 2), 4);
}

#[test]
fn rule_generic_possible_stars_test_combinaisons_count() {
    check_combinaisons_count();
}

#[test]
fn rule_star_complete_test_combinaisons_count() {
    check_combinaisons_count();
}

#[test]
fn test_combinaisons_count_edges() {
    let (grid_handler, mut grid) = get_test_grid();
    // the zone has its stars already
    grid.cell_mut(LineColumn::new(0, 1)).value = CellValue::Star;
    assert_eq!(combinaisons_count(&grid_handler, &grid, &GridSurfer::Line(0), 1), usize::MAX);
    assert_eq!(combinaisons_count(&grid_handler, &grid, &GridSurfer::Line(0), 0), usize::MAX);
    // as many unknown cells as stars missing, or fewer
    assert_eq!(combinaisons_count(&grid_handler, &grid, &GridSurfer::Region('A'), 2), 0);
    assert_eq!(combinaisons_count(&grid_handler, &grid, &GridSurfer::Region('A'), 3), 0);
    assert_eq!(combinaisons_count(&grid_handler, &grid, &GridSurfer::Line(0), 5), 0);
    // 4 unknown cells and 3 stars missing: 4 * 3 * 2
    assert_eq!(combinaisons_count(&grid_handler, &grid, &GridSurfer::Line(0), 4), 24);
    // 25 unknown cells and 24 stars missing does not fit
    let (grid_handler, grid) = get_test_grid();
    assert_eq!(combinaisons_count(&grid_handler, &grid, &GridSurfer::AllCells, 24), usize::MAX);
    assert_eq!(combinaisons_count(&grid_handler, &grid, &GridSurfer::AllCells, 3), 25 * 24 * 23);
}

#[test]
fn test_region_combinations() {
    let (grid_handler, mut grid) = get_test_grid();

    let option_good_rule = rule_region_1_combinations(&grid_handler, &grid);
    assert!(&option_good_rule.is_some());
    let good_rule = option_good_rule.unwrap();
    grid.apply_good_rule(&good_rule);
}

#[test]
fn test_region_combinations_exact() {
    let (grid_handler, mut grid) = get_test_grid();
    // regions in order: A C E D B. A lies in column 0: the other cells of column 0 are ruled out
    match rule_region_1_combinations(&grid_handler, &grid) {
        Some(GoodRule::ZoneCombinations(regions, zone, actions)) => {
            assert_eq!(regions, vec!['A']);
            assert_eq!(zone, GridSurfer::Columns(0, 0));
            assert_eq!(no_star_cells(&actions), vec![(2, 0), (3, 0), (4, 0)]);
        }
        _ => panic!("the rule was not found"),
    }
    let rule = rule_region_1_combinations(&grid_handler, &grid).unwrap();
    grid.apply_good_rule(&rule);
    // next: C lies in line 2
    match rule_region_1_combinations(&grid_handler, &grid) {
        Some(GoodRule::ZoneCombinations(regions, zone, actions)) => {
            assert_eq!(regions, vec!['C']);
            assert_eq!(zone, GridSurfer::Lines(2, 2));
            assert_eq!(no_star_cells(&actions), vec![(2, 2), (2, 3), (2, 4)]);
        }
        _ => panic!("the rule was not found"),
    }
    // pairs of regions: A and C lie in columns 0 and 1
    match rule_region_2_combinations(&grid_handler, &grid) {
        Some(GoodRule::ZoneCombinations(regions, zone, actions)) => {
            assert_eq!(regions, vec!['A', 'C']);
            assert_eq!(zone, GridSurfer::Columns(0, 1));
            assert_eq!(no_star_cells(&actions), vec![(0, 1), (1, 1), (3, 1), (4, 1)]);
        }
        _ => panic!("the rule was not found"),
    }
    assert!(rule_region_generic_combinations(&grid_handler, &grid, 0).is_none());
    assert!(rule_region_generic_combinations(&grid_handler, &grid, 6).is_none());
}

#[test]
fn test_region_combinations_among_given_lists() {
    let (grid_handler, grid) = get_test_grid();
    assert!(rule_region_combinations_among(&grid_handler, &grid, 1, &vec![]).is_none());
    // a list of regions that are not in the grid, then one with no region: nothing
    assert!(rule_region_combinations_among(&grid_handler, &grid, 1, &vec![vec!['Z'], vec![]])
        .is_none());
    // E lies in line 4; B does not lie in one line or one column
    match rule_region_combinations_among(&grid_handler, &grid, 1, &vec![vec!['B'], vec!['E']]) {
        Some(GoodRule::ZoneCombinations(regions, zone, actions)) => {
            assert_eq!(regions, vec!['E']);
            assert_eq!(zone, GridSurfer::Lines(4, 4));
            assert_eq!(no_star_cells(&actions), vec![(4, 0), (4, 4)]);
        }
        _ => panic!("the rule was not found"),
    }
    // with 2 lines for one region nothing is found
    assert!(rule_region_combinations_among(&grid_handler, &grid, 2, &vec![vec!['E']]).is_none());
}

#[test]
fn test_region_exclusions() {
    let (grid_handler, mut grid) = get_test_grid();

    let option_good_rule = rule_region_1_exclusions(&grid_handler, &grid);
    assert!(&option_good_rule.is_some());
    let good_rule = option_good_rule.unwrap();
    grid.apply_good_rule(&good_rule);
}

#[test]
fn test_region_exclusions_exact() {
    let (grid_handler, mut grid) = get_test_grid();
    // line 3 is all of region D: the cells of D in line 4 are ruled out
    match rule_region_1_exclusions(&grid_handler, &grid) {
        Some(GoodRule::ZoneExclusions(regions, zone, actions)) => {
            assert_eq!(regions, vec!['D']);
            assert_eq!(zone, GridSurfer::Lines(3, 3));
            assert_eq!(no_star_cells(&actions), vec![(4, 0), (4, 4)]);
        }
        _ => panic!("the rule was not found"),
    }
    // a star in line 3: the line is not looked at
    grid.apply_action(&GridAction::SetStar(LineColumn::new(3, 2)));
    assert!(rule_region_1_exclusions(&grid_handler, &grid).is_none());
    // spans longer than the grid: nothing, and no failure
    assert!(rule_region_generic_exclusions(&grid_handler, &grid, 6).is_none());
    assert!(rule_region_generic_exclusions(&grid_handler, &grid, 0).is_none());
    assert!(rule_region_generic_exclusions(&grid_handler, &grid, usize::MAX).is_none());
    let parser = GridParser::try_from(vec!["AAB", "ABB", "CCC"]).unwrap();
    let small_handler = GridHandler::new(&parser, 1);
    let small_grid = Grid::from(&small_handler);
    assert!(rule_region_4_exclusions(&small_handler, &small_grid).is_none());
}

#[test]
fn rule_region_possible_stars_test_region_stars() {
    let (grid_handler, mut grid) = get_test_grid();

    let option_good_rule = rule_region_possible_stars(&grid_handler, &grid);
    assert!(option_good_rule.is_some());
    grid.apply_good_rule(&option_good_rule.unwrap());

    let option_good_rule = rule_region_possible_stars(&grid_handler, &grid);
    assert!(option_good_rule.is_some());
    grid.apply_good_rule(&option_good_rule.unwrap());
}

#[test]
fn rule_region_stars_test_region_stars() {
    let (grid_handler, mut grid) = get_test_grid();

    let option_good_rule =
        rule_generic_possible_stars(&grid_handler, &grid, ZoneToExamine::Region, false);
    assert!(option_good_rule.is_some());
    grid.apply_good_rule(&option_good_rule.unwrap());

    let option_good_rule =
        rule_generic_possible_stars(&grid_handler, &grid, ZoneToExamine::Region, false);
    assert!(option_good_rule.is_some());
    grid.apply_good_rule(&option_good_rule.unwrap());
}

#[test]
fn test_region_possible_stars_exact() {
    let (grid_handler, grid) = get_test_grid();
    // A and C have 2 completions each and the same cost; A is listed first.
    // Whichever cell of A holds the star, (0,1) and (1,1) touch it.
    match rule_region_possible_stars(&grid_handler, &grid) {
        Some(GoodRule::InvariantWithZone(zone, actions)) => {
            assert_eq!(zone, GridSurfer::Region('A'));
            assert_eq!(no_star_cells(&actions), vec![(0, 1), (1, 1)]);
        }
        _ => panic!("the rule was not found"),
    }
}

#[test]
fn rule_star_complete_test_complete_start_number() {
    let (grid_handler, mut grid) = get_test_grid();
    loop {
        let option_good_rule = rule_line_column_recursive_possible_stars(&grid_handler, &grid);
        if option_good_rule.is_some() {
            let good_rule = option_good_rule.unwrap();
            grid.apply_good_rule(&good_rule);
        } else {
            break;
        }
    }
    assert!(grid_handler.is_done(&grid));
}

#[test]
fn rule_zone_possible_stars_test_complete_start_number() {
    let (grid_handler, mut grid) = get_test_grid();
    loop {
        let option_good_rule = rule_line_column_recursive_possible_stars(&grid_handler, &grid);
        if option_good_rule.is_some() {
            let good_rule = option_good_rule.unwrap();
            grid.apply_good_rule(&good_rule);
        } else {
            break;
        }
    }
    assert!(grid_handler.is_done(&grid));
}

#[test]
fn test_moyen01_2() {
    let (grid_handler, mut grid) = get_reference_grid();

    grid.cell_mut(LineColumn::new(0, 1)).value = CellValue::NoStar;
    grid.cell_mut(LineColumn::new(0, 2)).value = CellValue::Star;
    grid.cell_mut(LineColumn::new(0, 3)).value = CellValue::NoStar;
    grid.cell_mut(LineColumn::new(0, 5)).value = CellValue::NoStar;

    grid.cell_mut(LineColumn::new(1, 1)).value = CellValue::NoStar;
    grid.cell_mut(LineColumn::new(1, 2)).value = CellValue::NoStar;
    grid.cell_mut(LineColumn::new(1, 3)).value = CellValue::NoStar;
    grid.cell_mut(LineColumn::new(1, 5)).value = CellValue::NoStar;

    grid.cell_mut(LineColumn::new(2, 2)).value = CellValue::NoStar;
    grid.cell_mut(LineColumn::new(2, 3)).value = CellValue::NoStar;
    grid.cell_mut(LineColumn::new(2, 4)).value = CellValue::NoStar;
    grid.cell_mut(LineColumn::new(2, 5)).value = CellValue::NoStar;
    grid.cell_mut(LineColumn::new(2, 6)).value = CellValue::NoStar;

    grid.cell_mut(LineColumn::new(3, 2)).value = CellValue::NoStar;
    grid.cell_mut(LineColumn::new(3, 3)).value = CellValue::Star;
    grid.cell_mut(LineColumn::new(3, 4)).value = CellValue::NoStar;
    grid.cell_mut(LineColumn::new(3, 5)).value = CellValue::Star;
    grid.cell_mut(LineColumn::new(3, 6)).value = CellValue::NoStar;

    grid.cell_mut(LineColumn::new(4, 2)).value = CellValue::NoStar;
    grid.cell_mut(LineColumn::new(4, 3)).value = CellValue::NoStar;
    grid.cell_mut(LineColumn::new(4, 4)).value = CellValue::NoStar;
    grid.cell_mut(LineColumn::new(4, 5)).value = CellValue::NoStar;
    grid.cell_mut(LineColumn::new(4, 6)).value = CellValue::NoStar;

    grid.cell_mut(LineColumn::new(5, 4)).value = CellValue::NoStar;
    grid.cell_mut(LineColumn::new(5, 5)).value = CellValue::Star;
    grid.cell_mut(LineColumn::new(5, 6)).value = CellValue::NoStar;
    grid.cell_mut(LineColumn::new(5, 8)).value = CellValue::NoStar;

    grid.cell_mut(LineColumn::new(6, 4)).value = CellValue::NoStar;
    grid.cell_mut(LineColumn::new(6, 5)).value = CellValue::NoStar;
    grid.cell_mut(LineColumn::new(6, 6)).value = CellValue::NoStar;
    grid.cell_mut(LineColumn::new(6, 8)).value = CellValue::NoStar;

    grid.cell_mut(LineColumn::new(7, 3)).value = CellValue::NoStar;
    grid.cell_mut(LineColumn::new(7, 6)).value = CellValue::NoStar;
    grid.cell_mut(LineColumn::new(7, 7)).value = CellValue::NoStar;

    grid.cell_mut(LineColumn::new(8, 5)).value = CellValue::NoStar;

    let grid_surfer = GridSurfer::Line(0);
    let (vec_actions, _) = try_star_complete(&grid_handler, &grid, &grid_surfer, 2, true);
    assert!(!vec_actions.is_empty());
}

#[test]
fn test_zone_no_star_completed() {
    let (grid_handler, grid) = get_test_grid();

    for line in 0..grid_handler.nb_lines() {
        for column in 0..grid_handler.nb_columns() {
            let mut test_grid = grid.clone();
            test_grid.apply_action(&GridAction::SetStar(LineColumn::new(line, column)));
            let good_rule = rule_value_completed(&grid_handler, &test_grid);
            match good_rule {
                Some(GoodRule::ZoneNoStarCompleted(_, _)) => (),
                _ => panic!("the rule was not found"),
            }
        }
    }
}

#[test]
fn test_zone_star_completed() {
    let (grid_handler, mut grid) = get_test_grid();

    grid.apply_action(&GridAction::SetNoStar(LineColumn::new(1, 0)));

    let good_rule = rule_value_completed(&grid_handler, &grid);
    match good_rule {
        Some(GoodRule::ZoneStarCompleted(_, _)) => (),
        _ => panic!("the rule was not found"),
    }
}

#[test]
fn test_value_completed_exact() {
    let (grid_handler, mut grid) = get_test_grid();
    assert!(rule_value_completed(&grid_handler, &grid).is_none());
    // a region that holds its star: its other cells hold none
    grid.apply_action(&GridAction::SetStar(LineColumn::new(0, 2)));
    match rule_value_completed(&grid_handler, &grid) {
        Some(GoodRule::ZoneNoStarCompleted(zone, actions)) => {
            assert_eq!(zone, GridSurfer::Region('B'));
            assert_eq!(
                no_star_cells(&actions),
                vec![(0, 1), (0, 3), (0, 4), (1, 1), (1, 2), (1, 3), (1, 4), (2, 2), (2, 3), (2, 4)]
            );
        }
        _ => panic!("the rule was not found"),
    }
    match try_value_completed(&grid_handler, &grid, &GridSurfer::Line(0), 1) {
        Some(GoodRule::ZoneNoStarCompleted(zone, actions)) => {
            assert_eq!(zone, GridSurfer::Line(0));
            assert_eq!(no_star_cells(&actions), vec![(0, 0), (0, 1), (0, 3), (0, 4)]);
        }
        _ => panic!("the rule was not found"),
    }
    // 4 unknown cells and 4 stars missing: each holds a star
    match try_value_completed(&grid_handler, &grid, &GridSurfer::Line(0), 5) {
        Some(GoodRule::ZoneStarCompleted(zone, actions)) => {
            assert_eq!(zone, GridSurfer::Line(0));
            assert_eq!(
                actions,
                vec![
                    GridAction::SetStar(LineColumn::new(0, 0)),
                    GridAction::SetStar(LineColumn::new(0, 1)),
                    GridAction::SetStar(LineColumn::new(0, 3)),
                    GridAction::SetStar(LineColumn::new(0, 4)),
                ]
            );
        }
        _ => panic!("the rule was not found"),
    }
    assert!(try_value_completed(&grid_handler, &grid, &GridSurfer::Line(0), 3).is_none());
    // more stars than asked for: nothing, and no failure
    assert!(try_value_completed(&grid_handler, &grid, &GridSurfer::Line(0), 0).is_none());
}

fn stars_of(grid: &Grid) -> Vec<(usize, usize)> {
    let mut stars = Vec::new();
    for line in 0..grid.nb_lines() {
        for column in 0..grid.nb_columns() {
            if grid.cell(LineColumn::new(line, column)).value == CellValue::Star {
                stars.push((line, column));
            }
        }
    }
    stars
}

fn solve(grid_handler: &GridHandler, grid: &mut Grid) -> usize {
    let mut steps = 0;
    loop {
        match get_good_rule(grid_handler, grid) {
            Ok(Some(good_rule)) => {
                for action in good_rule.actions() {
                    assert_eq!(grid.cell(action.line_column()).value, CellValue::Unknown);
                    assert_ne!(action.value(), CellValue::Unknown);
                }
                assert!(!good_rule.actions().is_empty());
                grid.apply_good_rule(&good_rule);
                assert!(check_bad_rules(grid_handler, grid).is_ok());
                steps += 1;
            }
            Ok(None) => break,
            Err(bad_rule) => panic!("{bad_rule:?}"),
        }
    }
    steps
}

#[test]
fn test_the_small_puzzle_is_solved() {
    let (grid_handler, mut grid) = get_test_grid();
    let steps = solve(&grid_handler, &mut grid);
    assert!(steps > 0);
    assert!(grid_handler.is_done(&grid));
    let stars = stars_of(&grid);
    assert_eq!(stars.len(), 5);
    for line in 0..5 {
        assert_eq!(stars.iter().filter(|star| star.0 == line).count(), 1);
        assert_eq!(stars.iter().filter(|star| star.1 == line).count(), 1);
    }
    for region in ['A', 'B', 'C', 'D', 'E'] {
        assert_eq!(
            grid_handler.surfer_cells_with_value_count(
                &grid,
                &GridSurfer::Region(region),
                &CellValue::Star
            ),
            1
        );
    }
    for a in &stars {
        for b in &stars {
            if a != b {
                assert!(a.0.abs_diff(b.0) > 1 || a.1.abs_diff(b.1) > 1);
            }
        }
    }
    assert_eq!(stars, vec![(0, 0), (1, 3), (2, 1), (3, 4), (4, 2)]);
    assert!(matches!(get_good_rule(&grid_handler, &grid), Ok(None)));
}

#[test]
fn test_the_reference_puzzle_is_solved() {
    let (grid_handler, mut grid) = get_reference_grid();
    solve(&grid_handler, &mut grid);
    assert!(grid_handler.is_done(&grid));
    assert_eq!(stars_of(&grid).len(), 18);
}

#[test]
fn test_first_rules_of_the_small_puzzle() {
    let (grid_handler, mut grid) = get_test_grid();
    // nothing is known: the first deduction found is an exclusion on line 3
    match get_good_rule(&grid_handler, &grid) {
        Ok(Some(GoodRule::ZoneExclusions(regions, zone, actions))) => {
            assert_eq!(regions, vec!['D']);
            assert_eq!(zone, GridSurfer::Lines(3, 3));
            assert_eq!(no_star_cells(&actions), vec![(4, 0), (4, 4)]);
        }
        _ => panic!("another rule was found"),
    }
    // with a star, the cells around it come first
    grid.apply_action(&GridAction::SetStar(LineColumn::new(2, 1)));
    assert!(matches!(
        get_good_rule(&grid_handler, &grid),
        Ok(Some(GoodRule::NoStarAdjacentToStar(_, _)))
    ));
}

#[test]
fn test_get_good_rule_reports_a_broken_rule() {
    let (grid_handler, mut grid) = get_test_grid();
    grid.apply_action(&GridAction::SetStar(LineColumn::new(0, 0)));
    grid.apply_action(&GridAction::SetStar(LineColumn::new(1, 1)));
    assert_eq!(
        get_good_rule(&grid_handler, &grid).unwrap_err(),
        BadRuleError::StarAdjacent(LineColumn::new(0, 0), LineColumn::new(1, 1))
    );
}

#[test]
fn test_a_deduction_can_break_a_grid_without_solution() {
    // the star in the middle leaves no room for the star of region A
    let parser = GridParser::try_from(vec!["AAD", "BCD", "BCD"]).unwrap();
    let handler = GridHandler::new(&parser, 1);
    let mut grid = Grid::from(&handler);
    grid.apply_action(&GridAction::SetStar(LineColumn::new(1, 1)));
    assert!(check_bad_rules(&handler, &grid).is_ok());
    let rule = get_good_rule(&handler, &grid).unwrap().unwrap();
    assert!(matches!(rule, GoodRule::NoStarAdjacentToStar(_, _)));
    grid.apply_good_rule(&rule);
    assert_eq!(
        check_bad_rules(&handler, &grid),
        Err(BadRuleError::NotEnoughStarsInZone(GridSurfer::Region('A')))
    );
}

#[test]
fn test_count_ones() {
    assert_eq!(count_ones(0), 0);
    assert_eq!(count_ones(1), 1);
    assert_eq!(count_ones(0b1011), 3);
    assert_eq!(count_ones(1 << 32), 1);
    assert_eq!(count_ones(u64::MAX), 64);
}

fn values_in(grid: &Grid, zone: &[LineColumn]) -> Vec<CellValue> {
    zone.iter().map(|lc| grid.cell(*lc).value).collect()
}

#[test]
fn test_collect_possible_grids() {
    let (grid_handler, grid) = get_test_grid();
    // region E: 3 cells in a row, one star: the masks 1, 2 and 4
    let zone = grid_handler.surfer(&grid, &GridSurfer::Region('E'));
    let mut collector = Collector::new(&grid_handler, &grid, &zone, 1);
    collector.collect_possible_grids();
    assert_eq!(collector.possible_grids.len(), 3);
    let star = CellValue::Star;
    let none = CellValue::NoStar;
    assert_eq!(values_in(&collector.possible_grids[0], &zone), vec![star, none, none]);
    assert_eq!(values_in(&collector.possible_grids[1], &zone), vec![none, star, none]);
    assert_eq!(values_in(&collector.possible_grids[2], &zone), vec![none, none, star]);
    for possible in &collector.possible_grids {
        assert!(check_bad_rules(&grid_handler, possible).is_ok());
        assert_eq!(possible.cell(LineColumn::new(0, 0)).value, CellValue::Unknown);
    }
    // two stars in 3 cells in a row: only the two ends, mask 5
    let mut collector = Collector::new(&grid_handler, &grid, &zone, 2);
    collector.collect_possible_grids();
    assert_eq!(collector.possible_grids.len(), 0);
    // (the two stars of the line break the rule of one star by line)
    let parser = GridParser::try_from(vec!["AAA", "BBB", "CCC"]).unwrap();
    let wide_handler = GridHandler::new(&parser, 2);
    let wide_grid = Grid::from(&wide_handler);
    let zone = wide_handler.surfer(&wide_grid, &GridSurfer::Line(0));
    let mut collector = Collector::new(&wide_handler, &wide_grid, &zone, 2);
    collector.collect_possible_grids();
    assert_eq!(collector.possible_grids.len(), 1);
    assert_eq!(values_in(&collector.possible_grids[0], &zone), vec![star, none, star]);
    // a zone that holds its stars gives nothing
    let mut starred = grid.clone();
    starred.apply_action(&GridAction::SetStar(LineColumn::new(4, 2)));
    let zone = grid_handler.surfer(&starred, &GridSurfer::Region('E'));
    let mut collector = Collector::new(&grid_handler, &starred, &zone, 1);
    collector.collect_possible_grids();
    assert!(collector.possible_grids.is_empty());
}

#[test]
fn test_collect_recursive_possible_grids() {
    let (grid_handler, grid) = get_test_grid();
    let zone = grid_handler.surfer(&grid, &GridSurfer::Region('E'));
    let mut collector = Collector::new(&grid_handler, &grid, &zone, 1);
    collector.collect_recursive_possible_grids();
    assert_eq!(collector.possible_grids.len(), 3);
    let star = CellValue::Star;
    let none = CellValue::NoStar;
    assert_eq!(values_in(&collector.possible_grids[0], &zone), vec![star, none, none]);
    assert_eq!(values_in(&collector.possible_grids[1], &zone), vec![none, star, none]);
    assert_eq!(values_in(&collector.possible_grids[2], &zone), vec![none, none, star]);
    // the cells around the star placed hold no star
    assert_eq!(collector.possible_grids[0].cell(LineColumn::new(3, 0)).value, none);
    assert_eq!(collector.possible_grids[0].cell(LineColumn::new(4, 0)).value, none);
    assert_eq!(collector.possible_grids[0].cell(LineColumn::new(3, 3)).value, CellValue::Unknown);
    for possible in &collector.possible_grids {
        assert_eq!(
            grid_handler.surfer_cells_with_value_count(
                possible,
                &GridSurfer::Region('E'),
                &CellValue::Star
            ),
            1
        );
        assert_eq!(
            grid_handler.surfer_cells_with_value_count(
                possible,
                &GridSurfer::Region('E'),
                &CellValue::Unknown
            ),
            0
        );
    }
    // a zone that holds its stars gives the grid itself, completed
    let mut starred = grid.clone();
    starred.apply_action(&GridAction::SetStar(LineColumn::new(4, 2)));
    let mut collector = Collector::new(&grid_handler, &starred, &zone, 1);
    collector.collect_recursive_possible_grids();
    assert_eq!(collector.possible_grids.len(), 1);
    assert_eq!(values_in(&collector.possible_grids[0], &zone), vec![none, star, none]);
    assert_eq!(collector.possible_grids[0].cell(LineColumn::new(3, 2)).value, CellValue::Unknown);
    // more stars than the zone can take: nothing
    let mut collector = Collector::new(&grid_handler, &grid, &zone, 3);
    collector.collect_recursive_possible_grids();
    assert!(collector.possible_grids.is_empty());
}

#[test]
fn test_zone_of_the_least_size() {
    // 2 stars in a zone of 3 cells: the two ends hold them
    let parser = GridParser::try_from(vec!["AAA", "BBB", "CCC"]).unwrap();
    let handler = GridHandler::new(&parser, 2);
    let grid = Grid::from(&handler);
    let zone = handler.surfer(&grid, &GridSurfer::Column(1));
    let mut by_masks = Collector::new(&handler, &grid, &zone, 2);
    by_masks.collect_possible_grids();
    assert_eq!(by_masks.possible_grids.len(), 1);
    let expected = vec![CellValue::Star, CellValue::NoStar, CellValue::Star];
    assert_eq!(values_in(&by_masks.possible_grids[0], &zone), expected);
    // the search by choices rules out the cells around each star, and so
    // finds that line 0 cannot take its second star
    let mut by_choices = Collector::new(&handler, &grid, &zone, 2);
    by_choices.collect_recursive_possible_grids();
    assert!(by_choices.possible_grids.is_empty());
    // 1 star in a zone of 1 cell: one completion, whichever search is used
    let parser = GridParser::try_from(vec!["ABBBB", "CCBBB", "CCBBB", "DDDDD", "DEEED"]).unwrap();
    let handler = GridHandler::new(&parser, 1);
    let grid = Grid::from(&handler);
    let zone = handler.surfer(&grid, &GridSurfer::Region('A'));
    assert_eq!(zone, vec![LineColumn::new(0, 0)]);
    let mut by_masks = Collector::new(&handler, &grid, &zone, 1);
    by_masks.collect_possible_grids();
    let mut by_choices = Collector::new(&handler, &grid, &zone, 1);
    by_choices.collect_recursive_possible_grids();
    assert_eq!(by_masks.possible_grids.len(), 1);
    assert_eq!(by_choices.possible_grids.len(), 1);
    assert_eq!(values_in(&by_masks.possible_grids[0], &zone), vec![CellValue::Star]);
    assert_eq!(values_in(&by_choices.possible_grids[0], &zone), vec![CellValue::Star]);
}

#[test]
fn test_first_pivot_and_set_star() {
    let (grid_handler, mut grid) = get_test_grid();
    grid.apply_action(&GridAction::SetStar(LineColumn::new(3, 0)));
    let zone = grid_handler.surfer(&grid, &GridSurfer::Region('E'));
    let collector = Collector::new(&grid_handler, &grid, &zone, 1);
    // (4,1) touches the star in (3,0)
    assert_eq!(collector.first_possible_line_column_for_a_star(), Some(LineColumn::new(4, 2)));
    let mut new_grid = grid.clone();
    collector.set_star(&mut new_grid, LineColumn::new(4, 2));
    assert_eq!(new_grid.cell(LineColumn::new(4, 2)).value, CellValue::Star);
    for place in [(3, 1), (3, 2), (3, 3), (4, 1), (4, 3)] {
        assert_eq!(new_grid.cell(LineColumn::new(place.0, place.1)).value, CellValue::NoStar);
    }
    assert_eq!(new_grid.cell(LineColumn::new(3, 0)).value, CellValue::Star);
    assert_eq!(new_grid.cell(LineColumn::new(3, 4)).value, CellValue::Unknown);
}

#[test]
fn test_check_for_invariants_and_star_adjacents() {
    let (grid_handler, grid) = get_test_grid();
    let zone = grid_handler.surfer(&grid, &GridSurfer::Region('A'));
    let mut collector = Collector::new(&grid_handler, &grid, &zone, 1);
    collector.collect_possible_grids();
    assert_eq!(collector.possible_grids.len(), 2);
    // the two cells of A differ from one grid to the other: nothing is invariant
    assert!(Variant::check_for_invariants(&grid_handler, &grid, &collector.possible_grids)
        .is_empty());
    assert_eq!(
        StarAdjacent::check_for_star_adjacents(&grid_handler, &grid, &collector.possible_grids),
        vec![
            GridAction::SetNoStar(LineColumn::new(0, 1)),
            GridAction::SetNoStar(LineColumn::new(1, 1)),
        ]
    );
    // with one grid only each cell of the zone is invariant
    let one = vec![collector.possible_grids[0].clone()];
    assert_eq!(
        Variant::check_for_invariants(&grid_handler, &grid, &one),
        vec![
            GridAction::SetStar(LineColumn::new(0, 0)),
            GridAction::SetNoStar(LineColumn::new(1, 0)),
        ]
    );
    // without any grid nothing is known
    assert!(Variant::check_for_invariants(&grid_handler, &grid, &vec![]).is_empty());
    assert!(StarAdjacent::check_for_star_adjacents(&grid_handler, &grid, &vec![]).is_empty());
}

#[test]
fn test_recursive_rules_on_each_kind_of_zone() {
    let (grid_handler, grid) = get_test_grid();
    assert!(matches!(
        rule_region_recursive_possible_stars(&grid_handler, &grid),
        Some(GoodRule::InvariantWithZone(GridSurfer::Region(_), _))
    ));
    for rule in [
        rule_multi_2_lines_columns_recursive_possible_stars(&grid_handler, &grid),
        rule_multi_3_lines_columns_recursive_possible_stars(&grid_handler, &grid),
        rule_multi_4_lines_columns_recursive_possible_stars(&grid_handler, &grid),
    ] {
        match rule {
            Some(GoodRule::InvariantWithZone(zone, actions)) => {
                assert!(matches!(zone, GridSurfer::Lines(_, _) | GridSurfer::Columns(_, _)));
                assert!(!actions.is_empty());
            }
            _ => panic!("the rule was not found"),
        }
    }
    // no span of 6 lines in a grid of 5
    assert!(rule_generic_possible_stars(
        &grid_handler,
        &grid,
        ZoneToExamine::MultipleLinesAndColumns(6),
        true
    )
    .is_none());
}

#[test]
fn test_solve() {
    let (grid_handler, mut grid) = get_test_grid();
    let mut by_steps = grid.clone();
    let steps = solve(&grid_handler, &mut by_steps);
    let rules = star_battle::solve(&grid_handler, &mut grid).unwrap();
    assert_eq!(rules.len(), steps);
    assert!(grid_handler.is_done(&grid));
    assert_eq!(stars_of(&grid), stars_of(&by_steps));
    // the deductions, applied again to a new grid, lead to the same grid
    let mut again = Grid::from(&grid_handler);
    for rule in &rules {
        again.apply_good_rule(rule);
    }
    assert_eq!(grid_handler.display(&again, false), grid_handler.display(&grid, false));
    // a grid that breaks a rule is left as it is
    let mut broken = Grid::from(&grid_handler);
    broken.apply_action(&GridAction::SetStar(LineColumn::new(0, 0)));
    broken.apply_action(&GridAction::SetStar(LineColumn::new(0, 1)));
    let shown = grid_handler.display(&broken, false);
    assert_eq!(
        star_battle::solve(&grid_handler, &mut broken).unwrap_err(),
        BadRuleError::StarAdjacent(LineColumn::new(0, 0), LineColumn::new(0, 1))
    );
    assert_eq!(grid_handler.display(&broken, false), shown);
}

#[test]
fn test_solve_stops_where_a_deduction_breaks_the_grid() {
    let parser = GridParser::try_from(vec!["AAD", "BCD", "BCD"]).unwrap();
    let handler = GridHandler::new(&parser, 1);
    let mut grid = Grid::from(&handler);
    grid.apply_action(&GridAction::SetStar(LineColumn::new(1, 1)));
    assert_eq!(
        star_battle::solve(&handler, &mut grid).unwrap_err(),
        BadRuleError::NotEnoughStarsInZone(GridSurfer::Region('A'))
    );
    assert!(!handler.is_done(&grid));
}

#[test]
fn test_search_by_choices_keeps_only_the_grids_that_break_no_rule() {
    // column 3 has room for its star in (0,3) only
    let (grid_handler, mut grid) = get_test_grid();
    for line in 1..5 {
        grid.apply_action(&GridAction::SetNoStar(LineColumn::new(line, 3)));
    }
    assert!(check_bad_rules(&grid_handler, &grid).is_ok());
    let zone = grid_handler.surfer(&grid, &GridSurfer::Line(0));
    let mut collector = Collector::new(&grid_handler, &grid, &zone, 1);
    collector.collect_recursive_possible_grids();
    // a star elsewhere in line 0 would leave column 3 without its star
    assert_eq!(collector.possible_grids.len(), 1);
    let none = CellValue::NoStar;
    assert_eq!(
        values_in(&collector.possible_grids[0], &zone),
        vec![none, none, none, CellValue::Star, none]
    );
    for possible in &collector.possible_grids {
        assert!(check_bad_rules(&grid_handler, possible).is_ok());
        assert_eq!(
            grid_handler.surfer_cells_with_value_count(
                possible,
                &GridSurfer::Line(0),
                &CellValue::Star
            ),
            1
        );
    }
    // with the star of line 0 placed, the rest of the line cannot be ruled
    // out without breaking column 3: nothing is found
    let mut starred = grid.clone();
    starred.apply_action(&GridAction::SetStar(LineColumn::new(0, 0)));
    assert!(check_bad_rules(&grid_handler, &starred).is_ok());
    let mut collector = Collector::new(&grid_handler, &starred, &zone, 1);
    collector.collect_recursive_possible_grids();
    assert!(collector.possible_grids.is_empty());
    // the search by masks finds the same grid in the zone
    let mut by_masks = Collector::new(&grid_handler, &grid, &zone, 1);
    by_masks.collect_possible_grids();
    assert_eq!(by_masks.possible_grids.len(), 1);
    assert_eq!(
        values_in(&by_masks.possible_grids[0], &zone),
        vec![none, none, none, CellValue::Star, none]
    );
    for possible in &by_masks.possible_grids {
        assert!(check_bad_rules(&grid_handler, possible).is_ok());
    }
}

#[test]
fn test_every_grid_found_by_choices_breaks_no_rule() {
    let (grid_handler, mut grid) = get_test_grid();
    grid.apply_action(&GridAction::SetNoStar(LineColumn::new(2, 0)));
    let zones = [
        (GridSurfer::Region('B'), 1),
        (GridSurfer::Line(3), 1),
        (GridSurfer::Column(1), 1),
        (GridSurfer::Lines(0, 1), 2),
        (GridSurfer::Columns(2, 4), 3),
    ];
    for (zone, nb_stars) in zones {
        let cells = grid_handler.surfer(&grid, &zone);
        let mut collector = Collector::new(&grid_handler, &grid, &cells, nb_stars);
        collector.collect_recursive_possible_grids();
        assert!(!collector.possible_grids.is_empty());
        for possible in &collector.possible_grids {
            assert!(check_bad_rules(&grid_handler, possible).is_ok());
            assert_eq!(
                grid_handler.surfer_cells_with_value_count(possible, &zone, &CellValue::Star),
                nb_stars
            );
            assert_eq!(
                grid_handler.surfer_cells_with_value_count(possible, &zone, &CellValue::Unknown),
                0
            );
        }
    }
}

#[test]
fn test_grid_equality_and_default() {
    let (grid_handler, grid) = get_test_grid();
    let mut other = grid.clone();
    assert_eq!(grid, other);
    other.apply_action(&GridAction::SetStar(LineColumn::new(0, 0)));
    assert_ne!(grid, other);
    assert_eq!(Grid::default().nb_lines(), 0);
    assert_eq!(Grid::default().nb_columns(), 0);
    assert_eq!(Grid::from(&grid_handler), grid);
}

#[test]
fn test_combination_rule_names_regions_of_the_puzzle() {
    let (grid_handler, grid) = get_test_grid();
    for n in 1..=4usize {
        if let Some(GoodRule::ZoneCombinations(regions, _, _)) =
            rule_region_generic_combinations(&grid_handler, &grid, n)
        {
            assert_eq!(regions.len(), n);
            for (i, region) in regions.iter().enumerate() {
                assert!(grid_handler.regions().contains(region));
                assert!(!regions[..i].contains(region));
            }
        }
    }
}
