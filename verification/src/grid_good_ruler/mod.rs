//! Deductions that make progress on a grid.

pub mod collector;
pub mod completeness;
pub mod counting;
pub mod good_rule;
pub mod progress;
pub mod rule_generic_possible_stars;
pub mod rule_no_star_adjacent_to_star;
pub mod rule_region_combinations;
pub mod rule_region_exclusions;
pub mod rule_region_possible_stars;
pub mod rule_value_completed;
pub mod rule_zone_possible_stars;
pub mod solver;
pub mod soundness;
pub mod star_adjacent;
pub mod variant;

pub use good_rule::{get_good_rule, Deduction, GoodRule};
pub use solver::solve;
