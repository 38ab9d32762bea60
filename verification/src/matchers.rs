//! The matchers: each checks one condition on an actual value and says what
//! it checks and why a value does or does not pass.

pub mod anything_matcher;
pub mod bool_matcher;
pub mod eq_matcher;
pub mod ge_matcher;
pub mod gt_matcher;
pub mod le_matcher;
pub mod lt_matcher;
pub mod conjunction_matcher;
pub mod not_matcher;
pub mod disjunction_matcher;
pub mod err_matcher;
pub mod contains_substring_matcher;
pub mod ends_with_matcher;
pub mod eq_ignoring_ascii_case_matcher;
pub mod contains_matcher;
pub mod container_eq_matcher;
pub mod empty_matcher;
pub mod has_size;
pub mod char_count_matcher;
pub mod elements_are_matcher;
pub mod match_positions_matcher;
pub mod starts_with_matcher;
pub mod each_matcher;
pub mod has_entry_matcher;
pub mod display_matcher;
pub mod exit_status_matcher;
pub mod is_matcher;
pub mod derefs_to_matcher;
pub mod eq_deref_of_matcher;
pub mod is_encoded_string_matcher;
pub mod contains_regex_matcher;
pub mod all_matcher;
pub mod field_matcher;
