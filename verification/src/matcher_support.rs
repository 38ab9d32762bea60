//! Algorithms that the matchers build on.

pub mod edit_distance;
pub mod summarize_diff;
pub mod match_matrix;
pub mod auto_eq;
pub mod count_elements;
pub mod hash_set_items;
pub mod summary_rows;
