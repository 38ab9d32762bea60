//! Internal components: rendering, glob matching, test filtering and test
//! bookkeeping.

pub mod glob;
pub mod test_filter;
pub mod description_renderer;
pub mod abbreviate;
pub mod source_location;
pub mod test_outcome;
pub mod test_sharding;
pub mod test_data;
pub mod death_tests;
pub mod scoped_trace;
