//! A verified core of a matcher-based testing library: rendering of match
//! descriptions, line and character diffs, glob test filters, bipartite
//! element matching and the matchers themselves.

pub mod text;
pub mod matcher_support;
pub mod internal;
pub mod description;
pub mod matcher;
pub mod matchers;
pub mod assertions;
pub mod fixtures;
