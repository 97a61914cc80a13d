//! Verified core of a GitHub language-statistics card generator: query
//! parameter validation, aggregation of per-repository language sizes, and
//! the SVG card text.
pub mod config;
pub mod error;
pub mod github;
pub mod params;
pub mod svg;
pub mod text;
