//! Aggregation core for a GitHub activity badge generator.
//!
//! The crate gathers a user's stars, forks, contributions, changed lines,
//! traffic views and language usage into one weighted report.  It holds the
//! expiring content cache, the bounded API client's decision logic, and the
//! stats aggregator; the surrounding process does the network and file I/O.

pub mod text;
pub mod json;
pub mod cache;
pub mod client;
pub mod stats;
pub mod svg;
