//! The configuration values the surrounding program hands the core.

use vstd::prelude::*;

verus! {

/// Settings of the relational store connection.
#[derive(Debug, Clone)]
pub struct DbGroup {
    pub url: String,
    pub threads: usize,
}

/// Settings of the serving layer; `pagination_limit` is the page-size
/// ceiling that callers of the listing operation enforce.
#[derive(Debug, Clone)]
pub struct HttpGroup {
    pub pagination_limit: u32,
    pub threads: Option<usize>,
    pub bind_address: String,
}

/// The whole configuration.
#[derive(Debug, Clone)]
pub struct Config {
    pub database: DbGroup,
    pub http: HttpGroup,
}

} // verus!
