//! Data-assembly and persistence core of a package registry.
//!
//! The library models the relational store of the registry as a plain value
//! ([`store::Store`]) and provides, verified end to end: a grouping engine
//! that partitions flat child row sets by parent key ([`group`]), the
//! hierarchy assemblers that turn flat rows into nested domain objects, and
//! the publish coordinator that inserts a whole package graph atomically.

pub mod assemble;
pub mod casing;
pub mod config;
pub mod dependency;
pub mod domain;
pub mod error;
pub mod group;
pub mod laws;
pub mod package;
pub mod publish;
pub mod queries;
pub mod rows;
pub mod seqs;
pub mod store;
pub mod strutil;
pub mod types;
pub mod user;
pub mod version;
