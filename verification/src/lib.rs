//! Relational metadata and query resolution for a GraphQL layer over a
//! discovered database schema.
//!
//! The crate turns raw schema facts (tables, columns, foreign keys) into an
//! entity graph, compiles nested filters into predicates, plans batched
//! relation lookups and pages results. Every function carries a contract that
//! Verus proves.

pub mod column_mapping;
pub mod database_schema;
pub mod filter;
pub mod graph;
pub mod graphql;
pub mod naming;
pub mod relation;
pub mod toml_generator;
pub mod types;
