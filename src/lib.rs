//! The core of a privacy-aware SQL compiler: an annotated algebra of
//! relations and expressions, the folds that type-check it and propagate
//! schemas, the policies that rewrite queries for an audience, and their
//! lowering to BigQuery SQL.

pub mod ansatz;
pub mod bigquery;
pub mod context;
pub mod error;
pub mod expr;
pub mod key;
pub mod laws;
pub mod meta;
pub mod policy;
pub mod privacy;
pub mod rebase;
pub mod rel;
pub mod transform;
