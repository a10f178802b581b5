//! A document-structure library: it turns positioned text runs into a typed,
//! hierarchical document graph.
use vstd::prelude::*;

pub mod geometry;
pub mod text;
pub mod order;
pub mod types;
pub mod graph;
pub mod config;
pub mod fonts;
pub mod sections;
pub mod clustering;
pub mod enforcer;
pub mod validation;
pub mod engine;
pub mod output;
pub mod cache;
pub mod platform;
pub mod classifier;
pub mod processor;
pub mod storage;
pub mod numbers;
pub mod xhtml;
pub mod lists;
pub mod confighash;

verus! {

} // verus!
