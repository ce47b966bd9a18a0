//! Acquisition and query engine for periodically published fund datasets:
//! dataset location, download batches, a conditional-fetch cache, schema
//! unification and the registry, portfolio and return queries.
use vstd::prelude::*;

pub mod batch;
pub mod cache;
pub mod dataset;
pub mod decimal;
pub mod fetch;
pub mod group;
pub mod history;
pub mod informe;
pub mod locator;
pub mod options;
pub mod order;
pub mod portfolio;
pub mod registry;
pub mod table;
pub mod text;

verus! {

} // verus!
