//! Runtime core of a micro-benchmark harness.
//!
//! Benchmark entries declared at independent sites are gathered into a
//! process-wide registry, expanded over generic type and constant axes,
//! and turned into a deterministic, filterable, executable suite by the
//! driver pipeline (collect, filter, order, dedup, execute).

pub mod driver;
pub mod entry;
pub mod expand;
pub mod registry;
pub mod text;

use vstd::prelude::*;

verus! {

/// The ceiling on the number of constant values a non-literal constant
/// source may supply to a generic benchmark.
pub const MAX_EXPR_CONSTS: usize = 20;

} // verus!
