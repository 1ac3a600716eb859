//! A generic evolutionary-optimization engine. A population of candidate
//! solutions ("units") is bred and culled across discrete generations toward
//! high-fitness solutions. The fitness function and the breeding operator are
//! supplied by the caller through the [`unit::Unit`] trait; the engine manages
//! selection, generational bookkeeping, memoization of fitness values, and
//! optional concurrent fitness evaluation.

pub mod laws;
pub mod lazy;
pub mod population;
pub mod rng;
pub mod sort;
pub mod unit;
