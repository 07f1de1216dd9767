//! Detection of profitable currency-conversion cycles in a set of
//! pairwise exchange rates.
//!
//! A rate table becomes a directed graph whose edge weights are negated
//! natural logarithms of the rates; single-source relaxation finds
//! negative cycles, which are normalized to the base currency, replayed
//! against the table with exact decimal arithmetic, and reduced to the
//! single most profitable candidate.
use vstd::prelude::*;

pub mod digits;
pub mod dec;
pub mod error;
pub mod rates;
pub mod algo_bigdecimal_btm;

verus! {

/// Outcome of a three-way comparison.
pub enum Cmp {
    Lt,
    Eq,
    Gt,
}

} // verus!
