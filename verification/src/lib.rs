//! A tariff-calculation engine for residential electricity bills.
//!
//! The engine takes a finite series of energy readings, classifies each
//! reading into billing periods, folds the series into daily and monthly
//! aggregates, and prices the aggregates under four alternative rate plans.
//!
//! Energy is carried as a signed count of micro-kilowatt-hours and money as
//! a signed count of pico-dollars, so every formula in the engine is exact
//! integer arithmetic.

use vstd::prelude::*;

pub mod aggregate;
pub mod laws;
pub mod model;
pub mod monthly;
pub mod period;
pub mod rates;
pub mod time;

verus! {

} // verus!
