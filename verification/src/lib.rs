//! Distribution of a day's effort over the responsibilities that apply on it.
//!
//! A responsibility applies on some days and takes either an absolute effort
//! or a relative weight. On a given date the absolute efforts are taken off
//! the day's total, and what is left is shared among the relative weights,
//! each moved by a random jitter that adds up to nothing. Every effort is
//! rounded to a resolution.
//!
//! Quantities (efforts, weights, the resolution) are whole numbers of the
//! caller's smallest unit, so that every result is exact.
//!
//! - `date`: the days of the calendar and their order
//! - `responsibility`: what is owed, on which days, and how much of it
//! - `rounding`: rounding to the grid of a resolution
//! - `sequences`: sums and least values
//! - `jitter`: the random perturbation of the weights
//! - `activity`: what falls to one responsibility
//! - `allocation`: what a day at work is, and what holds of it
//! - `day_at_work`: the day at work, worked out

pub mod activity;
pub mod allocation;
pub mod date;
pub mod day_at_work;
pub mod jitter;
pub mod responsibility;
pub mod rounding;
pub mod sequences;
