//! Five-card poker hands: their ranking, and an evaluator that looks it up.
//!
//! A hand of five different cards has a rank from 1, for a royal flush, to
//! 7462, for seven, five, four, three, deuce of mixed suits; the lower
//! rank is the stronger hand. [`ranking`] states the rank as a function of
//! the cards. [`evaluate`] computes it from two tables, [`flush_table`] and
//! [`product_table`], and is proved to return what [`ranking`] states. [`laws`] and
//! [`order`] hold what follows for the ranking as a whole.

pub mod binomial;
pub mod card;
pub mod category;
mod chance;
pub mod deck;
pub mod descent;
pub mod evaluate;
pub mod flush_table;
pub mod laws;
pub mod masks;
pub mod order;
pub mod places;
pub mod primes;
pub mod product_table;
pub mod ranking;
pub mod ranks;
