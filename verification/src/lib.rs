//! Prize allocation for a 31 500-bottle giveaway priced in satoshis.
//!
//! Five tiers carry a fixed payout; the sixth receives randomized payouts
//! that are drawn one by one under a budget expressed in fiat cents.

pub mod bottle;
pub mod budget;
pub mod distribution;
pub mod laws;
pub mod random;
pub mod session;
pub mod stats;
pub mod tally;

pub use crate::bottle::{Bottle, GenError, Tier};
pub use crate::distribution::{generate_distribution, generate_distribution_with, validate};
