//! A two-outcome wagering pool.
//!
//! Players stake currency on one of the two sides of a proposition. Once a
//! side is declared the winner, the stakes are redistributed among the
//! players by the rules of [`set2::Set2::payout`].
use vstd::prelude::*;

mod ids;
pub mod laws;
pub mod ledger;
pub mod payout;
pub mod player;
pub mod set2;

verus! {

/// An amount of currency: balances, stakes and settlements.
pub type Currency = u64;

} // verus!
