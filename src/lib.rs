//! A replicated pari-mutuel betting ledger: balances and per-application
//! bets, redemption fees, ranking of applications by stake, weighted reward
//! distribution, and time-gated resets of the earnings windows.
pub mod accounting;
pub mod operation;
pub mod queries;
pub mod ranking;
pub mod rewards;
pub mod settlement;
pub mod state;
pub mod table;
