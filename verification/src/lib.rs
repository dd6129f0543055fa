//! A single-poll voting tally engine.
//!
//! A fixed set of eligible voters may each cast one vote for one of a fixed
//! list of candidates. The poll keeps the tally consistent with the set of
//! voters who have voted, and every rule of admission is proved.

pub mod error;
pub mod laws;
pub mod model;
pub mod poll;
pub mod storage_key;

pub use error::PollError;
pub use poll::VotingContract;
pub use storage_key::StorageKey;
