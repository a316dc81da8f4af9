//! Verified bookkeeping for the conservation-law benchmark: the double-entry
//! ledger of perceptions and predictions with its magnitude-driven collection,
//! the rolling window the predictor averages over, the enumeration of room
//! pairs compared for vibe convergence, and the violation tally of a run.

pub mod ledger;
pub mod window;
pub mod pairs;
pub mod tally;
pub mod report;
