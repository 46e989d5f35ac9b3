//! Groups timing samples by requested duration and sleep mechanism, and lays
//! out one box-plot chart of scheduling errors per requested duration.

pub mod text;
pub mod record;
pub mod keys;
pub mod chart;
pub mod laws;
