use vstd::prelude::*;

verus! {

/// The ways in which building or querying the clock can fail.
#[derive(Debug, Clone, Copy, PartialEq, Eq, Structural)]
pub enum ClockError {
    /// An hour outside 1..=12 or a minute outside 0..=59.
    InvalidTime,
    /// Book text or metadata could not be fetched.
    FetchFailure,
    /// The full-text index or the clock table could not be used.
    IndexFailure,
    /// The clock table holds no row to show.
    NoMatch,
}

} // verus!
