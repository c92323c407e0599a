//! A verified simulator for the k-armed bandit problem with an
//! epsilon-greedy action-selection policy.
//!
//! Rewards and value estimates are exact fixed-point quantities: a reward is
//! an `i64` in whatever scale the caller chooses, and an action-value
//! estimate is the exact rational `sum / count` over the rewards recorded for
//! that action.  All comparisons between estimates are exact (by
//! cross-multiplication), so the greedy / non-greedy partition is free of
//! rounding artifacts.

pub mod aggregate;
pub mod bandit;
pub mod sampling;
pub mod task;
