//! Tabular reinforcement learning over finite state and action spaces:
//! environments and policies, dynamic programming, Monte Carlo control,
//! temporal-difference control and planning with a learned model.
//!
//! Every number is a [`fixed::Fixed`], a decimal fixed-point value with an
//! exact integer model, and every random draw comes from a
//! [`random::RandomSource`] that the caller seeds.

pub mod algorithms;
pub mod environments;
pub mod envs;
pub mod error;
pub mod fixed;
pub mod manual_run;
pub mod policies;
pub mod qtable;
pub mod random;
pub mod utils;
