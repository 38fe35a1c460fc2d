//! Stacks of dependent git branches: the registry that records them, the
//! resolution of the current checkout to a position in a stack, the plans that
//! keep a stack rebased and published, the matching of branches to pull
//! requests, the chain descriptions written into them, and the merge train that
//! retires a whole stack into its base branch.
//!
//! Every decision is made here, on plain values; the program around the library
//! runs git and the hosting provider and hands the results back.

pub mod cli;
pub mod config;
pub mod describe;
pub mod naming;
pub mod pulls;
pub mod remote;
pub mod state;
pub mod sync;
pub mod train;
