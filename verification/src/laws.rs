//! What the tools are for, said of their results: laws that hold of every input and
//! do not speak of how a result is reached.
pub mod answers;
pub mod boards;
pub mod captures;
pub mod choices;
pub mod commands;
pub mod context;
pub mod definitions;
pub mod diff;
pub mod findings;
pub mod histories;
pub mod hunks;
pub mod listings;
pub mod lists;
pub mod modules;
pub mod numbers;
pub mod presences;
pub mod pressure;
pub mod primitives;
pub mod prompts;
pub mod references;
pub mod replays;
pub mod reports;
pub mod roles;
pub mod searching;
pub mod servers;
pub mod sessions;
pub mod suggestions;
pub mod tallies;
pub mod texts;
pub mod trees;
