//! Coordination of agents that share one repository: presence, claims, a
//! journal of events, and policies compared by replay.
pub mod board;
pub mod cli;
pub mod commit;
pub mod journal;
pub mod memory;
pub mod model;
pub mod policy;
pub mod presence;
pub mod profiles;
pub mod records;
pub mod replay;
pub mod store;
pub mod tools;
