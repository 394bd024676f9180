//! wordkeep: token-budgeted context for coding agents.
//!
//! The library holds what the server computes: maps of source trees, symbols and
//! their references, retrieval over notes, shared sessions, runs, the counters of
//! savings, runtime captures, and the coordination of agents that work on one
//! repository. Every function takes plain values and states what it returns; files,
//! git, time and floating point stay with the program around it.
pub mod args;
pub mod binary;
pub mod izakaya;
pub mod json;
pub mod knowledge;
pub mod lang;
pub mod laws;
pub mod mas;
pub mod mcp;
pub mod module_map;
pub mod order;
pub mod outline;
pub mod paths;
pub mod profile_upsert;
pub mod progress;
pub mod repo_map;
pub mod runs;
pub mod runtime;
pub mod session_pressure;
pub mod smap;
pub mod stats;
pub mod symbol_context;
pub mod symbol_def;
pub mod symbol_diff;
pub mod symbol_refs;
pub mod symbol_resolve;
pub mod syntax;
pub mod test_map;
pub mod text;
