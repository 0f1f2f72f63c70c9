//! A verified core for a CTF competition workspace: challenge records, the
//! local workspace state, the decisions behind the MCP tools and the
//! dashboard's view logic.

pub mod clock;
pub mod mcp;
pub mod platform;
pub mod sorting;
pub mod tally;
pub mod text;
pub mod tui;
pub mod workspace;
