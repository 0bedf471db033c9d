//! Verified core of the dsh launcher: MCP managed-block grammar, dump parsing,
//! skill frontmatter surgery, validation rules and the pure decisions around them.
pub mod text;
pub mod json;
pub mod tokentracker;
pub mod cli;
pub mod dshhome;
pub mod skill;
pub mod plugin;
pub mod profile;
pub mod mcp;
