//! MCP server management: managed block grammar, state machine and validation.
pub mod block;
pub mod normal_form;
pub mod roundtrip;
pub mod validate;
pub mod entry;
pub mod prereq;
pub mod state;
