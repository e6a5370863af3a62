//! The verified core of a chat application for several characters and MCP
//! tool servers: the conversation store, the turns and rounds that drive the
//! model, tool calls and their results, and the settings behind them.
use vstd::prelude::*;

pub mod abort;
pub mod character;
pub mod chat;
pub mod chore;
pub mod config;
pub mod director;
pub mod engine;
pub mod images;
pub mod json;
pub mod listing;
pub mod mcp_config;
pub mod mcp_types;
pub mod messages;
pub mod model;
pub mod multi_pal;
pub mod naming;
pub mod native_tools;
pub mod orchestrator;
pub mod order;
pub mod payload;
pub mod provider;
pub mod refresh;
pub mod registry;
pub mod rounds;
pub mod rpc;
pub mod send;
pub mod skills;
pub mod stream;
pub mod text;
pub mod tool_parser;
pub mod tools;
pub mod turn;

verus! {
} // verus!
