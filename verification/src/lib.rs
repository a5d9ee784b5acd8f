//! Protocol bridge between a Model Context Protocol peer and a Language
//! Server Protocol server: framed JSON-RPC messages, per-document version
//! tracking, request correlation, ignore rules, and the pure text logic of
//! the high-level code tools.

pub mod client;
pub mod documents;
pub mod edits;
pub mod framing;
pub mod ignore_rules;
pub mod mcp;
pub mod protocol;
pub mod renders;
pub mod requests;
pub mod session_params;
pub mod text;
pub mod tools;
pub mod watcher;
