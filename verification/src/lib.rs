//! A coding agent for models that run on the machine itself: what it decides, computes, reads
//! and writes, without the input and output around it.

pub mod agent;
pub mod bench;
pub mod catalog;
pub mod cli;
pub mod client;
pub mod config;
pub mod console;
pub mod context;
pub mod decimal;
pub mod digest;
pub mod discover;
pub mod doctor;
pub mod download;
pub mod events;
pub mod execute;
pub mod facts;
pub mod gguf;
pub mod gpu;
pub mod graph;
pub mod guard;
pub mod handle;
pub mod index;
pub mod json;
pub mod lang;
pub mod manager;
pub mod mcp;
pub mod merge;
pub mod message;
pub mod outline;
pub mod parser;
pub mod pathname;
pub mod paths;
pub mod permission;
pub mod pidfile;
pub mod plan;
pub mod ports;
pub mod prompt;
pub mod rank;
pub mod registry;
pub mod release;
pub mod repomap;
pub mod search;
pub mod sentinel;
pub mod server;
pub mod setup;
pub mod slot;
pub mod sse;
pub mod stamp;
pub mod subagent;
pub mod symbols;
pub mod syntax;
pub mod task;
pub mod text;
pub mod tokens;
pub mod toml_doc;
pub mod truncate;
pub mod tune;
pub mod turn;
pub mod vram;
