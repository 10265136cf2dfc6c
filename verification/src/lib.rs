//! The logic of a local coding agent: sessions, plans, memory, skills, tools,
//! the daemon's request handling and the terminal front end, each function with
//! the contract that it is proved to meet.
pub mod client;
pub mod config;
pub mod daemon;
pub mod entry;
pub mod json;
pub mod mcp;
pub mod memory;
pub mod number;
pub mod order;
pub mod outside;
pub mod path;
pub mod plan;
pub mod provider;
pub mod records;
pub mod session;
pub mod skills;
pub mod slash;
pub mod sub_agent;
pub mod terms;
pub mod text;
pub mod tools;
